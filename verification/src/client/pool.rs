//! The decisions of a bounded connection pool: when a borrower waits, reuses an
//! idle connection or opens a new one, and where returned connections go.
use vstd::prelude::*;
use std::collections::VecDeque;

verus! {

/// Configuration of a pool: the most connections lent out at once, and the
/// connect timeout of each new connection in milliseconds.
#[derive(Debug, Clone, Copy, PartialEq, Eq, Structural)]
pub struct PoolConfig {
    pub max_size: usize,
    pub connect_timeout_ms: u64,
}

impl Default for PoolConfig {
    /// Four connections, 5 s to connect.
    fn default() -> (r: Self)
        ensures
            r.max_size == 4,
            r.connect_timeout_ms == 5000,
    {
        PoolConfig { max_size: 4, connect_timeout_ms: 5000 }
    }
}

/// What a borrower does next.
#[derive(Debug)]
pub enum Acquire<T> {
    /// All connections are lent out: wait for one to come back.
    Wait,
    /// Use this idle connection.
    Reuse(T),
    /// Open a new connection (and report back if that fails).
    Connect,
}

/// The pool's bookkeeping: its idle connections, oldest first, its limit, and
/// how many connections (or connection attempts) are lent out.
#[derive(Debug)]
pub struct IdlePool<T> {
    idle: VecDeque<T>,
    max_size: usize,
    lent: usize,
}

impl<T> IdlePool<T> {
    /// The pool's invariant: no more lent out than the limit.
    pub closed spec fn wf(self) -> bool {
        self.lent <= self.max_size
    }

    /// The idle connections, oldest first.
    pub closed spec fn idle(self) -> Seq<T> {
        self.idle@
    }

    /// A pool that keeps its invariant lends out at most its limit.
    pub proof fn lemma_within_limit(self)
        requires
            self.wf(),
        ensures
            self.lent() <= self.limit(),
    {
    }

    /// The most connections lent out at once.
    pub closed spec fn limit(self) -> nat {
        self.max_size as nat
    }

    /// The connections (and connection attempts) lent out.
    pub closed spec fn lent(self) -> nat {
        self.lent as nat
    }

    /// An empty pool with the limit of `cfg`.
    pub fn new(cfg: PoolConfig) -> (r: Self)
        ensures
            r.idle() == Seq::<T>::empty(),
            r.limit() == cfg.max_size,
            r.lent() == 0,
            r.wf(),
    {
        IdlePool { idle: VecDeque::new(), max_size: cfg.max_size, lent: 0 }
    }

    /// Decides a borrow: wait when the limit is reached; else lend the oldest
    /// idle connection, or, when none is idle, let the borrower connect.
    pub fn acquire(&mut self) -> (r: Acquire<T>)
        requires
            old(self).wf(),
        ensures
            final(self).wf(),
            old(self).lent() >= old(self).limit() ==> (r is Wait && *final(self) == *old(self)),
            old(self).lent() < old(self).limit() && old(self).idle().len() > 0 ==> (r matches Acquire::Reuse(c)
                && c == old(self).idle()[0] && final(self).idle() == old(self).idle().subrange(
                1,
                old(self).idle().len() as int,
            ) && final(self).lent() == old(self).lent() + 1),
            old(self).lent() < old(self).limit() && old(self).idle().len() == 0 ==> (r is Connect
                && final(self).idle() == old(self).idle() && final(self).lent() == old(self).lent()
                + 1),
            final(self).limit() == old(self).limit(),
    {
        if self.lent >= self.max_size {
            return Acquire::Wait;
        }
        self.lent = self.lent + 1;
        match self.idle.pop_front() {
            Some(c) => Acquire::Reuse(c),
            None => Acquire::Connect,
        }
    }

    /// Takes back a lent connection; it is reused after the ones already idle.
    pub fn give_back(&mut self, client: T)
        requires
            old(self).wf(),
            old(self).lent() > 0,
        ensures
            final(self).wf(),
            final(self).idle() == old(self).idle().push(client),
            final(self).lent() == old(self).lent() - 1,
            final(self).limit() == old(self).limit(),
    {
        self.idle.push_back(client);
        self.lent = self.lent - 1;
    }

    /// Records that a connection attempt failed: its place is free again.
    pub fn connect_failed(&mut self)
        requires
            old(self).wf(),
            old(self).lent() > 0,
        ensures
            final(self).wf(),
            final(self).idle() == old(self).idle(),
            final(self).lent() == old(self).lent() - 1,
            final(self).limit() == old(self).limit(),
    {
        self.lent = self.lent - 1;
    }

    /// The number of connections (or attempts) lent out.
    pub fn lent_count(&self) -> (r: usize)
        requires
            self.wf(),
        ensures
            r == self.lent(),
            r <= self.limit(),
    {
        self.lent
    }

    /// The number of idle connections.
    pub fn idle_count(&self) -> (r: usize)
        ensures
            r == self.idle().len(),
    {
        self.idle.len()
    }
}

} // verus!
