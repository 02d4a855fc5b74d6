//! Reading a datagram transport as a byte stream: a datagram that does not fit
//! the reader's buffer is kept, and its rest is handed out by the next reads.
use vstd::prelude::*;
use crate::wire::copy_range;

verus! {

/// The bytes of received datagrams not yet handed to the reader.
#[derive(Debug)]
pub struct DatagramBuffer {
    pending: Vec<u8>,
}

impl View for DatagramBuffer {
    type V = Seq<u8>;

    closed spec fn view(&self) -> Seq<u8> {
        self.pending@
    }
}

/// The smaller of two lengths.
pub open spec fn min_len(a: int, b: int) -> int {
    if a < b {
        a
    } else {
        b
    }
}

impl DatagramBuffer {
    /// An empty buffer.
    pub fn new() -> (r: Self)
        ensures
            r@ == Seq::<u8>::empty(),
    {
        DatagramBuffer { pending: Vec::new() }
    }

    /// Whether no bytes are pending.
    pub fn is_empty(&self) -> (r: bool)
        ensures
            r == (self@.len() == 0),
    {
        self.pending.len() == 0
    }

    /// Hands out up to `room` pending bytes, in order; the rest stays pending.
    pub fn take(&mut self, room: usize) -> (r: Vec<u8>)
        ensures
            r@.len() == min_len(old(self)@.len() as int, room as int),
            r@ + final(self)@ == old(self)@,
    {
        let n = if self.pending.len() < room {
            self.pending.len()
        } else {
            room
        };
        let out = copy_range(self.pending.as_slice(), 0, n);
        let rest = copy_range(self.pending.as_slice(), n, self.pending.len());
        assert(out@ + rest@ =~= self.pending@);
        self.pending = rest;
        out
    }

    /// Receives a datagram while nothing is pending: hands out up to `room` of its
    /// bytes and keeps the rest for the next reads. No byte is lost or reordered.
    pub fn receive(&mut self, datagram: &[u8], room: usize) -> (r: Vec<u8>)
        requires
            old(self)@.len() == 0,
        ensures
            r@.len() == min_len(datagram@.len() as int, room as int),
            r@ + final(self)@ == datagram@,
    {
        self.pending = copy_range(datagram, 0, datagram.len());
        self.take(room)
    }
}

} // verus!
