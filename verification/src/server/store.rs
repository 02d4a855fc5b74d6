//! The simulated PLC's memory and state: bytes addressed by area, DB and
//! offset; registered and locked areas; CPU state; clock; an event queue with
//! a filter mask; and the callbacks that watch it.
use vstd::prelude::*;
use std::collections::{HashMap, HashSet};
use crate::server::area;

verus! {

broadcast use vstd::std_specs::hash::group_hash_axioms;

/// Run state of the simulated CPU.
#[derive(Debug, Clone, Copy, PartialEq, Eq, Structural)]
pub enum CpuState {
    Run,
    Stop,
}

impl Default for CpuState {
    /// A new CPU is stopped.
    fn default() -> (r: Self)
        ensures
            r == CpuState::Stop,
    {
        CpuState::Stop
    }
}

/// The event text of a change to `state`: "cpu_start" or "cpu_stop".
pub open spec fn cpu_event_name(state: CpuState) -> &'static str {
    if state == CpuState::Run {
        "cpu_start"
    } else {
        "cpu_stop"
    }
}

/// A data access or state change, as callbacks and the event queue see it.
#[derive(Debug, Clone, Copy)]
pub struct EventInfo {
    /// "read", "write", "cpu_stop" or "cpu_start".
    pub event: &'static str,
    pub area: u8,
    pub db_number: u16,
    pub start: u32,
    pub length: u32,
}

/// Server status: always running, the CPU state and the connected clients.
#[derive(Debug, Clone, Copy, PartialEq, Eq, Structural)]
pub struct ServerStatus {
    pub server_running: bool,
    pub cpu_state: CpuState,
    pub clients_count: u32,
}

/// Mask bit of read events.
pub const EVENT_READ: u32 = 0x0002_0000;
/// Mask bit of write events.
pub const EVENT_WRITE: u32 = 0x0004_0000;
/// Mask bit of CPU state changes.
pub const EVENT_CONTROL: u32 = 0x0080_0000;
/// The most events the queue holds; later ones are dropped until it is drained.
pub const MAX_EVENTS: usize = 1500;

/// The number of read callbacks a set holds.
pub uninterp spec fn read_callback_count(c: Callbacks) -> nat;

/// The number of write callbacks a set holds.
pub uninterp spec fn write_callback_count(c: Callbacks) -> nat;

/// The number of event callbacks a set holds.
pub uninterp spec fn event_callback_count(c: Callbacks) -> nat;

/// Read callback `i` of a set, called with `info`, returns: its postcondition
/// holds for `info`.
pub uninterp spec fn read_callback_holds(c: Callbacks, i: int, info: EventInfo) -> bool;

/// Write callback `i` of a set, called with `info`, returns: its postcondition
/// holds for `info`.
pub uninterp spec fn write_callback_holds(c: Callbacks, i: int, info: EventInfo) -> bool;

/// Event callback `i` of a set, called with `event`, returns: its
/// postcondition holds for `event`.
pub uninterp spec fn event_callback_holds(c: Callbacks, i: int, event: &str) -> bool;

/// The callbacks of `c` and `d` of every kind, below the given counts, are the
/// same callbacks.
pub open spec fn same_callbacks_below(c: Callbacks, d: Callbacks, nr: nat, nw: nat, ne: nat) -> bool {
    &&& forall|i: int, info: EventInfo| 0 <= i < nr ==> #[trigger] read_callback_holds(c, i, info)
        == read_callback_holds(d, i, info)
    &&& forall|i: int, info: EventInfo| 0 <= i < nw ==> #[trigger] write_callback_holds(c, i, info)
        == write_callback_holds(d, i, info)
    &&& forall|i: int, e: &str| 0 <= i < ne ==> #[trigger] event_callback_holds(c, i, e)
        == event_callback_holds(d, i, e)
}

/// The callbacks a store calls: user code, kept as boxed closures.
#[verifier::external_body]
pub struct Callbacks {
    read: Vec<Box<dyn Fn(&EventInfo) + Send>>,
    write: Vec<Box<dyn Fn(&EventInfo) + Send>>,
    event: Vec<Box<dyn Fn(&str) + Send>>,
}

impl Callbacks {
    /// An empty set (three empty `Vec`s of boxed closures).
    #[verifier::external_body]
    pub(crate) fn new() -> (r: Callbacks)
        ensures
            read_callback_count(r) == 0,
            write_callback_count(r) == 0,
            event_callback_count(r) == 0,
    {
        Callbacks { read: Vec::new(), write: Vec::new(), event: Vec::new() }
    }

    /// Adds a read callback (`Vec::push` of the boxed closure).
    #[verifier::external_body]
    pub(crate) fn push_read<F: Fn(&EventInfo) + Send + 'static>(&mut self, cb: F)
        requires
            forall|info: EventInfo| call_requires(cb, (&info,)),
        ensures
            read_callback_count(*final(self)) == read_callback_count(*old(self)) + 1,
            write_callback_count(*final(self)) == write_callback_count(*old(self)),
            event_callback_count(*final(self)) == event_callback_count(*old(self)),
            forall|info: EventInfo| #[trigger]
                read_callback_holds(*final(self), read_callback_count(*old(self)) as int, info)
                    == call_ensures(cb, (&info,), ()),
            same_callbacks_below(
                *final(self),
                *old(self),
                read_callback_count(*old(self)),
                write_callback_count(*old(self)),
                event_callback_count(*old(self)),
            ),
    {
        self.read.push(Box::new(cb));
    }

    /// Adds a write callback (`Vec::push` of the boxed closure).
    #[verifier::external_body]
    pub(crate) fn push_write<F: Fn(&EventInfo) + Send + 'static>(&mut self, cb: F)
        requires
            forall|info: EventInfo| call_requires(cb, (&info,)),
        ensures
            read_callback_count(*final(self)) == read_callback_count(*old(self)),
            write_callback_count(*final(self)) == write_callback_count(*old(self)) + 1,
            event_callback_count(*final(self)) == event_callback_count(*old(self)),
            forall|info: EventInfo| #[trigger]
                write_callback_holds(*final(self), write_callback_count(*old(self)) as int, info)
                    == call_ensures(cb, (&info,), ()),
            same_callbacks_below(
                *final(self),
                *old(self),
                read_callback_count(*old(self)),
                write_callback_count(*old(self)),
                event_callback_count(*old(self)),
            ),
    {
        self.write.push(Box::new(cb));
    }

    /// Adds an event callback (`Vec::push` of the boxed closure).
    #[verifier::external_body]
    pub(crate) fn push_event<F: Fn(&str) + Send + 'static>(&mut self, cb: F)
        requires
            forall|e: &str| call_requires(cb, (e,)),
        ensures
            read_callback_count(*final(self)) == read_callback_count(*old(self)),
            write_callback_count(*final(self)) == write_callback_count(*old(self)),
            event_callback_count(*final(self)) == event_callback_count(*old(self)) + 1,
            forall|e: &str| #[trigger]
                event_callback_holds(*final(self), event_callback_count(*old(self)) as int, e)
                    == call_ensures(cb, (e,), ()),
            same_callbacks_below(
                *final(self),
                *old(self),
                read_callback_count(*old(self)),
                write_callback_count(*old(self)),
                event_callback_count(*old(self)),
            ),
    {
        self.event.push(Box::new(cb));
    }

    /// The number of read callbacks (`Vec::len`).
    #[verifier::external_body]
    pub(crate) fn read_len(&self) -> (r: usize)
        ensures
            r == read_callback_count(*self),
    {
        self.read.len()
    }

    /// The number of write callbacks (`Vec::len`).
    #[verifier::external_body]
    pub(crate) fn write_len(&self) -> (r: usize)
        ensures
            r == write_callback_count(*self),
    {
        self.write.len()
    }

    /// The number of event callbacks (`Vec::len`).
    #[verifier::external_body]
    pub(crate) fn event_len(&self) -> (r: usize)
        ensures
            r == event_callback_count(*self),
    {
        self.event.len()
    }

    /// Calls read callback `i` with `info`; once it returns, its postcondition
    /// holds for `info`. What else the callback does is its own; the set is unchanged.
    #[verifier::external_body]
    pub(crate) fn call_read(&mut self, i: usize, info: &EventInfo)
        requires
            i < read_callback_count(*old(self)),
        ensures
            *final(self) == *old(self),
            read_callback_holds(*final(self), i as int, *info),
    {
        (self.read[i])(info)
    }

    /// Calls write callback `i` with `info`; once it returns, its postcondition
    /// holds for `info`. What else the callback does is its own; the set is unchanged.
    #[verifier::external_body]
    pub(crate) fn call_write(&mut self, i: usize, info: &EventInfo)
        requires
            i < write_callback_count(*old(self)),
        ensures
            *final(self) == *old(self),
            write_callback_holds(*final(self), i as int, *info),
    {
        (self.write[i])(info)
    }

    /// Calls event callback `i` with `event`; once it returns, its postcondition
    /// holds for `event`. What else the callback does is its own; the set is unchanged.
    #[verifier::external_body]
    pub(crate) fn call_event(&mut self, i: usize, event: &str)
        requires
            i < event_callback_count(*old(self)),
        ensures
            *final(self) == *old(self),
            event_callback_holds(*final(self), i as int, event),
    {
        (self.event[i])(event)
    }
}

/// The queue `events` after an event of kind `bit` is offered under `mask`:
/// queued when the mask lets it through and the queue has room.
pub open spec fn queue_event(events: Seq<EventInfo>, mask: u32, bit: u32, e: EventInfo) -> Seq<EventInfo> {
    if mask & bit != 0 && events.len() < MAX_EVENTS {
        events.push(e)
    } else {
        events
    }
}

/// The key of a byte of a DB (or of an area without DBs, with `db` 0).
pub open spec fn cell_key(db: u16, offset: u32) -> u64 {
    (db as int * 0x1_0000_0000 + offset as int) as u64
}

fn cell_key_exec(db: u16, offset: u32) -> (r: u64)
    ensures
        r == cell_key(db, offset),
{
    (db as u64) * 0x1_0000_0000 + offset as u64
}

proof fn lemma_cell_key_injective(d1: u16, o1: u32, d2: u16, o2: u32)
    ensures
        cell_key(d1, o1) == cell_key(d2, o2) <==> d1 == d2 && o1 == o2,
{
    assert(cell_key(d1, o1) as int == d1 as int * 0x1_0000_0000 + o1 as int);
    assert(cell_key(d2, o2) as int == d2 as int * 0x1_0000_0000 + o2 as int);
}

/// The byte a map holds at `k`, 0 when it holds none.
pub open spec fn lookup(m: Map<u64, u8>, k: u64) -> u8 {
    if m.contains_key(k) {
        m[k]
    } else {
        0
    }
}

/// The PLC memory, areas, CPU state, clock, events and callbacks.
pub struct DataStore {
    data: HashMap<u8, HashMap<u64, u8>>,
    areas: HashMap<u8, usize>,
    locked: HashSet<u8>,
    cpu: CpuState,
    clock: [u8; 8],
    events: Vec<EventInfo>,
    mask: u32,
    clients: u32,
    callbacks: Callbacks,
}

impl DataStore {
    /// The byte at `offset` of DB `db` in `area`; bytes never written read 0.
    pub closed spec fn cell(&self, area: u8, db: u16, offset: u32) -> u8 {
        if self.data@.contains_key(area) {
            lookup(self.data@[area]@, cell_key(db, offset))
        } else {
            0
        }
    }

    /// The registered areas with their size hints.
    pub closed spec fn areas(&self) -> Map<u8, usize> {
        self.areas@
    }

    /// The locked areas.
    pub closed spec fn locked(&self) -> Set<u8> {
        self.locked@
    }

    pub closed spec fn cpu(&self) -> CpuState {
        self.cpu
    }

    pub closed spec fn clock(&self) -> Seq<u8> {
        self.clock@
    }

    /// The queued events, oldest first.
    pub closed spec fn events(&self) -> Seq<EventInfo> {
        self.events@
    }

    pub closed spec fn mask(&self) -> u32 {
        self.mask
    }

    pub closed spec fn clients(&self) -> u32 {
        self.clients
    }

    pub closed spec fn callbacks(&self) -> Callbacks {
        self.callbacks
    }

    /// The bytes `area`/`db` holds from `start` on, `n` of them.
    pub open spec fn cells(&self, area: u8, db: u16, start: u32, n: nat) -> Seq<u8> {
        Seq::new(n, |i: int| self.cell(area, db, (start + i) as u32))
    }

    /// The byte at `a`/`d`/`o` once `data` is written to `area`/`db` from `start` on.
    pub open spec fn written(&self, area: u8, db: u16, start: u32, data: Seq<u8>, a: u8, d: u16, o: u32) -> u8 {
        if a == area && d == db && start <= o < start + data.len() {
            data[o - start]
        } else {
            self.cell(a, d, o)
        }
    }

    /// Everything but the memory is as in `other`.
    pub open spec fn same_state(&self, other: &DataStore) -> bool {
        &&& self.areas() == other.areas()
        &&& self.locked() == other.locked()
        &&& self.cpu() == other.cpu()
        &&& self.clock() == other.clock()
        &&& self.mask() == other.mask()
        &&& self.clients() == other.clients()
    }

    /// The memory is as in `other`.
    pub open spec fn same_cells(&self, other: &DataStore) -> bool {
        forall|a: u8, d: u16, o: u32| #[trigger] self.cell(a, d, o) == other.cell(a, d, o)
    }

    /// `events` after an event of kind `bit` is offered: queued when the mask
    /// lets it through and the queue has room.
    pub open spec fn queued(&self, bit: u32, e: EventInfo) -> Seq<EventInfo> {
        queue_event(self.events(), self.mask(), bit, e)
    }

    /// An empty store: no data, no areas, nothing locked, CPU stopped, clock
    /// zero, no events, every event let through, no clients, no callbacks.
    pub fn new() -> (r: DataStore)
        ensures
            forall|a: u8, d: u16, o: u32| #[trigger] r.cell(a, d, o) == 0,
            r.areas() == Map::<u8, usize>::empty(),
            r.locked() == Set::<u8>::empty(),
            r.cpu() == CpuState::Stop,
            r.clock() == seq![0u8, 0, 0, 0, 0, 0, 0, 0],
            r.events() == Seq::<EventInfo>::empty(),
            r.mask() == 0xFFFF_FFFF,
            r.clients() == 0,
            read_callback_count(r.callbacks()) == 0,
            write_callback_count(r.callbacks()) == 0,
            event_callback_count(r.callbacks()) == 0,
    {
        let r = DataStore {
            data: HashMap::new(),
            areas: HashMap::new(),
            locked: HashSet::new(),
            cpu: CpuState::Stop,
            clock: [0u8; 8],
            events: Vec::new(),
            mask: 0xFFFF_FFFF,
            clients: 0,
            callbacks: Callbacks::new(),
        };
        assert(r.clock@ =~= seq![0u8, 0, 0, 0, 0, 0, 0, 0]);
        r
    }

    /// Registers an area with a size hint (reads past written bytes give 0).
    pub fn register_area(&mut self, area_code: u8, size: usize)
        ensures
            final(self).areas() == old(self).areas().insert(area_code, size),
            final(self).same_cells(old(self)),
            final(self).locked() == old(self).locked(),
            final(self).cpu() == old(self).cpu(),
            final(self).events() == old(self).events(),
    {
        self.areas.insert(area_code, size);
    }

    /// Unregisters an area and forgets every byte stored in it.
    pub fn unregister_area(&mut self, area_code: u8)
        ensures
            final(self).areas() == old(self).areas().remove(area_code),
            forall|d: u16, o: u32| #[trigger] final(self).cell(area_code, d, o) == 0,
            forall|a: u8, d: u16, o: u32|
                a != area_code ==> #[trigger] final(self).cell(a, d, o) == old(self).cell(a, d, o),
            final(self).locked() == old(self).locked(),
            final(self).cpu() == old(self).cpu(),
            final(self).events() == old(self).events(),
    {
        self.areas.remove(&area_code);
        self.data.remove(&area_code);
    }

    /// Whether an area is registered.
    pub fn is_area_registered(&self, area_code: u8) -> (r: bool)
        ensures
            r == self.areas().contains_key(area_code),
    {
        self.areas.contains_key(&area_code)
    }

    /// The registered area codes, in ascending order.
    pub fn registered_areas(&self) -> (r: Vec<u8>)
        ensures
            forall|i: int, j: int| 0 <= i < j < r@.len() ==> r@[i] < r@[j],
            forall|a: u8| #[trigger] r@.contains(a) <==> self.areas().contains_key(a),
    {
        let mut out: Vec<u8> = Vec::new();
        let mut c: u16 = 0;
        while c < 256
            invariant
                c <= 256,
                forall|i: int, j: int| 0 <= i < j < out@.len() ==> out@[i] < out@[j],
                forall|i: int| 0 <= i < out@.len() ==> out@[i] < c,
                forall|a: u8| a < c ==> (#[trigger] out@.contains(a) <==> self.areas().contains_key(a)),
                forall|a: u8| a >= c ==> !#[trigger] out@.contains(a),
            decreases 256 - c,
        {
            let a = c as u8;
            let ghost prev = out@;
            if self.areas.contains_key(&a) {
                out.push(a);
                assert forall|x: u8| #[trigger] out@.contains(x) <==> (prev.contains(x) || x == a) by {
                    if x == a {
                        assert(out@[out@.len() - 1] == a);
                    }
                    if prev.contains(x) {
                        let j = choose|j: int| 0 <= j < prev.len() && prev[j] == x;
                        assert(out@[j] == x);
                    }
                    if out@.contains(x) && x != a {
                        let j = choose|j: int| 0 <= j < out@.len() && out@[j] == x;
                        assert(j < prev.len());
                        assert(prev[j] == x);
                    }
                }
            }
            c = c + 1;
        }
        out
    }

    /// The CPU state.
    pub fn cpu_state(&self) -> (r: CpuState)
        ensures
            r == self.cpu(),
    {
        self.cpu
    }

    fn offer_event(&mut self, bit: u32, e: EventInfo)
        ensures
            final(self).events() == old(self).queued(bit, e),
            final(self).same_state(old(self)),
            final(self).same_cells(old(self)),
            final(self).callbacks() == old(self).callbacks(),
    {
        if self.mask & bit != 0 && self.events.len() < MAX_EVENTS {
            self.events.push(e);
        }
    }

    fn fire_read(&mut self, info: &EventInfo)
        ensures
            *final(self) == *old(self),
            forall|k: int| 0 <= k < read_callback_count(final(self).callbacks()) ==> #[trigger]
                read_callback_holds(final(self).callbacks(), k, *info),
    {
        let n = self.callbacks.read_len();
        let mut i: usize = 0;
        while i < n
            invariant
                *self == *old(self),
                n == read_callback_count(self.callbacks()),
                i <= n,
                forall|k: int| 0 <= k < i ==> #[trigger] read_callback_holds(self.callbacks(), k, *info),
            decreases n - i,
        {
            self.callbacks.call_read(i, info);
            i = i + 1;
        }
    }

    fn fire_write(&mut self, info: &EventInfo)
        ensures
            *final(self) == *old(self),
            forall|k: int| 0 <= k < write_callback_count(final(self).callbacks()) ==> #[trigger]
                write_callback_holds(final(self).callbacks(), k, *info),
    {
        let n = self.callbacks.write_len();
        let mut i: usize = 0;
        while i < n
            invariant
                *self == *old(self),
                n == write_callback_count(self.callbacks()),
                i <= n,
                forall|k: int| 0 <= k < i ==> #[trigger] write_callback_holds(self.callbacks(), k, *info),
            decreases n - i,
        {
            self.callbacks.call_write(i, info);
            i = i + 1;
        }
    }

    fn fire_event(&mut self, event: &str)
        ensures
            *final(self) == *old(self),
            forall|k: int| 0 <= k < event_callback_count(final(self).callbacks()) ==> #[trigger]
                event_callback_holds(final(self).callbacks(), k, event),
    {
        let n = self.callbacks.event_len();
        let mut i: usize = 0;
        while i < n
            invariant
                *self == *old(self),
                n == event_callback_count(self.callbacks()),
                i <= n,
                forall|k: int| 0 <= k < i ==> #[trigger] event_callback_holds(self.callbacks(), k, event),
            decreases n - i,
        {
            self.callbacks.call_event(i, event);
            i = i + 1;
        }
    }

    /// Sets the CPU state, queues a control event (when the mask allows) and
    /// calls the event callbacks with "cpu_start" or "cpu_stop".
    pub fn set_cpu_state(&mut self, state: CpuState)
        ensures
            final(self).cpu() == state,
            final(self).events() == old(self).queued(
                EVENT_CONTROL,
                EventInfo {
                    event: if state == CpuState::Run { "cpu_start" } else { "cpu_stop" },
                    area: 0,
                    db_number: 0,
                    start: 0,
                    length: 0,
                },
            ),
            final(self).same_cells(old(self)),
            final(self).areas() == old(self).areas(),
            final(self).locked() == old(self).locked(),
            final(self).mask() == old(self).mask(),
            final(self).callbacks() == old(self).callbacks(),
            forall|k: int| 0 <= k < event_callback_count(final(self).callbacks()) ==> #[trigger]
                event_callback_holds(final(self).callbacks(), k, cpu_event_name(state)),
    {
        self.cpu = state;
        let event: &'static str = match state {
            CpuState::Run => "cpu_start",
            CpuState::Stop => "cpu_stop",
        };
        self.offer_event(EVENT_CONTROL, EventInfo { event, area: 0, db_number: 0, start: 0, length: 0 });
        self.fire_event(event);
    }

    /// The end of a range of `count` bytes from `start`, kept within 32 bits.
    pub open spec fn range_end(start: u32, count: u32) -> nat {
        if start + count > u32::MAX {
            u32::MAX as nat
        } else {
            (start + count) as nat
        }
    }

    fn read_cells(&self, area: u8, db: u16, start: u32, count: u32) -> (r: Vec<u8>)
        ensures
            r@ == self.cells(area, db, start, (DataStore::range_end(start, count) - start) as nat),
    {
        let end: u32 = if count > 0xFFFF_FFFF - start {
            0xFFFF_FFFF
        } else {
            start + count
        };
        let mut out: Vec<u8> = Vec::new();
        let mut o: u32 = start;
        let inner = self.data.get(&area);
        while o < end
            invariant
                start <= o <= end,
                end == DataStore::range_end(start, count),
                inner matches Some(m) ==> self.data@.contains_key(area) && *m == self.data@[area],
                inner is None ==> !self.data@.contains_key(area),
                out@ == self.cells(area, db, start, (o - start) as nat),
            decreases end - o,
        {
            let b: u8 = match inner {
                Some(m) => {
                    let k = cell_key_exec(db, o);
                    match m.get(&k) {
                        Some(v) => *v,
                        None => 0,
                    }
                },
                None => 0,
            };
            assert(b == self.cell(area, db, o));
            out.push(b);
            o = o + 1;
            assert(out@ =~= self.cells(area, db, start, (o - start) as nat));
        }
        out
    }

    /// The bytes of DB `db` from `start` on, `count` of them (cut at the end
    /// of the 32-bit offset range).
    pub fn read_bytes(&self, db: u16, start: u32, count: u32) -> (r: Vec<u8>)
        ensures
            r@ == self.cells(area::DATA_BLOCK, db, start, (DataStore::range_end(start, count) - start) as nat),
    {
        self.read_cells(area::DATA_BLOCK, db, start, count)
    }

    /// Reads `count` bytes of `area`/`db` from `start` on; queues a read event
    /// (when the mask allows) and calls the read callbacks.
    pub fn read_area(&mut self, area: u8, db: u16, start: u32, count: u32) -> (r: Vec<u8>)
        ensures
            r@ == old(self).cells(area, db, start, (DataStore::range_end(start, count) - start) as nat),
            final(self).events() == old(self).queued(
                EVENT_READ,
                EventInfo { event: "read", area, db_number: db, start, length: count },
            ),
            final(self).same_cells(old(self)),
            final(self).same_state(old(self)),
            final(self).callbacks() == old(self).callbacks(),
            forall|k: int| 0 <= k < read_callback_count(final(self).callbacks()) ==> #[trigger]
                read_callback_holds(
                    final(self).callbacks(),
                    k,
                    EventInfo { event: "read", area, db_number: db, start, length: count },
                ),
    {
        let data = self.read_cells(area, db, start, count);
        let info = EventInfo { event: "read", area, db_number: db, start, length: count };
        self.offer_event(EVENT_READ, info);
        self.fire_read(&info);
        data
    }

    /// Writes `data` to `area`/`db` from `start` on (bytes past the 32-bit
    /// offset range are dropped), queues a write event and calls the write
    /// callbacks; a locked area takes no write.
    pub fn write_area(&mut self, area: u8, db: u16, start: u32, data: &[u8])
        requires
            data@.len() <= u32::MAX,
        ensures
            old(self).locked().contains(area) ==> final(self).same_cells(old(self))
                && final(self).events() == old(self).events(),
            !old(self).locked().contains(area) ==> {
                &&& forall|a: u8, d: u16, o: u32| #[trigger]
                    final(self).cell(a, d, o) == old(self).written(area, db, start, data@, a, d, o)
                &&& final(self).events() == old(self).queued(
                    EVENT_WRITE,
                    EventInfo { event: "write", area, db_number: db, start, length: data@.len() as u32 },
                )
            },
            final(self).same_state(old(self)),
            final(self).callbacks() == old(self).callbacks(),
            !old(self).locked().contains(area) ==> forall|k: int|
                0 <= k < write_callback_count(final(self).callbacks()) ==> #[trigger] write_callback_holds(
                    final(self).callbacks(),
                    k,
                    EventInfo { event: "write", area, db_number: db, start, length: data@.len() as u32 },
                ),
    {
        if self.locked.contains(&area) {
            return;
        }
        let ghost before = self.data@;
        let mut inner: HashMap<u64, u8> = match self.data.remove(&area) {
            Some(m) => m,
            None => HashMap::new(),
        };
        let ghost base = inner@;
        assert(forall|d: u16, o: u32| #[trigger] lookup(base, cell_key(d, o)) == old(self).cell(area, d, o));
        let mut i: usize = 0;
        while i < data.len()
            invariant
                i <= data@.len() <= u32::MAX,
                forall|d: u16, o: u32| #[trigger]
                    lookup(inner@, cell_key(d, o)) == if d == db && start <= o < start + i {
                        data@[o - start]
                    } else {
                        lookup(base, cell_key(d, o))
                    },
            decreases data@.len() - i,
        {
            let off = start as u64 + i as u64;
            if off <= 0xFFFF_FFFF {
                let k = cell_key_exec(db, off as u32);
                let ghost prev = inner@;
                inner.insert(k, data[i]);
                assert(inner@ == prev.insert(k, data@[i as int]));
                assert forall|d: u16, o: u32| #[trigger]
                    lookup(inner@, cell_key(d, o)) == if d == db && start <= o < start + i + 1 {
                        data@[o - start]
                    } else {
                        lookup(base, cell_key(d, o))
                    } by {
                    lemma_cell_key_injective(d, o, db, off as u32);
                    assert(lookup(prev, cell_key(d, o)) == if d == db && start <= o < start + i {
                        data@[o - start]
                    } else {
                        lookup(base, cell_key(d, o))
                    });
                }
            } else {
                assert forall|d: u16, o: u32| #[trigger]
                    lookup(inner@, cell_key(d, o)) == if d == db && start <= o < start + i + 1 {
                        data@[o - start]
                    } else {
                        lookup(base, cell_key(d, o))
                    } by {
                    assert(o as int != start + i);
                }
            }
            i = i + 1;
        }
        self.data.insert(area, inner);
        let info = EventInfo { event: "write", area, db_number: db, start, length: data.len() as u32 };
        self.offer_event(EVENT_WRITE, info);
        self.fire_write(&info);
    }

    /// Writes `data` to DB `db` from `start` on, as `write_area` does.
    pub fn write_bytes(&mut self, db: u16, start: u32, data: &[u8])
        requires
            data@.len() <= u32::MAX,
        ensures
            old(self).locked().contains(area::DATA_BLOCK) ==> final(self).same_cells(old(self))
                && final(self).events() == old(self).events(),
            !old(self).locked().contains(area::DATA_BLOCK) ==> {
                &&& forall|a: u8, d: u16, o: u32| #[trigger]
                    final(self).cell(a, d, o) == old(self).written(area::DATA_BLOCK, db, start, data@, a, d, o)
                &&& final(self).events() == old(self).queued(
                    EVENT_WRITE,
                    EventInfo {
                        event: "write",
                        area: area::DATA_BLOCK,
                        db_number: db,
                        start,
                        length: data@.len() as u32,
                    },
                )
            },
            final(self).same_state(old(self)),
            final(self).callbacks() == old(self).callbacks(),
            !old(self).locked().contains(area::DATA_BLOCK) ==> forall|k: int|
                0 <= k < write_callback_count(final(self).callbacks()) ==> #[trigger] write_callback_holds(
                    final(self).callbacks(),
                    k,
                    EventInfo {
                        event: "write",
                        area: area::DATA_BLOCK,
                        db_number: db,
                        start,
                        length: data@.len() as u32,
                    },
                ),
    {
        self.write_area(area::DATA_BLOCK, db, start, data)
    }

    /// Adds a callback called on every read.
    pub fn on_read<F: Fn(&EventInfo) + Send + 'static>(&mut self, cb: F)
        requires
            forall|info: EventInfo| call_requires(cb, (&info,)),
        ensures
            final(self).same_cells(old(self)),
            final(self).same_state(old(self)),
            final(self).events() == old(self).events(),
            read_callback_count(final(self).callbacks()) == read_callback_count(old(self).callbacks()) + 1,
            write_callback_count(final(self).callbacks()) == write_callback_count(old(self).callbacks()),
            event_callback_count(final(self).callbacks()) == event_callback_count(old(self).callbacks()),
            forall|info: EventInfo| #[trigger]
                read_callback_holds(final(self).callbacks(), read_callback_count(old(self).callbacks()) as int, info)
                    == call_ensures(cb, (&info,), ()),
            same_callbacks_below(
                final(self).callbacks(),
                old(self).callbacks(),
                read_callback_count(old(self).callbacks()),
                write_callback_count(old(self).callbacks()),
                event_callback_count(old(self).callbacks()),
            ),
    {
        self.callbacks.push_read(cb);
    }

    /// Adds a callback called on every write.
    pub fn on_write<F: Fn(&EventInfo) + Send + 'static>(&mut self, cb: F)
        requires
            forall|info: EventInfo| call_requires(cb, (&info,)),
        ensures
            final(self).same_cells(old(self)),
            final(self).same_state(old(self)),
            final(self).events() == old(self).events(),
            read_callback_count(final(self).callbacks()) == read_callback_count(old(self).callbacks()),
            write_callback_count(final(self).callbacks()) == write_callback_count(old(self).callbacks()) + 1,
            event_callback_count(final(self).callbacks()) == event_callback_count(old(self).callbacks()),
            forall|info: EventInfo| #[trigger]
                write_callback_holds(final(self).callbacks(), write_callback_count(old(self).callbacks()) as int, info)
                    == call_ensures(cb, (&info,), ()),
            same_callbacks_below(
                final(self).callbacks(),
                old(self).callbacks(),
                read_callback_count(old(self).callbacks()),
                write_callback_count(old(self).callbacks()),
                event_callback_count(old(self).callbacks()),
            ),
    {
        self.callbacks.push_write(cb);
    }

    /// Adds a callback called on CPU state changes.
    pub fn on_event<F: Fn(&str) + Send + 'static>(&mut self, cb: F)
        requires
            forall|e: &str| call_requires(cb, (e,)),
        ensures
            final(self).same_cells(old(self)),
            final(self).same_state(old(self)),
            final(self).events() == old(self).events(),
            read_callback_count(final(self).callbacks()) == read_callback_count(old(self).callbacks()),
            write_callback_count(final(self).callbacks()) == write_callback_count(old(self).callbacks()),
            event_callback_count(final(self).callbacks()) == event_callback_count(old(self).callbacks()) + 1,
            forall|e: &str| #[trigger]
                event_callback_holds(final(self).callbacks(), event_callback_count(old(self).callbacks()) as int, e)
                    == call_ensures(cb, (e,), ()),
            same_callbacks_below(
                final(self).callbacks(),
                old(self).callbacks(),
                read_callback_count(old(self).callbacks()),
                write_callback_count(old(self).callbacks()),
                event_callback_count(old(self).callbacks()),
            ),
    {
        self.callbacks.push_event(cb);
    }

    /// Locks an area: writes to it are ignored until it is unlocked.
    pub fn lock_area(&mut self, area_code: u8)
        ensures
            final(self).locked() == old(self).locked().insert(area_code),
            final(self).same_cells(old(self)),
            final(self).areas() == old(self).areas(),
            final(self).cpu() == old(self).cpu(),
            final(self).events() == old(self).events(),
    {
        self.locked.insert(area_code);
    }

    /// Unlocks an area.
    pub fn unlock_area(&mut self, area_code: u8)
        ensures
            final(self).locked() == old(self).locked().remove(area_code),
            final(self).same_cells(old(self)),
            final(self).areas() == old(self).areas(),
            final(self).cpu() == old(self).cpu(),
            final(self).events() == old(self).events(),
    {
        self.locked.remove(&area_code);
    }

    /// The event filter mask.
    pub fn get_mask(&self) -> (r: u32)
        ensures
            r == self.mask(),
    {
        self.mask
    }

    /// Sets the event filter mask.
    pub fn set_mask(&mut self, mask: u32)
        ensures
            final(self).mask() == mask,
            final(self).events() == old(self).events(),
            final(self).same_cells(old(self)),
            final(self).cpu() == old(self).cpu(),
    {
        self.mask = mask;
    }

    /// Drops every queued event.
    pub fn clear_events(&mut self)
        ensures
            final(self).events() == Seq::<EventInfo>::empty(),
            final(self).same_state(old(self)),
            final(self).same_cells(old(self)),
    {
        self.events = Vec::new();
    }

    /// Takes the oldest queued event, if any.
    pub fn pick_event(&mut self) -> (r: Option<EventInfo>)
        ensures
            old(self).events().len() == 0 ==> r is None && final(self).events() == old(self).events(),
            old(self).events().len() > 0 ==> r == Some(old(self).events()[0]) && final(self).events()
                == old(self).events().subrange(1, old(self).events().len() as int),
            final(self).same_state(old(self)),
            final(self).same_cells(old(self)),
    {
        if self.events.len() == 0 {
            return None;
        }
        Some(self.events.remove(0))
    }

    /// Server status: running, the CPU state and the number of clients.
    pub fn get_status(&self) -> (r: ServerStatus)
        ensures
            r == (ServerStatus { server_running: true, cpu_state: self.cpu(), clients_count: self.clients() }),
    {
        ServerStatus { server_running: true, cpu_state: self.cpu, clients_count: self.clients }
    }

    /// Counts a client in (saturating).
    pub fn client_connected(&mut self)
        ensures
            final(self).clients() == (if old(self).clients() == u32::MAX {
                u32::MAX
            } else {
                (old(self).clients() + 1) as u32
            }),
            final(self).same_cells(old(self)),
            final(self).cpu() == old(self).cpu(),
            final(self).events() == old(self).events(),
    {
        if self.clients < 0xFFFF_FFFF {
            self.clients = self.clients + 1;
        }
    }

    /// Counts a client out (never below zero).
    pub fn client_disconnected(&mut self)
        ensures
            final(self).clients() == (if old(self).clients() == 0 {
                0
            } else {
                (old(self).clients() - 1) as u32
            }),
            final(self).same_cells(old(self)),
            final(self).cpu() == old(self).cpu(),
            final(self).events() == old(self).events(),
    {
        if self.clients > 0 {
            self.clients = self.clients - 1;
        }
    }

    /// The clock's 8 BCD bytes.
    pub fn get_clock(&self) -> (r: [u8; 8])
        ensures
            r@ == self.clock(),
    {
        self.clock
    }

    /// Sets the clock's 8 BCD bytes.
    pub fn set_clock(&mut self, bytes: [u8; 8])
        ensures
            final(self).clock() == bytes@,
            final(self).same_cells(old(self)),
            final(self).cpu() == old(self).cpu(),
            final(self).events() == old(self).events(),
            final(self).areas() == old(self).areas(),
            final(self).locked() == old(self).locked(),
            final(self).mask() == old(self).mask(),
            final(self).clients() == old(self).clients(),
            final(self).callbacks() == old(self).callbacks(),
    {
        self.clock = bytes;
    }
}

/// What a write leaves: the written bytes, every other byte unchanged.
pub open spec fn is_write(s0: DataStore, s1: DataStore, area: u8, db: u16, start: u32, data: Seq<u8>) -> bool {
    forall|a: u8, d: u16, o: u32| #[trigger] s1.cell(a, d, o) == s0.written(area, db, start, data, a, d, o)
}

/// Reading back what was written to an unlocked area gives the written bytes
/// (when they all lie within the 32-bit offset range).
pub proof fn lemma_write_then_read(s0: DataStore, s1: DataStore, area: u8, db: u16, start: u32, data: Seq<u8>)
    requires
        is_write(s0, s1, area, db, start, data),
        start + data.len() <= u32::MAX + 1,
    ensures
        s1.cells(area, db, start, data.len()) == data,
{
    assert forall|i: int| 0 <= i < data.len() implies s1.cells(area, db, start, data.len())[i] == data[i] by {
        assert(s1.cell(area, db, (start + i) as u32) == s0.written(area, db, start, data, area, db, (start + i) as u32));
    }
    assert(s1.cells(area, db, start, data.len()) =~= data);
}

/// A write touches nothing outside its area, DB and range: other areas, other
/// DBs and other offsets read as before.
pub proof fn lemma_write_isolated(
    s0: DataStore,
    s1: DataStore,
    area: u8,
    db: u16,
    start: u32,
    data: Seq<u8>,
    a: u8,
    d: u16,
    o: u32,
)
    requires
        is_write(s0, s1, area, db, start, data),
        a != area || d != db || o < start || o >= start + data.len(),
    ensures
        s1.cell(a, d, o) == s0.cell(a, d, o),
{
}

} // verus!
