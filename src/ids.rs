//! Identifiers of operations: peers, counters, ids and spans of ids.
use vstd::prelude::*;

verus! {

/// Opaque identifier of a replica.
pub type PeerID = u64;

/// One operation: the `counter`-th operation produced by `peer`.
#[derive(Clone, Copy, Debug, PartialEq, Eq, Structural)]
pub struct ID {
    pub peer: PeerID,
    pub counter: i32,
}

/// The half-open counter interval `[start, end)`.
#[derive(Clone, Copy, Debug, PartialEq, Eq, Structural)]
pub struct CounterSpan {
    pub start: i32,
    pub end: i32,
}

/// A contiguous run of one peer's operations.
#[derive(Clone, Copy, Debug, PartialEq, Eq, Structural)]
pub struct IdSpan {
    pub peer: PeerID,
    pub counter: CounterSpan,
}

impl ID {
    pub fn new(peer: PeerID, counter: i32) -> (r: ID)
        ensures
            r.peer == peer,
            r.counter == counter,
    {
        ID { peer, counter }
    }
}

impl CounterSpan {
    pub fn new(start: i32, end: i32) -> (r: CounterSpan)
        ensures
            r.start == start,
            r.end == end,
    {
        CounterSpan { start, end }
    }

    /// A span is well formed when its bounds are in increasing order.
    pub open spec fn wf(self) -> bool {
        self.start <= self.end
    }

    /// Whether `c` lies in the span.
    pub open spec fn has(self, c: int) -> bool {
        self.start <= c < self.end
    }
}

impl IdSpan {
    pub fn new(peer: PeerID, start: i32, end: i32) -> (r: IdSpan)
        ensures
            r.peer == peer,
            r.counter.start == start,
            r.counter.end == end,
    {
        IdSpan { peer, counter: CounterSpan { start, end } }
    }

    /// A span is well formed when its counter bounds are in increasing order.
    pub open spec fn wf(self) -> bool {
        self.counter.wf()
    }
}

} // verus!
