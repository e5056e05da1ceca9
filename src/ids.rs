//! Identifiers and the counters that hand them out.

use vstd::prelude::*;

verus! {

/// A monotonically increasing counter.
pub struct CounterU64 {
    value: u64,
}

impl CounterU64 {
    /// The value that the next call of `next` hands out.
    pub closed spec fn view(&self) -> nat {
        self.value as nat
    }

    /// A counter starting at zero.
    pub fn new() -> (r: Self)
        ensures
            r@ == 0,
    {
        CounterU64 { value: 0 }
    }

    /// A counter whose first value is `start`.
    pub fn starting_at(start: u64) -> (r: Self)
        ensures
            r@ == start,
    {
        CounterU64 { value: start }
    }

    /// Hands out the current value and advances the counter by one.
    pub fn next(&mut self) -> (r: u64)
        requires
            old(self)@ < u64::MAX,
        ensures
            allocation(old(self)@, final(self)@, r as nat),
    {
        let v = self.value;
        self.value = v + 1;
        v
    }

    /// The value that the next call of `next` hands out.
    pub fn get(&self) -> (r: u64)
        ensures
            r == self@,
    {
        self.value
    }
}

/// A private ID used to verify reconnects.
#[derive(PartialEq, Eq, Structural, Hash, Debug, Clone, Copy)]
pub struct SessionID(pub u32);

/// A public ID shared with other clients.
#[derive(PartialEq, Eq, Structural, PartialOrd, Ord, Hash, Debug, Clone, Copy)]
pub struct ClientID(pub u32);

/// A board-unique ID for each item.
#[derive(PartialEq, Eq, Structural, PartialOrd, Ord, Hash, Debug, Clone, Copy)]
pub struct ItemID(pub u32);

/// A board-unique ID for each path being drawn.
#[derive(PartialEq, Eq, Structural, PartialOrd, Ord, Hash, Debug, Clone, Copy)]
pub struct PathID(pub u32);

/// A unique ID for a tag type.
#[derive(PartialEq, Eq, Structural, Hash, Debug, Clone, Copy)]
pub struct TagID(pub u64);

/// Whether a counter that stood at `before` and now stands at `after`
/// handed out `value`.
pub open spec fn allocation(before: nat, after: nat, value: nat) -> bool {
    value == before && after == before + 1
}

/// Two consecutive allocations from one counter hand out strictly
/// increasing values.
pub proof fn lemma_allocations_increase(c0: nat, c1: nat, c2: nat, first: nat, second: nat)
    requires
        allocation(c0, c1, first),
        allocation(c1, c2, second),
    ensures
        first < second,
{
}

/// Whether `counter` can still hand out a 32-bit ID.
pub open spec fn can_allocate(counter: CounterU64) -> bool {
    counter@ < u32::MAX
}

impl SessionID {
    /// Takes the next session ID from `counter`.
    pub fn new(counter: &mut CounterU64) -> (r: Self)
        requires
            can_allocate(*old(counter)),
        ensures
            allocation(old(counter)@, final(counter)@, r.0 as nat),
    {
        SessionID(counter.next() as u32)
    }
}

impl ClientID {
    /// Takes the next client ID from `counter`.
    pub fn new(counter: &mut CounterU64) -> (r: Self)
        requires
            can_allocate(*old(counter)),
        ensures
            allocation(old(counter)@, final(counter)@, r.0 as nat),
    {
        ClientID(counter.next() as u32)
    }
}

impl PathID {
    /// Takes the next path ID from `counter`.
    pub fn new(counter: &mut CounterU64) -> (r: Self)
        requires
            can_allocate(*old(counter)),
        ensures
            allocation(old(counter)@, final(counter)@, r.0 as nat),
    {
        PathID(counter.next() as u32)
    }
}

} // verus!
