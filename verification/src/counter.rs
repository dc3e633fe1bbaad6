use vstd::prelude::*;

verus! {

/// The sequence allocator: one shared counter whose value is the next
/// obligation identifier. Identifiers are handed out monotonically and never
/// reused; only creation advances the counter.
#[derive(Clone, Copy, Debug, PartialEq, Eq, Structural)]
pub struct Counter {
    /// The identifier the next creation will claim.
    pub next_id: u64,
}

impl Counter {
    /// A fresh allocator starts at identifier 0.
    pub fn new() -> (c: Counter)
        ensures
            c.next_id == 0,
    {
        Counter { next_id: 0 }
    }

    /// Claim the next identifier. The counter must not be exhausted; the
    /// caller checks `next_id < u64::MAX` first and reports exhaustion as an
    /// arithmetic failure of the whole operation.
    pub fn allocate(&mut self) -> (id: u64)
        requires
            old(self).next_id < u64::MAX,
        ensures
            id == old(self).next_id,
            final(self).next_id == old(self).next_id + 1,
    {
        let id: u64 = self.next_id;
        self.next_id = self.next_id + 1;
        id
    }
}

} // verus!
