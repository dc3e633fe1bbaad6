use vstd::prelude::*;

use crate::error::Error;
use crate::payable::{Payable, Status};

verus! {

/// The obligation store: one record per (creator, payer) identity pair. The
/// pair addresses its record deterministically, and creation over a live —
/// not yet Completed — record is rejected, so a second creation request can
/// never silently reset an obligation still pending payout. A completed
/// record is an immutable receipt until the same pair starts a new
/// obligation, which replaces it.
pub struct Store {
    pub records: Vec<Payable>,
}

impl Store {
    /// Some record in the store is addressed by this identity pair.
    pub open spec fn contains(self, creator: u64, payer: u64) -> bool {
        exists|i: int|
            0 <= i < self.records.len() && self.records[i].creator == creator
                && self.records[i].payer == payer
    }

    /// The position of the record addressed by this pair; meaningful only
    /// when `contains` holds, and unique when the store is well-formed.
    pub open spec fn index_of(self, creator: u64, payer: u64) -> int {
        choose|i: int|
            0 <= i < self.records.len() && self.records[i].creator == creator
                && self.records[i].payer == payer
    }

    /// The record addressed by this pair; meaningful only when `contains`
    /// holds.
    pub open spec fn record_of(self, creator: u64, payer: u64) -> Payable {
        self.records[self.index_of(creator, payer)]
    }

    /// The pair holds a live record: one that is not yet Completed.
    pub open spec fn has_live(self, creator: u64, payer: u64) -> bool {
        self.contains(creator, payer) && !(self.record_of(creator, payer).status is Completed)
    }

    /// A sound store: every record is well formed, addressed by its own
    /// (creator, payer) pair, and no pair addresses two records.
    pub open spec fn wf(self) -> bool {
        &&& forall|i: int| 0 <= i < self.records.len() ==> #[trigger] self.records[i].wf()
        &&& forall|i: int, j: int|
            0 <= i < j < self.records.len() ==> !(#[trigger] self.records[i].creator == #[trigger] self.records[j].creator
                && self.records[i].payer == self.records[j].payer)
    }

    /// In a well-formed store, a record found at position `i` is the one its
    /// pair addresses: there is no other.
    pub proof fn lemma_index_unique(self, creator: u64, payer: u64, i: int)
        requires
            self.wf(),
            0 <= i < self.records.len(),
            self.records[i].creator == creator,
            self.records[i].payer == payer,
        ensures
            self.contains(creator, payer),
            self.index_of(creator, payer) == i,
    {
        assert(self.contains(creator, payer));
        let j = self.index_of(creator, payer);
        if i < j {
            assert(!(self.records[i].creator == self.records[j].creator && self.records[i].payer
                == self.records[j].payer));
        } else if j < i {
            assert(!(self.records[j].creator == self.records[i].creator && self.records[j].payer
                == self.records[i].payer));
        }
    }

    /// An empty store.
    pub fn new() -> (s: Store)
        ensures
            s.wf(),
            s.records@.len() == 0,
            forall|c: u64, p: u64| !s.contains(c, p),
    {
        Store { records: Vec::new() }
    }

    /// Where the record of this pair sits, if the pair has one.
    pub fn find(&self, creator: u64, payer: u64) -> (r: Option<usize>)
        ensures
            match r {
                Some(i) => {
                    &&& i < self.records.len()
                    &&& self.records[i as int].creator == creator
                    &&& self.records[i as int].payer == payer
                    &&& self.contains(creator, payer)
                },
                None => !self.contains(creator, payer),
            },
    {
        let n: usize = self.records.len();
        let mut i: usize = 0;
        while i < n
            invariant
                n == self.records.len(),
                i <= n,
                forall|k: int|
                    0 <= k < i ==> !(#[trigger] self.records[k].creator == creator
                        && self.records[k].payer == payer),
            decreases n - i,
        {
            if self.records[i].creator == creator && self.records[i].payer == payer {
                return Some(i);
            }
            i = i + 1;
        }
        None
    }

    /// The record of this pair, if the pair has one; NotFound comes back as
    /// None.
    pub fn read(&self, creator: u64, payer: u64) -> (r: Option<Payable>)
        requires
            self.wf(),
        ensures
            match r {
                Some(rec) => self.contains(creator, payer) && rec == self.record_of(
                    creator,
                    payer,
                ),
                None => !self.contains(creator, payer),
            },
    {
        match self.find(creator, payer) {
            Some(i) => {
                proof {
                    self.lemma_index_unique(creator, payer, i as int);
                }
                Some(self.records[i])
            },
            None => None,
        }
    }

    /// File a fresh record. Rejected with DuplicateObligation while the pair
    /// still holds a live record; a completed record is replaced, a pair
    /// never seen gets a new slot. Every other pair's record is untouched.
    pub fn create(&mut self, rec: Payable) -> (r: Result<(), Error>)
        requires
            old(self).wf(),
            rec.wf(),
        ensures
            final(self).wf(),
            match r {
                Ok(()) => {
                    &&& !old(self).has_live(rec.creator, rec.payer)
                    &&& final(self).contains(rec.creator, rec.payer)
                    &&& final(self).record_of(rec.creator, rec.payer) == rec
                    &&& unchanged_except(*old(self), *final(self), rec.creator, rec.payer)
                },
                Err(e) => {
                    &&& e == Error::DuplicateObligation
                    &&& old(self).has_live(rec.creator, rec.payer)
                    &&& *final(self) == *old(self)
                },
            },
    {
        match self.find(rec.creator, rec.payer) {
            Some(i) => {
                proof {
                    self.lemma_index_unique(rec.creator, rec.payer, i as int);
                }
                if self.records[i].status != Status::Completed {
                    return Err(Error::DuplicateObligation);
                }
                self.records[i] = rec;
                proof {
                    self.lemma_index_unique(rec.creator, rec.payer, i as int);
                    assert forall|c: u64, p: u64| !(c == rec.creator && p == rec.payer) implies
                        same_record(*old(self), *self, c, p) by {
                        lemma_frame(*old(self), *self, i as int, c, p);
                    }
                }
                Ok(())
            },
            None => {
                self.records.push(rec);
                proof {
                    let n = self.records.len() - 1;
                    self.lemma_index_unique(rec.creator, rec.payer, n);
                    assert forall|c: u64, p: u64| !(c == rec.creator && p == rec.payer) implies
                        same_record(*old(self), *self, c, p) by {
                        lemma_frame_push(*old(self), *self, c, p);
                    }
                }
                Ok(())
            },
        }
    }

    /// Update the record of its own (creator, payer) pair in place. Comes
    /// back false, with the store untouched, when the pair has no record.
    /// Every other pair's record is untouched.
    pub fn write(&mut self, rec: Payable) -> (r: bool)
        requires
            old(self).wf(),
            rec.wf(),
        ensures
            final(self).wf(),
            r == old(self).contains(rec.creator, rec.payer),
            r ==> {
                &&& final(self).contains(rec.creator, rec.payer)
                &&& final(self).record_of(rec.creator, rec.payer) == rec
                &&& unchanged_except(*old(self), *final(self), rec.creator, rec.payer)
            },
            !r ==> *final(self) == *old(self),
    {
        match self.find(rec.creator, rec.payer) {
            Some(i) => {
                proof {
                    self.lemma_index_unique(rec.creator, rec.payer, i as int);
                }
                self.records[i] = rec;
                proof {
                    self.lemma_index_unique(rec.creator, rec.payer, i as int);
                    assert forall|c: u64, p: u64| !(c == rec.creator && p == rec.payer) implies
                        same_record(*old(self), *self, c, p) by {
                        lemma_frame(*old(self), *self, i as int, c, p);
                    }
                }
                true
            },
            None => false,
        }
    }
}

/// The pair (c, p) addresses the same state in both stores: present in one
/// exactly when present in the other, and with the same record.
pub open spec fn same_record(before: Store, after: Store, c: u64, p: u64) -> bool {
    &&& after.contains(c, p) == before.contains(c, p)
    &&& before.contains(c, p) ==> after.record_of(c, p) == before.record_of(c, p)
}

/// A store mutation touched only the record of the pair (creator, payer):
/// every other pair still addresses what it did before.
pub open spec fn unchanged_except(before: Store, after: Store, creator: u64, payer: u64) -> bool {
    forall|c: u64, p: u64| !(c == creator && p == payer) ==> #[trigger] same_record(before, after, c, p)
}

/// Replacing the record at one position leaves every pair that does not
/// address that position exactly as it was.
proof fn lemma_frame(before: Store, after: Store, i: int, c: u64, p: u64)
    requires
        before.wf(),
        after.wf(),
        0 <= i < before.records.len(),
        after.records.len() == before.records.len(),
        forall|k: int| 0 <= k < before.records.len() && k != i ==> after.records[k] == before.records[k],
        !(c == after.records[i].creator && p == after.records[i].payer),
        !(c == before.records[i].creator && p == before.records[i].payer),
    ensures
        same_record(before, after, c, p),
{
    if before.contains(c, p) {
        let j = before.index_of(c, p);
        assert(after.records[j] == before.records[j]);
        after.lemma_index_unique(c, p, j);
        before.lemma_index_unique(c, p, j);
    }
    if after.contains(c, p) {
        let j = after.index_of(c, p);
        assert(after.records[j] == before.records[j]);
        before.lemma_index_unique(c, p, j);
    }
}

/// Appending a record leaves every pair other than the new record's exactly
/// as it was.
proof fn lemma_frame_push(before: Store, after: Store, c: u64, p: u64)
    requires
        before.wf(),
        after.wf(),
        after.records.len() == before.records.len() + 1,
        forall|k: int| 0 <= k < before.records.len() ==> after.records[k] == before.records[k],
        !(c == after.records[before.records.len() as int].creator && p == after.records[before.records.len() as int].payer),
    ensures
        same_record(before, after, c, p),
{
    if before.contains(c, p) {
        let j = before.index_of(c, p);
        assert(after.records[j] == before.records[j]);
        after.lemma_index_unique(c, p, j);
        before.lemma_index_unique(c, p, j);
    }
    if after.contains(c, p) {
        let j = after.index_of(c, p);
        assert(j < before.records.len());
        assert(after.records[j] == before.records[j]);
        before.lemma_index_unique(c, p, j);
    }
}

} // verus!
