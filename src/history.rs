//! Height-indexed values: an append-only list of snapshots, read as the most
//! recent entry at or before a height.
use vstd::prelude::*;

verus! {

/// The value of a quantity as written at a block height.
#[derive(Debug, Clone, Copy, PartialEq, Eq, Structural)]
pub struct Snapshot {
    pub height: u64,
    pub value: u128,
}

/// The value of the last entry at or before `height`, or 0 when there is none.
pub open spec fn value_at(entries: Seq<Snapshot>, height: u64) -> u128
    decreases entries.len(),
{
    if entries.len() == 0 {
        0
    } else if entries.last().height <= height {
        entries.last().value
    } else {
        value_at(entries.drop_last(), height)
    }
}

/// The value of the last entry, or 0 when there is none.
pub open spec fn latest_of(entries: Seq<Snapshot>) -> u128 {
    if entries.len() == 0 {
        0
    } else {
        entries.last().value
    }
}

/// Heights never decrease along the list, and none is above `bound`.
pub open spec fn ordered_below(entries: Seq<Snapshot>, bound: u64) -> bool {
    &&& forall|i: int, j: int| 0 <= i <= j < entries.len() ==> (#[trigger] entries[i]).height <= (#[trigger] entries[j]).height
    &&& forall|i: int| 0 <= i < entries.len() ==> (#[trigger] entries[i]).height <= bound
}

/// A snapshot read at a past height keeps its value when a later height is written.
pub proof fn lemma_past_snapshot_stable(entries: Seq<Snapshot>, written: Snapshot, height: u64)
    requires
        height < written.height,
    ensures
        value_at(entries.push(written), height) == value_at(entries, height),
{
    assert(entries.push(written).drop_last() =~= entries);
}

/// One quantity through time.
#[derive(Debug, Clone, PartialEq, Eq)]
pub struct History {
    pub entries: Vec<Snapshot>,
}

impl History {
    pub fn new() -> (r: History)
        ensures
            r.entries@.len() == 0,
    {
        History { entries: Vec::new() }
    }

    pub open spec fn wf(&self, bound: u64) -> bool {
        ordered_below(self.entries@, bound)
    }

    /// The most recent value, or 0 before the first write.
    pub fn latest(&self) -> (r: u128)
        ensures
            r == latest_of(self.entries@),
    {
        let n = self.entries.len();
        if n == 0 {
            0
        } else {
            self.entries[n - 1].value
        }
    }

    /// The value as of `height`: the last entry at or before it, or 0.
    pub fn at_height(&self, height: u64) -> (r: u128)
        ensures
            r == value_at(self.entries@, height),
    {
        let mut i: usize = self.entries.len();
        assert(self.entries@.subrange(0, i as int) =~= self.entries@);
        while i > 0
            invariant
                i <= self.entries@.len(),
                value_at(self.entries@, height) == value_at(self.entries@.subrange(0, i as int), height),
            decreases i,
        {
            let e = self.entries[i - 1];
            assert(self.entries@.subrange(0, i as int).drop_last() =~= self.entries@.subrange(0, i - 1));
            if e.height <= height {
                return e.value;
            }
            i = i - 1;
        }
        0
    }

    /// Appends the value written at `height`, which is no lower than any before it.
    pub fn record(&mut self, height: u64, value: u128)
        requires
            old(self).wf(height),
        ensures
            final(self).entries@ == old(self).entries@.push(Snapshot { height, value }),
            final(self).wf(height),
    {
        self.entries.push(Snapshot { height, value });
    }
}

} // verus!
