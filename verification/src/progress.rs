//! The tally of processed entries that a progress display reads.

use vstd::prelude::*;
use crate::entry::Entry;
use crate::grouping::law_plan_keeps_every_entry;
use crate::plan::{groups, plan_entries, BucketModel, DeletionPlan};

verus! {

/// A counter as mathematics: how many entries have been processed, out of
/// how many.
pub struct Count {
    pub processed: nat,
    pub total: nat,
}

impl Count {
    /// A counter that has seen nothing of `total` entries yet.
    pub open spec fn fresh(total: nat) -> Count {
        Count { processed: 0, total }
    }

    /// The counter after one more entry has been processed. A full counter
    /// stays full.
    pub open spec fn tick(self) -> Count {
        if self.processed < self.total {
            Count { processed: self.processed + 1, total: self.total }
        } else {
            self
        }
    }

    /// The counter after `n` more entries have been processed.
    pub open spec fn ticks(self, n: nat) -> Count
        decreases n,
    {
        if n == 0 {
            self
        } else {
            self.ticks((n - 1) as nat).tick()
        }
    }

    /// Every entry has been processed.
    pub open spec fn complete(self) -> bool {
        self.processed == self.total
    }
}

/// Counts processed entries up to a fixed total.
#[derive(Clone, Copy, Debug, PartialEq, Eq)]
pub struct Progress {
    processed: u64,
    total: u64,
}

impl View for Progress {
    type V = Count;

    closed spec fn view(&self) -> Count {
        Count { processed: self.processed as nat, total: self.total as nat }
    }
}

impl Progress {
    #[verifier::type_invariant]
    spec fn bounded(self) -> bool {
        self.processed <= self.total
    }

    /// A counter for `total` entries, none of them processed.
    pub fn new(total: u64) -> (progress: Progress)
        ensures
            progress@ == Count::fresh(total as nat),
    {
        Progress { processed: 0, total }
    }

    /// A counter for the entries of a plan, none of them processed.
    pub fn for_plan<P>(plan: &DeletionPlan<P>) -> (progress: Progress)
        ensures
            progress@ == Count::fresh(plan_entries(plan@).len()),
    {
        Progress { processed: 0, total: plan.entry_count() as u64 }
    }

    /// Records that one more entry has been processed.
    pub fn tick(&mut self)
        ensures
            final(self)@ == old(self)@.tick(),
            old(self)@.processed <= final(self)@.processed <= final(self)@.total,
    {
        proof {
            use_type_invariant(&*self);
        }
        if self.processed < self.total {
            self.processed = self.processed + 1;
        }
    }

    /// The number of entries processed so far.
    pub fn processed(&self) -> (n: u64)
        ensures
            n == self@.processed,
            n <= self@.total,
    {
        proof {
            use_type_invariant(self);
        }
        self.processed
    }

    /// The number of entries there are to process.
    pub fn total(&self) -> (n: u64)
        ensures
            n == self@.total,
    {
        self.total
    }

    /// Whether every entry has been processed.
    pub fn is_complete(&self) -> (done: bool)
        ensures
            done == self@.complete(),
    {
        self.processed == self.total
    }
}

/// The count never falls and never passes the total: after `n` ticks it
/// stands `n` higher than before, or at the total if that comes first.
pub proof fn law_progress_counts_ticks(count: Count, n: nat)
    requires
        count.processed <= count.total,
    ensures
        count.ticks(n).total == count.total,
        count.ticks(n).processed == if count.processed + n <= count.total {
            count.processed + n
        } else {
            count.total
        },
        count.processed <= count.ticks(n).processed <= count.ticks(n + 1).processed,
    decreases n,
{
    if n > 0 {
        law_progress_counts_ticks(count, (n - 1) as nat);
    }
    assert(count.ticks(n + 1) == count.ticks(n).tick());
}

/// Ticked once for every removal that a plan asks for, a fresh counter
/// for that plan ends at the number of entries that the scan found.
pub proof fn law_progress_ends_at_scan_size<P>(
    plan: Seq<BucketModel<P>>,
    entries: Seq<Entry<P>>,
)
    requires
        groups(plan, entries),
    ensures
        Count::fresh(plan_entries(plan).len()).ticks(plan_entries(plan).len()) == (Count {
            processed: entries.len(),
            total: entries.len(),
        }),
{
    law_plan_keeps_every_entry(plan, entries);
    law_progress_counts_ticks(Count::fresh(entries.len()), entries.len());
}

} // verus!
