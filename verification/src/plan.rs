//! Grouping of scanned entries by depth.
//!
//! A [`DeletionPlan`] is the scan output cut into buckets, one bucket per
//! depth that occurs, deepest bucket first. Buckets are handed to the worker
//! pool in that order. What follows from a plan being such a grouping is
//! proved in [`crate::grouping`].

use vstd::prelude::*;
use crate::entry::Entry;
use crate::grouping::{
    law_grouping_is_well_formed, law_plan_keeps_every_entry, lemma_grow_bucket, lemma_open_bucket,
};

verus! {

/// The entries of one scan that share a depth, in scan order.
#[derive(Clone, Debug, PartialEq, Eq)]
pub struct DepthBucket<P> {
    depth: u64,
    entries: Vec<Entry<P>>,
}

/// What a [`DepthBucket`] holds, as mathematics.
pub struct BucketModel<P> {
    pub depth: u64,
    pub entries: Seq<Entry<P>>,
}

impl<P> View for DepthBucket<P> {
    type V = BucketModel<P>;

    closed spec fn view(&self) -> BucketModel<P> {
        BucketModel { depth: self.depth, entries: self.entries@ }
    }
}

/// Buckets in the order in which they are submitted for removal.
#[derive(Debug, PartialEq, Eq)]
pub struct DeletionPlan<P> {
    buckets: Vec<DepthBucket<P>>,
    count: usize,
}

impl<P> View for DeletionPlan<P> {
    type V = Seq<BucketModel<P>>;

    closed spec fn view(&self) -> Seq<BucketModel<P>> {
        models(self.buckets@)
    }
}

/// What a row of buckets holds, bucket by bucket.
spec fn models<P>(buckets: Seq<DepthBucket<P>>) -> Seq<BucketModel<P>> {
    Seq::new(buckets.len(), |i: int| buckets[i]@)
}

/// The entries of `entries` that lie at `depth`, in the order they come in.
pub open spec fn entries_at<P>(entries: Seq<Entry<P>>, depth: u64) -> Seq<Entry<P>> {
    entries.filter(|e: Entry<P>| e.depth == depth)
}

/// Depths fall strictly from each bucket to the next.
pub open spec fn descending<P>(plan: Seq<BucketModel<P>>) -> bool {
    forall|i: int, j: int|
        #![trigger plan[i], plan[j]]
        0 <= i < j < plan.len() ==> plan[i].depth > plan[j].depth
}

/// Some bucket of `plan` is the bucket for `depth`.
pub open spec fn has_bucket<P>(plan: Seq<BucketModel<P>>, depth: u64) -> bool {
    exists|i: int| 0 <= i < plan.len() && (#[trigger] plan[i]).depth == depth
}

/// `plan` is the grouping of `entries` by depth: deepest bucket first, one
/// non-empty bucket for each depth that occurs among `entries`, and in each
/// bucket exactly the entries of that depth.
pub open spec fn groups<P>(plan: Seq<BucketModel<P>>, entries: Seq<Entry<P>>) -> bool {
    &&& descending(plan)
    &&& forall|i: int|
        0 <= i < plan.len() ==> {
            &&& (#[trigger] plan[i]).entries.len() > 0
            &&& plan[i].entries == entries_at(entries, plan[i].depth)
        }
    &&& forall|k: int|
        0 <= k < entries.len() ==> has_bucket(plan, (#[trigger] entries[k]).depth)
}

/// All entries of a plan, in the order in which the plan hands them out.
pub open spec fn plan_entries<P>(plan: Seq<BucketModel<P>>) -> Seq<Entry<P>>
    decreases plan.len(),
{
    if plan.len() == 0 {
        Seq::empty()
    } else {
        plan.first().entries + plan_entries(plan.drop_first())
    }
}

/// A plan as every plan is: depths fall strictly, no bucket is empty, and
/// every entry lies at the depth of its bucket.
pub open spec fn well_formed<P>(plan: Seq<BucketModel<P>>) -> bool {
    &&& descending(plan)
    &&& forall|i: int| 0 <= i < plan.len() ==> (#[trigger] plan[i]).entries.len() > 0
    &&& forall|i: int, k: int|
        0 <= i < plan.len() && 0 <= k < plan[i].entries.len() ==> (#[trigger] plan[i].entries[k]).depth
            == plan[i].depth
}

impl<P> DepthBucket<P> {
    /// The depth that every entry of this bucket lies at.
    pub fn depth(&self) -> (depth: u64)
        ensures
            depth == self@.depth,
    {
        self.depth
    }

    /// The number of entries in this bucket.
    pub fn len(&self) -> (len: usize)
        ensures
            len == self@.entries.len(),
    {
        self.entries.len()
    }

    /// The entries of this bucket, in scan order.
    pub fn entries(&self) -> (entries: &Vec<Entry<P>>)
        ensures
            entries@ == self@.entries,
    {
        &self.entries
    }

    /// Gives up the bucket for its entries, in scan order.
    pub fn into_entries(self) -> (entries: Vec<Entry<P>>)
        ensures
            entries@ == self@.entries,
    {
        self.entries
    }
}

impl<P> DeletionPlan<P> {
    #[verifier::type_invariant]
    spec fn sound(self) -> bool {
        &&& well_formed(self@)
        &&& self.count == plan_entries(self@).len()
    }

    /// The plan for a scan that found nothing.
    fn empty() -> (plan: Self)
        ensures
            groups(plan@, Seq::empty()),
    {
        let buckets: Vec<DepthBucket<P>> = Vec::new();
        assert(models(buckets@) =~= Seq::empty());
        DeletionPlan { buckets, count: 0 }
    }

    /// Files one more entry: into the bucket of its depth where there is
    /// one, else into a new bucket placed so that depths keep falling.
    fn insert(self, entry: Entry<P>, Ghost(seen): Ghost<Seq<Entry<P>>>) -> (plan: Self)
        requires
            groups(self@, seen),
            seen.len() < usize::MAX,
        ensures
            groups(plan@, seen.push(entry)),
    {
        proof {
            use_type_invariant(&self);
            law_plan_keeps_every_entry(self@, seen);
        }
        let ghost before = self@;
        let DeletionPlan { mut buckets, count } = self;
        assert(models(buckets@) == before);
        let depth = entry.depth;
        let mut at: usize = 0;
        while at < buckets.len() && buckets[at].depth > depth
            invariant
                at <= buckets.len(),
                models(buckets@) == before,
                forall|j: int| 0 <= j < at ==> (#[trigger] before[j]).depth > depth,
            decreases buckets.len() - at,
        {
            at += 1;
        }
        if at < buckets.len() && buckets[at].depth == depth {
            buckets[at].entries.push(entry);
            proof {
                lemma_grow_bucket(before, seen, entry, at as int);
                assert(models(buckets@) =~= before.update(
                    at as int,
                    BucketModel { depth, entries: before[at as int].entries.push(entry) },
                ));
            }
        } else {
            let mut entries: Vec<Entry<P>> = Vec::new();
            entries.push(entry);
            buckets.insert(at, DepthBucket { depth, entries });
            proof {
                lemma_open_bucket(before, seen, entry, at as int);
                assert(models(buckets@) =~= before.insert(
                    at as int,
                    BucketModel { depth, entries: seq![entry] },
                ));
            }
        }
        proof {
            law_plan_keeps_every_entry(models(buckets@), seen.push(entry));
            law_grouping_is_well_formed(models(buckets@), seen.push(entry));
        }
        DeletionPlan { buckets, count: count + 1 }
    }

    /// The number of buckets, which is the number of distinct depths.
    pub fn bucket_count(&self) -> (n: usize)
        ensures
            n == self@.len(),
            well_formed(self@),
    {
        proof {
            use_type_invariant(self);
        }
        self.buckets.len()
    }

    /// The number of entries over all buckets.
    pub fn entry_count(&self) -> (n: usize)
        ensures
            n == plan_entries(self@).len(),
            well_formed(self@),
    {
        proof {
            use_type_invariant(self);
        }
        self.count
    }

    /// Gives up the plan for its buckets, deepest first.
    pub fn into_buckets(self) -> (buckets: Vec<DepthBucket<P>>)
        ensures
            buckets@.len() == self@.len(),
            forall|i: int| 0 <= i < buckets@.len() ==> (#[trigger] buckets@[i])@ == self@[i],
            well_formed(self@),
    {
        proof {
            use_type_invariant(&self);
        }
        self.buckets
    }
}

/// Groups the entries of one scan by depth, deepest first.
///
/// The result is the one plan that groups `entries`: its buckets fall
/// strictly in depth, there is a bucket for a depth exactly if some entry
/// lies at it, and each bucket holds the entries of its depth in scan
/// order.
pub fn bucketize<P>(entries: Vec<Entry<P>>) -> (plan: DeletionPlan<P>)
    ensures
        groups(plan@, entries@),
{
    let mut plan = DeletionPlan::empty();
    let ghost scanned: usize = entries.len();
    for entry in it: entries
        invariant
            it.seq() == entries@,
            entries@.len() == scanned,
            groups(plan@, entries@.take(it.index() as int)),
    {
        let ghost seen = entries@.take(it.index() as int);
        assert(seen.len() < entries@.len());
        assert(seen.push(entry) =~= entries@.take(it.index() + 1));
        plan = plan.insert(entry, Ghost(seen));
    }
    assert(entries@.take(entries@.len() as int) =~= entries@);
    plan
}

} // verus!
