//! What holds of every grouping of entries by depth.
//!
//! The public proofs here are the laws of [`crate::plan`]: a plan hands out
//! every scanned entry exactly once, deeper entries before shallower ones,
//! and there is only one plan for a given scan.

use vstd::prelude::*;
use crate::entry::Entry;
use crate::plan::{
    descending, entries_at, groups, has_bucket, plan_entries, well_formed, BucketModel,
};

verus! {

/// The entries of `entries` that do not lie at `depth`.
spec fn entries_off<P>(entries: Seq<Entry<P>>, depth: u64) -> Seq<Entry<P>> {
    entries.filter(|e: Entry<P>| e.depth != depth)
}

/// What one more entry adds to the entries at a depth.
proof fn lemma_entries_at_push<P>(entries: Seq<Entry<P>>, e: Entry<P>, depth: u64)
    ensures
        entries_at(entries.push(e), depth) == if e.depth == depth {
            entries_at(entries, depth).push(e)
        } else {
            entries_at(entries, depth)
        },
{
    entries.lemma_filter_push(e, |x: Entry<P>| x.depth == depth);
}

/// A depth without a bucket is a depth without entries.
proof fn lemma_absent_depth_is_empty<P>(
    plan: Seq<BucketModel<P>>,
    entries: Seq<Entry<P>>,
    depth: u64,
)
    requires
        groups(plan, entries),
        !has_bucket(plan, depth),
    ensures
        entries_at(entries, depth).len() == 0,
{
    let pred = |e: Entry<P>| e.depth == depth;
    let found = entries.filter(pred);
    if found.len() > 0 {
        entries.lemma_filter_pred(pred, 0);
        assert(found.contains(found[0]));
        entries.lemma_filter_contains_rev(pred, found[0]);
        let k = choose|k: int| 0 <= k < entries.len() && entries[k] == found[0];
        assert(has_bucket(plan, entries[k].depth));
    }
}

/// Filtering out one depth leaves the entries of every other depth alone.
proof fn lemma_entries_at_off<P>(entries: Seq<Entry<P>>, gone: u64, depth: u64)
    requires
        depth != gone,
    ensures
        entries_at(entries_off(entries, gone), depth) == entries_at(entries, depth),
    decreases entries.len(),
{
    if entries.len() == 0 {
        entries.lemma_filter_len(|e: Entry<P>| e.depth != gone);
        assert(entries_off(entries, gone) =~= entries);
    } else {
        let rest = entries.drop_last();
        let e = entries.last();
        assert(entries =~= rest.push(e));
        lemma_entries_at_off(rest, gone, depth);
        rest.lemma_filter_push(e, |x: Entry<P>| x.depth != gone);
        lemma_entries_at_push(rest, e, depth);
        if e.depth != gone {
            lemma_entries_at_push(entries_off(rest, gone), e, depth);
        }
    }
}

/// The entries at a depth and the entries off it make up all entries.
proof fn lemma_split_by_depth<P>(entries: Seq<Entry<P>>, depth: u64)
    ensures
        entries.to_multiset() == entries_at(entries, depth).to_multiset().add(
            entries_off(entries, depth).to_multiset(),
        ),
    decreases entries.len(),
{
    broadcast use vstd::seq_lib::to_multiset_build;

    let at = entries_at(entries, depth);
    let off = entries_off(entries, depth);
    if entries.len() == 0 {
        entries.lemma_filter_len(|e: Entry<P>| e.depth == depth);
        entries.lemma_filter_len(|e: Entry<P>| e.depth != depth);
        assert(at =~= entries);
        assert(off =~= entries);
        vstd::seq_lib::to_multiset_len(entries);
        vstd::multiset::lemma_multiset_empty_len(entries.to_multiset());
        assert(entries.to_multiset() =~= at.to_multiset().add(off.to_multiset()));
    } else {
        let rest = entries.drop_last();
        let e = entries.last();
        assert(entries =~= rest.push(e));
        lemma_split_by_depth(rest, depth);
        rest.lemma_filter_push(e, |x: Entry<P>| x.depth == depth);
        rest.lemma_filter_push(e, |x: Entry<P>| x.depth != depth);
        assert(entries.to_multiset() =~= at.to_multiset().add(off.to_multiset()));
    }
}

/// Without buckets there are no entries.
proof fn lemma_empty_plan<P>(plan: Seq<BucketModel<P>>, entries: Seq<Entry<P>>)
    requires
        groups(plan, entries),
    ensures
        plan.len() == 0 <==> entries.len() == 0,
{
    if plan.len() == 0 && entries.len() > 0 {
        assert(has_bucket(plan, entries[0].depth));
    }
    if plan.len() > 0 {
        entries.lemma_filter_len(|e: Entry<P>| e.depth == plan[0].depth);
        assert(plan[0].entries.len() > 0);
    }
}

/// Dropping the deepest bucket leaves the grouping of the shallower entries.
proof fn lemma_groups_tail<P>(plan: Seq<BucketModel<P>>, entries: Seq<Entry<P>>)
    requires
        groups(plan, entries),
        plan.len() > 0,
    ensures
        groups(plan.drop_first(), entries_off(entries, plan[0].depth)),
{
    let top = plan[0].depth;
    let tail = plan.drop_first();
    let shallow = entries_off(entries, top);
    let off = |e: Entry<P>| e.depth != top;
    assert forall|i: int, j: int| 0 <= i < j < tail.len() implies tail[i].depth
        > tail[j].depth by {
        assert(plan[i + 1].depth > plan[j + 1].depth);
    }
    assert forall|i: int| 0 <= i < tail.len() implies (#[trigger] tail[i]).entries.len() > 0
        && tail[i].entries == entries_at(shallow, tail[i].depth) by {
        assert(plan[0].depth > plan[i + 1].depth);
        lemma_entries_at_off(entries, top, tail[i].depth);
    }
    assert forall|k: int| 0 <= k < shallow.len() implies has_bucket(
        tail,
        (#[trigger] shallow[k]).depth,
    ) by {
        entries.lemma_filter_pred(off, k);
        assert(shallow.contains(shallow[k]));
        entries.lemma_filter_contains_rev(off, shallow[k]);
        let m = choose|m: int| 0 <= m < entries.len() && entries[m] == shallow[k];
        assert(has_bucket(plan, entries[m].depth));
        let i = choose|i: int| 0 <= i < plan.len() && (#[trigger] plan[i]).depth == shallow[k].depth;
        assert(tail[i - 1].depth == shallow[k].depth);
    }
}

/// Grouping loses no entry and repeats none: what the plan hands out is a
/// rearrangement of what was scanned, so the number of removals it asks for is
/// the number of entries scanned, and a scan without repeats gives a plan
/// without repeats.
pub proof fn law_plan_keeps_every_entry<P>(plan: Seq<BucketModel<P>>, entries: Seq<Entry<P>>)
    requires
        groups(plan, entries),
    ensures
        plan_entries(plan).to_multiset() == entries.to_multiset(),
        plan_entries(plan).len() == entries.len(),
        entries.no_duplicates() ==> plan_entries(plan).no_duplicates(),
    decreases plan.len(),
{
    broadcast use vstd::seq_lib::to_multiset_len;

    lemma_empty_plan(plan, entries);
    if plan.len() == 0 {
        assert(plan_entries(plan) =~= entries);
    } else {
        let top = plan[0].depth;
        lemma_groups_tail(plan, entries);
        law_plan_keeps_every_entry(plan.drop_first(), entries_off(entries, top));
        vstd::seq_lib::lemma_multiset_commutative(
            plan[0].entries,
            plan_entries(plan.drop_first()),
        );
        lemma_split_by_depth(entries, top);
    }
    assert(plan_entries(plan).to_multiset().len() == entries.to_multiset().len());
    if entries.no_duplicates() {
        entries.lemma_multiset_has_no_duplicates();
        plan_entries(plan).lemma_multiset_has_no_duplicates_conv();
    }
}

/// Every entry that a plan hands out comes from one of its buckets and
/// lies at that bucket's depth.
proof fn lemma_handed_out_from_bucket<P>(
    plan: Seq<BucketModel<P>>,
    entries: Seq<Entry<P>>,
    at: int,
)
    requires
        groups(plan, entries),
        0 <= at < plan_entries(plan).len(),
    ensures
        has_bucket(plan, plan_entries(plan)[at].depth),
        at < plan[0].entries.len() ==> plan_entries(plan)[at].depth == plan[0].depth,
        at >= plan[0].entries.len() ==> plan_entries(plan)[at].depth < plan[0].depth,
    decreases plan.len(),
{
    let top = plan[0];
    let tail = plan.drop_first();
    if at < top.entries.len() {
        entries.lemma_filter_pred(|e: Entry<P>| e.depth == top.depth, at);
        assert(plan[0].depth == top.depth);
    } else {
        lemma_groups_tail(plan, entries);
        lemma_handed_out_from_bucket(tail, entries_off(entries, top.depth), at - top.entries.len());
        let depth = plan_entries(plan)[at].depth;
        let i = choose|i: int| 0 <= i < tail.len() && (#[trigger] tail[i]).depth == depth;
        assert(plan[i + 1].depth == depth);
        assert(plan[0].depth > plan[i + 1].depth);
    }
}

/// Deeper entries are handed out first: along the order of the plan the
/// depth never rises. What lies below a directory lies deeper than the
/// directory, so nothing is handed out after one of its ancestors.
pub proof fn law_deeper_entries_come_first<P>(plan: Seq<BucketModel<P>>, entries: Seq<Entry<P>>)
    requires
        groups(plan, entries),
    ensures
        forall|i: int, j: int|
            #![trigger plan_entries(plan)[i], plan_entries(plan)[j]]
            0 <= i < j < plan_entries(plan).len() ==> plan_entries(plan)[i].depth >= plan_entries(
                plan,
            )[j].depth,
    decreases plan.len(),
{
    if plan.len() > 0 {
        let top = plan[0];
        let tail = plan.drop_first();
        let shallow = entries_off(entries, top.depth);
        lemma_groups_tail(plan, entries);
        law_deeper_entries_come_first(tail, shallow);
        assert forall|i: int, j: int| 0 <= i < j < plan_entries(plan).len() implies plan_entries(
            plan,
        )[i].depth >= plan_entries(plan)[j].depth by {
            lemma_handed_out_from_bucket(plan, entries, i);
            lemma_handed_out_from_bucket(plan, entries, j);
            if i >= top.entries.len() {
                assert(plan_entries(plan)[i] == plan_entries(tail)[i - top.entries.len()]);
                assert(plan_entries(plan)[j] == plan_entries(tail)[j - top.entries.len()]);
            }
        }
    }
}

/// Grouping is a function of the scan: two plans that group the same
/// entries are the same plan.
pub proof fn law_plan_is_unique<P>(
    a: Seq<BucketModel<P>>,
    b: Seq<BucketModel<P>>,
    entries: Seq<Entry<P>>,
)
    requires
        groups(a, entries),
        groups(b, entries),
    ensures
        a == b,
    decreases a.len(),
{
    lemma_empty_plan(a, entries);
    lemma_empty_plan(b, entries);
    if a.len() == 0 {
        assert(a =~= b);
    } else {
        lemma_deepest_has_bucket(a, b, entries);
        lemma_deepest_has_bucket(b, a, entries);
        assert(a[0].depth == b[0].depth);
        assert(a[0] == b[0]);
        lemma_groups_tail(a, entries);
        lemma_groups_tail(b, entries);
        law_plan_is_unique(a.drop_first(), b.drop_first(), entries_off(entries, a[0].depth));
        assert forall|i: int| 0 <= i < a.len() implies a[i] == b[i] by {
            if i > 0 {
                assert(a[i] == a.drop_first()[i - 1]);
                assert(b[i] == b.drop_first()[i - 1]);
            }
        }
        assert(a.len() == a.drop_first().len() + 1);
        assert(b.len() == b.drop_first().len() + 1);
        assert(a =~= b);
    }
}

/// The deepest bucket of one grouping is no deeper than the deepest bucket
/// of any other grouping of the same entries.
proof fn lemma_deepest_has_bucket<P>(
    a: Seq<BucketModel<P>>,
    b: Seq<BucketModel<P>>,
    entries: Seq<Entry<P>>,
)
    requires
        groups(a, entries),
        groups(b, entries),
        a.len() > 0,
        b.len() > 0,
    ensures
        a[0].depth <= b[0].depth,
{
    let pred = |e: Entry<P>| e.depth == a[0].depth;
    let held = a[0].entries;
    assert(held.len() > 0);
    entries.lemma_filter_pred(pred, 0);
    assert(held.contains(held[0]));
    entries.lemma_filter_contains_rev(pred, held[0]);
    let k = choose|k: int| 0 <= k < entries.len() && entries[k] == held[0];
    assert(has_bucket(b, entries[k].depth));
    let j = choose|j: int| 0 <= j < b.len() && (#[trigger] b[j]).depth == a[0].depth;
    if j > 0 {
        assert(b[0].depth > b[j].depth);
    }
}

/// A grouping is a well-formed plan.
pub proof fn law_grouping_is_well_formed<P>(plan: Seq<BucketModel<P>>, entries: Seq<Entry<P>>)
    requires
        groups(plan, entries),
    ensures
        well_formed(plan),
{
    assert forall|i: int, k: int|
        0 <= i < plan.len() && 0 <= k < plan[i].entries.len() implies (#[trigger] plan[i].entries[k]).depth
        == plan[i].depth by {
        entries.lemma_filter_pred(|e: Entry<P>| e.depth == plan[i].depth, k);
    }
}

/// Of entries that all lie at one depth, that depth selects all and any
/// other depth selects none.
proof fn lemma_entries_at_one_depth<P>(entries: Seq<Entry<P>>, held: u64, depth: u64)
    requires
        forall|k: int| 0 <= k < entries.len() ==> (#[trigger] entries[k]).depth == held,
    ensures
        entries_at(entries, depth) == if depth == held {
            entries
        } else {
            Seq::empty()
        },
    decreases entries.len(),
{
    if entries.len() == 0 {
        entries.lemma_filter_len(|e: Entry<P>| e.depth == depth);
        assert(entries_at(entries, depth) =~= entries);
    } else {
        let rest = entries.drop_last();
        let e = entries.last();
        assert(entries =~= rest.push(e));
        assert forall|k: int| 0 <= k < rest.len() implies (#[trigger] rest[k]).depth == held by {
            assert(rest[k] == entries[k]);
        }
        lemma_entries_at_one_depth(rest, held, depth);
        lemma_entries_at_push(rest, e, depth);
    }
}

/// Without its deepest bucket a well-formed plan is still well-formed.
proof fn lemma_tail_is_well_formed<P>(plan: Seq<BucketModel<P>>)
    requires
        well_formed(plan),
        plan.len() > 0,
    ensures
        well_formed(plan.drop_first()),
        !has_bucket(plan.drop_first(), plan[0].depth),
{
    let tail = plan.drop_first();
    assert forall|i: int, j: int| 0 <= i < j < tail.len() implies tail[i].depth
        > tail[j].depth by {
        assert(plan[i + 1].depth > plan[j + 1].depth);
    }
    assert forall|i: int| 0 <= i < tail.len() implies (#[trigger] tail[i]).entries.len() > 0 by {
        assert(plan[i + 1].entries.len() > 0);
    }
    assert forall|i: int, k: int|
        0 <= i < tail.len() && 0 <= k < tail[i].entries.len() implies (#[trigger] tail[i].entries[k]).depth
        == tail[i].depth by {
        assert(plan[i + 1].entries[k].depth == plan[i + 1].depth);
    }
    assert forall|j: int| 0 <= j < tail.len() implies (#[trigger] tail[j]).depth
        != plan[0].depth by {
        assert(plan[0].depth > plan[j + 1].depth);
    }
}

/// Selecting a depth from entries that start with a run at one depth
/// takes the whole run or none of it.
proof fn lemma_entries_at_after_run<P>(
    run: Seq<Entry<P>>,
    rest: Seq<Entry<P>>,
    held: u64,
    depth: u64,
)
    requires
        forall|k: int| 0 <= k < run.len() ==> (#[trigger] run[k]).depth == held,
    ensures
        entries_at(run + rest, depth) == if depth == held {
            run + entries_at(rest, depth)
        } else {
            entries_at(rest, depth)
        },
{
    Seq::filter_distributes_over_add(run, rest, |e: Entry<P>| e.depth == depth);
    lemma_entries_at_one_depth(run, held, depth);
    if depth != held {
        assert(Seq::<Entry<P>>::empty() + entries_at(rest, depth) =~= entries_at(rest, depth));
    }
}

/// If the shallower buckets group what they hand out, each bucket of the
/// whole plan holds exactly those handed-out entries that lie at its depth.
proof fn lemma_bucket_is_selected<P>(plan: Seq<BucketModel<P>>, at: int)
    requires
        well_formed(plan),
        0 <= at < plan.len(),
        groups(plan.drop_first(), plan_entries(plan.drop_first())),
    ensures
        plan[at].entries == entries_at(plan_entries(plan), plan[at].depth),
{
    let run = plan[0].entries;
    let tail = plan.drop_first();
    let rest = plan_entries(tail);
    assert forall|k: int| 0 <= k < run.len() implies (#[trigger] run[k]).depth
        == plan[0].depth by {
        assert(plan[0].entries[k].depth == plan[0].depth);
    }
    lemma_entries_at_after_run(run, rest, plan[0].depth, plan[at].depth);
    if at == 0 {
        lemma_tail_is_well_formed(plan);
        lemma_absent_depth_is_empty(tail, rest, plan[0].depth);
        assert(entries_at(rest, plan[0].depth) =~= Seq::empty());
        assert(run + Seq::<Entry<P>>::empty() =~= run);
    } else {
        assert(plan[0].depth > plan[at].depth);
        assert(tail[at - 1] == plan[at]);
    }
}

/// If the shallower buckets group what they hand out, every entry that the
/// whole plan hands out has a bucket for its depth.
proof fn lemma_handed_out_has_bucket<P>(plan: Seq<BucketModel<P>>, at: int)
    requires
        well_formed(plan),
        plan.len() > 0,
        0 <= at < plan_entries(plan).len(),
        groups(plan.drop_first(), plan_entries(plan.drop_first())),
    ensures
        has_bucket(plan, plan_entries(plan)[at].depth),
{
    let top = plan[0].entries;
    let tail = plan.drop_first();
    let rest = plan_entries(tail);
    let e = plan_entries(plan)[at];
    assert(plan_entries(plan) == top + rest);
    if at < top.len() {
        assert(e == plan[0].entries[at]);
        assert(plan[0].depth == e.depth);
    } else {
        assert(e == rest[at - top.len()]);
        assert(has_bucket(tail, rest[at - top.len()].depth));
        let j = choose|j: int| 0 <= j < tail.len() && (#[trigger] tail[j]).depth == e.depth;
        assert(plan[j + 1].depth == e.depth);
    }
}

/// Every well-formed plan is the grouping of what it hands out. So
/// whatever holds of groupings holds of every plan.
pub proof fn law_plan_groups_its_entries<P>(plan: Seq<BucketModel<P>>)
    requires
        well_formed(plan),
    ensures
        groups(plan, plan_entries(plan)),
    decreases plan.len(),
{
    let all = plan_entries(plan);
    if plan.len() > 0 {
        lemma_tail_is_well_formed(plan);
        law_plan_groups_its_entries(plan.drop_first());
        assert forall|i: int| 0 <= i < plan.len() implies (#[trigger] plan[i]).entries.len() > 0
            && plan[i].entries == entries_at(all, plan[i].depth) by {
            lemma_bucket_is_selected(plan, i);
        }
        assert forall|k: int| 0 <= k < all.len() implies has_bucket(plan, (#[trigger] all[k]).depth) by {
            lemma_handed_out_has_bucket(plan, k);
        }
    }
}

/// Adding an entry to the bucket of its depth keeps the grouping.
pub(crate) proof fn lemma_grow_bucket<P>(
    plan: Seq<BucketModel<P>>,
    entries: Seq<Entry<P>>,
    e: Entry<P>,
    at: int,
)
    requires
        groups(plan, entries),
        0 <= at < plan.len(),
        plan[at].depth == e.depth,
    ensures
        groups(
            plan.update(at, BucketModel { depth: e.depth, entries: plan[at].entries.push(e) }),
            entries.push(e),
        ),
{
    let grown = plan.update(
        at,
        BucketModel { depth: e.depth, entries: plan[at].entries.push(e) },
    );
    let all = entries.push(e);
    assert forall|i: int, j: int| 0 <= i < j < grown.len() implies grown[i].depth
        > grown[j].depth by {
        assert(plan[i].depth > plan[j].depth);
    }
    assert forall|i: int| 0 <= i < grown.len() implies (#[trigger] grown[i]).entries.len() > 0
        && grown[i].entries == entries_at(all, grown[i].depth) by {
        lemma_entries_at_push(entries, e, plan[i].depth);
        if i < at {
            assert(plan[i].depth > plan[at].depth);
        } else if i > at {
            assert(plan[at].depth > plan[i].depth);
        }
    }
    assert forall|k: int| 0 <= k < all.len() implies has_bucket(grown, (#[trigger] all[k]).depth) by {
        if k < entries.len() {
            assert(has_bucket(plan, entries[k].depth));
            let i = choose|i: int| 0 <= i < plan.len() && (#[trigger] plan[i]).depth == all[k].depth;
            assert(grown[i].depth == all[k].depth);
        } else {
            assert(grown[at].depth == all[k].depth);
        }
    }
}

/// Opening a bucket for an entry whose depth had none, at the place that
/// keeps the depths falling, keeps the grouping.
pub(crate) proof fn lemma_open_bucket<P>(
    plan: Seq<BucketModel<P>>,
    entries: Seq<Entry<P>>,
    e: Entry<P>,
    at: int,
)
    requires
        groups(plan, entries),
        0 <= at <= plan.len(),
        forall|j: int| 0 <= j < at ==> (#[trigger] plan[j]).depth > e.depth,
        at < plan.len() ==> plan[at].depth < e.depth,
    ensures
        groups(plan.insert(at, BucketModel { depth: e.depth, entries: seq![e] }), entries.push(e)),
{
    let opened = plan.insert(at, BucketModel { depth: e.depth, entries: seq![e] });
    let all = entries.push(e);
    assert forall|j: int| at <= j < plan.len() implies (#[trigger] plan[j]).depth < e.depth by {
        if j > at {
            assert(plan[at].depth > plan[j].depth);
        }
    }
    assert(!has_bucket(plan, e.depth));
    lemma_absent_depth_is_empty(plan, entries, e.depth);
    assert forall|i: int, j: int| 0 <= i < j < opened.len() implies opened[i].depth
        > opened[j].depth by {
        let pi = if i < at { i } else { i - 1 };
        let pj = if j < at { j } else { j - 1 };
        if i != at && j != at {
            assert(plan[pi].depth > plan[pj].depth);
        } else if i == at {
            assert(plan[pj].depth < e.depth);
        } else {
            assert(plan[pi].depth > e.depth);
        }
    }
    assert forall|i: int| 0 <= i < opened.len() implies (#[trigger] opened[i]).entries.len() > 0
        && opened[i].entries == entries_at(all, opened[i].depth) by {
        lemma_entries_at_push(entries, e, opened[i].depth);
        if i == at {
            assert(entries_at(entries, e.depth) =~= Seq::empty());
            assert(seq![e] =~= Seq::<Entry<P>>::empty().push(e));
        } else {
            let pi = if i < at { i } else { i - 1 };
            assert(opened[i] == plan[pi]);
            assert(plan[pi].depth != e.depth);
        }
    }
    assert forall|k: int| 0 <= k < all.len() implies has_bucket(opened, (#[trigger] all[k]).depth) by {
        if k < entries.len() {
            assert(has_bucket(plan, entries[k].depth));
            let i = choose|i: int| 0 <= i < plan.len() && (#[trigger] plan[i]).depth == all[k].depth;
            let oi = if i < at { i } else { i + 1 };
            assert(opened[oi].depth == all[k].depth);
        } else {
            assert(opened[at].depth == all[k].depth);
        }
    }
}

} // verus!
