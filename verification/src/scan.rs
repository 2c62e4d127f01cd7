//! What a walk of the tree reports, and what is made of it.
//!
//! A walk either enumerates the whole tree or it does not. One unreadable
//! item spoils the walk: nothing is planned from a partial listing, because
//! whatever hides behind the unreadable item would be missed.

use vstd::prelude::*;
use crate::entry::Entry;

verus! {

/// One item of a walk, as the driver reports it.
#[derive(Clone, Debug, PartialEq, Eq)]
pub enum WalkItem<P> {
    /// A node that was read.
    Found(Entry<P>),
    /// A node that was listed but was gone when the walk came to look at it.
    Vanished,
    /// A node, or a directory listing, that could not be read.
    Unreadable,
}

/// The walk enumerated everything it came across.
pub open spec fn readable<P>(items: Seq<WalkItem<P>>) -> bool {
    forall|i: int| 0 <= i < items.len() ==> !(#[trigger] items[i] is Unreadable)
}

/// The entry that an item reports, if it reports one.
pub open spec fn entry_of<P>(item: WalkItem<P>) -> Option<Entry<P>> {
    match item {
        WalkItem::Found(entry) => Some(entry),
        _ => None,
    }
}

/// The entries that a walk found, in walk order.
pub open spec fn found<P>(items: Seq<WalkItem<P>>) -> Seq<Entry<P>> {
    items.filter_map(|item: WalkItem<P>| entry_of(item))
}

/// The paths of some entries, in the same order.
pub open spec fn paths_of<P>(entries: Seq<Entry<P>>) -> Seq<P> {
    entries.map_values(|e: Entry<P>| e.path)
}

/// Turns the items of a walk into the entries it found, or into nothing
/// if any item was unreadable. Vanished items are passed over.
pub fn collect_entries<P>(items: Vec<WalkItem<P>>) -> (entries: Option<Vec<Entry<P>>>)
    ensures
        entries is Some <==> readable(items@),
        entries matches Some(list) ==> list@ == found(items@),
{
    let mut list: Vec<Entry<P>> = Vec::new();
    for item in it: items
        invariant
            it.seq() == items@,
            readable(items@.take(it.index() as int)),
            list@ == found(items@.take(it.index() as int)),
    {
        proof {
            items@.lemma_filter_map_take_succ(|w: WalkItem<P>| entry_of(w), it.index() as int);
        }
        match item {
            WalkItem::Found(entry) => {
                list.push(entry);
            },
            WalkItem::Vanished => {},
            WalkItem::Unreadable => {
                assert(items@[it.index() as int] is Unreadable);
                return None;
            },
        }
        assert(items@.take(it.index() + 1)[it.index() as int] == item);
        assert forall|i: int| 0 <= i < it.index() + 1 implies !(#[trigger] items@.take(
            it.index() + 1,
        )[i] is Unreadable) by {
            if i < it.index() {
                assert(items@.take(it.index() as int)[i] == items@[i]);
            }
        }
    }
    assert(items@.take(items@.len() as int) =~= items@);
    Some(list)
}

/// The paths whose read-only attribute a repair pass clears: those of every
/// entry that the repair walk found, or none at all if the walk was spoiled.
pub fn repair_targets<P>(items: Vec<WalkItem<P>>) -> (targets: Option<Vec<P>>)
    ensures
        targets is Some <==> readable(items@),
        targets matches Some(paths) ==> paths@ == paths_of(found(items@)),
{
    match collect_entries(items) {
        Some(entries) => {
            let mut paths: Vec<P> = Vec::new();
            for entry in it: entries
                invariant
                    it.seq() == entries@,
                    paths@ == paths_of(entries@.take(it.index() as int)),
            {
                assert(entries@.take(it.index() + 1) =~= entries@.take(it.index() as int).push(
                    entry,
                ));
                assert(paths_of(entries@.take(it.index() as int).push(entry)) =~= paths_of(
                    entries@.take(it.index() as int),
                ).push(entry.path));
                paths.push(entry.path);
            }
            assert(entries@.take(entries@.len() as int) =~= entries@);
            Some(paths)
        },
        None => None,
    }
}

} // verus!
