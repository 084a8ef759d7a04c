//! What holds of every listing.

use crate::error::Error;
use crate::ignore::{file_excludes, has_bad_pattern, is_ignored, is_reserved, line_excludes};
use crate::items::{
    follows_destinations, is_item, is_reached, items_among, lemma_filter_distinct,
    lemma_item_is_listed, lemma_listing_below, lemma_listing_distinct, lemma_listing_plain,
    lemma_node_listed, lemma_walk_fails, lemma_walk_items, link_of,
};
use crate::list::{boundary_set, ignore_set, is_boundary, items_of, step_for, Step};
use crate::path::{is_absolute, is_strictly_under, joined, root_name};
use crate::dest::{dest_root, destination};
use crate::snapshot::{
    canonical_at, is_canonical_path, is_entry_name, is_tree_dir, is_valid, lemma_canonical_at, node_at,
    Snapshot,
};
use crate::structs::LinkView;
use crate::tree::{distinct_names, listing, Node};
use vstd::prelude::*;

verus! {

/// The items of a repository are the entries of its tree that are reached
/// and are a file or a boundary, in the order of the tree's listing.
pub proof fn law_items_are_the_reached(snap: Snapshot, ignore_dirlink: bool)
    requires
        items_of(snap, ignore_dirlink) is Ok,
    ensures
        items_of(snap, ignore_dirlink)->Ok_0 == items_among(
            snap,
            ignore_set(snap),
            boundary_set(snap, ignore_dirlink),
            snap.root@,
            listing(snap.root@, snap.entries@, 0),
        ),
{
    lemma_walk_items(
        snap,
        ignore_set(snap),
        boundary_set(snap, ignore_dirlink),
        snap.root@,
        snap.entries@,
        0,
    );
}

/// A listing fails where an ignore file holds a line that is no pattern,
/// and else where an item has no place in the destination tree: as the
/// first entry of the tree's listing that is an item and has none. In every
/// other case there is a listing.
pub proof fn law_listing_fails(snap: Snapshot, ignore_dirlink: bool)
    ensures
        has_bad_pattern(listing(snap.root@, snap.entries@, 0)) ==> items_of(snap, ignore_dirlink)
            == Err::<Seq<LinkView>, Error>(Error::Pattern),
        !has_bad_pattern(listing(snap.root@, snap.entries@, 0)) ==> follows_destinations(
            snap,
            ignore_set(snap),
            boundary_set(snap, ignore_dirlink),
            snap.root@,
            listing(snap.root@, snap.entries@, 0),
            items_of(snap, ignore_dirlink),
        ),
{
    lemma_walk_fails(
        snap,
        ignore_set(snap),
        boundary_set(snap, ignore_dirlink),
        snap.root@,
        snap.entries@,
        0,
    );
}

/// The source of an item is not in the ignore set, and neither is a
/// directory between the root and the source.
pub proof fn law_no_item_is_ignored(snap: Snapshot, ignore_dirlink: bool, i: int)
    requires
        items_of(snap, ignore_dirlink) is Ok,
        0 <= i < items_of(snap, ignore_dirlink)->Ok_0.len(),
    ensures
        !is_ignored(
            listing(snap.root@, snap.entries@, 0),
            items_of(snap, ignore_dirlink)->Ok_0[i].source,
        ),
        forall|k: int|
            snap.root@.len() < k < items_of(snap, ignore_dirlink)->Ok_0[i].source.len()
                ==> !is_ignored(
                listing(snap.root@, snap.entries@, 0),
                #[trigger] items_of(snap, ignore_dirlink)->Ok_0[i].source.subrange(0, k),
            ),
{
    let all = listing(snap.root@, snap.entries@, 0);
    let ign = ignore_set(snap);
    let dirs = boundary_set(snap, ignore_dirlink);
    law_items_are_the_reached(snap, ignore_dirlink);
    lemma_item_is_listed(snap, ign, dirs, snap.root@, all, i);
    let source = items_of(snap, ignore_dirlink)->Ok_0[i].source;
    let q = choose|q: int|
        0 <= q < all.len() && is_item(ign, dirs, snap.root@, #[trigger] all[q]) && items_among(
            snap,
            ign,
            dirs,
            snap.root@,
            all,
        )[i] == link_of(snap, all[q]);
    assert(!ign.contains(source));
    assert forall|k: int| snap.root@.len() < k < source.len() implies !is_ignored(
        all,
        #[trigger] source.subrange(0, k),
    ) by {
        assert(!ign.contains(source.subrange(0, k)));
    }
}

/// A path of the tree that a line of an ignore file matches is not the
/// source of an item.
pub proof fn law_matched_is_no_item(
    snap: Snapshot,
    ignore_dirlink: bool,
    f: int,
    k: int,
    p: Seq<Seq<char>>,
    i: int,
)
    requires
        items_of(snap, ignore_dirlink) is Ok,
        0 <= f < listing(snap.root@, snap.entries@, 0).len(),
        line_excludes(listing(snap.root@, snap.entries@, 0)[f], k, p),
        0 <= i < items_of(snap, ignore_dirlink)->Ok_0.len(),
    ensures
        items_of(snap, ignore_dirlink)->Ok_0[i].source != p,
{
    let all = listing(snap.root@, snap.entries@, 0);
    let ign = ignore_set(snap);
    let dirs = boundary_set(snap, ignore_dirlink);
    law_items_are_the_reached(snap, ignore_dirlink);
    lemma_item_is_listed(snap, ign, dirs, snap.root@, all, i);
    law_no_item_is_ignored(snap, ignore_dirlink, i);
    assert(file_excludes(all[f], p));
}

/// A configuration file or an ignore file is not the source of an item.
pub proof fn law_reserved_is_no_item(snap: Snapshot, ignore_dirlink: bool, i: int)
    requires
        items_of(snap, ignore_dirlink) is Ok,
        0 <= i < items_of(snap, ignore_dirlink)->Ok_0.len(),
    ensures
        !is_reserved(items_of(snap, ignore_dirlink)->Ok_0[i].source),
{
    let all = listing(snap.root@, snap.entries@, 0);
    let ign = ignore_set(snap);
    let dirs = boundary_set(snap, ignore_dirlink);
    law_items_are_the_reached(snap, ignore_dirlink);
    lemma_item_is_listed(snap, ign, dirs, snap.root@, all, i);
    law_no_item_is_ignored(snap, ignore_dirlink, i);
}

/// No item lies inside a directory boundary.
pub proof fn law_nothing_inside_boundary(snap: Snapshot, d: Seq<Seq<char>>, i: int)
    requires
        items_of(snap, false) is Ok,
        is_boundary(snap, d),
        0 <= i < items_of(snap, false)->Ok_0.len(),
    ensures
        !is_strictly_under(items_of(snap, false)->Ok_0[i].source, d),
{
    let all = listing(snap.root@, snap.entries@, 0);
    let ign = ignore_set(snap);
    let dirs = boundary_set(snap, false);
    law_items_are_the_reached(snap, false);
    lemma_item_is_listed(snap, ign, dirs, snap.root@, all, i);
    let source = items_of(snap, false)->Ok_0[i].source;
    assert(is_tree_dir(snap, d));
    assert(d.len() > snap.root@.len());
    if is_strictly_under(source, d) {
        assert(source.subrange(0, d.len() as int) == d);
        assert(dirs.contains(source.subrange(0, d.len() as int)));
    }
}

/// In a tree in which no directory holds two entries of one name, each
/// listed entry that is an item is found once.
pub proof fn law_each_item_once(snap: Snapshot, ignore_dirlink: bool, q: int)
    requires
        items_of(snap, ignore_dirlink) is Ok,
        distinct_names(snap.entries@),
        0 <= q < listing(snap.root@, snap.entries@, 0).len(),
        is_item(
            ignore_set(snap),
            boundary_set(snap, ignore_dirlink),
            snap.root@,
            listing(snap.root@, snap.entries@, 0)[q],
        ),
    ensures
        exists|i: int|
            0 <= i < items_of(snap, ignore_dirlink)->Ok_0.len() && #[trigger] items_of(
                snap,
                ignore_dirlink,
            )->Ok_0[i] == link_of(snap, listing(snap.root@, snap.entries@, 0)[q]),
        forall|i: int, j: int|
            0 <= i < j < items_of(snap, ignore_dirlink)->Ok_0.len() ==> (#[trigger] items_of(
                snap,
                ignore_dirlink,
            )->Ok_0[i]).source != (#[trigger] items_of(snap, ignore_dirlink)->Ok_0[j]).source,
{
    let all = listing(snap.root@, snap.entries@, 0);
    let ign = ignore_set(snap);
    let dirs = boundary_set(snap, ignore_dirlink);
    let pred = |listed: (Seq<Seq<char>>, Node)| is_item(ign, dirs, snap.root@, listed);
    let kept = all.filter(pred);
    let items = items_of(snap, ignore_dirlink)->Ok_0;
    law_items_are_the_reached(snap, ignore_dirlink);
    lemma_listing_distinct(snap.root@, snap.entries@, 0);
    lemma_filter_distinct(all, pred);
    all.lemma_filter_contains(pred, q);
    let i = choose|i: int| 0 <= i < kept.len() && kept[i] == all[q];
    assert(items[i] == link_of(snap, all[q]));
    assert forall|a: int, b: int| 0 <= a < b < items.len() implies (#[trigger] items[a]).source != (
    #[trigger] items[b]).source by {
        assert(items[a].source == kept[a].0);
        assert(items[b].source == kept[b].0);
    }
}

/// A directory boundary that is reached and not ignored is one item, and
/// that item is a directory: in a tree in which no directory holds two
/// entries of one name, exactly one item has the boundary as its source.
pub proof fn law_boundary_is_one_item(snap: Snapshot, d: Seq<Seq<char>>)
    requires
        items_of(snap, false) is Ok,
        distinct_names(snap.entries@),
        is_boundary(snap, d),
        !is_ignored(listing(snap.root@, snap.entries@, 0), d),
        is_reached(ignore_set(snap), boundary_set(snap, false), snap.root@, d),
    ensures
        exists|i: int|
            0 <= i < items_of(snap, false)->Ok_0.len() && (#[trigger] items_of(
                snap,
                false,
            )->Ok_0[i]).source == d && items_of(snap, false)->Ok_0[i].is_dir,
        forall|i: int, j: int|
            0 <= i < items_of(snap, false)->Ok_0.len() && 0 <= j < items_of(snap, false)->Ok_0.len()
                && (#[trigger] items_of(snap, false)->Ok_0[i]).source == d && (#[trigger] items_of(
                snap,
                false,
            )->Ok_0[j]).source == d ==> i == j,
{
    let all = listing(snap.root@, snap.entries@, 0);
    let ign = ignore_set(snap);
    let dirs = boundary_set(snap, false);
    let items = items_of(snap, false)->Ok_0;
    let rel = d.subrange(snap.root@.len() as int, d.len() as int);
    assert(is_tree_dir(snap, d));
    let node = node_at(snap.entries@, rel)->0;
    lemma_node_listed(snap.root@, snap.entries@, rel);
    assert(snap.root@ + rel =~= d);
    assert(all.contains((d, node)));
    let q = choose|q: int| 0 <= q < all.len() && all[q] == (d, node);
    assert(dirs.contains(d));
    assert(step_for(ign, dirs, d, node) == Step::DirectoryLink);
    law_each_item_once(snap, false, q);
    let i = choose|i: int| 0 <= i < items.len() && #[trigger] items[i] == link_of(snap, all[q]);
    assert(items[i].source == d && items[i].is_dir);
    assert forall|a: int, b: int|
        0 <= a < items.len() && 0 <= b < items.len() && (#[trigger] items[a]).source == d && (
        #[trigger] items[b]).source == d implies a == b by {
        if a < b {
            assert(items[a].source != items[b].source);
        }
        if b < a {
            assert(items[b].source != items[a].source);
        }
    }
}

/// The items of a snapshot that is valid are in canonical form. The source
/// of an item is a canonical path below the root and is the path of a file
/// or a directory of the tree; the target is a canonical path.
pub proof fn law_items_are_canonical(snap: Snapshot, ignore_dirlink: bool, i: int)
    requires
        is_valid(snap),
        items_of(snap, ignore_dirlink) is Ok,
        0 <= i < items_of(snap, ignore_dirlink)->Ok_0.len(),
    ensures
        is_canonical_path(items_of(snap, ignore_dirlink)->Ok_0[i].source),
        is_strictly_under(items_of(snap, ignore_dirlink)->Ok_0[i].source, snap.root@),
        exists|q: int|
            0 <= q < listing(snap.root@, snap.entries@, 0).len() && (#[trigger] listing(
                snap.root@,
                snap.entries@,
                0,
            )[q]).0 == items_of(snap, ignore_dirlink)->Ok_0[i].source && (listing(
                snap.root@,
                snap.entries@,
                0,
            )[q].1 is File || listing(snap.root@, snap.entries@, 0)[q].1 is Dir),
        is_canonical_path(items_of(snap, ignore_dirlink)->Ok_0[i].target),
{
    let all = listing(snap.root@, snap.entries@, 0);
    let ign = ignore_set(snap);
    let dirs = boundary_set(snap, ignore_dirlink);
    let item = items_of(snap, ignore_dirlink)->Ok_0[i];
    law_items_are_the_reached(snap, ignore_dirlink);
    law_listing_fails(snap, ignore_dirlink);
    lemma_item_is_listed(snap, ign, dirs, snap.root@, all, i);
    lemma_listing_below(snap.root@, snap.entries@, 0);
    lemma_listing_plain(snap.root@, snap.entries@, 0);
    let q = choose|q: int|
        0 <= q < all.len() && is_item(ign, dirs, snap.root@, #[trigger] all[q]) && items_among(
            snap,
            ign,
            dirs,
            snap.root@,
            all,
        )[i] == link_of(snap, all[q]);
    let source = all[q].0;
    assert(item.source == source);
    assert(is_strictly_under(source, snap.root@));
    assert(source.subrange(0, snap.root@.len() as int) == snap.root@);
    assert forall|k: int| 1 <= k < source.len() implies is_entry_name(#[trigger] source[k]) by {
        if k < snap.root@.len() {
            assert(source[k] == source.subrange(0, snap.root@.len() as int)[k]);
        } else {
            assert(is_entry_name(all[q].0[k]));
        }
    }
    assert(source[0] == source.subrange(0, snap.root@.len() as int)[0]);
    assert(destination(snap, source) is Ok);
    let raw = dest_root(snap, source)->0;
    lemma_canonical_at(snap.canonical@, raw, 0);
    let at = canonical_at(snap.canonical@, raw, 0)->0;
    let base = snap.canonical@[at].resolved@;
    assert(is_canonical_path(base));
    let rel = source.subrange(snap.root@.len() as int, source.len() as int);
    assert(rel[0] == source[snap.root@.len() as int]);
    assert(is_entry_name(rel[0]));
    assert(rel[0][0] != '/');
    assert(root_name()[0] == '/');
    assert(!is_absolute(rel));
    assert(destination(snap, source) == Ok::<Seq<Seq<char>>, Error>(joined(base, rel)));
    assert(item.target == base + rel);
    assert forall|k: int| 1 <= k < item.target.len() implies is_entry_name(
        #[trigger] item.target[k],
    ) by {
        if k >= base.len() {
            assert(item.target[k] == source[k - base.len() + snap.root@.len()]);
        }
    }
}

} // verus!
