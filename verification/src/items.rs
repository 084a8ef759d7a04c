//! What the walk finds, said without the walk: the items are the entries of
//! the tree that are reached and are a file or a boundary, in the order of
//! the tree's listing.

use crate::dest::destination;
use crate::error::Error;
use crate::list::{emit, step_for, visit, walk, Step};
use crate::path::is_strictly_under;
use crate::snapshot::{child_at, is_entry_name, listed_names, node_at, Snapshot};
use crate::structs::LinkView;
use crate::tree::{distinct_names, listing, listing_of, Entry, Node};
use vstd::prelude::*;

verus! {

/// No directory between `base` and `p` keeps the walk from reaching `p`:
/// none of them is ignored, and none is a boundary.
pub open spec fn is_reached(
    ign: Set<Seq<Seq<char>>>,
    dirs: Set<Seq<Seq<char>>>,
    base: Seq<Seq<char>>,
    p: Seq<Seq<char>>,
) -> bool {
    forall|k: int|
        base.len() < k < p.len() ==> !ign.contains(#[trigger] p.subrange(0, k)) && !dirs.contains(
            p.subrange(0, k),
        )
}

/// A listed entry is an item of the walk that starts in `base`: it is
/// reached, it is not ignored, and it is a file or a boundary.
pub open spec fn is_item(
    ign: Set<Seq<Seq<char>>>,
    dirs: Set<Seq<Seq<char>>>,
    base: Seq<Seq<char>>,
    listed: (Seq<Seq<char>>, Node),
) -> bool {
    is_reached(ign, dirs, base, listed.0) && (step_for(ign, dirs, listed.0, listed.1) == Step::File
        || step_for(ign, dirs, listed.0, listed.1) == Step::DirectoryLink)
}

/// The link of a listed entry that is an item.
pub open spec fn link_of(snap: Snapshot, listed: (Seq<Seq<char>>, Node)) -> LinkView {
    LinkView {
        source: listed.0,
        target: match destination(snap, listed.0) {
            Ok(target) => target,
            Err(_) => Seq::empty(),
        },
        is_dir: listed.1 is Dir,
    }
}

/// The items among the entries of a listing, as links.
pub open spec fn items_among(
    snap: Snapshot,
    ign: Set<Seq<Seq<char>>>,
    dirs: Set<Seq<Seq<char>>>,
    base: Seq<Seq<char>>,
    all: Seq<(Seq<Seq<char>>, Node)>,
) -> Seq<LinkView> {
    all.filter(|listed: (Seq<Seq<char>>, Node)| is_item(ign, dirs, base, listed)).map_values(
        |listed: (Seq<Seq<char>>, Node)| link_of(snap, listed),
    )
}

/// Every path of a listing lies below the directory that is listed.
pub proof fn lemma_listing_below(dir: Seq<Seq<char>>, entries: Seq<Entry>, from: int)
    ensures
        forall|q: int|
            0 <= q < listing(dir, entries, from).len() ==> is_strictly_under(
                (#[trigger] listing(dir, entries, from)[q]).0,
                dir,
            ),
    decreases entries, entries.len() - from,
{
    if 0 <= from < entries.len() {
        lemma_listing_of_below(dir, entries[from]);
        lemma_listing_below(dir, entries, from + 1);
        let first = listing_of(dir, entries[from]);
        let rest = listing(dir, entries, from + 1);
        assert forall|q: int| 0 <= q < listing(dir, entries, from).len() implies is_strictly_under(
            (#[trigger] listing(dir, entries, from)[q]).0,
            dir,
        ) by {
            if q < first.len() {
                assert(listing(dir, entries, from)[q] == first[q]);
            } else {
                assert(listing(dir, entries, from)[q] == rest[q - first.len()]);
            }
        }
    }
}

/// Every path of an entry's listing is the entry's path or lies below it.
pub proof fn lemma_listing_of_below(dir: Seq<Seq<char>>, entry: Entry)
    ensures
        listing_of(dir, entry).len() > 0,
        listing_of(dir, entry)[0] == (dir.push(entry.name@), entry.node),
        forall|q: int|
            1 <= q < listing_of(dir, entry).len() ==> is_strictly_under(
                (#[trigger] listing_of(dir, entry)[q]).0,
                dir.push(entry.name@),
            ),
        forall|q: int|
            0 <= q < listing_of(dir, entry).len() ==> is_strictly_under(
                (#[trigger] listing_of(dir, entry)[q]).0,
                dir,
            ),
    decreases entry, 0int,
{
    let path = dir.push(entry.name@);
    assert(path.subrange(0, dir.len() as int) =~= dir);
    match entry.node {
        Node::Dir(sub) => {
            lemma_listing_below(path, sub@, 0);
            let below = listing(path, sub@, 0);
            assert forall|q: int| 1 <= q < listing_of(dir, entry).len() implies is_strictly_under(
                (#[trigger] listing_of(dir, entry)[q]).0,
                path,
            ) && is_strictly_under(listing_of(dir, entry)[q].0, dir) by {
                let p = below[q - 1].0;
                assert(listing_of(dir, entry)[q] == below[q - 1]);
                assert(p.subrange(0, dir.len() as int) =~= p.subrange(
                    0,
                    path.len() as int,
                ).subrange(0, dir.len() as int));
            }
        },
        _ => {},
    }
}

/// A filter that nothing passes leaves nothing.
pub proof fn lemma_filter_none<A>(s: Seq<A>, pred: spec_fn(A) -> bool)
    requires
        forall|i: int| 0 <= i < s.len() ==> !pred(#[trigger] s[i]),
    ensures
        s.filter(pred) == Seq::<A>::empty(),
    decreases s.len(),
{
    reveal(Seq::filter);
    if s.len() > 0 {
        lemma_filter_none(s.drop_last(), pred);
    }
}

/// Two filters that agree on every element keep the same elements.
pub proof fn lemma_filter_same<A>(s: Seq<A>, p: spec_fn(A) -> bool, q: spec_fn(A) -> bool)
    requires
        forall|i: int| 0 <= i < s.len() ==> p(#[trigger] s[i]) == q(s[i]),
    ensures
        s.filter(p) == s.filter(q),
    decreases s.len(),
{
    reveal(Seq::filter);
    if s.len() > 0 {
        lemma_filter_same(s.drop_last(), p, q);
    }
}

/// The filter of a sequence of one element.
pub proof fn lemma_filter_one<A>(x: A, pred: spec_fn(A) -> bool)
    ensures
        seq![x].filter(pred) == if pred(x) {
            seq![x]
        } else {
            Seq::<A>::empty()
        },
{
    reveal_with_fuel(Seq::filter, 2);
    assert(seq![x].drop_last() =~= Seq::<A>::empty());
    assert(Seq::<A>::empty().push(x) =~= seq![x]);
}

/// The items of two listings, one after the other.
pub proof fn lemma_items_among_add(
    snap: Snapshot,
    ign: Set<Seq<Seq<char>>>,
    dirs: Set<Seq<Seq<char>>>,
    base: Seq<Seq<char>>,
    a: Seq<(Seq<Seq<char>>, Node)>,
    b: Seq<(Seq<Seq<char>>, Node)>,
)
    ensures
        items_among(snap, ign, dirs, base, a + b) == items_among(snap, ign, dirs, base, a)
            + items_among(snap, ign, dirs, base, b),
{
    let pred = |listed: (Seq<Seq<char>>, Node)| is_item(ign, dirs, base, listed);
    Seq::filter_distributes_over_add(a, b, pred);
    assert(items_among(snap, ign, dirs, base, a + b) =~= items_among(snap, ign, dirs, base, a)
        + items_among(snap, ign, dirs, base, b));
}

/// What the walk finds in a directory are the items among the entries of
/// its listing, in the listing's order.
pub proof fn lemma_walk_items(
    snap: Snapshot,
    ign: Set<Seq<Seq<char>>>,
    dirs: Set<Seq<Seq<char>>>,
    dir: Seq<Seq<char>>,
    entries: Seq<Entry>,
    from: int,
)
    requires
        walk(snap, ign, dirs, dir, entries, from) is Ok,
    ensures
        walk(snap, ign, dirs, dir, entries, from)->Ok_0 == items_among(
            snap,
            ign,
            dirs,
            dir,
            listing(dir, entries, from),
        ),
    decreases entries, entries.len() - from,
{
    if 0 <= from < entries.len() {
        lemma_visit_items(snap, ign, dirs, dir, entries[from]);
        lemma_walk_items(snap, ign, dirs, dir, entries, from + 1);
        lemma_items_among_add(
            snap,
            ign,
            dirs,
            dir,
            listing_of(dir, entries[from]),
            listing(dir, entries, from + 1),
        );
    } else {
        lemma_filter_none(
            Seq::<(Seq<Seq<char>>, Node)>::empty(),
            |listed: (Seq<Seq<char>>, Node)| is_item(ign, dirs, dir, listed),
        );
        assert(items_among(snap, ign, dirs, dir, listing(dir, entries, from)) =~= Seq::empty());
    }
}

/// The items among a listing of one entry.
pub proof fn lemma_items_among_one(
    snap: Snapshot,
    ign: Set<Seq<Seq<char>>>,
    dirs: Set<Seq<Seq<char>>>,
    base: Seq<Seq<char>>,
    head: (Seq<Seq<char>>, Node),
)
    ensures
        items_among(snap, ign, dirs, base, seq![head]) == if is_item(ign, dirs, base, head) {
            seq![link_of(snap, head)]
        } else {
            Seq::<LinkView>::empty()
        },
{
    let pred = |listed: (Seq<Seq<char>>, Node)| is_item(ign, dirs, base, listed);
    lemma_filter_one(head, pred);
    if is_item(ign, dirs, base, head) {
        assert(items_among(snap, ign, dirs, base, seq![head]) =~= seq![link_of(snap, head)]);
    } else {
        assert(items_among(snap, ign, dirs, base, seq![head]) =~= Seq::<LinkView>::empty());
    }
}

/// Nothing below a directory that is ignored or a boundary is an item.
pub proof fn lemma_none_below(
    ign: Set<Seq<Seq<char>>>,
    dirs: Set<Seq<Seq<char>>>,
    base: Seq<Seq<char>>,
    path: Seq<Seq<char>>,
    below: Seq<(Seq<Seq<char>>, Node)>,
)
    requires
        base.len() < path.len(),
        ign.contains(path) || dirs.contains(path),
        forall|q: int| 0 <= q < below.len() ==> is_strictly_under((#[trigger] below[q]).0, path),
    ensures
        forall|q: int| 0 <= q < below.len() ==> !is_item(ign, dirs, base, #[trigger] below[q]),
{
    assert forall|q: int| 0 <= q < below.len() implies !is_item(
        ign,
        dirs,
        base,
        #[trigger] below[q],
    ) by {
        let p = below[q].0;
        assert(is_strictly_under(p, path));
        assert(p.subrange(0, path.len() as int) == path);
        assert(!is_reached(ign, dirs, base, p));
    }
}

/// Below a directory that the walk enters, an entry is an item of the walk
/// if it is an item of the walk that starts there.
pub proof fn lemma_same_below(
    ign: Set<Seq<Seq<char>>>,
    dirs: Set<Seq<Seq<char>>>,
    base: Seq<Seq<char>>,
    path: Seq<Seq<char>>,
    below: Seq<(Seq<Seq<char>>, Node)>,
)
    requires
        path.len() == base.len() + 1,
        !ign.contains(path),
        !dirs.contains(path),
        forall|q: int| 0 <= q < below.len() ==> is_strictly_under((#[trigger] below[q]).0, path),
    ensures
        forall|q: int|
            0 <= q < below.len() ==> is_item(ign, dirs, base, #[trigger] below[q]) == is_item(
                ign,
                dirs,
                path,
                below[q],
            ),
{
    assert forall|q: int| 0 <= q < below.len() implies is_item(
        ign,
        dirs,
        base,
        #[trigger] below[q],
    ) == is_item(ign, dirs, path, below[q]) by {
        let p = below[q].0;
        assert(is_strictly_under(p, path));
        assert(p.subrange(0, path.len() as int) == path);
        if is_reached(ign, dirs, path, p) {
            assert forall|k: int| base.len() < k < p.len() implies !ign.contains(
                #[trigger] p.subrange(0, k),
            ) && !dirs.contains(p.subrange(0, k)) by {
                if k > path.len() {
                    assert(!ign.contains(p.subrange(0, k)));
                }
            }
            assert(is_reached(ign, dirs, base, p));
        }
        if is_reached(ign, dirs, base, p) {
            assert forall|k: int| path.len() < k < p.len() implies !ign.contains(
                #[trigger] p.subrange(0, k),
            ) && !dirs.contains(p.subrange(0, k)) by {
                assert(base.len() < k);
            }
            assert(is_reached(ign, dirs, path, p));
        }
    }
}

/// Below a directory that is ignored or a boundary there are no items.
pub proof fn lemma_closed_below(
    snap: Snapshot,
    ign: Set<Seq<Seq<char>>>,
    dirs: Set<Seq<Seq<char>>>,
    base: Seq<Seq<char>>,
    path: Seq<Seq<char>>,
    below: Seq<(Seq<Seq<char>>, Node)>,
)
    requires
        base.len() < path.len(),
        ign.contains(path) || dirs.contains(path),
        forall|q: int| 0 <= q < below.len() ==> is_strictly_under((#[trigger] below[q]).0, path),
    ensures
        items_among(snap, ign, dirs, base, below) == Seq::<LinkView>::empty(),
{
    let pred = |listed: (Seq<Seq<char>>, Node)| is_item(ign, dirs, base, listed);
    lemma_none_below(ign, dirs, base, path, below);
    assert forall|q: int| 0 <= q < below.len() implies !pred(#[trigger] below[q]) by {
        assert(!is_item(ign, dirs, base, below[q]));
    }
    lemma_filter_none(below, pred);
    assert(items_among(snap, ign, dirs, base, below) =~= Seq::<LinkView>::empty());
}

/// Below a directory that the walk enters, the items are those of the walk
/// that starts there.
pub proof fn lemma_open_below(
    snap: Snapshot,
    ign: Set<Seq<Seq<char>>>,
    dirs: Set<Seq<Seq<char>>>,
    base: Seq<Seq<char>>,
    path: Seq<Seq<char>>,
    below: Seq<(Seq<Seq<char>>, Node)>,
)
    requires
        path.len() == base.len() + 1,
        !ign.contains(path),
        !dirs.contains(path),
        forall|q: int| 0 <= q < below.len() ==> is_strictly_under((#[trigger] below[q]).0, path),
    ensures
        items_among(snap, ign, dirs, base, below) == items_among(snap, ign, dirs, path, below),
{
    let outer = |listed: (Seq<Seq<char>>, Node)| is_item(ign, dirs, base, listed);
    let inner = |listed: (Seq<Seq<char>>, Node)| is_item(ign, dirs, path, listed);
    lemma_same_below(ign, dirs, base, path, below);
    assert forall|q: int| 0 <= q < below.len() implies outer(#[trigger] below[q]) == inner(
        below[q],
    ) by {
        assert(is_item(ign, dirs, base, below[q]) == is_item(ign, dirs, path, below[q]));
    }
    lemma_filter_same(below, outer, inner);
}

/// What was found follows the destinations of the items: there is a
/// listing if every listed entry that is an item has a place in the
/// destination tree; if not, the failure is that of the first such entry
/// that has none.
pub open spec fn follows_destinations(
    snap: Snapshot,
    ign: Set<Seq<Seq<char>>>,
    dirs: Set<Seq<Seq<char>>>,
    base: Seq<Seq<char>>,
    all: Seq<(Seq<Seq<char>>, Node)>,
    found: Result<Seq<LinkView>, Error>,
) -> bool {
    match found {
        Ok(_) => forall|q: int|
            0 <= q < all.len() && is_item(ign, dirs, base, #[trigger] all[q]) ==> destination(
                snap,
                all[q].0,
            ) is Ok,
        Err(e) => exists|q: int|
            0 <= q < all.len() && is_item(ign, dirs, base, #[trigger] all[q]) && destination(
                snap,
                all[q].0,
            ) == Err::<Seq<Seq<char>>, Error>(e) && forall|r: int|
                0 <= r < q && is_item(ign, dirs, base, #[trigger] all[r]) ==> destination(
                    snap,
                    all[r].0,
                ) is Ok,
    }
}

/// The walk of a directory fails as the first item that has no destination.
pub proof fn lemma_walk_fails(
    snap: Snapshot,
    ign: Set<Seq<Seq<char>>>,
    dirs: Set<Seq<Seq<char>>>,
    dir: Seq<Seq<char>>,
    entries: Seq<Entry>,
    from: int,
)
    ensures
        follows_destinations(
            snap,
            ign,
            dirs,
            dir,
            listing(dir, entries, from),
            walk(snap, ign, dirs, dir, entries, from),
        ),
    decreases entries, entries.len() - from,
{
    if 0 <= from < entries.len() {
        let all = listing(dir, entries, from);
        let first = listing_of(dir, entries[from]);
        let rest = listing(dir, entries, from + 1);
        let here = visit(snap, ign, dirs, dir, entries[from]);
        let then = walk(snap, ign, dirs, dir, entries, from + 1);
        lemma_visit_fails(snap, ign, dirs, dir, entries[from]);
        lemma_walk_fails(snap, ign, dirs, dir, entries, from + 1);
        assert forall|q: int| 0 <= q < all.len() implies #[trigger] all[q] == if q < first.len() {
            first[q]
        } else {
            rest[q - first.len()]
        } by {}
        match here {
            Err(e) => {
                let q = choose|q: int|
                    0 <= q < first.len() && is_item(ign, dirs, dir, #[trigger] first[q])
                        && destination(snap, first[q].0) == Err::<Seq<Seq<char>>, Error>(e)
                        && forall|r: int|
                        0 <= r < q && is_item(ign, dirs, dir, #[trigger] first[r]) ==> destination(
                            snap,
                            first[r].0,
                        ) is Ok;
                assert(all[q] == first[q]);
                assert forall|r: int|
                    0 <= r < q && is_item(ign, dirs, dir, #[trigger] all[r]) implies destination(
                    snap,
                    all[r].0,
                ) is Ok by {
                    assert(all[r] == first[r]);
                }
            },
            Ok(_) => match then {
                Err(e) => {
                    let q = choose|q: int|
                        0 <= q < rest.len() && is_item(ign, dirs, dir, #[trigger] rest[q])
                            && destination(snap, rest[q].0) == Err::<Seq<Seq<char>>, Error>(e)
                            && forall|r: int|
                            0 <= r < q && is_item(ign, dirs, dir, #[trigger] rest[r])
                                ==> destination(snap, rest[r].0) is Ok;
                    let at = q + first.len();
                    assert(all[at] == rest[q]);
                    assert forall|r: int|
                        0 <= r < at && is_item(ign, dirs, dir, #[trigger] all[r]) implies destination(
                        snap,
                        all[r].0,
                    ) is Ok by {
                        if r < first.len() {
                            assert(all[r] == first[r]);
                        } else {
                            assert(all[r] == rest[r - first.len()]);
                        }
                    }
                },
                Ok(_) => {
                    assert forall|q: int|
                        0 <= q < all.len() && is_item(ign, dirs, dir, #[trigger] all[q]) implies destination(
                        snap,
                        all[q].0,
                    ) is Ok by {
                        if q < first.len() {
                            assert(all[q] == first[q]);
                        } else {
                            assert(all[q] == rest[q - first.len()]);
                        }
                    }
                },
            },
        }
    }
}

/// The walk at an entry fails as the first item that has no destination.
pub proof fn lemma_visit_fails(
    snap: Snapshot,
    ign: Set<Seq<Seq<char>>>,
    dirs: Set<Seq<Seq<char>>>,
    dir: Seq<Seq<char>>,
    entry: Entry,
)
    ensures
        follows_destinations(
            snap,
            ign,
            dirs,
            dir,
            listing_of(dir, entry),
            visit(snap, ign, dirs, dir, entry),
        ),
    decreases entry, 0int,
{
    let path = dir.push(entry.name@);
    let head = (path, entry.node);
    let below = match entry.node {
        Node::Dir(sub) => listing(path, sub@, 0),
        _ => Seq::empty(),
    };
    let all = listing_of(dir, entry);
    let found = visit(snap, ign, dirs, dir, entry);
    assert(all =~= seq![head] + below);
    assert(all[0] == head);
    assert forall|q: int| 1 <= q < all.len() implies #[trigger] all[q] == below[q - 1] by {}
    assert(is_reached(ign, dirs, dir, path));
    match entry.node {
        Node::Dir(sub) => {
            lemma_listing_below(path, sub@, 0);
        },
        _ => {},
    }
    let step = step_for(ign, dirs, path, entry.node);
    if step == Step::Descend {
        let sub = entry.node->Dir_0;
        lemma_walk_fails(snap, ign, dirs, path, sub@, 0);
        lemma_same_below(ign, dirs, dir, path, below);
        assert(!is_item(ign, dirs, dir, head));
        match found {
            Err(e) => {
                let q = choose|q: int|
                    0 <= q < below.len() && is_item(ign, dirs, path, #[trigger] below[q])
                        && destination(snap, below[q].0) == Err::<Seq<Seq<char>>, Error>(e)
                        && forall|r: int|
                        0 <= r < q && is_item(ign, dirs, path, #[trigger] below[r]) ==> destination(
                            snap,
                            below[r].0,
                        ) is Ok;
                assert(all[q + 1] == below[q]);
                assert(is_item(ign, dirs, dir, all[q + 1]));
                assert forall|r: int|
                    0 <= r < q + 1 && is_item(ign, dirs, dir, #[trigger] all[r]) implies destination(
                    snap,
                    all[r].0,
                ) is Ok by {
                    if r > 0 {
                        assert(all[r] == below[r - 1]);
                        assert(is_item(ign, dirs, path, below[r - 1]));
                    }
                }
            },
            Ok(_) => {
                assert forall|q: int|
                    0 <= q < all.len() && is_item(ign, dirs, dir, #[trigger] all[q]) implies destination(
                    snap,
                    all[q].0,
                ) is Ok by {
                    if q > 0 {
                        assert(all[q] == below[q - 1]);
                        assert(is_item(ign, dirs, path, below[q - 1]));
                    }
                }
            },
        }
    } else {
        if below.len() > 0 {
            lemma_none_below(ign, dirs, dir, path, below);
        }
        assert forall|q: int| 1 <= q < all.len() implies !is_item(ign, dirs, dir, #[trigger] all[q]) by {
            assert(all[q] == below[q - 1]);
        }
        if step != Step::Skip {
            assert(is_item(ign, dirs, dir, all[0]));
            assert(found == emit(snap, path, step == Step::DirectoryLink));
        }
    }
}

/// What the walk finds at an entry are the items among the entries of its
/// listing.
pub proof fn lemma_visit_items(
    snap: Snapshot,
    ign: Set<Seq<Seq<char>>>,
    dirs: Set<Seq<Seq<char>>>,
    dir: Seq<Seq<char>>,
    entry: Entry,
)
    requires
        visit(snap, ign, dirs, dir, entry) is Ok,
    ensures
        visit(snap, ign, dirs, dir, entry)->Ok_0 == items_among(
            snap,
            ign,
            dirs,
            dir,
            listing_of(dir, entry),
        ),
    decreases entry, 0int,
{
    let path = dir.push(entry.name@);
    let head = (path, entry.node);
    let below = match entry.node {
        Node::Dir(sub) => listing(path, sub@, 0),
        _ => Seq::empty(),
    };
    let found = visit(snap, ign, dirs, dir, entry)->Ok_0;
    let at_head = items_among(snap, ign, dirs, dir, seq![head]);
    let at_below = items_among(snap, ign, dirs, dir, below);
    assert(listing_of(dir, entry) =~= seq![head] + below);
    lemma_items_among_add(snap, ign, dirs, dir, seq![head], below);
    lemma_items_among_one(snap, ign, dirs, dir, head);
    assert(is_reached(ign, dirs, dir, path));
    match entry.node {
        Node::Dir(sub) => {
            lemma_listing_below(path, sub@, 0);
        },
        _ => {},
    }
    let step = step_for(ign, dirs, path, entry.node);
    if step == Step::Descend {
        let sub = entry.node->Dir_0;
        lemma_walk_items(snap, ign, dirs, path, sub@, 0);
        lemma_open_below(snap, ign, dirs, dir, path, below);
        assert(at_head == Seq::<LinkView>::empty());
        assert(at_head + at_below =~= at_below);
    } else {
        if below.len() > 0 {
            lemma_closed_below(snap, ign, dirs, dir, path, below);
        } else {
            lemma_filter_none(
                below,
                |listed: (Seq<Seq<char>>, Node)| is_item(ign, dirs, dir, listed),
            );
            assert(at_below =~= Seq::<LinkView>::empty());
        }
        assert(at_head + at_below =~= at_head);
        if step != Step::Skip {
            assert(emit(snap, path, step == Step::DirectoryLink) is Ok);
            assert(found =~= seq![link_of(snap, head)]);
        }
    }
}

/// Every path of a listing begins, below the directory that is listed, with
/// the name of one of the entries that are listed.
pub proof fn lemma_listing_names(dir: Seq<Seq<char>>, entries: Seq<Entry>, from: int)
    requires
        0 <= from,
    ensures
        forall|q: int|
            0 <= q < listing(dir, entries, from).len() ==> exists|j: int|
                from <= j < entries.len() && (#[trigger] listing(dir, entries, from)[q]).0[dir.len() as int]
                    == (#[trigger] entries[j]).name@,
    decreases entries.len() - from,
{
    if from < entries.len() {
        let all = listing(dir, entries, from);
        let first = listing_of(dir, entries[from]);
        let rest = listing(dir, entries, from + 1);
        let path = dir.push(entries[from].name@);
        lemma_listing_of_below(dir, entries[from]);
        lemma_listing_names(dir, entries, from + 1);
        assert forall|q: int| 0 <= q < all.len() implies exists|j: int|
            from <= j < entries.len() && (#[trigger] all[q]).0[dir.len() as int]
                == (#[trigger] entries[j]).name@ by {
            if q < first.len() {
                assert(all[q] == first[q]);
                let p = first[q].0;
                if q > 0 {
                    assert(p.subrange(0, path.len() as int) == path);
                    assert(p[dir.len() as int] == p.subrange(0, path.len() as int)[dir.len() as int]);
                }
                assert(p[dir.len() as int] == entries[from].name@);
            } else {
                assert(all[q] == rest[q - first.len()]);
                let j = choose|j: int|
                    from + 1 <= j < entries.len() && rest[q - first.len()].0[dir.len() as int]
                        == (#[trigger] entries[j]).name@;
                assert(all[q].0[dir.len() as int] == entries[j].name@);
            }
        }
    }
}

/// Where no directory holds two entries of one name, no path is listed
/// twice.
pub proof fn lemma_listing_distinct(dir: Seq<Seq<char>>, entries: Seq<Entry>, from: int)
    requires
        0 <= from,
        distinct_names(entries),
    ensures
        forall|a: int, b: int|
            0 <= a < b < listing(dir, entries, from).len() ==> (#[trigger] listing(
                dir,
                entries,
                from,
            )[a]).0 != (#[trigger] listing(dir, entries, from)[b]).0,
    decreases entries, entries.len() - from,
{
    if from < entries.len() {
        let all = listing(dir, entries, from);
        let first = listing_of(dir, entries[from]);
        let rest = listing(dir, entries, from + 1);
        let path = dir.push(entries[from].name@);
        lemma_listing_of_below(dir, entries[from]);
        lemma_listing_of_distinct(dir, entries[from]);
        lemma_listing_distinct(dir, entries, from + 1);
        lemma_listing_names(dir, entries, from + 1);
        assert forall|a: int, b: int| 0 <= a < b < all.len() implies (#[trigger] all[a]).0 != (
        #[trigger] all[b]).0 by {
            if b < first.len() {
                assert(all[a] == first[a] && all[b] == first[b]);
            } else if a >= first.len() {
                assert(all[a] == rest[a - first.len()] && all[b] == rest[b - first.len()]);
            } else {
                assert(all[a] == first[a] && all[b] == rest[b - first.len()]);
                let p = first[a].0;
                if a > 0 {
                    assert(p.subrange(0, path.len() as int) == path);
                    assert(p[dir.len() as int] == p.subrange(0, path.len() as int)[dir.len() as int]);
                }
                assert(p[dir.len() as int] == entries[from].name@);
                let j = choose|j: int|
                    from + 1 <= j < entries.len() && rest[b - first.len()].0[dir.len() as int]
                        == (#[trigger] entries[j]).name@;
                assert(entries[from].name@ != entries[j].name@);
            }
        }
    }
}

/// Where no directory below an entry holds two entries of one name, no path
/// of the entry's listing is listed twice.
pub proof fn lemma_listing_of_distinct(dir: Seq<Seq<char>>, entry: Entry)
    requires
        entry.node matches Node::Dir(sub) ==> distinct_names(sub@),
    ensures
        forall|a: int, b: int|
            0 <= a < b < listing_of(dir, entry).len() ==> (#[trigger] listing_of(dir, entry)[a]).0
                != (#[trigger] listing_of(dir, entry)[b]).0,
    decreases entry, 0int,
{
    let path = dir.push(entry.name@);
    let all = listing_of(dir, entry);
    lemma_listing_of_below(dir, entry);
    match entry.node {
        Node::Dir(sub) => {
            let below = listing(path, sub@, 0);
            lemma_listing_distinct(path, sub@, 0);
            assert forall|a: int, b: int| 0 <= a < b < all.len() implies (#[trigger] all[a]).0 != (
            #[trigger] all[b]).0 by {
                assert(all[b] == below[b - 1]);
                if a > 0 {
                    assert(all[a] == below[a - 1]);
                } else {
                    assert(is_strictly_under(all[b].0, path));
                }
            }
        },
        _ => {},
    }
}

/// The listing of a directory holds the listing of each of its entries.
pub proof fn lemma_listing_holds(dir: Seq<Seq<char>>, entries: Seq<Entry>, from: int, i: int)
    requires
        0 <= from <= i < entries.len(),
    ensures
        forall|r: int|
            0 <= r < listing_of(dir, entries[i]).len() ==> listing(dir, entries, from).contains(
                #[trigger] listing_of(dir, entries[i])[r],
            ),
    decreases i - from,
{
    let all = listing(dir, entries, from);
    let first = listing_of(dir, entries[from]);
    let rest = listing(dir, entries, from + 1);
    let wanted = listing_of(dir, entries[i]);
    if from == i {
        assert forall|r: int| 0 <= r < wanted.len() implies all.contains(#[trigger] wanted[r]) by {
            assert(all[r] == wanted[r]);
        }
    } else {
        lemma_listing_holds(dir, entries, from + 1, i);
        assert forall|r: int| 0 <= r < wanted.len() implies all.contains(#[trigger] wanted[r]) by {
            assert(rest.contains(wanted[r]));
            let q = choose|q: int| 0 <= q < rest.len() && rest[q] == wanted[r];
            assert(all[q + first.len()] == wanted[r]);
        }
    }
}

/// The entry that is found for a name is called so.
pub proof fn lemma_child_at(entries: Seq<Entry>, name: Seq<char>, from: int)
    requires
        0 <= from,
    ensures
        child_at(entries, name, from) matches Some(i) ==> from <= i < entries.len()
            && entries[i].name@ == name,
    decreases entries.len() - from,
{
    if from < entries.len() && entries[from].name@ != name {
        lemma_child_at(entries, name, from + 1);
    }
}

/// What stands at a path of the tree is listed, with that path.
pub proof fn lemma_node_listed(dir: Seq<Seq<char>>, entries: Seq<Entry>, rel: Seq<Seq<char>>)
    requires
        node_at(entries, rel) is Some,
    ensures
        listing(dir, entries, 0).contains((dir + rel, node_at(entries, rel)->0)),
    decreases rel.len(),
{
    let all = listing(dir, entries, 0);
    let i = child_at(entries, rel[0], 0)->0;
    lemma_child_at(entries, rel[0], 0);
    let path = dir.push(entries[i].name@);
    let of_entry = listing_of(dir, entries[i]);
    lemma_listing_holds(dir, entries, 0, i);
    lemma_listing_of_below(dir, entries[i]);
    if rel.len() == 1 {
        assert(dir + rel =~= path);
        assert(all.contains(of_entry[0]));
    } else {
        let sub = entries[i].node->Dir_0;
        lemma_node_listed(path, sub@, rel.drop_first());
        let below = listing(path, sub@, 0);
        let wanted = (path + rel.drop_first(), node_at(sub@, rel.drop_first())->0);
        assert(below.contains(wanted));
        let r = choose|r: int| 0 <= r < below.len() && below[r] == wanted;
        assert(path + rel.drop_first() =~= dir + rel);
        assert(of_entry[r + 1] == below[r]);
        assert(all.contains(of_entry[r + 1]));
    }
}

/// A filter keeps the paths of a listing apart.
pub proof fn lemma_filter_distinct(
    all: Seq<(Seq<Seq<char>>, Node)>,
    pred: spec_fn((Seq<Seq<char>>, Node)) -> bool,
)
    requires
        forall|a: int, b: int| 0 <= a < b < all.len() ==> (#[trigger] all[a]).0 != (#[trigger] all[b]).0,
    ensures
        forall|a: int, b: int|
            0 <= a < b < all.filter(pred).len() ==> (#[trigger] all.filter(pred)[a]).0 != (
            #[trigger] all.filter(pred)[b]).0,
    decreases all.len(),
{
    reveal(Seq::filter);
    if all.len() > 0 {
        let front = all.drop_last();
        let kept = front.filter(pred);
        lemma_filter_distinct(front, pred);
        if pred(all.last()) {
            assert forall|a: int, b: int| 0 <= a < b < all.filter(pred).len() implies (
            #[trigger] all.filter(pred)[a]).0 != (#[trigger] all.filter(pred)[b]).0 by {
                if b == kept.len() {
                    assert(kept.contains(kept[a]));
                    front.lemma_filter_contains_rev(pred, kept[a]);
                    let c = choose|c: int| 0 <= c < front.len() && front[c] == kept[a];
                    assert(all[c] == kept[a]);
                    assert(all[c].0 != all[all.len() - 1].0);
                } else {
                    assert(all.filter(pred)[a] == kept[a]);
                    assert(all.filter(pred)[b] == kept[b]);
                }
            }
        }
    }
}

/// Each item of a listing is the link of a listed entry that is an item.
pub proof fn lemma_item_is_listed(
    snap: Snapshot,
    ign: Set<Seq<Seq<char>>>,
    dirs: Set<Seq<Seq<char>>>,
    base: Seq<Seq<char>>,
    all: Seq<(Seq<Seq<char>>, Node)>,
    i: int,
)
    requires
        0 <= i < items_among(snap, ign, dirs, base, all).len(),
    ensures
        exists|q: int|
            0 <= q < all.len() && is_item(ign, dirs, base, #[trigger] all[q]) && items_among(
                snap,
                ign,
                dirs,
                base,
                all,
            )[i] == link_of(snap, all[q]),
{
    let pred = |listed: (Seq<Seq<char>>, Node)| is_item(ign, dirs, base, listed);
    let kept = all.filter(pred);
    all.lemma_filter_pred(pred, i);
    assert(kept.contains(kept[i]));
    all.lemma_filter_contains_rev(pred, kept[i]);
    let q = choose|q: int| 0 <= q < all.len() && all[q] == kept[i];
    assert(is_item(ign, dirs, base, all[q]));
}

/// In a tree whose entries have names as directories list them, every
/// path of a listing is made of such names behind the directory that is
/// listed.
pub proof fn lemma_listing_plain(dir: Seq<Seq<char>>, entries: Seq<Entry>, from: int)
    requires
        0 <= from,
        listed_names(entries),
    ensures
        forall|q: int, k: int|
            0 <= q < listing(dir, entries, from).len() && dir.len() <= k < (#[trigger] listing(
                dir,
                entries,
                from,
            )[q]).0.len() ==> is_entry_name(#[trigger] listing(dir, entries, from)[q].0[k]),
    decreases entries, entries.len() - from,
{
    if from < entries.len() {
        let all = listing(dir, entries, from);
        let first = listing_of(dir, entries[from]);
        let rest = listing(dir, entries, from + 1);
        lemma_listing_of_plain(dir, entries[from]);
        lemma_listing_plain(dir, entries, from + 1);
        assert forall|q: int, k: int|
            0 <= q < all.len() && dir.len() <= k < (#[trigger] all[q]).0.len() implies is_entry_name(
            #[trigger] all[q].0[k],
        ) by {
            if q < first.len() {
                assert(all[q] == first[q]);
                assert(is_entry_name(first[q].0[k]));
            } else {
                assert(all[q] == rest[q - first.len()]);
                assert(is_entry_name(rest[q - first.len()].0[k]));
            }
        }
    }
}

/// The same, for the listing of one entry.
pub proof fn lemma_listing_of_plain(dir: Seq<Seq<char>>, entry: Entry)
    requires
        is_entry_name(entry.name@),
        entry.node matches Node::Dir(sub) ==> listed_names(sub@),
    ensures
        forall|q: int, k: int|
            0 <= q < listing_of(dir, entry).len() && dir.len() <= k < (#[trigger] listing_of(
                dir,
                entry,
            )[q]).0.len() ==> is_entry_name(#[trigger] listing_of(dir, entry)[q].0[k]),
    decreases entry, 0int,
{
    let path = dir.push(entry.name@);
    let all = listing_of(dir, entry);
    lemma_listing_of_below(dir, entry);
    match entry.node {
        Node::Dir(sub) => {
            let below = listing(path, sub@, 0);
            lemma_listing_plain(path, sub@, 0);
            assert forall|q: int, k: int|
                0 <= q < all.len() && dir.len() <= k < (#[trigger] all[q]).0.len() implies is_entry_name(
                #[trigger] all[q].0[k],
            ) by {
                if q > 0 {
                    assert(all[q] == below[q - 1]);
                    let p = below[q - 1].0;
                    if k == dir.len() {
                        assert(p.subrange(0, path.len() as int) == path);
                        assert(p[k] == p.subrange(0, path.len() as int)[k]);
                    } else {
                        assert(is_entry_name(below[q - 1].0[k]));
                    }
                }
            }
        },
        _ => {},
    }
}

} // verus!
