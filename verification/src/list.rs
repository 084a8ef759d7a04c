//! The walk that lists the items of a repository.

use crate::config::{config_at, get_config, resolve};
use crate::dest::{destination, map_destination};
use crate::error::{in_turn, Error};
use crate::ignore::{
    build_ignores, contains_path, distinct_paths, has_bad_pattern, holds, is_ignored,
};
use crate::items::{follows_destinations, items_among, lemma_walk_fails, lemma_walk_items};
use crate::path::{is_under, joined, FsPath};
use crate::snapshot::{canonical_of, is_tree_dir, Snapshot};
use crate::structs::{links_view, path_set, Link, LinkView, PathDict};
use crate::tree::{listing, Entry, Node};
use vstd::prelude::*;

verus! {

/// What the walk does with one entry of a directory.
#[derive(Debug, Clone, Copy, PartialEq, Eq, Structural)]
pub enum Step {
    /// The entry is passed over.
    Skip,
    /// The entry is an item: a file.
    File,
    /// The entry is an item: a directory taken as a whole.
    DirectoryLink,
    /// The entry is a directory whose entries are walked in turn.
    Descend,
}

/// The step for an entry: an ignored entry is passed over, a file is an
/// item, a directory is an item if it is a boundary and is walked if not,
/// and what could not be inspected is passed over.
pub open spec fn step_for(
    ign: Set<Seq<Seq<char>>>,
    dirs: Set<Seq<Seq<char>>>,
    path: Seq<Seq<char>>,
    node: Node,
) -> Step {
    if ign.contains(path) {
        Step::Skip
    } else {
        match node {
            Node::File(_) => Step::File,
            Node::Dir(_) => if dirs.contains(path) {
                Step::DirectoryLink
            } else {
                Step::Descend
            },
            Node::Other => Step::Skip,
        }
    }
}

/// The one item that an entry at `path` is.
pub open spec fn emit(snap: Snapshot, path: Seq<Seq<char>>, is_dir: bool) -> Result<
    Seq<LinkView>,
    Error,
> {
    match destination(snap, path) {
        Ok(target) => Ok(seq![LinkView { source: path, target, is_dir }]),
        Err(e) => Err(e),
    }
}

/// The items that the walk finds in the entries of the directory `dir`,
/// from the `from`-th on, in walk order.
pub open spec fn walk(
    snap: Snapshot,
    ign: Set<Seq<Seq<char>>>,
    dirs: Set<Seq<Seq<char>>>,
    dir: Seq<Seq<char>>,
    entries: Seq<Entry>,
    from: int,
) -> Result<Seq<LinkView>, Error>
    decreases entries, entries.len() - from,
{
    if from < 0 || from >= entries.len() {
        Ok(Seq::empty())
    } else {
        in_turn(
            visit(snap, ign, dirs, dir, entries[from]),
            walk(snap, ign, dirs, dir, entries, from + 1),
        )
    }
}

/// The items that the walk finds at one entry of the directory `dir` and
/// below it.
pub open spec fn visit(
    snap: Snapshot,
    ign: Set<Seq<Seq<char>>>,
    dirs: Set<Seq<Seq<char>>>,
    dir: Seq<Seq<char>>,
    entry: Entry,
) -> Result<Seq<LinkView>, Error>
    decreases entry, 0int,
{
    let path = dir.push(entry.name@);
    match step_for(ign, dirs, path, entry.node) {
        Step::Skip => Ok(Seq::empty()),
        Step::File => emit(snap, path, false),
        Step::DirectoryLink => emit(snap, path, true),
        Step::Descend => match entry.node {
            Node::Dir(sub) => walk(snap, ign, dirs, path, sub@, 0),
            _ => Ok(Seq::empty()),
        },
    }
}

/// Decides what the walk does with the entry at `path`.
pub fn classify(dict: &PathDict, path: &FsPath, node: &Node) -> (s: Step)
    ensures
        s == step_for(path_set(dict.ign@), path_set(dict.dir@), path@, *node),
{
    if holds(&dict.ign, path) {
        Step::Skip
    } else {
        match node {
            Node::File(_) => Step::File,
            Node::Dir(_) => if holds(&dict.dir, path) {
                Step::DirectoryLink
            } else {
                Step::Descend
            },
            Node::Other => Step::Skip,
        }
    }
}

/// Walks the entries of the directory `dir` and lists the items: an entry of
/// the ignore set is passed over with all below it, a file is an item, a
/// directory of the boundary set is one item and is not entered, any other
/// directory is entered and is no item itself.
pub fn list_dir(snap: &Snapshot, dict: &PathDict, dir: &FsPath, entries: &Vec<Entry>) -> (r: Result<
    Vec<Link>,
    Error,
>)
    requires
        is_under(dir@, snap.root@),
    ensures
        match r {
            Ok(items) => walk(*snap, path_set(dict.ign@), path_set(dict.dir@), dir@, entries@, 0)
                == Ok::<Seq<LinkView>, Error>(links_view(items@)),
            Err(e) => walk(*snap, path_set(dict.ign@), path_set(dict.dir@), dir@, entries@, 0)
                == Err::<Seq<LinkView>, Error>(e),
        },
    decreases entries,
{
    let ghost ign = path_set(dict.ign@);
    let ghost dirs = path_set(dict.dir@);
    let mut items: Vec<Link> = Vec::new();
    let mut i: usize = 0;
    assert(links_view(items@) =~= Seq::empty());
    while i < entries.len()
        invariant
            i <= entries.len(),
            is_under(dir@, snap.root@),
            ign == path_set(dict.ign@),
            dirs == path_set(dict.dir@),
            walk(*snap, ign, dirs, dir@, entries@, 0) == in_turn(
                Ok(links_view(items@)),
                walk(*snap, ign, dirs, dir@, entries@, i as int),
            ),
        decreases entries.len() - i,
    {
        let entry = &entries[i];
        let path = dir.child(&entry.name);
        let ghost before = links_view(items@);
        let ghost here = visit(*snap, ign, dirs, dir@, entries@[i as int]);
        let ghost rest = walk(*snap, ign, dirs, dir@, entries@, i + 1);
        assert(walk(*snap, ign, dirs, dir@, entries@, i as int) == in_turn(here, rest));
        match classify(dict, &path, &entry.node) {
            Step::Skip => {
                assert(before + Seq::<LinkView>::empty() =~= before);
            },
            Step::File => {
                match map_destination(snap, &path) {
                    Ok(target) => {
                        items.push(Link::new(path, target, false));
                        assert(links_view(items@) =~= before + here->Ok_0);
                    },
                    Err(e) => {
                        return Err(e);
                    },
                }
            },
            Step::DirectoryLink => {
                match map_destination(snap, &path) {
                    Ok(target) => {
                        items.push(Link::new(path, target, true));
                        assert(links_view(items@) =~= before + here->Ok_0);
                    },
                    Err(e) => {
                        return Err(e);
                    },
                }
            },
            Step::Descend => {
                match &entry.node {
                    Node::Dir(sub) => {
                        match list_dir(snap, dict, &path, sub) {
                            Ok(mut below) => {
                                let ghost added = links_view(below@);
                                items.append(&mut below);
                                assert(links_view(items@) =~= before + added);
                            },
                            Err(e) => {
                                return Err(e);
                            },
                        }
                    },
                    _ => {},
                }
            },
        }
        proof {
            if let Ok(rest_items) = rest {
                assert((before + here->Ok_0) + rest_items =~= before + (here->Ok_0 + rest_items));
            }
        }
        i += 1;
    }
    assert(links_view(items@) + Seq::<LinkView>::empty() =~= links_view(items@));
    Ok(items)
}

/// What one entry of a configuration's list of directories stands for: the
/// canonical path of the entry, read from the configuration's directory, if
/// that path resolves and is a directory of the tree.
pub open spec fn boundary_entry(snap: Snapshot, dir: Seq<Seq<char>>, entry: Seq<Seq<char>>) -> Option<
    Seq<Seq<char>>,
> {
    match canonical_of(snap.canonical@, joined(dir, entry)) {
        Some(full) => if is_tree_dir(snap, full) {
            Some(full)
        } else {
            None
        },
        None => None,
    }
}

/// `p` is a directory boundary: the configuration that governs the root
/// lists a directory that stands for `p`.
pub open spec fn is_boundary(snap: Snapshot, p: Seq<Seq<char>>) -> bool {
    match resolve(snap.configs@, snap.root@, snap.os@) {
        Some(at) => match config_at(snap.configs@, at).dirs {
            Some(listed) => exists|k: int|
                0 <= k < listed@.len() && boundary_entry(
                    snap,
                    snap.configs@[at.0].dir@,
                    (#[trigger] listed@[k])@,
                ) == Some(p),
            None => false,
        },
        None => false,
    }
}

/// The ignore set of the snapshot's tree.
pub open spec fn ignore_set(snap: Snapshot) -> Set<Seq<Seq<char>>> {
    Set::new(|p: Seq<Seq<char>>| is_ignored(listing(snap.root@, snap.entries@, 0), p))
}

/// The boundary set of a walk: empty when directories are not to be taken
/// as a whole.
pub open spec fn boundary_set(snap: Snapshot, ignore_dirlink: bool) -> Set<Seq<Seq<char>>> {
    if ignore_dirlink {
        Set::empty()
    } else {
        Set::new(|p: Seq<Seq<char>>| is_boundary(snap, p))
    }
}

/// The items of a repository, in walk order.
pub open spec fn items_of(snap: Snapshot, ignore_dirlink: bool) -> Result<Seq<LinkView>, Error> {
    if has_bad_pattern(listing(snap.root@, snap.entries@, 0)) {
        Err(Error::Pattern)
    } else {
        walk(
            snap,
            ignore_set(snap),
            boundary_set(snap, ignore_dirlink),
            snap.root@,
            snap.entries@,
            0,
        )
    }
}

/// Collects the directory boundaries: the directories that the configuration
/// governing the root lists. An entry of that list is read from the
/// configuration's own directory; one that does not resolve, or that is no
/// directory of the tree, is left out. The boundaries are a set: a directory
/// that is listed more than once is held once.
pub fn list_diritems(snap: &Snapshot) -> (r: Vec<FsPath>)
    ensures
        forall|p: Seq<Seq<char>>| contains_path(r@, p) <==> is_boundary(*snap, p),
        distinct_paths(r@),
{
    let mut items: Vec<FsPath> = Vec::new();
    if let Some(found) = get_config(&snap.configs, &snap.root, &snap.os) {
        if let Some(listed) = &found.config.dirs {
            let ghost dir = found.dir@;
            let mut k: usize = 0;
            while k < listed.len()
                invariant
                    k <= listed.len(),
                    dir == found.dir@,
                    distinct_paths(items@),
                    forall|i: int|
                        0 <= i < items@.len() ==> exists|j: int|
                            0 <= j < k && boundary_entry(*snap, dir, (#[trigger] listed@[j])@)
                                == Some((#[trigger] items@[i])@),
                    forall|j: int|
                        0 <= j < k && boundary_entry(*snap, dir, (#[trigger] listed@[j])@).is_some()
                            ==> contains_path(items@, boundary_entry(*snap, dir, listed@[j]@)->0),
                decreases listed.len() - k,
            {
                let ghost before = items@;
                if let Some(full) = snap.canonicalize(&found.dir.join(&listed[k])) {
                    if snap.is_dir(full) && !holds(&items, full) {
                        items.push(full.clone());
                        assert(forall|i: int| 0 <= i < before.len() ==> items@[i] == before[i]);
                        assert(items@[before.len() as int]@ == full@);
                    }
                }
                assert forall|j: int|
                    0 <= j < k + 1 && boundary_entry(
                        *snap,
                        dir,
                        (#[trigger] listed@[j])@,
                    ).is_some() implies contains_path(
                    items@,
                    boundary_entry(*snap, dir, listed@[j]@)->0,
                ) by {
                    let p = boundary_entry(*snap, dir, listed@[j]@)->0;
                    if j < k || contains_path(before, p) {
                        let i = choose|i: int| 0 <= i < before.len() && (#[trigger] before[i])@ == p;
                        assert(items@[i]@ == p);
                    } else {
                        assert(items@[before.len() as int]@ == p);
                    }
                }
                k += 1;
            }
            proof {
                assert forall|p: Seq<Seq<char>>| contains_path(items@, p) <==> is_boundary(
                    *snap,
                    p,
                ) by {
                    if contains_path(items@, p) {
                        let i = choose|i: int| 0 <= i < items@.len() && (#[trigger] items@[i])@ == p;
                        let j = choose|j: int|
                            0 <= j < k && boundary_entry(*snap, dir, (#[trigger] listed@[j])@)
                                == Some(items@[i]@);
                        assert(boundary_entry(*snap, dir, listed@[j]@) == Some(p));
                    }
                }
            }
        }
    }
    items
}

/// Lists the items of a repository: every file of its tree that is not
/// ignored and does not lie below an ignored directory or a directory
/// boundary, and every directory boundary that is reached, each with its
/// place in the destination tree, in walk order. With `ignore_dirlink` no
/// directory is a boundary, and every directory is entered.
pub fn list_items(snap: &Snapshot, ignore_dirlink: bool) -> (r: Result<Vec<Link>, Error>)
    ensures
        match r {
            Ok(items) => items_of(*snap, ignore_dirlink) == Ok::<Seq<LinkView>, Error>(
                links_view(items@),
            ),
            Err(e) => items_of(*snap, ignore_dirlink) == Err::<Seq<LinkView>, Error>(e),
        },
        r matches Ok(items) ==> links_view(items@) == items_among(
            *snap,
            ignore_set(*snap),
            boundary_set(*snap, ignore_dirlink),
            snap.root@,
            listing(snap.root@, snap.entries@, 0),
        ),
        r matches Err(e) ==> e == Error::Pattern || !has_bad_pattern(
            listing(snap.root@, snap.entries@, 0),
        ),
        !has_bad_pattern(listing(snap.root@, snap.entries@, 0)) ==> follows_destinations(
            *snap,
            ignore_set(*snap),
            boundary_set(*snap, ignore_dirlink),
            snap.root@,
            listing(snap.root@, snap.entries@, 0),
            match r {
                Ok(items) => Ok(links_view(items@)),
                Err(e) => Err(e),
            },
        ),
{
    let dir = if ignore_dirlink {
        Vec::new()
    } else {
        list_diritems(snap)
    };
    let ign = match build_ignores(&snap.root, &snap.entries) {
        Ok(ign) => ign,
        Err(e) => {
            return Err(e);
        },
    };
    let dict = PathDict { dir, ign };
    assert(path_set(dict.ign@) =~= ignore_set(*snap));
    assert(path_set(dict.dir@) =~= boundary_set(*snap, ignore_dirlink));
    let r = list_dir(snap, &dict, &snap.root, &snap.entries);
    proof {
        lemma_walk_fails(
            *snap,
            ignore_set(*snap),
            boundary_set(*snap, ignore_dirlink),
            snap.root@,
            snap.entries@,
            0,
        );
        if r is Ok {
            lemma_walk_items(
                *snap,
                ignore_set(*snap),
                boundary_set(*snap, ignore_dirlink),
                snap.root@,
                snap.entries@,
                0,
            );
        }
    }
    r
}

/// The items of the repositories from the `from`-th on that are listed
/// before one of them fails: the items of each repository in turn, up to the
/// first repository that cannot be listed.
pub open spec fn items_before_failure(snaps: Seq<Snapshot>, ignore_dirlink: bool, from: int) -> Seq<
    LinkView,
>
    decreases snaps.len() - from,
{
    if from < 0 || from >= snaps.len() {
        Seq::empty()
    } else {
        match items_of(snaps[from], ignore_dirlink) {
            Ok(items) => items + items_before_failure(snaps, ignore_dirlink, from + 1),
            Err(_) => Seq::empty(),
        }
    }
}

/// Why the first of the repositories from the `from`-th on that cannot be
/// listed cannot be; nothing where each can.
pub open spec fn first_failure(snaps: Seq<Snapshot>, ignore_dirlink: bool, from: int) -> Option<
    Error,
>
    decreases snaps.len() - from,
{
    if from < 0 || from >= snaps.len() {
        None
    } else {
        match items_of(snaps[from], ignore_dirlink) {
            Ok(_) => first_failure(snaps, ignore_dirlink, from + 1),
            Err(e) => Some(e),
        }
    }
}

/// The items of several repositories, as far as they could be listed.
#[derive(Debug, PartialEq, Eq)]
pub struct Gathered {
    /// The items of the repositories before the first that cannot be
    /// listed, one repository after the other.
    pub items: Vec<Link>,
    /// Why that repository cannot be listed.
    pub failed: Option<Error>,
}

/// Lists the items of several repositories, one repository after the other.
/// A repository that cannot be listed ends the listing: the items of the
/// repositories before it are handed out together with the failure.
pub fn gather(snaps: &Vec<Snapshot>, ignore_dirlink: bool) -> (r: Gathered)
    ensures
        links_view(r.items@) == items_before_failure(snaps@, ignore_dirlink, 0),
        r.failed == first_failure(snaps@, ignore_dirlink, 0),
{
    let mut items: Vec<Link> = Vec::new();
    let mut i: usize = 0;
    assert(links_view(items@) =~= Seq::empty());
    while i < snaps.len()
        invariant
            i <= snaps.len(),
            links_view(items@) + items_before_failure(snaps@, ignore_dirlink, i as int)
                == items_before_failure(snaps@, ignore_dirlink, 0),
            first_failure(snaps@, ignore_dirlink, i as int) == first_failure(
                snaps@,
                ignore_dirlink,
                0,
            ),
        decreases snaps.len() - i,
    {
        let ghost before = links_view(items@);
        let ghost rest = items_before_failure(snaps@, ignore_dirlink, i + 1);
        match list_items(&snaps[i], ignore_dirlink) {
            Ok(mut next) => {
                let ghost added = links_view(next@);
                items.append(&mut next);
                assert(links_view(items@) =~= before + added);
                assert((before + added) + rest =~= before + (added + rest));
            },
            Err(e) => {
                assert(before + Seq::<LinkView>::empty() =~= before);
                return Gathered { items, failed: Some(e) };
            },
        }
        i += 1;
    }
    assert(links_view(items@) + Seq::<LinkView>::empty() =~= links_view(items@));
    Gathered { items, failed: None }
}

} // verus!
