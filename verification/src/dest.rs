//! Where an item of the repository belongs.

use crate::config::{
    config_at, get_config, governing, law_config_is_scoped, law_nearest_config_governs, offered,
    resolve,
};
use crate::error::Error;
use crate::path::{is_strictly_under, is_under, joined, parent_of, FsPath};
use crate::snapshot::{canonical_of, Snapshot};
use vstd::prelude::*;

verus! {

/// The destination that the configuration governing `src` gives: the
/// configuration is the one that governs the directory which holds `src`.
pub open spec fn configured_dest(snap: Snapshot, src: Seq<Seq<char>>) -> Option<Seq<Seq<char>>> {
    match parent_of(src) {
        Some(dir) => match resolve(snap.configs@, dir, snap.os@) {
            Some(at) => match config_at(snap.configs@, at).dest {
                Some(d) => Some(d@),
                None => None,
            },
            None => None,
        },
        None => None,
    }
}

/// The destination root of `src`: the configured one, else the home
/// directory.
pub open spec fn dest_root(snap: Snapshot, src: Seq<Seq<char>>) -> Option<Seq<Seq<char>>> {
    match configured_dest(snap, src) {
        Some(d) => Some(d),
        None => match snap.home {
            Some(h) => Some(h@),
            None => None,
        },
    }
}

/// The place of `source` in the destination tree: what `source` is called
/// from the repository's root, below the canonical destination root.
pub open spec fn destination(snap: Snapshot, source: Seq<Seq<char>>) -> Result<
    Seq<Seq<char>>,
    Error,
> {
    match dest_root(snap, source) {
        None => Err(Error::MissingDestination),
        Some(raw) => match canonical_of(snap.canonical@, raw) {
            None => Err(Error::Canonicalize),
            Some(base) => Ok(
                joined(base, source.subrange(snap.root@.len() as int, source.len() as int)),
            ),
        },
    }
}

/// The files of a directory whose configuration names a destination go
/// there: where the nearest directory at or above the one that holds
/// `source` to offer a configuration offers one with a destination, `source`
/// is mapped below that destination, whatever the directories further up
/// say.
pub proof fn law_inner_destination(snap: Snapshot, source: Seq<Seq<char>>, depth: int)
    requires
        parent_of(source).is_some(),
        1 <= depth <= parent_of(source)->0.len(),
        offered(snap.configs@, parent_of(source)->0.subrange(0, depth), snap.os@).is_some(),
        forall|e: int|
            depth < e <= parent_of(source)->0.len() ==> (#[trigger] offered(
                snap.configs@,
                parent_of(source)->0.subrange(0, e),
                snap.os@,
            )).is_none(),
        config_at(
            snap.configs@,
            offered(snap.configs@, parent_of(source)->0.subrange(0, depth), snap.os@)->0,
        ).dest.is_some(),
    ensures
        dest_root(snap, source) == Some(
            config_at(
                snap.configs@,
                offered(snap.configs@, parent_of(source)->0.subrange(0, depth), snap.os@)->0,
            ).dest->0@,
        ),
{
    law_nearest_config_governs(snap.configs@, parent_of(source)->0, snap.os@, depth);
}

/// The configuration of a directory decides only for what is in it: two
/// snapshots that differ only in the configurations recorded for `sub` map
/// every source that does not lie in `sub` to the same place.
pub proof fn law_destination_is_scoped(
    snap: Snapshot,
    other: Snapshot,
    sub: Seq<Seq<char>>,
    source: Seq<Seq<char>>,
)
    requires
        other.root@ == snap.root@,
        other.canonical@ == snap.canonical@,
        other.home == snap.home,
        other.os@ == snap.os@,
        other.configs@.len() == snap.configs@.len(),
        forall|k: int|
            0 <= k < snap.configs@.len() ==> (#[trigger] other.configs@[k]).dir@
                == snap.configs@[k].dir@,
        forall|k: int|
            0 <= k < snap.configs@.len() && snap.configs@[k].dir@ != sub
                ==> #[trigger] other.configs@[k] == snap.configs@[k],
        !is_strictly_under(source, sub),
    ensures
        destination(other, source) == destination(snap, source),
{
    match parent_of(source) {
        Some(dir) => {
            if sub.is_prefix_of(dir) {
                assert(dir.subrange(0, sub.len() as int) =~= source.subrange(0, sub.len() as int));
            }
            law_config_is_scoped(snap.configs@, other.configs@, sub, dir, snap.os@);
            assert(governing(other.configs@, dir, snap.os@) == governing(
                snap.configs@,
                dir,
                snap.os@,
            ));
        },
        None => {},
    }
    assert(configured_dest(other, source) == configured_dest(snap, source));
}

/// The destination root for `src`: the one that the governing configuration
/// gives, else the home directory. Without either there is none.
pub fn get_dest(snap: &Snapshot, src: &FsPath) -> (r: Result<FsPath, Error>)
    ensures
        match r {
            Ok(d) => dest_root(*snap, src@) == Some(d@),
            Err(e) => e == Error::MissingDestination && dest_root(*snap, src@).is_none(),
        },
{
    if let Some(dir) = src.parent() {
        if let Some(found) = get_config(&snap.configs, &dir, &snap.os) {
            if let Some(d) = &found.config.dest {
                return Ok(d.clone());
            }
        }
    }
    match &snap.home {
        Some(h) => Ok(h.clone()),
        None => Err(Error::MissingDestination),
    }
}

/// Maps a path of the repository to its place in the destination tree.
pub fn map_destination(snap: &Snapshot, source: &FsPath) -> (r: Result<FsPath, Error>)
    requires
        is_under(source@, snap.root@),
    ensures
        match r {
            Ok(target) => destination(*snap, source@) == Ok::<Seq<Seq<char>>, Error>(target@),
            Err(e) => destination(*snap, source@) == Err::<Seq<Seq<char>>, Error>(e),
        },
{
    let raw = match get_dest(snap, source) {
        Ok(raw) => raw,
        Err(e) => {
            return Err(e);
        },
    };
    let base = match snap.canonicalize(&raw) {
        Some(base) => base,
        None => {
            return Err(Error::Canonicalize);
        },
    };
    let relative = source.suffix(snap.root.len());
    Ok(base.join(&relative))
}

} // verus!
