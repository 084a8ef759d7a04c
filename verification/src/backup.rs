//! Where a file goes that is about to be overwritten.

use crate::path::{joined, parsed, FsPath};
use crate::text::{decimal, decimal_text};
use vstd::prelude::*;

verus! {

/// A path without its first component.
pub open spec fn without_first(p: Seq<Seq<char>>) -> Seq<Seq<char>> {
    if p.len() == 0 {
        p
    } else {
        p.subrange(1, p.len() as int)
    }
}

/// The place of `path` in the backup directory: the path, without its first
/// component, below the backup directory.
pub open spec fn backup_target(backupdir: Seq<Seq<char>>, path: Seq<Seq<char>>) -> Seq<Seq<char>> {
    joined(backupdir, without_first(path))
}

/// The name of the directory that holds the backups.
pub open spec fn backups_name() -> Seq<char> {
    seq!['.', 'b', 'a', 'c', 'k', 'u', 'p', 's']
}

/// The name of the directory of one user's backups.
pub open spec fn uid_name(uid: nat) -> Seq<char> {
    seq!['u', 'i', 'd'] + decimal_text(uid)
}

/// The backup directory of one run: below the home directory the directory
/// of backups, then that of the user, then the directories that the time
/// stamp names.
pub open spec fn backup_root(home: Seq<Seq<char>>, uid: nat, stamp: Seq<char>) -> Seq<Seq<char>> {
    joined(home + seq![backups_name(), uid_name(uid)], parsed(stamp))
}

/// Gives the place in the backup directory to which `path` is moved before
/// it is overwritten. The structure of `path` is kept, but for its first
/// component.
pub fn backup(backupdir: &FsPath, path: &FsPath) -> (r: FsPath)
    ensures
        r@ == backup_target(backupdir@, path@),
{
    let rest = if path.len() == 0 {
        path.clone()
    } else {
        path.suffix(1)
    };
    backupdir.join(&rest)
}

/// Gives the backup directory of a run that a user starts at a time. The
/// time stamp is written with `/` between the directories that it names.
pub fn get_backuppath(home: &FsPath, uid: u32, stamp: &str) -> (r: FsPath)
    ensures
        r@ == backup_root(home@, uid as nat, stamp@),
{
    proof {
        reveal_strlit(".backups");
        reveal_strlit("uid");
    }
    let backups = String::from_str(".backups");
    assert(backups@ =~= backups_name());
    let mut user = String::from_str("uid");
    user.append(decimal(uid as u64).as_str());
    assert(user@ =~= uid_name(uid as nat));
    let dir = home.child(&backups).child(&user);
    assert(dir@ =~= home@ + seq![backups_name(), uid_name(uid as nat)]);
    dir.join(&FsPath::parse(stamp))
}

} // verus!
