//! What a plan is made of: what was seen at a target, and what is to be done.

use crate::error::Error;
use crate::path::{parent_of, root_name, FsPath};
use crate::structs::{Link, LinkView};
use vstd::prelude::*;

verus! {

/// What stands at a path of the destination tree.
#[derive(Debug, PartialEq, Eq)]
pub enum Seen {
    /// Nothing that can be reached.
    Missing,
    /// A symlink, with the canonical path that it points to.
    Link(FsPath),
    /// Anything else.
    Other,
}

/// What was seen, as plain values.
pub ghost enum SeenView {
    Missing,
    Link(Seq<Seq<char>>),
    Other,
}

impl View for Seen {
    type V = SeenView;

    open spec fn view(&self) -> SeenView {
        match self {
            Seen::Missing => SeenView::Missing,
            Seen::Link(p) => SeenView::Link(p@),
            Seen::Other => SeenView::Other,
        }
    }
}

/// A path of the destination tree with what was seen there.
#[derive(Debug, PartialEq, Eq)]
pub struct Observed {
    pub path: FsPath,
    pub seen: Seen,
}

/// What the first record for `p` at or after `from` says. A path without a
/// record counts as missing.
pub open spec fn seen_from(table: Seq<Observed>, p: Seq<Seq<char>>, from: int) -> SeenView
    decreases table.len() - from,
{
    if from < 0 || from >= table.len() {
        SeenView::Missing
    } else if table[from].path@ == p {
        table[from].seen@
    } else {
        seen_from(table, p, from + 1)
    }
}

/// What was seen at `p`.
pub open spec fn seen_at(table: Seq<Observed>, p: Seq<Seq<char>>) -> SeenView {
    seen_from(table, p, 0)
}

/// One change to the disk. The changes of a job are carried out in their
/// order, and one that fails ends the job.
#[derive(Debug, PartialEq, Eq)]
pub enum Op {
    /// Make the directory and those above it.
    MakeDirs(FsPath),
    /// Move `from` to `to`, making the directories above `to`.
    Backup { from: FsPath, to: FsPath },
    /// Make `target` a symlink to `source`.
    Symlink { source: FsPath, target: FsPath },
    /// Copy the file `source` to `target`.
    Copy { source: FsPath, target: FsPath },
    /// Remove the file or symlink.
    Remove(FsPath),
    /// Remove the directory if it is empty, then go on with the directory
    /// above it in the same way.
    Prune(FsPath),
}

/// A change, as plain values.
pub ghost enum OpView {
    MakeDirs(Seq<Seq<char>>),
    Backup { from: Seq<Seq<char>>, to: Seq<Seq<char>> },
    Symlink { source: Seq<Seq<char>>, target: Seq<Seq<char>> },
    Copy { source: Seq<Seq<char>>, target: Seq<Seq<char>> },
    Remove(Seq<Seq<char>>),
    Prune(Seq<Seq<char>>),
}

impl View for Op {
    type V = OpView;

    open spec fn view(&self) -> OpView {
        match self {
            Op::MakeDirs(p) => OpView::MakeDirs(p@),
            Op::Backup { from, to } => OpView::Backup { from: from@, to: to@ },
            Op::Symlink { source, target } => OpView::Symlink { source: source@, target: target@ },
            Op::Copy { source, target } => OpView::Copy { source: source@, target: target@ },
            Op::Remove(p) => OpView::Remove(p@),
            Op::Prune(p) => OpView::Prune(p@),
        }
    }
}

/// The view of each change.
pub open spec fn ops_view(ops: Seq<Op>) -> Seq<OpView> {
    ops.map_values(|o: Op| o@)
}

/// What is decided for one item.
#[derive(Debug, Clone, Copy, PartialEq, Eq, Structural)]
pub enum Verdict {
    /// Nothing is to be done.
    Skip,
    /// The target is free and is made.
    Create,
    /// The target is taken; what stands there is moved to the backup
    /// directory before the target is made.
    Replace,
    /// The target is removed.
    Remove,
    /// The source could not be read; nothing is done.
    Unreadable,
}

/// The plan for one item.
#[derive(Debug, PartialEq, Eq)]
pub struct Job {
    pub link: Link,
    pub verdict: Verdict,
    pub ops: Vec<Op>,
}

/// A job, as plain values.
pub ghost struct JobView {
    pub link: LinkView,
    pub verdict: Verdict,
    pub ops: Seq<OpView>,
}

impl View for Job {
    type V = JobView;

    open spec fn view(&self) -> JobView {
        JobView { link: self.link@, verdict: self.verdict, ops: ops_view(self.ops@) }
    }
}

/// The view of each job.
pub open spec fn jobs_view(jobs: Seq<Job>) -> Seq<JobView> {
    jobs.map_values(|j: Job| j@)
}

/// The plan for several repositories, as far as it could be made.
#[derive(Debug, PartialEq, Eq)]
pub struct Planned {
    /// The jobs for the items of the repositories before the first that
    /// cannot be listed. They are to be carried out whether or not a
    /// repository failed.
    pub jobs: Vec<Job>,
    /// Why that repository cannot be listed.
    pub failed: Option<Error>,
}

/// The directory that holds `p`; the root for a path that has none above it.
pub open spec fn dir_above(p: Seq<Seq<char>>) -> Seq<Seq<char>> {
    match parent_of(p) {
        Some(dir) => dir,
        None => seq![root_name()],
    }
}

/// What stands at a path, by what was found there: nothing where nothing
/// can be reached; a symlink where the path can be read as one; anything
/// else where it cannot.
pub open spec fn seen_of(exists: bool, link_to: Option<FsPath>) -> SeenView {
    if !exists {
        SeenView::Missing
    } else {
        match link_to {
            Some(to) => SeenView::Link(to@),
            None => SeenView::Other,
        }
    }
}

impl Seen {
    /// Says what stands at a path, given whether anything can be reached
    /// there and, if the path can be read as a symlink, the canonical path
    /// that the symlink points to.
    pub fn of(exists: bool, link_to: Option<FsPath>) -> (r: Seen)
        ensures
            r@ == seen_of(exists, link_to),
    {
        if !exists {
            Seen::Missing
        } else {
            match link_to {
                Some(to) => Seen::Link(to),
                None => Seen::Other,
            }
        }
    }
}

impl Clone for Seen {
    fn clone(&self) -> (r: Self)
        ensures
            r@ == self@,
    {
        match self {
            Seen::Missing => Seen::Missing,
            Seen::Link(p) => Seen::Link(p.clone()),
            Seen::Other => Seen::Other,
        }
    }
}

/// Looks up what was seen at `p`.
pub fn lookup<'a>(table: &'a Vec<Observed>, p: &FsPath) -> (r: Option<&'a Seen>)
    ensures
        match r {
            Some(seen) => seen@ == seen_at(table@, p@),
            None => seen_at(table@, p@) == SeenView::Missing,
        },
{
    let mut i: usize = 0;
    while i < table.len()
        invariant
            i <= table.len(),
            seen_at(table@, p@) == seen_from(table@, p@, i as int),
        decreases table.len() - i,
    {
        if table[i].path.same(p) {
            return Some(&table[i].seen);
        }
        i += 1;
    }
    None
}

/// The directory that holds `p`; the root for a path that has none above it.
pub fn directory_of(p: &FsPath) -> (r: FsPath)
    ensures
        r@ == dir_above(p@),
{
    match p.parent() {
        Some(dir) => dir,
        None => {
            proof {
                reveal_strlit("/");
            }
            let root = String::from_str("/");
            assert(root@ =~= root_name());
            FsPath::new().child(&root)
        },
    }
}

} // verus!
