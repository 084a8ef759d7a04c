//! Copying the files of a repository into the destination tree.

use crate::backup::{backup, backup_target};
use crate::error::Error;
use crate::list::{first_failure, gather, items_before_failure, items_of, list_items};
use crate::path::FsPath;
use crate::plan::{
    dir_above, directory_of, jobs_view, Job, JobView, Op, OpView, Planned, Verdict,
};
use crate::snapshot::Snapshot;
use crate::structs::{links_view, Link, LinkView};
use vstd::prelude::*;

verus! {

/// A target that exists, with the bytes of the item's source and its own,
/// each as far as it could be read.
#[derive(Debug, PartialEq, Eq)]
pub struct Held {
    pub path: FsPath,
    pub source: Option<Vec<u8>>,
    pub target: Option<Vec<u8>>,
}

impl Held {
    /// Says what is held of a target: nothing where the target does not
    /// exist; else the bytes of the source and of the target, each as far as
    /// it could be read.
    pub fn of(path: FsPath, exists: bool, source: Option<Vec<u8>>, target: Option<Vec<u8>>) -> (r:
        Option<Held>)
        ensures
            r.is_some() == exists,
            r matches Some(held) ==> held.path == path && held.source == source && held.target
                == target,
    {
        if exists {
            Some(Held { path, source, target })
        } else {
            None
        }
    }
}

/// The bytes that could be read.
pub open spec fn bytes_of(read: Option<Vec<u8>>) -> Option<Seq<u8>> {
    match read {
        Some(b) => Some(b@),
        None => None,
    }
}

/// The position of the first record for `p` at or after `from`.
pub open spec fn held_from(table: Seq<Held>, p: Seq<Seq<char>>, from: int) -> Option<int>
    decreases table.len() - from,
{
    if from < 0 || from >= table.len() {
        None
    } else if table[from].path@ == p {
        Some(from)
    } else {
        held_from(table, p, from + 1)
    }
}

/// What was read at the target `p`: the source's bytes and the target's. A
/// target without a record does not exist.
pub open spec fn held_at(table: Seq<Held>, p: Seq<Seq<char>>) -> Option<
    (Option<Seq<u8>>, Option<Seq<u8>>),
> {
    match held_from(table, p, 0) {
        Some(i) => Some((bytes_of(table[i].source), bytes_of(table[i].target))),
        None => None,
    }
}

/// The plan for copying one item. A free target is written, after the
/// directory for it has been made. A target that holds the bytes of the
/// source is left alone. Any other target is first moved to the backup
/// directory and written after that. Where the target exists and the source
/// cannot be read, nothing is done.
pub open spec fn copy_job(
    link: LinkView,
    held: Option<(Option<Seq<u8>>, Option<Seq<u8>>)>,
    backupdir: Seq<Seq<char>>,
) -> JobView {
    let write = OpView::Copy { source: link.source, target: link.target };
    match held {
        None => JobView {
            link,
            verdict: Verdict::Create,
            ops: seq![OpView::MakeDirs(dir_above(link.target)), write],
        },
        Some((None, _)) => JobView { link, verdict: Verdict::Unreadable, ops: Seq::empty() },
        Some((Some(s), t)) => if t == Some(s) {
            JobView { link, verdict: Verdict::Skip, ops: Seq::empty() }
        } else {
            JobView {
                link,
                verdict: Verdict::Replace,
                ops: seq![
                    OpView::Backup { from: link.target, to: backup_target(backupdir, link.target) },
                    write,
                ],
            }
        },
    }
}

/// The plans for copying the items, each by what was read at its target.
pub open spec fn copy_jobs(items: Seq<LinkView>, table: Seq<Held>, backupdir: Seq<Seq<char>>) -> Seq<
    JobView,
> {
    items.map_values(|l: LinkView| copy_job(l, held_at(table, l.target), backupdir))
}

/// The plan for copying a repository: no directory is taken as a whole.
pub open spec fn copy_plan(snap: Snapshot, table: Seq<Held>, backupdir: Seq<Seq<char>>) -> Result<
    Seq<JobView>,
    Error,
> {
    match items_of(snap, true) {
        Ok(items) => Ok(copy_jobs(items, table, backupdir)),
        Err(e) => Err(e),
    }
}

/// Nothing is overwritten before it is backed up: where a job copies to a
/// target that exists, the change before the copy moves what stands there to
/// its place in the backup directory.
pub proof fn law_copy_backs_up_first(
    link: LinkView,
    held: Option<(Option<Seq<u8>>, Option<Seq<u8>>)>,
    backupdir: Seq<Seq<char>>,
    j: int,
)
    requires
        held.is_some(),
        0 <= j < copy_job(link, held, backupdir).ops.len(),
        copy_job(link, held, backupdir).ops[j] is Copy,
    ensures
        j > 0,
        copy_job(link, held, backupdir).ops[j - 1] == (OpView::Backup {
            from: link.target,
            to: backup_target(backupdir, link.target),
        }),
{
}

/// Whether two files hold the same bytes.
pub fn same_bytes(a: &Vec<u8>, b: &Vec<u8>) -> (same: bool)
    ensures
        same == (a@ == b@),
{
    if a.len() != b.len() {
        assert(a@.len() != b@.len());
        return false;
    }
    let mut i: usize = 0;
    while i < a.len()
        invariant
            i <= a.len() == b.len(),
            forall|j: int| 0 <= j < i ==> a@[j] == b@[j],
        decreases a.len() - i,
    {
        if a[i] != b[i] {
            return false;
        }
        i += 1;
    }
    assert(a@ =~= b@);
    true
}

/// Looks up what was read at the target `p`.
pub fn find_held<'a>(table: &'a Vec<Held>, p: &FsPath) -> (r: Option<&'a Held>)
    ensures
        match r {
            Some(h) => held_at(table@, p@) == Some((bytes_of(h.source), bytes_of(h.target))),
            None => held_at(table@, p@).is_none(),
        },
{
    let mut i: usize = 0;
    while i < table.len()
        invariant
            i <= table.len(),
            held_from(table@, p@, 0) == held_from(table@, p@, i as int),
        decreases table.len() - i,
    {
        if table[i].path.same(p) {
            return Some(&table[i]);
        }
        i += 1;
    }
    None
}

/// Plans the copying of one item, given what was read at its target; `None`
/// stands for a target that does not exist.
pub fn copy_item(link: &Link, held: Option<&Held>, backupdir: &FsPath) -> (job: Job)
    ensures
        job@ == copy_job(
            link@,
            match held {
                Some(h) => Some((bytes_of(h.source), bytes_of(h.target))),
                None => None,
            },
            backupdir@,
        ),
{
    let ghost found = match held {
        Some(h) => Some((bytes_of(h.source), bytes_of(h.target))),
        None => None,
    };
    let write = Op::Copy { source: link.source.clone(), target: link.target.clone() };
    let mut ops: Vec<Op> = Vec::new();
    let verdict = match held {
        None => {
            ops.push(Op::MakeDirs(directory_of(&link.target)));
            ops.push(write);
            Verdict::Create
        },
        Some(h) => match &h.source {
            None => Verdict::Unreadable,
            Some(s) => {
                let same = match &h.target {
                    Some(t) => same_bytes(s, t),
                    None => false,
                };
                if same {
                    Verdict::Skip
                } else {
                    ops.push(
                        Op::Backup {
                            from: link.target.clone(),
                            to: backup(backupdir, &link.target),
                        },
                    );
                    ops.push(write);
                    Verdict::Replace
                }
            },
        },
    };
    let job = Job { link: link.clone(), verdict, ops };
    assert(job@.ops =~= copy_job(link@, found, backupdir@).ops);
    job
}

/// Plans the copying of items: one job for each, in their order, by what
/// was read at its target.
pub fn copy_all(items: &Vec<Link>, held: &Vec<Held>, backupdir: &FsPath) -> (jobs: Vec<Job>)
    ensures
        jobs_view(jobs@) == copy_jobs(links_view(items@), held@, backupdir@),
{
    let mut jobs: Vec<Job> = Vec::new();
    let mut i: usize = 0;
    while i < items.len()
        invariant
            i <= items.len(),
            jobs@.len() == i,
            forall|j: int|
                0 <= j < i ==> (#[trigger] jobs@[j])@ == copy_job(
                    items@[j]@,
                    held_at(held@, items@[j]@.target),
                    backupdir@,
                ),
        decreases items.len() - i,
    {
        jobs.push(copy_item(&items[i], find_held(held, &items[i].target), backupdir));
        i += 1;
    }
    assert(jobs_view(jobs@) =~= copy_jobs(links_view(items@), held@, backupdir@));
    jobs
}

/// Plans the copying of a repository: one job for each of its files, in walk
/// order. Every directory is entered; none is copied as a whole.
pub fn copy(snap: &Snapshot, held: &Vec<Held>, backupdir: &FsPath) -> (r: Result<Vec<Job>, Error>)
    ensures
        match r {
            Ok(jobs) => copy_plan(*snap, held@, backupdir@) == Ok::<Seq<JobView>, Error>(
                jobs_view(jobs@),
            ),
            Err(e) => copy_plan(*snap, held@, backupdir@) == Err::<Seq<JobView>, Error>(e),
        },
{
    match list_items(snap, true) {
        Ok(items) => Ok(copy_all(&items, held, backupdir)),
        Err(e) => Err(e),
    }
}

/// Plans the copying of several repositories, one after the other and with
/// one backup directory. A repository that cannot be listed ends the plan:
/// the jobs of the repositories before it are handed out together with the
/// failure, and they are to be carried out.
pub fn copy_dirs(snaps: &Vec<Snapshot>, held: &Vec<Held>, backupdir: &FsPath) -> (r: Planned)
    ensures
        jobs_view(r.jobs@) == copy_jobs(items_before_failure(snaps@, true, 0), held@, backupdir@),
        r.failed == first_failure(snaps@, true, 0),
{
    let found = gather(snaps, true);
    Planned { jobs: copy_all(&found.items, held, backupdir), failed: found.failed }
}

} // verus!
