//! Linking the items of a repository into the destination tree, and taking
//! the links away again.

use crate::backup::{backup, backup_target};
use crate::error::Error;
use crate::list::{first_failure, gather, items_before_failure, items_of, list_items};
use crate::path::{parent_of, FsPath};
use crate::plan::{
    dir_above, directory_of, jobs_view, lookup, seen_at, Job, JobView, Observed, Op, OpView,
    Planned, Seen, SeenView, Verdict,
};
use crate::snapshot::Snapshot;
use crate::structs::{links_view, Link, LinkView};
use vstd::prelude::*;

verus! {

/// The plan for linking one item. A target that already is a symlink to the
/// source is left alone. A free target is linked, after the directory for it
/// has been made. Anything else at the target is first moved to the backup
/// directory, and the target is linked after that.
pub open spec fn link_job(link: LinkView, seen: SeenView, backupdir: Seq<Seq<char>>) -> JobView {
    let make = OpView::Symlink { source: link.source, target: link.target };
    if seen == SeenView::Link(link.source) {
        JobView { link, verdict: Verdict::Skip, ops: Seq::empty() }
    } else if seen == SeenView::Missing {
        JobView {
            link,
            verdict: Verdict::Create,
            ops: seq![OpView::MakeDirs(dir_above(link.target)), make],
        }
    } else {
        JobView {
            link,
            verdict: Verdict::Replace,
            ops: seq![
                OpView::Backup { from: link.target, to: backup_target(backupdir, link.target) },
                make,
            ],
        }
    }
}

/// The plan for taking one item's link away: a target that is a symlink to
/// the source is removed, and after it the directories above it that have
/// become empty. Any other target is left alone.
pub open spec fn unlink_job(link: LinkView, seen: SeenView) -> JobView {
    if seen == SeenView::Link(link.source) {
        match parent_of(link.target) {
            Some(dir) => JobView {
                link,
                verdict: Verdict::Remove,
                ops: seq![OpView::Remove(link.target), OpView::Prune(dir)],
            },
            None => JobView {
                link,
                verdict: Verdict::Remove,
                ops: seq![OpView::Remove(link.target)],
            },
        }
    } else {
        JobView { link, verdict: Verdict::Skip, ops: Seq::empty() }
    }
}

/// The plans for linking the items, each by what was seen at its target.
pub open spec fn link_jobs(items: Seq<LinkView>, table: Seq<Observed>, backupdir: Seq<Seq<char>>) -> Seq<
    JobView,
> {
    items.map_values(|l: LinkView| link_job(l, seen_at(table, l.target), backupdir))
}

/// The plans for taking the links of the items away.
pub open spec fn unlink_jobs(items: Seq<LinkView>, table: Seq<Observed>) -> Seq<JobView> {
    items.map_values(|l: LinkView| unlink_job(l, seen_at(table, l.target)))
}

/// The plan for linking a repository.
pub open spec fn link_plan(snap: Snapshot, table: Seq<Observed>, backupdir: Seq<Seq<char>>) -> Result<
    Seq<JobView>,
    Error,
> {
    match items_of(snap, false) {
        Ok(items) => Ok(link_jobs(items, table, backupdir)),
        Err(e) => Err(e),
    }
}

/// The plan for taking the links of a repository away.
pub open spec fn unlink_plan(snap: Snapshot, table: Seq<Observed>) -> Result<Seq<JobView>, Error> {
    match items_of(snap, false) {
        Ok(items) => Ok(unlink_jobs(items, table)),
        Err(e) => Err(e),
    }
}

/// Where the search for empty directories goes on after `dir`: at the
/// directory above it, if `dir` was empty and has one above it.
pub open spec fn cleanup_next(dir: Seq<Seq<char>>, is_empty: bool) -> Option<Seq<Seq<char>>> {
    if is_empty {
        parent_of(dir)
    } else {
        None
    }
}

/// The directories that the search for empty directories removes when it
/// starts at `dir`, in the order in which it removes them. Of each
/// directory that the search comes to, `empty` says whether it holds
/// nothing by then. The search removes a directory that is empty and goes
/// on as `cleanup_next` says; it ends at the first directory that holds
/// something.
pub open spec fn pruned(dir: Seq<Seq<char>>, empty: spec_fn(Seq<Seq<char>>) -> bool) -> Seq<
    Seq<Seq<char>>,
>
    decreases dir.len(),
{
    if !empty(dir) {
        Seq::empty()
    } else {
        match cleanup_next(dir, true) {
            Some(above) => seq![dir] + pruned(above, empty),
            None => seq![dir],
        }
    }
}

/// The search for empty directories removes a chain: the directory at which
/// it starts and those above it, one after the other and none left out, each
/// of them empty when the search comes to it. No directory that holds
/// something is removed, and the search does not pass one: it ends only at
/// a directory that holds something or where nothing lies above. A search
/// that starts at a directory that holds something removes nothing.
pub proof fn law_prune_removes_the_empty_chain(
    dir: Seq<Seq<char>>,
    empty: spec_fn(Seq<Seq<char>>) -> bool,
)
    ensures
        pruned(dir, empty).len() <= dir.len() + 1,
        forall|i: int|
            0 <= i < pruned(dir, empty).len() ==> #[trigger] pruned(dir, empty)[i] == dir.subrange(
                0,
                dir.len() - i,
            ) && empty(dir.subrange(0, dir.len() - i)),
        !empty(dir) ==> pruned(dir, empty).len() == 0,
        ({
            let n = pruned(dir, empty).len() as int;
            n <= dir.len() && (n > 0 ==> parent_of(dir.subrange(0, dir.len() - n + 1)).is_some())
                ==> !empty(dir.subrange(0, dir.len() - n))
        }),
    decreases dir.len(),
{
    assert(dir.subrange(0, dir.len() as int) =~= dir);
    if empty(dir) {
        match cleanup_next(dir, true) {
            Some(above) => {
                law_prune_removes_the_empty_chain(above, empty);
                let rest = pruned(above, empty);
                let all = pruned(dir, empty);
                let m = rest.len() as int;
                let n = all.len() as int;
                assert(above == dir.drop_last());
                assert(n == m + 1);
                assert(above.subrange(0, above.len() as int) =~= above);
                assert forall|i: int| 0 <= i < all.len() implies #[trigger] all[i] == dir.subrange(
                    0,
                    dir.len() - i,
                ) && empty(dir.subrange(0, dir.len() - i)) by {
                    if i > 0 {
                        assert(all[i] == rest[i - 1]);
                        assert(above.subrange(0, above.len() - (i - 1)) =~= dir.subrange(
                            0,
                            dir.len() - i,
                        ));
                    }
                }
                if n <= dir.len() {
                    assert(dir.subrange(0, dir.len() - n) =~= above.subrange(0, above.len() - m));
                    if m > 0 {
                        assert(dir.subrange(0, dir.len() - n + 1) =~= above.subrange(
                            0,
                            above.len() - m + 1,
                        ));
                    }
                }
            },
            None => {},
        }
    }
}

/// Nothing is overwritten before it is backed up: where a job makes a
/// symlink at a target at which something stands, the change before it
/// moves what stands there to its place in the backup directory.
pub proof fn law_link_backs_up_first(
    link: LinkView,
    seen: SeenView,
    backupdir: Seq<Seq<char>>,
    j: int,
)
    requires
        seen != SeenView::Missing,
        0 <= j < link_job(link, seen, backupdir).ops.len(),
        link_job(link, seen, backupdir).ops[j] is Symlink,
    ensures
        j > 0,
        link_job(link, seen, backupdir).ops[j - 1] == (OpView::Backup {
            from: link.target,
            to: backup_target(backupdir, link.target),
        }),
{
}

/// Whether the target is a symlink to the item's source.
fn is_linked(link: &Link, seen: Option<&Seen>) -> (b: bool)
    ensures
        b == (match seen {
            Some(s) => s@,
            None => SeenView::Missing,
        } == SeenView::Link(link.source@)),
{
    match seen {
        Some(Seen::Link(to)) => to.same(&link.source),
        _ => false,
    }
}

/// Plans the linking of one item, given what was seen at its target; `None`
/// stands for a target that was not looked at and counts as missing.
pub fn link_item(link: &Link, seen: Option<&Seen>, backupdir: &FsPath) -> (job: Job)
    ensures
        job@ == link_job(
            link@,
            match seen {
                Some(s) => s@,
                None => SeenView::Missing,
            },
            backupdir@,
        ),
{
    let make = Op::Symlink { source: link.source.clone(), target: link.target.clone() };
    let mut ops: Vec<Op> = Vec::new();
    let verdict = if is_linked(link, seen) {
        Verdict::Skip
    } else {
        match seen {
            None | Some(Seen::Missing) => {
                ops.push(Op::MakeDirs(directory_of(&link.target)));
                ops.push(make);
                Verdict::Create
            },
            _ => {
                ops.push(
                    Op::Backup { from: link.target.clone(), to: backup(backupdir, &link.target) },
                );
                ops.push(make);
                Verdict::Replace
            },
        }
    };
    let job = Job { link: link.clone(), verdict, ops };
    assert(job@.ops =~= link_job(
        link@,
        match seen {
            Some(s) => s@,
            None => SeenView::Missing,
        },
        backupdir@,
    ).ops);
    job
}

/// Plans taking one item's link away, given what was seen at its target.
pub fn unlink_item(link: &Link, seen: Option<&Seen>) -> (job: Job)
    ensures
        job@ == unlink_job(
            link@,
            match seen {
                Some(s) => s@,
                None => SeenView::Missing,
            },
        ),
{
    let mut ops: Vec<Op> = Vec::new();
    let verdict = if is_linked(link, seen) {
        ops.push(Op::Remove(link.target.clone()));
        match link.target.parent() {
            Some(dir) => {
                ops.push(Op::Prune(dir));
            },
            None => {},
        }
        Verdict::Remove
    } else {
        Verdict::Skip
    };
    let job = Job { link: link.clone(), verdict, ops };
    assert(job@.ops =~= unlink_job(
        link@,
        match seen {
            Some(s) => s@,
            None => SeenView::Missing,
        },
    ).ops);
    job
}

/// Says where the search for empty directories goes on after `dir` was
/// looked at: at the directory above it, if `dir` was empty and has been
/// removed; nowhere, if it still holds something or has nothing above it.
pub fn cleanup_dir(dir: &FsPath, is_empty: bool) -> (next: Option<FsPath>)
    ensures
        next.is_some() == cleanup_next(dir@, is_empty).is_some(),
        next matches Some(p) ==> Some(p@) == cleanup_next(dir@, is_empty),
{
    if is_empty {
        dir.parent()
    } else {
        None
    }
}

/// Plans the linking of items: one job for each, in their order, by what
/// was seen at its target.
pub fn link_all(items: &Vec<Link>, observed: &Vec<Observed>, backupdir: &FsPath) -> (jobs: Vec<Job>)
    ensures
        jobs_view(jobs@) == link_jobs(links_view(items@), observed@, backupdir@),
{
    let mut jobs: Vec<Job> = Vec::new();
    let mut i: usize = 0;
    while i < items.len()
        invariant
            i <= items.len(),
            jobs@.len() == i,
            forall|j: int|
                0 <= j < i ==> (#[trigger] jobs@[j])@ == link_job(
                    items@[j]@,
                    seen_at(observed@, items@[j]@.target),
                    backupdir@,
                ),
        decreases items.len() - i,
    {
        jobs.push(link_item(&items[i], lookup(observed, &items[i].target), backupdir));
        i += 1;
    }
    assert(jobs_view(jobs@) =~= link_jobs(links_view(items@), observed@, backupdir@));
    jobs
}

/// Plans taking the links of items away: one job for each, in their order.
pub fn unlink_all(items: &Vec<Link>, observed: &Vec<Observed>) -> (jobs: Vec<Job>)
    ensures
        jobs_view(jobs@) == unlink_jobs(links_view(items@), observed@),
{
    let mut jobs: Vec<Job> = Vec::new();
    let mut i: usize = 0;
    while i < items.len()
        invariant
            i <= items.len(),
            jobs@.len() == i,
            forall|j: int|
                0 <= j < i ==> (#[trigger] jobs@[j])@ == unlink_job(
                    items@[j]@,
                    seen_at(observed@, items@[j]@.target),
                ),
        decreases items.len() - i,
    {
        jobs.push(unlink_item(&items[i], lookup(observed, &items[i].target)));
        i += 1;
    }
    assert(jobs_view(jobs@) =~= unlink_jobs(links_view(items@), observed@));
    jobs
}

/// Plans the linking of a repository: one job for each of its items, in walk
/// order. Directories that the configuration names are linked as a whole.
pub fn link(snap: &Snapshot, observed: &Vec<Observed>, backupdir: &FsPath) -> (r: Result<
    Vec<Job>,
    Error,
>)
    ensures
        match r {
            Ok(jobs) => link_plan(*snap, observed@, backupdir@) == Ok::<Seq<JobView>, Error>(
                jobs_view(jobs@),
            ),
            Err(e) => link_plan(*snap, observed@, backupdir@) == Err::<Seq<JobView>, Error>(e),
        },
{
    match list_items(snap, false) {
        Ok(items) => Ok(link_all(&items, observed, backupdir)),
        Err(e) => Err(e),
    }
}

/// Plans taking the links of a repository away: one job for each of its
/// items, in walk order.
pub fn unlink(snap: &Snapshot, observed: &Vec<Observed>) -> (r: Result<Vec<Job>, Error>)
    ensures
        match r {
            Ok(jobs) => unlink_plan(*snap, observed@) == Ok::<Seq<JobView>, Error>(
                jobs_view(jobs@),
            ),
            Err(e) => unlink_plan(*snap, observed@) == Err::<Seq<JobView>, Error>(e),
        },
{
    match list_items(snap, false) {
        Ok(items) => Ok(unlink_all(&items, observed)),
        Err(e) => Err(e),
    }
}

/// Plans the linking of several repositories, one after the other and with
/// one backup directory. A repository that cannot be listed ends the plan:
/// the jobs of the repositories before it are handed out together with the
/// failure, and they are to be carried out.
pub fn link_dirs(snaps: &Vec<Snapshot>, observed: &Vec<Observed>, backupdir: &FsPath) -> (r: Planned)
    ensures
        jobs_view(r.jobs@) == link_jobs(
            items_before_failure(snaps@, false, 0),
            observed@,
            backupdir@,
        ),
        r.failed == first_failure(snaps@, false, 0),
{
    let found = gather(snaps, false);
    Planned { jobs: link_all(&found.items, observed, backupdir), failed: found.failed }
}

/// Plans taking away the links of several repositories, one after the
/// other. A repository that cannot be listed ends the plan: the jobs of the
/// repositories before it are handed out together with the failure.
pub fn unlink_dirs(snaps: &Vec<Snapshot>, observed: &Vec<Observed>) -> (r: Planned)
    ensures
        jobs_view(r.jobs@) == unlink_jobs(items_before_failure(snaps@, false, 0), observed@),
        r.failed == first_failure(snaps@, false, 0),
{
    let found = gather(snaps, false);
    Planned { jobs: unlink_all(&found.items, observed), failed: found.failed }
}

} // verus!
