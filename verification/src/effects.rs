//! What the changes of a plan do to the destination tree.
//!
//! Two readings of the changes are given here, and the laws of this file
//! hold under them. For linking, a tree says of each path what stands
//! there, and a path that it says nothing of holds nothing. For copying, a
//! tree says of each file which bytes it holds.

use crate::backup::backup_target;
use crate::copy::copy_job;
use crate::link::{link_job, link_jobs, unlink_job};
use crate::list::items_before_failure;
use crate::snapshot::Snapshot;
use crate::plan::{seen_at, JobView, Observed, OpView, SeenView, Verdict};
use crate::structs::LinkView;
use vstd::prelude::*;

verus! {

/// What stands at `p`.
pub open spec fn at(tree: Map<Seq<Seq<char>>, SeenView>, p: Seq<Seq<char>>) -> SeenView {
    if tree.dom().contains(p) {
        tree[p]
    } else {
        SeenView::Missing
    }
}

/// The tree after one change: a backup moves what stands at a path to
/// another, a symlink and a copy put something at the target, a removal
/// leaves nothing. Directories are not kept track of.
pub open spec fn effect(tree: Map<Seq<Seq<char>>, SeenView>, op: OpView) -> Map<
    Seq<Seq<char>>,
    SeenView,
> {
    match op {
        OpView::MakeDirs(_) => tree,
        OpView::Backup { from, to } => tree.insert(to, at(tree, from)).insert(
            from,
            SeenView::Missing,
        ),
        OpView::Symlink { source, target } => tree.insert(target, SeenView::Link(source)),
        OpView::Copy { source, target } => tree.insert(target, SeenView::Other),
        OpView::Remove(p) => tree.insert(p, SeenView::Missing),
        OpView::Prune(_) => tree,
    }
}

/// The tree after the changes from the `from`-th on, each made after the
/// one before it.
pub open spec fn run(tree: Map<Seq<Seq<char>>, SeenView>, ops: Seq<OpView>, from: int) -> Map<
    Seq<Seq<char>>,
    SeenView,
>
    decreases ops.len() - from,
{
    if from < 0 || from >= ops.len() {
        tree
    } else {
        run(effect(tree, ops[from]), ops, from + 1)
    }
}

/// The tree after the jobs from the `from`-th on.
pub open spec fn run_jobs(tree: Map<Seq<Seq<char>>, SeenView>, jobs: Seq<JobView>, from: int) -> Map<
    Seq<Seq<char>>,
    SeenView,
>
    decreases jobs.len() - from,
{
    if from < 0 || from >= jobs.len() {
        tree
    } else {
        run_jobs(run(tree, jobs[from].ops, 0), jobs, from + 1)
    }
}

/// The jobs for linking the items, planned by what stands in the tree.
pub open spec fn link_jobs_in(
    tree: Map<Seq<Seq<char>>, SeenView>,
    items: Seq<LinkView>,
    backupdir: Seq<Seq<char>>,
) -> Seq<JobView> {
    items.map_values(|l: LinkView| link_job(l, at(tree, l.target), backupdir))
}

/// The tree that a table of observations tells of: at each path stands what
/// the table says was seen there.
pub open spec fn tree_of(table: Seq<Observed>) -> Map<Seq<Seq<char>>, SeenView> {
    Map::total(|p: Seq<Seq<char>>| seen_at(table, p))
}

/// The jobs that are planned from a table of observations are those that
/// are planned by the tree that the table tells of.
pub proof fn law_jobs_follow_the_tree(
    table: Seq<Observed>,
    items: Seq<LinkView>,
    backupdir: Seq<Seq<char>>,
)
    ensures
        link_jobs(items, table, backupdir) == link_jobs_in(tree_of(table), items, backupdir),
{
    assert(link_jobs(items, table, backupdir) =~= link_jobs_in(tree_of(table), items, backupdir));
}

/// The targets are apart: no two items have one target, and no item has
/// its target where the job of an item, planned by what stands in `tree`,
/// backs the item's target up.
pub open spec fn targets_apart(
    tree: Map<Seq<Seq<char>>, SeenView>,
    items: Seq<LinkView>,
    backupdir: Seq<Seq<char>>,
) -> bool {
    &&& forall|i: int, j: int|
        0 <= i < j < items.len() ==> (#[trigger] items[i]).target != (#[trigger] items[j]).target
    &&& forall|i: int, j: int|
        0 <= i < items.len() && 0 <= j < items.len() && link_job(
            items[j],
            at(tree, items[j].target),
            backupdir,
        ).verdict == Verdict::Replace ==> (#[trigger] items[i]).target != backup_target(
            backupdir,
            (#[trigger] items[j]).target,
        )
}

/// The job of one item leaves the item linked, and leaves alone what stands
/// at any path that is neither the item's target nor its backup.
pub proof fn lemma_link_job_runs(
    tree: Map<Seq<Seq<char>>, SeenView>,
    link: LinkView,
    seen: SeenView,
    backupdir: Seq<Seq<char>>,
)
    requires
        seen == SeenView::Link(link.source) ==> at(tree, link.target) == seen,
    ensures
        at(run(tree, link_job(link, seen, backupdir).ops, 0), link.target) == SeenView::Link(
            link.source,
        ),
        forall|p: Seq<Seq<char>>|
            p != link.target && (link_job(link, seen, backupdir).verdict == Verdict::Replace ==> p
                != backup_target(backupdir, link.target)) ==> at(
                run(tree, link_job(link, seen, backupdir).ops, 0),
                p,
            ) == at(tree, p),
{
    let ops = link_job(link, seen, backupdir).ops;
    reveal_with_fuel(run, 3);
    if ops.len() == 2 {
        let first = effect(tree, ops[0]);
        let second = effect(first, ops[1]);
        assert(run(tree, ops, 0) == second);
    }
}

/// Linking is idempotent. Where the jobs that were planned for a tree have
/// been carried out, the jobs that are planned then skip every item and
/// change nothing. This holds where the targets are apart.
pub proof fn law_linking_twice_changes_nothing(
    tree: Map<Seq<Seq<char>>, SeenView>,
    items: Seq<LinkView>,
    backupdir: Seq<Seq<char>>,
)
    requires
        targets_apart(tree, items, backupdir),
    ensures
        ({
            let after = run_jobs(tree, link_jobs_in(tree, items, backupdir), 0);
            &&& forall|i: int|
                0 <= i < items.len() ==> at(after, (#[trigger] items[i]).target) == SeenView::Link(
                    items[i].source,
                )
            &&& forall|i: int|
                0 <= i < items.len() ==> (#[trigger] link_jobs_in(
                    after,
                    items,
                    backupdir,
                )[i]).verdict == Verdict::Skip && link_jobs_in(after, items, backupdir)[i].ops.len()
                    == 0
            &&& run_jobs(after, link_jobs_in(after, items, backupdir), 0) == after
        }),
{
    let jobs = link_jobs_in(tree, items, backupdir);
    lemma_linking_from(tree, tree, items, backupdir, 0);
    let after = run_jobs(tree, jobs, 0);
    lemma_skips_change_nothing(after, link_jobs_in(after, items, backupdir), 0);
}

/// Linking several repositories is idempotent. Where the jobs that were
/// planned for the repositories have been carried out, and every target is
/// then seen as they left it, the plan that is made for the same
/// repositories holds a job for every item that it held before, and each of
/// them skips its item and changes nothing. This holds where the targets are
/// apart.
pub proof fn law_linking_dirs_twice_changes_nothing(
    snaps: Seq<Snapshot>,
    table: Seq<Observed>,
    again: Seq<Observed>,
    backupdir: Seq<Seq<char>>,
)
    requires
        targets_apart(tree_of(table), items_before_failure(snaps, false, 0), backupdir),
        forall|p: Seq<Seq<char>>| #[trigger]
            seen_at(again, p) == at(
                run_jobs(
                    tree_of(table),
                    link_jobs(items_before_failure(snaps, false, 0), table, backupdir),
                    0,
                ),
                p,
            ),
    ensures
        forall|i: int|
            0 <= i < items_before_failure(snaps, false, 0).len() ==> (#[trigger] link_jobs(
                items_before_failure(snaps, false, 0),
                again,
                backupdir,
            )[i]).verdict == Verdict::Skip && link_jobs(
                items_before_failure(snaps, false, 0),
                again,
                backupdir,
            )[i].ops.len() == 0,
{
    let items = items_before_failure(snaps, false, 0);
    law_jobs_follow_the_tree(table, items, backupdir);
    law_linking_twice_changes_nothing(tree_of(table), items, backupdir);
    let after = run_jobs(tree_of(table), link_jobs_in(tree_of(table), items, backupdir), 0);
    let second = link_jobs(items, again, backupdir);
    assert forall|i: int| 0 <= i < items.len() implies (#[trigger] second[i]).verdict
        == Verdict::Skip && second[i].ops.len() == 0 by {
        assert(seen_at(again, items[i].target) == at(after, items[i].target));
    }
}

/// Jobs that hold no changes change nothing.
pub proof fn lemma_skips_change_nothing(
    tree: Map<Seq<Seq<char>>, SeenView>,
    jobs: Seq<JobView>,
    from: int,
)
    requires
        0 <= from,
        forall|i: int| 0 <= i < jobs.len() ==> (#[trigger] jobs[i]).ops.len() == 0,
    ensures
        run_jobs(tree, jobs, from) == tree,
    decreases jobs.len() - from,
{
    if from < jobs.len() {
        assert(jobs[from].ops.len() == 0);
        lemma_skips_change_nothing(tree, jobs, from + 1);
    }
}

/// The same as the law, for the jobs from the `from`-th on: the items
/// before are linked in `now`, and the targets of the others stand as they
/// stood in `tree`, where the jobs were planned.
proof fn lemma_linking_from(
    tree: Map<Seq<Seq<char>>, SeenView>,
    now: Map<Seq<Seq<char>>, SeenView>,
    items: Seq<LinkView>,
    backupdir: Seq<Seq<char>>,
    from: int,
)
    requires
        0 <= from,
        targets_apart(tree, items, backupdir),
        forall|i: int|
            0 <= i < from && i < items.len() ==> at(now, (#[trigger] items[i]).target)
                == SeenView::Link(items[i].source),
        forall|i: int|
            from <= i < items.len() ==> at(now, (#[trigger] items[i]).target) == at(
                tree,
                items[i].target,
            ),
    ensures
        forall|i: int|
            0 <= i < items.len() ==> at(
                run_jobs(now, link_jobs_in(tree, items, backupdir), from),
                (#[trigger] items[i]).target,
            ) == SeenView::Link(items[i].source),
    decreases items.len() - from,
{
    let jobs = link_jobs_in(tree, items, backupdir);
    if from < items.len() {
        let link = items[from];
        let seen = at(tree, link.target);
        assert(jobs[from] == link_job(link, seen, backupdir));
        lemma_link_job_runs(now, link, seen, backupdir);
        let next = run(now, jobs[from].ops, 0);
        assert forall|i: int| 0 <= i < from + 1 && i < items.len() implies at(
            next,
            (#[trigger] items[i]).target,
        ) == SeenView::Link(items[i].source) by {
            if i < from {
                assert(items[i].target != items[from].target);
                if jobs[from].verdict == Verdict::Replace {
                    assert(items[i].target != backup_target(backupdir, items[from].target));
                }
            }
        }
        assert forall|i: int| from + 1 <= i < items.len() implies at(
            next,
            (#[trigger] items[i]).target,
        ) == at(tree, items[i].target) by {
            assert(items[from].target != items[i].target);
            if jobs[from].verdict == Verdict::Replace {
                assert(items[i].target != backup_target(backupdir, items[from].target));
            }
        }
        lemma_linking_from(tree, next, items, backupdir, from + 1);
    }
}

/// Nothing is overwritten before it is backed up. Where something stands
/// at the target of an item that is not the symlink to its source, the
/// first change of the item's job puts it at its place in the backup
/// directory, and only the change after that makes the symlink; what was
/// backed up stands at its place after both.
pub proof fn law_backup_holds_what_stood(
    tree: Map<Seq<Seq<char>>, SeenView>,
    link: LinkView,
    backupdir: Seq<Seq<char>>,
)
    requires
        at(tree, link.target) != SeenView::Missing,
        at(tree, link.target) != SeenView::Link(link.source),
        backup_target(backupdir, link.target) != link.target,
    ensures
        ({
            let job = link_job(link, at(tree, link.target), backupdir);
            let place = backup_target(backupdir, link.target);
            let backed_up = effect(tree, job.ops[0]);
            let linked = effect(backed_up, job.ops[1]);
            &&& job.ops.len() == 2
            &&& at(backed_up, place) == at(tree, link.target)
            &&& at(backed_up, link.target) == SeenView::Missing
            &&& at(linked, place) == at(tree, link.target)
            &&& at(linked, link.target) == SeenView::Link(link.source)
            &&& run(tree, job.ops, 0) == linked
        }),
{
    reveal_with_fuel(run, 3);
}

/// What linking makes, unlinking takes away. Where the job that was planned
/// for an item has been carried out, the job that is planned for taking the
/// link away leaves nothing at the target.
pub proof fn law_unlinking_undoes_linking(
    tree: Map<Seq<Seq<char>>, SeenView>,
    link: LinkView,
    backupdir: Seq<Seq<char>>,
)
    ensures
        ({
            let linked = run(tree, link_job(link, at(tree, link.target), backupdir).ops, 0);
            let away = unlink_job(link, at(linked, link.target));
            &&& away.verdict == Verdict::Remove
            &&& at(run(linked, away.ops, 0), link.target) == SeenView::Missing
        }),
{
    let seen = at(tree, link.target);
    lemma_link_job_runs(tree, link, seen, backupdir);
    reveal_with_fuel(run, 3);
}

/// What is read for an item of the files of a tree, each path with the
/// bytes of the file that stands there: nothing where the target does not
/// exist, else the bytes of the source and of the target.
pub open spec fn held_in(files: Map<Seq<Seq<char>>, Seq<u8>>, link: LinkView) -> Option<
    (Option<Seq<u8>>, Option<Seq<u8>>),
> {
    if files.dom().contains(link.target) {
        Some(
            (
                if files.dom().contains(link.source) {
                    Some(files[link.source])
                } else {
                    None
                },
                Some(files[link.target]),
            ),
        )
    } else {
        None
    }
}

/// The files after one change: a backup moves a file, a copy gives the
/// target the bytes of the source, a removal leaves no file. A change that
/// has no file to work on changes nothing.
pub open spec fn effect_on_files(files: Map<Seq<Seq<char>>, Seq<u8>>, op: OpView) -> Map<
    Seq<Seq<char>>,
    Seq<u8>,
> {
    match op {
        OpView::Backup { from, to } => if files.dom().contains(from) {
            files.insert(to, files[from]).remove(from)
        } else {
            files
        },
        OpView::Copy { source, target } => if files.dom().contains(source) {
            files.insert(target, files[source])
        } else {
            files
        },
        OpView::Remove(p) => files.remove(p),
        _ => files,
    }
}

/// The files after the changes from the `from`-th on, each made after the
/// one before it.
pub open spec fn run_on_files(files: Map<Seq<Seq<char>>, Seq<u8>>, ops: Seq<OpView>, from: int) -> Map<
    Seq<Seq<char>>,
    Seq<u8>,
>
    decreases ops.len() - from,
{
    if from < 0 || from >= ops.len() {
        files
    } else {
        run_on_files(effect_on_files(files, ops[from]), ops, from + 1)
    }
}

/// Copying is idempotent. Where the job that was planned for an item has
/// been carried out, the job that is planned then skips the item. This holds
/// where the source can be read and is neither the target nor the place to
/// which the target is backed up.
pub proof fn law_copying_twice_changes_nothing(
    files: Map<Seq<Seq<char>>, Seq<u8>>,
    link: LinkView,
    backupdir: Seq<Seq<char>>,
)
    requires
        files.dom().contains(link.source),
        link.source != link.target,
        link.source != backup_target(backupdir, link.target),
    ensures
        ({
            let job = copy_job(link, held_in(files, link), backupdir);
            let after = run_on_files(files, job.ops, 0);
            &&& after.dom().contains(link.target)
            &&& after[link.target] == files[link.source]
            &&& after[link.source] == files[link.source]
            &&& copy_job(link, held_in(after, link), backupdir).verdict == Verdict::Skip
            &&& copy_job(link, held_in(after, link), backupdir).ops.len() == 0
        }),
{
    reveal_with_fuel(run_on_files, 3);
}

/// Nothing is overwritten before it is backed up, and the backup holds the
/// bytes that stood at the target. Where the target of an item exists and
/// does not hold the bytes of the source, the first change of the item's job
/// puts the target's bytes at its place in the backup directory, and only
/// the change after that gives the target the bytes of the source.
pub proof fn law_backup_holds_the_bytes(
    files: Map<Seq<Seq<char>>, Seq<u8>>,
    link: LinkView,
    backupdir: Seq<Seq<char>>,
)
    requires
        files.dom().contains(link.target),
        files.dom().contains(link.source),
        files[link.target] != files[link.source],
        link.source != link.target,
        backup_target(backupdir, link.target) != link.target,
        backup_target(backupdir, link.target) != link.source,
    ensures
        ({
            let job = copy_job(link, held_in(files, link), backupdir);
            let place = backup_target(backupdir, link.target);
            let backed_up = effect_on_files(files, job.ops[0]);
            let copied = effect_on_files(backed_up, job.ops[1]);
            &&& job.ops.len() == 2
            &&& backed_up.dom().contains(place) && backed_up[place] == files[link.target]
            &&& !backed_up.dom().contains(link.target)
            &&& copied.dom().contains(place) && copied[place] == files[link.target]
            &&& copied.dom().contains(link.target) && copied[link.target] == files[link.source]
            &&& run_on_files(files, job.ops, 0) == copied
        }),
{
    reveal_with_fuel(run_on_files, 3);
}

} // verus!
