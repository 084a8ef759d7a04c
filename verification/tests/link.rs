use wagon::backup::{backup, get_backuppath};
use wagon::config::{Config, ConfigSite};
use wagon::copy::{copy, copy_dirs, copy_item, same_bytes, Held};
use wagon::error::Error;
use wagon::link::{cleanup_dir, link, link_dirs, link_item, unlink, unlink_dirs, unlink_item};
use wagon::list::{gather, list_items, Gathered};
use wagon::path::FsPath;
use wagon::plan::{directory_of, lookup, Job, Observed, Op, Planned, Seen, Verdict};
use wagon::snapshot::{Canonical, Snapshot};
use wagon::structs::Link;
use wagon::tree::{Entry, Node};

fn path(text: &str) -> FsPath {
    FsPath::parse(text)
}

fn file(name: &str) -> Entry {
    Entry { name: name.to_string(), node: Node::File(Vec::new()) }
}

fn bash_repo() -> Snapshot {
    let config = Config {
        dest: Some(path("test/home")),
        init: None,
        update: None,
        dirs: None,
        os: None,
    };
    Snapshot {
        root: path("test/repo/bash"),
        entries: vec![file(".bashrc"), file(".wagon.toml")],
        configs: vec![ConfigSite { dir: path("test/repo/bash"), candidates: vec![Some(config)] }],
        canonical: vec![Canonical { raw: path("test/home"), resolved: path("test/home") }],
        home: Some(path("/home/user")),
        os: "linux".to_string(),
    }
}

fn plain_repo() -> Snapshot {
    Snapshot {
        root: path("/repo/bash"),
        entries: vec![file(".bashrc")],
        configs: vec![],
        canonical: vec![Canonical { raw: path("/home"), resolved: path("/home") }],
        home: Some(path("/home")),
        os: "linux".to_string(),
    }
}

fn bashrc() -> Link {
    Link::new(path("test/repo/bash/.bashrc"), path("test/home/.bashrc"), false)
}

fn symlink(link: &Link) -> Op {
    Op::Symlink { source: link.source.clone(), target: link.target.clone() }
}

fn write(link: &Link) -> Op {
    Op::Copy { source: link.source.clone(), target: link.target.clone() }
}

fn seen(target: &str, seen: Seen) -> Observed {
    Observed { path: path(target), seen }
}

#[test]
fn test_backup() {
    let backupdir = path("test/backup");
    let file = path("test/repo/bash/.bashrc");
    assert_eq!(backup(&backupdir, &file), path("test/backup/repo/bash/.bashrc"));
}

#[test]
fn a_backup_keeps_the_path_but_for_its_first_component() {
    let backupdir = path("/home/user/.backups/uid1000/2024/05/13/09:05:07");
    assert_eq!(
        backup(&backupdir, &path("/home/user/.bashrc")),
        path("/home/user/.backups/uid1000/2024/05/13/09:05:07/home/user/.bashrc")
    );
    assert_eq!(backup(&backupdir, &path("only")), backupdir);
    assert_eq!(backup(&backupdir, &path("")), backupdir);
}

#[test]
fn the_backup_directory_is_named_by_user_and_time() {
    assert_eq!(
        get_backuppath(&path("/home/user"), 1000, "2024/05/13/09:05:07"),
        path("/home/user/.backups/uid1000/2024/05/13/09:05:07")
    );
    assert_eq!(get_backuppath(&path("/h"), 0, "1999/12/31/23:59:59").parts[3], "uid0");
    assert_eq!(get_backuppath(&path("/h"), u32::MAX, "x").to_text(), "/h/.backups/uid4294967295/x");
}

#[test]
fn test_link() {
    let snap = bash_repo();
    let backupdir = path("test/backup");
    let jobs = link(&snap, &vec![], &backupdir).unwrap();
    assert_eq!(
        jobs,
        vec![Job {
            link: bashrc(),
            verdict: Verdict::Create,
            ops: vec![Op::MakeDirs(path("test/home")), symlink(&bashrc())],
        }]
    );
    let linked = vec![seen("test/home/.bashrc", Seen::Link(path("test/repo/bash/.bashrc")))];
    let again = link(&snap, &linked, &backupdir).unwrap();
    assert_eq!(again, vec![Job { link: bashrc(), verdict: Verdict::Skip, ops: vec![] }]);
    let away = unlink(&snap, &linked).unwrap();
    assert_eq!(
        away,
        vec![Job {
            link: bashrc(),
            verdict: Verdict::Remove,
            ops: vec![Op::Remove(path("test/home/.bashrc")), Op::Prune(path("test/home"))],
        }]
    );
}

#[test]
fn a_taken_target_is_backed_up_before_it_is_linked() {
    let backupdir = path("/b");
    for found in [Seen::Other, Seen::Link(path("/somewhere/else"))] {
        let job = link_item(&bashrc(), Some(&found), &backupdir);
        assert_eq!(job.verdict, Verdict::Replace);
        assert_eq!(
            job.ops,
            vec![
                Op::Backup { from: path("test/home/.bashrc"), to: path("/b/home/.bashrc") },
                symlink(&bashrc()),
            ]
        );
    }
}

#[test]
fn a_target_that_was_not_looked_at_counts_as_missing() {
    let backupdir = path("/b");
    assert_eq!(link_item(&bashrc(), None, &backupdir), link_item(&bashrc(), Some(&Seen::Missing), &backupdir));
    assert_eq!(unlink_item(&bashrc(), None).verdict, Verdict::Skip);
}

#[test]
fn only_a_link_to_the_source_is_taken_away() {
    assert_eq!(unlink_item(&bashrc(), Some(&Seen::Other)).ops, vec![]);
    assert_eq!(unlink_item(&bashrc(), Some(&Seen::Missing)).ops, vec![]);
    assert_eq!(unlink_item(&bashrc(), Some(&Seen::Link(path("/other")))).verdict, Verdict::Skip);
    let at_root = Link::new(path("/repo/x"), path("/"), false);
    let job = unlink_item(&at_root, Some(&Seen::Link(path("/repo/x"))));
    assert_eq!(job.ops, vec![Op::Remove(path("/"))]);
}

#[test]
fn linking_and_unlinking_one_file_of_a_plain_repository() {
    let snap = plain_repo();
    let backupdir = path("/home/.backups/uid1/t");
    let items = list_items(&snap, false).unwrap();
    assert_eq!(items, vec![Link::new(path("/repo/bash/.bashrc"), path("/home/.bashrc"), false)]);
    let jobs = link(&snap, &vec![], &backupdir).unwrap();
    assert_eq!(jobs[0].ops, vec![Op::MakeDirs(path("/home")), symlink(&items[0])]);
    let linked = vec![seen("/home/.bashrc", Seen::Link(path("/repo/bash/.bashrc")))];
    let away = unlink(&snap, &linked).unwrap();
    assert_eq!(away[0].ops, vec![Op::Remove(path("/home/.bashrc")), Op::Prune(path("/home"))]);
    assert_eq!(cleanup_dir(&path("/home"), true), Some(path("/")));
    assert_eq!(cleanup_dir(&path("/"), true), None);
    assert_eq!(cleanup_dir(&path("/home"), false), None);
    let gone = unlink(&snap, &vec![]).unwrap();
    assert_eq!(gone[0].verdict, Verdict::Skip);
}

#[test]
fn several_repositories_are_planned_in_their_order() {
    let snaps = vec![bash_repo(), plain_repo()];
    let backupdir = path("/b");
    let planned = link_dirs(&snaps, &vec![], &backupdir);
    assert_eq!(planned.failed, None);
    let sources: Vec<FsPath> = planned.jobs.iter().map(|j| j.link.source.clone()).collect();
    assert_eq!(sources, vec![path("test/repo/bash/.bashrc"), path("/repo/bash/.bashrc")]);
    assert_eq!(planned.jobs[0], link(&snaps[0], &vec![], &backupdir).unwrap()[0]);
    assert_eq!(planned.jobs[1], link(&snaps[1], &vec![], &backupdir).unwrap()[0]);
    let away = unlink_dirs(&snaps, &vec![]);
    assert_eq!(away.jobs.len(), 2);
    assert!(away.jobs.iter().all(|j| j.verdict == Verdict::Skip && j.ops.is_empty()));
    assert_eq!(link_dirs(&vec![], &vec![], &backupdir), Planned { jobs: vec![], failed: None });
}

#[test]
fn a_repository_that_cannot_be_listed_ends_the_plan_and_keeps_what_came_before() {
    let mut broken = plain_repo();
    broken.home = None;
    let snaps = vec![bash_repo(), broken, plain_repo()];
    let backupdir = path("/b");
    let linked = vec![seen("test/home/.bashrc", Seen::Link(path("test/repo/bash/.bashrc")))];
    let planned = link_dirs(&snaps, &vec![], &backupdir);
    assert_eq!(planned.failed, Some(Error::MissingDestination));
    assert_eq!(planned.jobs, link(&snaps[0], &vec![], &backupdir).unwrap());
    assert_eq!(planned.jobs.len(), 1);
    assert_eq!(planned.jobs[0].verdict, Verdict::Create);
    let away = unlink_dirs(&snaps, &linked);
    assert_eq!(away.failed, Some(Error::MissingDestination));
    assert_eq!(away.jobs, unlink(&snaps[0], &linked).unwrap());
    let copied = copy_dirs(&snaps, &vec![], &backupdir);
    assert_eq!(copied.failed, Some(Error::MissingDestination));
    assert_eq!(copied.jobs, copy(&snaps[0], &vec![], &backupdir).unwrap());
    let found = gather(&snaps, false);
    assert_eq!(found.failed, Some(Error::MissingDestination));
    assert_eq!(found.items, vec![bashrc()]);
}

#[test]
fn a_first_repository_that_cannot_be_listed_leaves_no_job() {
    let mut broken = plain_repo();
    broken.canonical.clear();
    let snaps = vec![broken, bash_repo()];
    let planned = link_dirs(&snaps, &vec![], &path("/b"));
    assert_eq!(planned, Planned { jobs: vec![], failed: Some(Error::Canonicalize) });
    assert_eq!(gather(&vec![], true), Gathered { items: vec![], failed: None });
}

#[test]
fn what_stands_at_a_target_is_told_from_what_was_found() {
    assert_eq!(Seen::of(false, None), Seen::Missing);
    assert_eq!(Seen::of(false, Some(path("/dangling"))), Seen::Missing);
    assert_eq!(Seen::of(true, Some(path("/repo/x"))), Seen::Link(path("/repo/x")));
    assert_eq!(Seen::of(true, None), Seen::Other);
    assert_eq!(Held::of(path("/t"), false, Some(vec![1]), None), None);
    assert_eq!(
        Held::of(path("/t"), true, Some(vec![1]), None),
        Some(Held { path: path("/t"), source: Some(vec![1]), target: None })
    );
}

#[test]
fn the_first_record_of_a_target_counts() {
    let table = vec![seen("/a", Seen::Other), seen("/a", Seen::Missing), seen("/b", Seen::Missing)];
    assert_eq!(lookup(&table, &path("/a")), Some(&Seen::Other));
    assert_eq!(lookup(&table, &path("/b")), Some(&Seen::Missing));
    assert_eq!(lookup(&table, &path("/c")), None);
    assert_eq!(directory_of(&path("/a/b")), path("/a"));
    assert_eq!(directory_of(&path("/")), path("/"));
    assert_eq!(directory_of(&path("")), path("/"));
}

#[test]
fn test_copy() {
    let snap = bash_repo();
    let backupdir = path("test/backup");
    let jobs = copy(&snap, &vec![], &backupdir).unwrap();
    assert_eq!(
        jobs,
        vec![Job {
            link: bashrc(),
            verdict: Verdict::Create,
            ops: vec![Op::MakeDirs(path("test/home")), write(&bashrc())],
        }]
    );
}

#[test]
fn a_copy_that_is_there_is_left_alone() {
    let held = Held {
        path: path("test/home/.bashrc"),
        source: Some(b"export A=1\n".to_vec()),
        target: Some(b"export A=1\n".to_vec()),
    };
    let job = copy_item(&bashrc(), Some(&held), &path("/b"));
    assert_eq!(job.verdict, Verdict::Skip);
    assert_eq!(job.ops, vec![]);
    let planned = copy_dirs(&vec![bash_repo()], &vec![held], &path("/b"));
    assert_eq!(planned.failed, None);
    assert_eq!(planned.jobs[0].verdict, Verdict::Skip);
}

#[test]
fn a_target_of_other_bytes_is_backed_up_before_the_copy() {
    let backupdir = path("/b");
    let differs = Held {
        path: path("test/home/.bashrc"),
        source: Some(vec![1, 2, 3]),
        target: Some(vec![1, 2, 4]),
    };
    let unread = Held { path: path("test/home/.bashrc"), source: Some(vec![1]), target: None };
    for held in [differs, unread] {
        let job = copy_item(&bashrc(), Some(&held), &backupdir);
        assert_eq!(job.verdict, Verdict::Replace);
        assert_eq!(
            job.ops,
            vec![
                Op::Backup { from: path("test/home/.bashrc"), to: path("/b/home/.bashrc") },
                write(&bashrc()),
            ]
        );
    }
}

#[test]
fn a_source_that_cannot_be_read_is_not_copied_over_a_target() {
    let held = Held { path: path("test/home/.bashrc"), source: None, target: Some(vec![1]) };
    let job = copy_item(&bashrc(), Some(&held), &path("/b"));
    assert_eq!(job.verdict, Verdict::Unreadable);
    assert_eq!(job.ops, vec![]);
}

#[test]
fn bytes_are_compared_one_by_one() {
    assert!(same_bytes(&vec![], &vec![]));
    assert!(same_bytes(&vec![0, 255], &vec![0, 255]));
    assert!(!same_bytes(&vec![0, 255], &vec![0, 254]));
    assert!(!same_bytes(&vec![0], &vec![0, 0]));
}

#[test]
fn the_search_for_empty_directories_removes_a_chain() {
    let holds_something = [path("/home/user")];
    let mut removed = Vec::new();
    let mut current = Some(path("/home/user/.config/app/themes"));
    while let Some(dir) = current {
        let is_empty = !holds_something.contains(&dir);
        if is_empty {
            removed.push(dir.clone());
        }
        current = cleanup_dir(&dir, is_empty);
    }
    assert_eq!(
        removed,
        vec![
            path("/home/user/.config/app/themes"),
            path("/home/user/.config/app"),
            path("/home/user/.config"),
        ]
    );
    assert_eq!(cleanup_dir(&path("/home/user"), false), None);
    assert_eq!(cleanup_dir(&path("a"), true), Some(path("")));
    assert_eq!(cleanup_dir(&path(""), true), None);
}

#[test]
fn linking_several_repositories_twice_skips_every_item() {
    let snaps = vec![bash_repo(), plain_repo()];
    let backupdir = path("/b");
    let first = link_dirs(&snaps, &vec![seen("/home/.bashrc", Seen::Other)], &backupdir).jobs;
    assert_eq!(first[0].verdict, Verdict::Create);
    assert_eq!(first[1].verdict, Verdict::Replace);
    let left: Vec<Observed> = first
        .iter()
        .map(|job| Observed { path: job.link.target.clone(), seen: Seen::Link(job.link.source.clone()) })
        .collect();
    let second = link_dirs(&snaps, &left, &backupdir).jobs;
    assert_eq!(second.len(), first.len());
    assert!(second.iter().all(|job| job.verdict == Verdict::Skip && job.ops.is_empty()));
}
