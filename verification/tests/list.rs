use wagon::config::{Command, Config, ConfigSite};
use wagon::error::Error;
use wagon::list::{list_diritems, list_items};
use wagon::path::FsPath;
use wagon::snapshot::{Canonical, Snapshot};
use wagon::structs::Link;
use wagon::tree::{Entry, Node};

fn path(text: &str) -> FsPath {
    FsPath::parse(text)
}

fn file(name: &str) -> Entry {
    Entry { name: name.to_string(), node: Node::File(Vec::new()) }
}

fn text_file(name: &str, lines: &[&str]) -> Entry {
    Entry { name: name.to_string(), node: Node::File(lines.iter().map(|l| l.to_string()).collect()) }
}

fn dir(name: &str, entries: Vec<Entry>) -> Entry {
    Entry { name: name.to_string(), node: Node::Dir(entries) }
}

fn same_place(raw: &str) -> Canonical {
    Canonical { raw: path(raw), resolved: path(raw) }
}

fn plain_config() -> Config {
    Config { dest: None, init: None, update: None, dirs: None, os: None }
}

fn bash_repo() -> Snapshot {
    let touch = Command {
        command: "touch".to_string(),
        args: vec!["testtouch".to_string()],
        os: None,
    };
    let config = Config {
        dest: Some(path("test/home")),
        init: Some(vec![touch]),
        ..plain_config()
    };
    Snapshot {
        root: path("test/repo/bash"),
        entries: vec![file(".bashrc"), file(".wagon.toml")],
        configs: vec![ConfigSite { dir: path("test/repo/bash"), candidates: vec![Some(config)] }],
        canonical: vec![same_place("test/home")],
        home: Some(path("/home/user")),
        os: "linux".to_string(),
    }
}

fn zsh_repo() -> Snapshot {
    let config = Config { dirs: Some(vec![path(".zsh")]), ..plain_config() };
    Snapshot {
        root: path("test/repo/zsh"),
        entries: vec![
            file(".wagon.toml"),
            dir(".zsh", vec![file("aliases.zsh"), file("prompt.zsh")]),
            file(".zshrc"),
        ],
        configs: vec![ConfigSite { dir: path("test/repo/zsh"), candidates: vec![Some(config)] }],
        canonical: vec![same_place("/home/user"), same_place("test/repo/zsh/.zsh")],
        home: Some(path("/home/user")),
        os: "linux".to_string(),
    }
}

fn link(source: &str, target: &str, is_dir: bool) -> Link {
    Link::new(path(source), path(target), is_dir)
}

#[test]
fn test_list_diritems() {
    let diritems = list_diritems(&zsh_repo());
    assert!(diritems.len() > 0);
    assert_eq!(diritems, vec![path("test/repo/zsh/.zsh")]);
}

#[test]
fn test_list_items() {
    let items = list_items(&bash_repo(), true).unwrap();
    assert!(items.len() > 0);
    assert_eq!(items, vec![link("test/repo/bash/.bashrc", "test/home/.bashrc", false)]);
}

#[test]
fn test_list_items_with_diritems() {
    let items = list_items(&zsh_repo(), false).unwrap();
    assert!(items.len() == 2);
    assert_eq!(
        items,
        vec![
            link("test/repo/zsh/.zsh", "/home/user/.zsh", true),
            link("test/repo/zsh/.zshrc", "/home/user/.zshrc", false),
        ]
    );
}

#[test]
fn directories_are_entered_without_boundaries() {
    let items = list_items(&zsh_repo(), true).unwrap();
    assert_eq!(
        items,
        vec![
            link("test/repo/zsh/.zsh/aliases.zsh", "/home/user/.zsh/aliases.zsh", false),
            link("test/repo/zsh/.zsh/prompt.zsh", "/home/user/.zsh/prompt.zsh", false),
            link("test/repo/zsh/.zshrc", "/home/user/.zshrc", false),
        ]
    );
}

#[test]
fn ignored_paths_are_no_items() {
    let snap = Snapshot {
        root: path("/root"),
        entries: vec![
            text_file(".wagonignore", &["build/*", "", "*.bak"]),
            dir("build", vec![file("output.o"), dir("deep", vec![file("kept.o")])]),
            file("notes.bak"),
            file("notes.txt"),
            dir("sub", vec![file("inner.bak")]),
        ],
        configs: vec![],
        canonical: vec![same_place("/home/user")],
        home: Some(path("/home/user")),
        os: "linux".to_string(),
    };
    let items = list_items(&snap, false).unwrap();
    let sources: Vec<FsPath> = items.iter().map(|l| l.source.clone()).collect();
    assert!(!sources.contains(&path("/root/build/output.o")));
    assert!(!sources.contains(&path("/root/.wagonignore")));
    assert_eq!(sources, vec![path("/root/notes.txt"), path("/root/sub/inner.bak")]);
}

#[test]
fn a_line_that_is_no_pattern_fails_the_listing() {
    let snap = Snapshot {
        root: path("/root"),
        entries: vec![text_file(".wagonignore", &["a[", "b"]), file("b")],
        configs: vec![],
        canonical: vec![same_place("/home/user")],
        home: Some(path("/home/user")),
        os: "linux".to_string(),
    };
    assert_eq!(list_items(&snap, false), Err(Error::Pattern));
}

fn nested_repo() -> Snapshot {
    let outer = Config { dest: Some(path("/outer")), ..plain_config() };
    let inner = Config { dest: Some(path("/alt")), ..plain_config() };
    Snapshot {
        root: path("/repo"),
        entries: vec![
            file(".wagon.toml"),
            file("a.txt"),
            dir("sub", vec![file(".wagon.toml"), file("b.txt"), dir("deep", vec![file("c.txt")])]),
            dir("other", vec![file("d.txt")]),
        ],
        configs: vec![
            ConfigSite { dir: path("/repo"), candidates: vec![Some(outer)] },
            ConfigSite { dir: path("/repo/sub"), candidates: vec![Some(inner)] },
        ],
        canonical: vec![same_place("/outer"), same_place("/alt")],
        home: Some(path("/home/user")),
        os: "linux".to_string(),
    }
}

#[test]
fn an_inner_configuration_decides_for_its_directory_only() {
    let items = list_items(&nested_repo(), false).unwrap();
    assert_eq!(
        items,
        vec![
            link("/repo/a.txt", "/outer/a.txt", false),
            link("/repo/sub/b.txt", "/alt/sub/b.txt", false),
            link("/repo/sub/deep/c.txt", "/alt/sub/deep/c.txt", false),
            link("/repo/other/d.txt", "/outer/other/d.txt", false),
        ]
    );
}

#[test]
fn a_boundary_is_one_item_and_hides_what_it_holds() {
    let mut snap = nested_repo();
    snap.configs[0].candidates[0].as_mut().unwrap().dirs = Some(vec![path("sub")]);
    snap.canonical.push(same_place("/repo/sub"));
    let items = list_items(&snap, false).unwrap();
    let at_boundary: Vec<&Link> =
        items.iter().filter(|l| l.source == path("/repo/sub")).collect();
    assert_eq!(at_boundary.len(), 1);
    assert!(at_boundary[0].is_dir);
    assert!(items.iter().all(|l| !(l.source.len() > 3 && l.source.starts_with(&path("/repo/sub")))));
    assert_eq!(
        items,
        vec![
            link("/repo/a.txt", "/outer/a.txt", false),
            link("/repo/sub", "/outer/sub", true),
            link("/repo/other/d.txt", "/outer/other/d.txt", false),
        ]
    );
}

#[test]
fn a_boundary_that_does_not_resolve_is_left_out() {
    let mut snap = nested_repo();
    snap.configs[0].candidates[0].as_mut().unwrap().dirs =
        Some(vec![path("gone"), path("a.txt"), path("other")]);
    snap.canonical.push(same_place("/repo/a.txt"));
    snap.canonical.push(Canonical { raw: path("/repo/other"), resolved: path("/repo/other") });
    assert_eq!(list_diritems(&snap), vec![path("/repo/other")]);
}

#[test]
fn an_entry_that_cannot_be_inspected_is_passed_over() {
    let mut snap = bash_repo();
    snap.entries.push(Entry { name: "broken".to_string(), node: Node::Other });
    let items = list_items(&snap, false).unwrap();
    assert_eq!(items, vec![link("test/repo/bash/.bashrc", "test/home/.bashrc", false)]);
}

#[test]
fn without_destination_and_home_nothing_is_listed() {
    let mut snap = zsh_repo();
    snap.home = None;
    assert_eq!(list_items(&snap, false), Err(Error::MissingDestination));
}

#[test]
fn a_destination_that_does_not_resolve_fails_the_listing() {
    let mut snap = bash_repo();
    snap.canonical.clear();
    assert_eq!(list_items(&snap, true), Err(Error::Canonicalize));
}

#[test]
fn an_empty_repository_has_no_items() {
    let mut snap = bash_repo();
    snap.entries.clear();
    assert_eq!(list_items(&snap, false), Ok(vec![]));
}

#[test]
fn listing_twice_gives_the_same_items() {
    let snap = nested_repo();
    assert_eq!(list_items(&snap, false), list_items(&snap, false));
}

#[test]
fn an_ignore_file_speaks_for_its_own_directory() {
    let snap = Snapshot {
        root: path("/root"),
        entries: vec![
            file("x.log"),
            dir("sub", vec![text_file(".wagonignore", &["*.log"]), file("y.log"), file("y.txt")]),
        ],
        configs: vec![],
        canonical: vec![same_place("/home/user")],
        home: Some(path("/home/user")),
        os: "linux".to_string(),
    };
    let items = list_items(&snap, false).unwrap();
    let sources: Vec<FsPath> = items.iter().map(|l| l.source.clone()).collect();
    assert_eq!(sources, vec![path("/root/x.log"), path("/root/sub/y.txt")]);
}

#[test]
fn an_ignored_directory_is_not_entered() {
    let snap = Snapshot {
        root: path("/root"),
        entries: vec![
            text_file(".wagonignore", &["build"]),
            dir("build", vec![file("output.o")]),
            file("main.c"),
        ],
        configs: vec![],
        canonical: vec![same_place("/home/user")],
        home: Some(path("/home/user")),
        os: "linux".to_string(),
    };
    let items = list_items(&snap, false).unwrap();
    assert_eq!(items, vec![link("/root/main.c", "/home/user/main.c", false)]);
}

#[test]
fn what_a_version_control_system_keeps_is_no_item() {
    let snap = Snapshot {
        root: path("/root"),
        entries: vec![
            dir(".git", vec![file("HEAD"), dir("objects", vec![file("x")])]),
            file(".gitignore"),
            file(".gitmodules"),
            file(".gitconfig"),
            dir("sub", vec![file(".gitignore"), file("kept")]),
        ],
        configs: vec![],
        canonical: vec![same_place("/home/user")],
        home: Some(path("/home/user")),
        os: "linux".to_string(),
    };
    let items = list_items(&snap, false).unwrap();
    let sources: Vec<FsPath> = items.iter().map(|l| l.source.clone()).collect();
    assert_eq!(sources, vec![path("/root/.gitconfig"), path("/root/sub/kept")]);
}

#[test]
fn a_snapshot_is_checked_for_what_a_capture_gives() {
    let mut snap = nested_repo();
    assert!(!snap.check());
    snap.canonical.push(same_place("/repo"));
    assert!(snap.check());
    let items = list_items(&snap, false).unwrap();
    assert!(items.iter().all(|l| l.source.is_absolute() && l.target.is_absolute()));
    assert!(items.iter().all(|l| l.source.len() > 2 && l.source.starts_with(&path("/repo"))));
    let mut relative = nested_repo();
    relative.root = path("repo");
    relative.canonical.push(same_place("repo"));
    assert!(!relative.check());
    let mut twice = nested_repo();
    twice.canonical.push(same_place("/repo"));
    twice.entries.push(file("a.txt"));
    assert!(!twice.check());
    let mut dotted = nested_repo();
    dotted.canonical.push(same_place("/repo"));
    dotted.entries.push(file(".."));
    assert!(!dotted.check());
    let mut slashed = nested_repo();
    slashed.canonical.push(same_place("/repo"));
    slashed.entries.push(dir("sub2", vec![file("a/b")]));
    assert!(!slashed.check());
    let mut unresolved = nested_repo();
    unresolved.canonical.push(Canonical { raw: path("/repo"), resolved: path("/elsewhere") });
    assert!(!unresolved.check());
    let mut loose = nested_repo();
    loose.canonical.push(same_place("/repo"));
    loose.canonical.push(Canonical { raw: path("x"), resolved: path("relative/x") });
    assert!(!loose.check());
}
