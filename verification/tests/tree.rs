use wagon::config::{find_preferred, find_site, Config, ConfigSite};
use wagon::error::Error;
use wagon::ignore::{build_ignores, holds};
use wagon::list::{classify, list_diritems, list_dir, Step};
use wagon::path::FsPath;
use wagon::snapshot::{find_child, find_node, Canonical, Snapshot};
use wagon::structs::{Link, PathDict};
use wagon::tree::{flatten, Entry, Node};

fn path(text: &str) -> FsPath {
    FsPath::parse(text)
}

fn file(name: &str) -> Entry {
    Entry { name: name.to_string(), node: Node::File(Vec::new()) }
}

fn text_file(name: &str, lines: &[&str]) -> Entry {
    Entry { name: name.to_string(), node: Node::File(lines.iter().map(|l| l.to_string()).collect()) }
}

fn dir(name: &str, entries: Vec<Entry>) -> Entry {
    Entry { name: name.to_string(), node: Node::Dir(entries) }
}

fn tree() -> Vec<Entry> {
    vec![
        text_file(".wagonignore", &["*.tmp", "cache/**", "docs/[a-c]?.md"]),
        file(".wagon.toml.macos"),
        file("a.tmp"),
        dir("cache", vec![file("x"), dir("deep", vec![file("y")])]),
        dir("docs", vec![file("a1.md"), file("d1.md"), file("a12.md"), file("b.tmp")]),
        file("keep"),
    ]
}

fn snapshot() -> Snapshot {
    Snapshot {
        root: path("/r"),
        entries: tree(),
        configs: vec![],
        canonical: vec![
            Canonical { raw: path("/home"), resolved: path("/mnt/home") },
            Canonical { raw: path("/home"), resolved: path("/late") },
        ],
        home: Some(path("/home")),
        os: "linux".to_string(),
    }
}

#[test]
fn a_tree_is_listed_with_a_directory_before_what_it_holds() {
    let entries = tree();
    let listed: Vec<String> = flatten(&path("/r"), &entries).iter().map(|l| l.path.to_text()).collect();
    assert_eq!(
        listed,
        vec![
            "/r/.wagonignore",
            "/r/.wagon.toml.macos",
            "/r/a.tmp",
            "/r/cache",
            "/r/cache/x",
            "/r/cache/deep",
            "/r/cache/deep/y",
            "/r/docs",
            "/r/docs/a1.md",
            "/r/docs/d1.md",
            "/r/docs/a12.md",
            "/r/docs/b.tmp",
            "/r/keep",
        ]
    );
    assert!(flatten(&path("/r"), &vec![]).is_empty());
}

#[test]
fn the_ignore_set_holds_what_the_patterns_match() {
    let mut set: Vec<String> =
        build_ignores(&path("/r"), &tree()).unwrap().iter().map(|p| p.to_text()).collect();
    set.sort();
    assert_eq!(
        set,
        vec![
            "/r/.wagon.toml.macos",
            "/r/.wagonignore",
            "/r/a.tmp",
            "/r/cache/deep",
            "/r/cache/deep/y",
            "/r/cache/x",
            "/r/docs/a1.md",
        ]
    );
}

#[test]
fn a_pattern_with_a_bad_range_or_wildcard_fails_the_set() {
    for line in ["a[", "a**b", "***"] {
        let entries = vec![dir("sub", vec![text_file(".wagonignore", &["ok", line])])];
        assert_eq!(build_ignores(&path("/r"), &entries), Err(Error::Pattern));
    }
    let named_so = vec![dir(".wagonignore", vec![file("a[")]), text_file("other", &["a["])];
    assert!(build_ignores(&path("/r"), &named_so).is_ok());
}

#[test]
fn a_path_is_looked_up_in_a_list() {
    let list = vec![path("/a"), path("/b/c")];
    assert!(holds(&list, &path("/b/c")));
    assert!(!holds(&list, &path("/b")));
    assert!(!holds(&vec![], &path("/a")));
}

#[test]
fn a_node_is_found_by_its_path() {
    let entries = tree();
    assert_eq!(find_child(&entries, &"docs".to_string()), Some(4));
    assert_eq!(find_child(&entries, &"none".to_string()), None);
    assert_eq!(find_node(&entries, &path("cache/deep/y")), Some(&Node::File(vec![])));
    assert!(matches!(find_node(&entries, &path("cache/deep")), Some(Node::Dir(_))));
    assert_eq!(find_node(&entries, &path("keep/inside")), None);
    assert_eq!(find_node(&entries, &path("cache/none")), None);
    assert_eq!(find_node(&entries, &path("")), None);
}

#[test]
fn the_first_entry_of_a_name_is_found() {
    let entries = vec![file("twice"), dir("twice", vec![file("x")])];
    assert_eq!(find_child(&entries, &"twice".to_string()), Some(0));
    assert_eq!(find_node(&entries, &path("twice/x")), None);
}

#[test]
fn the_snapshot_answers_for_its_tree() {
    let snap = snapshot();
    assert_eq!(snap.canonicalize(&path("/home")), Some(&path("/mnt/home")));
    assert_eq!(snap.canonicalize(&path("/other")), None);
    assert!(snap.is_dir(&path("/r/cache/deep")));
    assert!(!snap.is_dir(&path("/r/keep")));
    assert!(!snap.is_dir(&path("/r")));
    assert!(!snap.is_dir(&path("/x/cache")));
    assert!(!snap.is_dir(&path("/r/none")));
}

#[test]
fn an_entry_is_passed_over_taken_or_entered() {
    let dict = PathDict { dir: vec![path("/r/docs")], ign: vec![path("/r/cache"), path("/r/a.tmp")] };
    let sub = Node::Dir(vec![]);
    let plain = Node::File(vec![]);
    assert_eq!(classify(&dict, &path("/r/cache"), &sub), Step::Skip);
    assert_eq!(classify(&dict, &path("/r/a.tmp"), &plain), Step::Skip);
    assert_eq!(classify(&dict, &path("/r/keep"), &plain), Step::File);
    assert_eq!(classify(&dict, &path("/r/docs"), &sub), Step::DirectoryLink);
    assert_eq!(classify(&dict, &path("/r/docs"), &plain), Step::File);
    assert_eq!(classify(&dict, &path("/r/other"), &sub), Step::Descend);
    assert_eq!(classify(&dict, &path("/r/broken"), &Node::Other), Step::Skip);
}

#[test]
fn a_directory_that_is_listed_twice_is_one_boundary() {
    let mut snap = snapshot();
    let config = Config {
        dest: None,
        init: None,
        update: None,
        dirs: Some(vec![path("docs"), path("cache"), path("docs")]),
        os: None,
    };
    snap.configs = vec![ConfigSite { dir: path("/r"), candidates: vec![Some(config)] }];
    snap.canonical.push(Canonical { raw: path("/r/docs"), resolved: path("/r/docs") });
    snap.canonical.push(Canonical { raw: path("/r/cache"), resolved: path("/r/cache") });
    assert_eq!(list_diritems(&snap), vec![path("/r/docs"), path("/r/cache")]);
}

#[test]
fn a_path_that_two_lines_match_is_ignored_once() {
    let entries = vec![
        text_file(".wagonignore", &["*.tmp", "a.*"]),
        file("a.tmp"),
        file("a.tmp"),
    ];
    let set = build_ignores(&path("/r"), &entries).unwrap();
    assert_eq!(set, vec![path("/r/.wagonignore"), path("/r/a.tmp")]);
}

#[test]
fn a_walk_follows_the_two_sets_it_is_given() {
    let snap = snapshot();
    let dict = PathDict { dir: vec![path("/r/docs")], ign: vec![path("/r/cache")] };
    let items = list_dir(&snap, &dict, &snap.root, &snap.entries).unwrap();
    let sources: Vec<String> = items.iter().map(|l| l.source.to_text()).collect();
    assert_eq!(
        sources,
        vec!["/r/.wagonignore", "/r/.wagon.toml.macos", "/r/a.tmp", "/r/docs", "/r/keep"]
    );
    assert_eq!(items[3], Link::new(path("/r/docs"), path("/mnt/home/docs"), true));
    let below = match &snap.entries[4].node {
        Node::Dir(sub) => list_dir(&snap, &dict, &path("/r/docs"), sub).unwrap(),
        _ => vec![],
    };
    assert_eq!(below.len(), 4);
    assert_eq!(below[0].target, path("/mnt/home/docs/a1.md"));
}

#[test]
fn sites_and_candidates_are_searched_in_their_order() {
    let plain = || Config { dest: None, init: None, update: None, dirs: None, os: None };
    let mac = Config { os: Some("macos".to_string()), ..plain() };
    let candidates = vec![None, Some(mac), Some(plain())];
    assert_eq!(find_preferred(&candidates, &"linux".to_string()), Some(2));
    assert_eq!(find_preferred(&candidates, &"macos".to_string()), Some(1));
    assert_eq!(find_preferred(&vec![None], &"linux".to_string()), None);
    let linux = Config { os: Some("linux".to_string()), ..plain() };
    let both = vec![Some(plain()), Some(linux), Some(plain())];
    assert_eq!(find_preferred(&both, &"linux".to_string()), Some(1));
    assert_eq!(find_preferred(&both, &"macos".to_string()), Some(0));
    let sites = vec![
        ConfigSite { dir: path("/a"), candidates: vec![] },
        ConfigSite { dir: path("/b"), candidates: vec![] },
        ConfigSite { dir: path("/a"), candidates: vec![None] },
    ];
    assert_eq!(find_site(&sites, &path("/a")), Some(0));
    assert_eq!(find_site(&sites, &path("/b")), Some(1));
    assert_eq!(find_site(&sites, &path("/c")), None);
}
