use wagon::config::{Config, ConfigSite};
use wagon::error::Error;
use wagon::path::FsPath;
use wagon::plan::{Observed, Seen};
use wagon::show::{
    check_binary_diff, classify_line, get_text_diff, show_content_diff, show_item, show_link,
    show_list, trim_end, Kind, Line, Report, Shown, Status,
};
use wagon::snapshot::{Canonical, Snapshot};
use wagon::structs::{Content, Link};
use wagon::tree::{Entry, Node};

fn path(text: &str) -> FsPath {
    FsPath::parse(text)
}

fn lines(text: &[&str]) -> Vec<String> {
    text.iter().map(|l| l.to_string()).collect()
}

fn line(kind: Kind, text: &str) -> Line {
    Line { kind, text: text.to_string() }
}

fn item() -> Link {
    Link::new(path("/repo/.vimrc"), path("/home/.vimrc"), false)
}

fn repo() -> Snapshot {
    let config = Config {
        dest: None,
        init: None,
        update: None,
        dirs: Some(vec![path("nvim")]),
        os: None,
    };
    Snapshot {
        root: path("/repo/vim"),
        entries: vec![
            Entry { name: ".vimrc".to_string(), node: Node::File(vec![]) },
            Entry { name: "nvim".to_string(), node: Node::Dir(vec![]) },
            Entry { name: "gone".to_string(), node: Node::File(vec![]) },
            Entry { name: "else".to_string(), node: Node::File(vec![]) },
        ],
        configs: vec![ConfigSite { dir: path("/repo/vim"), candidates: vec![Some(config)] }],
        canonical: vec![
            Canonical { raw: path("/home"), resolved: path("/home") },
            Canonical { raw: path("/repo/vim/nvim"), resolved: path("/repo/vim/nvim") },
        ],
        home: Some(path("/home")),
        os: "linux".to_string(),
    }
}

#[test]
fn a_changed_line_is_shown_removed_and_added() {
    let diff = get_text_diff(&lines(&["a", "b", "c"]), &lines(&["a", "x", "c"]), "src", "dst", "d1", "d2");
    assert_eq!(
        diff,
        vec![
            line(Kind::Removed, "--- src\td1"),
            line(Kind::Added, "+++ dst\td2"),
            line(Kind::Context, "@@ -1,3 +1,3 @@"),
            line(Kind::Context, " a"),
            line(Kind::Removed, "-b"),
            line(Kind::Added, "+x"),
            line(Kind::Context, " c"),
        ]
    );
}

#[test]
fn the_white_space_at_the_end_of_a_line_is_not_shown() {
    let diff = get_text_diff(&lines(&["a  "]), &lines(&["b\t "]), "s", "t", "", "");
    assert_eq!(
        diff,
        vec![
            line(Kind::Removed, "--- s"),
            line(Kind::Added, "+++ t"),
            line(Kind::Context, "@@ -1 +1 @@"),
            line(Kind::Removed, "-a"),
            line(Kind::Added, "+b"),
        ]
    );
}

#[test]
fn equal_texts_have_no_diff() {
    assert_eq!(get_text_diff(&lines(&["a", "b"]), &lines(&["a", "b"]), "s", "t", "", ""), vec![]);
    assert_eq!(get_text_diff(&vec![], &vec![], "s", "t", "", ""), vec![]);
}

#[test]
fn trimming_takes_white_space_off_the_end_only() {
    assert_eq!(trim_end("  a b \t\n"), "  a b");
    assert_eq!(trim_end("a\u{00a0}\u{3000}"), "a");
    assert_eq!(trim_end(" \t "), "");
    assert_eq!(trim_end(""), "");
    assert_eq!(trim_end("plain"), "plain");
}

#[test]
fn a_line_is_known_by_its_first_character() {
    assert_eq!(classify_line("+x"), Kind::Added);
    assert_eq!(classify_line("-x"), Kind::Removed);
    assert_eq!(classify_line(" x"), Kind::Context);
    assert_eq!(classify_line("@@ -1 +1 @@"), Kind::Context);
    assert_eq!(classify_line(""), Kind::Context);
}

#[test]
fn files_of_other_bytes_do_not_match() {
    assert_eq!(
        check_binary_diff(3, &vec![1, 2, 3], 12, &vec![1, 2, 4]),
        vec![line(Kind::Mismatch, "binary files do not match. src size:3, dst size:12")]
    );
    assert_eq!(check_binary_diff(3, &vec![1, 2, 3], 3, &vec![1, 2, 3]), vec![]);
    assert_eq!(check_binary_diff(0, &vec![7], 9, &vec![7]), vec![]);
}

#[test]
fn contents_are_compared_by_their_kind() {
    let text = Content::Text(lines(&["a"]));
    let other = Content::Text(lines(&["b"]));
    let bytes = Content::Binary(1, vec![0]);
    let more = Content::Binary(2, vec![0, 1]);
    assert_eq!(show_content_diff(&text, &other, "s", "t", "", "").len(), 5);
    assert_eq!(show_content_diff(&text, &text, "s", "t", "", ""), vec![]);
    assert_eq!(
        show_content_diff(&bytes, &more, "s", "t", "", ""),
        vec![line(Kind::Mismatch, "binary files do not match. src size:1, dst size:2")]
    );
    assert_eq!(
        show_content_diff(&text, &bytes, "s", "t", "", ""),
        vec![line(Kind::Unlike, "file types do not match")]
    );
    assert_eq!(
        show_content_diff(&bytes, &text, "s", "t", "", ""),
        vec![line(Kind::Unlike, "file types do not match")]
    );
}

#[test]
fn an_item_is_shown_by_what_stands_at_its_target() {
    let written = "/home/.vimrc -> /repo/.vimrc".to_string();
    assert_eq!(item().describe(), written);
    assert_eq!(
        show_item(&item(), Some(&Seen::Link(path("/repo/.vimrc")))),
        Report { status: Status::Linking, line: Some(written.clone()), compare: false }
    );
    assert_eq!(
        show_item(&item(), Some(&Seen::Link(path("/other")))),
        Report { status: Status::Elsewhere, line: None, compare: false }
    );
    assert_eq!(
        show_item(&item(), Some(&Seen::Other)),
        Report { status: Status::Exists, line: Some("/home/.vimrc".to_string()), compare: true }
    );
    assert_eq!(
        show_item(&item(), None),
        Report { status: Status::NoLink, line: Some(written), compare: false }
    );
    let whole = Link::new(path("/repo/nvim"), path("/home/nvim"), true);
    assert!(!show_item(&whole, Some(&Seen::Other)).compare);
}

#[test]
fn a_repository_is_shown_item_by_item() {
    let observed = vec![
        Observed { path: path("/home/.vimrc"), seen: Seen::Link(path("/repo/vim/.vimrc")) },
        Observed { path: path("/home/nvim"), seen: Seen::Other },
        Observed { path: path("/home/else"), seen: Seen::Link(path("/tmp/else")) },
    ];
    let reports = show_link(&repo(), &observed).unwrap();
    let statuses: Vec<Status> = reports.iter().map(|r| r.status).collect();
    assert_eq!(statuses, vec![Status::Linking, Status::Exists, Status::NoLink, Status::Elsewhere]);
    assert_eq!(reports[1].line, Some("/home/nvim".to_string()));
    assert!(!reports[1].compare);
    let shown = show_list(&vec![repo()], &observed);
    assert_eq!(shown.failed, None);
    assert_eq!(shown.sections.len(), 1);
    assert_eq!(shown.sections[0].name, Some("vim".to_string()));
    assert_eq!(shown.sections[0].reports, reports);
    assert_eq!(show_list(&vec![], &observed), Shown { sections: vec![], failed: None });
}

#[test]
fn a_repository_that_cannot_be_listed_ends_the_showing() {
    let mut broken = repo();
    broken.home = None;
    let shown = show_list(&vec![repo(), broken, repo()], &vec![]);
    assert_eq!(shown.failed, Some(Error::MissingDestination));
    assert_eq!(shown.sections.len(), 1);
    assert_eq!(shown.sections[0].reports, show_link(&repo(), &vec![]).unwrap());
}

#[test]
fn bytes_are_a_text_or_no_text() {
    assert_eq!(Content::from_bytes(6, b"a\nb\r\n".to_vec()), Content::Text(lines(&["a", "b"])));
    assert_eq!(Content::from_bytes(0, vec![]), Content::Text(vec![]));
    assert_eq!(Content::from_bytes(2, "é".as_bytes().to_vec()), Content::Text(lines(&["é"])));
    assert_eq!(Content::from_bytes(2, vec![0xff, 0xfe]), Content::Binary(2, vec![0xff, 0xfe]));
    assert_eq!(Content::from_bytes(7, vec![0x61, 0xc3]), Content::Binary(7, vec![0x61, 0xc3]));
}
