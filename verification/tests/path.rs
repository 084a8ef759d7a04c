use wagon::path::FsPath;
use wagon::text::{decimal, has_prefix, same_text, split_lines};

fn path(text: &str) -> FsPath {
    FsPath::parse(text)
}

fn parts(p: &FsPath) -> Vec<&str> {
    p.parts.iter().map(|s| s.as_str()).collect()
}

#[test]
fn a_text_is_read_into_components() {
    assert_eq!(parts(&path("a/b/c")), vec!["a", "b", "c"]);
    assert_eq!(parts(&path("/a/b")), vec!["/", "a", "b"]);
    assert_eq!(parts(&path("a//b/")), vec!["a", "b"]);
    assert_eq!(parts(&path("/")), vec!["/"]);
    assert_eq!(parts(&path("")), Vec::<&str>::new());
    assert_eq!(parts(&path(".bashrc")), vec![".bashrc"]);
}

#[test]
fn a_path_is_written_with_slashes() {
    assert_eq!(path("a/b/c").to_text(), "a/b/c");
    assert_eq!(path("only").to_text(), "only");
    assert_eq!(path("").to_text(), "");
    assert_eq!(path("/a").to_text(), "/a");
    assert_eq!(path("/a/b").to_text(), "/a/b");
    assert_eq!(path("/").to_text(), "/");
}

#[test]
fn joining_appends_unless_the_second_is_absolute() {
    assert_eq!(path("a/b").join(&path("c/d")), path("a/b/c/d"));
    assert_eq!(path("a/b").join(&path("/c")), path("/c"));
    assert_eq!(path("a").join(&path("")), path("a"));
    assert_eq!(path("").join(&path("a")), path("a"));
}

#[test]
fn a_prefix_is_taken_component_by_component() {
    assert!(path("a/bc/d").starts_with(&path("a/bc")));
    assert!(!path("a/bc/d").starts_with(&path("a/b")));
    assert!(path("a").starts_with(&path("a")));
    assert!(path("a").starts_with(&path("")));
    assert!(!path("a").starts_with(&path("a/b")));
    assert_eq!(path("a/b/c").strip_prefix(&path("a")), Some(path("b/c")));
    assert_eq!(path("a/b/c").strip_prefix(&path("a/b/c")), Some(path("")));
    assert_eq!(path("a/b/c").strip_prefix(&path("b")), None);
}

#[test]
fn the_root_and_the_empty_path_have_nothing_above() {
    assert_eq!(path("/").parent(), None);
    assert_eq!(path("").parent(), None);
    assert_eq!(path("a").parent(), Some(path("")));
    assert_eq!(path("/a").parent(), Some(path("/")));
    assert_eq!(path("a/b").parent(), Some(path("a")));
}

#[test]
fn the_last_component_is_the_name() {
    assert_eq!(path("a/b").file_name(), Some(&"b".to_string()));
    assert_eq!(path("").file_name(), None);
    assert_eq!(path("a").child(&"b".to_string()), path("a/b"));
}

#[test]
fn paths_are_cut_at_a_position() {
    let p = path("a/b/c");
    assert_eq!(p.prefix(0), path(""));
    assert_eq!(p.prefix(2), path("a/b"));
    assert_eq!(p.suffix(2), path("c"));
    assert_eq!(p.suffix(3), path(""));
    assert_eq!(p.len(), 3);
    assert!(p.same(&path("a/b/c")));
    assert!(!p.same(&path("a/b")));
    assert!(path("/x").is_absolute());
    assert!(!path("x").is_absolute());
    assert_eq!(p.clone(), p);
}

#[test]
fn numbers_are_written_in_decimal() {
    assert_eq!(decimal(0), "0");
    assert_eq!(decimal(7), "7");
    assert_eq!(decimal(10), "10");
    assert_eq!(decimal(1000), "1000");
    assert_eq!(decimal(u64::MAX), "18446744073709551615");
}

#[test]
fn texts_are_compared_by_their_characters() {
    assert!(has_prefix(".wagon.toml.linux", ".wagon.toml"));
    assert!(has_prefix("abc", ""));
    assert!(!has_prefix("ab", "abc"));
    assert!(!has_prefix("xbc", "abc"));
    assert!(same_text("héllo", "héllo"));
    assert!(!same_text("hello", "hellp"));
    assert!(!same_text("hello", "hell"));
}

#[test]
fn a_path_is_read_back_from_its_text() {
    for text in ["/home/user/.bashrc", "test/repo/bash", "/", "", "a", "/a"] {
        let p = path(text);
        assert_eq!(p.to_text(), text);
        assert_eq!(path(&p.to_text()), p);
    }
}

#[test]
fn a_text_is_cut_into_its_lines() {
    assert_eq!(split_lines("a\nb\r\nc"), vec!["a", "b", "c"]);
    assert_eq!(split_lines("a\n\nb\n"), vec!["a", "", "b"]);
    assert_eq!(split_lines("a\rb\n"), vec!["a\rb"]);
    assert_eq!(split_lines("a\r"), vec!["a\r"]);
    assert_eq!(split_lines("\r\n"), vec![""]);
    assert_eq!(split_lines("\n"), vec![""]);
    assert_eq!(split_lines(""), Vec::<String>::new());
    for text in ["x\r\r\ny", "\n\r", "one", "é\nü\r\n", "\r\n\r\n"] {
        let by_std: Vec<String> = text.lines().map(String::from).collect();
        assert_eq!(split_lines(text), by_std);
    }
}
