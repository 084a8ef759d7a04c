use wagon::config::{Config, ConfigSite};
use wagon::error::Error;
use wagon::ignore::filter_ignores;
use wagon::path::FsPath;
use wagon::plan::Op;
use wagon::pull::{pull_files, Candidate, Pull};
use wagon::repo::{find_char, has_suffix, load_repo, read_name, trim_git, Checkout};

fn path(text: &str) -> FsPath {
    FsPath::parse(text)
}

fn checkout(name: &str) -> Checkout {
    assert!(read_name(name).is_some());
    load_repo(name, Some(&path("/home/user")), &path("src"))
}

fn sites(dest: Option<&str>) -> Vec<ConfigSite> {
    let config = Config { dest: dest.map(path), init: None, update: None, dirs: None, os: None };
    vec![ConfigSite { dir: path("/repo/bash"), candidates: vec![Some(config)] }]
}

fn named(text: &str, is_file: bool) -> Candidate {
    Candidate { path: path(text), is_file }
}

#[test]
fn an_address_names_site_and_path() {
    assert_eq!(
        checkout("https://gitlab.com/user/dots.git"),
        Checkout {
            url: "https://gitlab.com/user/dots.git".to_string(),
            path: path("/home/user/src/gitlab.com/user/dots"),
        }
    );
    assert_eq!(checkout("https://example.org/a/b.git.git").url, "https://example.org/a/b.git");
    assert_eq!(
        checkout("https://example.org"),
        Checkout { url: "https:///.git".to_string(), path: path("/home/user/src") }
    );
    assert_eq!(read_name("https://gitlab.com/user/dots.git"), Some(("gitlab.com", "user/dots")));
}

#[test]
fn a_short_form_names_the_site() {
    assert_eq!(checkout("gh:user/dots").url, "https://github.com/user/dots.git");
    assert_eq!(checkout("gl:user/dots").url, "https://gitlab.com/user/dots.git");
    assert_eq!(
        checkout("bb:user/dots"),
        Checkout {
            url: "https://bitbucket.org/user/dots.git".to_string(),
            path: path("/home/user/src/bitbucket.org/user/dots"),
        }
    );
    assert_eq!(
        load_repo("gh:u/r", Some(&path("/home/u")), &path("src")).path,
        path("/home/u/src/github.com/u/r")
    );
}

#[test]
fn a_short_form_that_is_not_known_names_nothing() {
    assert_eq!(read_name("sr:user/dots"), None);
    assert_eq!(read_name(":user"), None);
    assert_eq!(read_name("GH:user"), None);
    assert_eq!(read_name("gh:user/dots"), Some(("github.com", "user/dots")));
    assert_eq!(read_name("user/dots"), Some(("github.com", "user/dots")));
    assert_eq!(read_name("https://example.org"), Some(("", "")));
}

#[test]
fn a_bare_path_is_on_the_first_site() {
    assert_eq!(
        checkout("user/dots"),
        Checkout {
            url: "https://github.com/user/dots.git".to_string(),
            path: path("/home/user/src/github.com/user/dots"),
        }
    );
    assert_eq!(load_repo("user/dots", None, &path("")).path, path("github.com/user/dots"));
}

#[test]
fn texts_are_searched_and_cut() {
    assert_eq!(find_char("a:b:c", ':'), Some(1));
    assert_eq!(find_char("abc", ':'), None);
    assert_eq!(find_char("é/x", '/'), Some(1));
    assert!(has_suffix("repo.git", ".git"));
    assert!(!has_suffix("git", ".git"));
    assert!(has_suffix("x", ""));
    assert_eq!(trim_git("repo.git"), "repo");
    assert_eq!(trim_git("repo.git.git"), "repo");
    assert_eq!(trim_git(".git"), "");
    assert_eq!(trim_git("repo.gi"), "repo.gi");
}

#[test]
fn a_file_is_pulled_to_its_place_in_the_repository() {
    let targets = vec![named("/home/user/.config/bash/rc", true), named("/home/user/.cache", false)];
    let pulls = pull_files(
        &sites(Some("/home/user")),
        &path("/repo"),
        &path("bash"),
        &targets,
        None,
        &"linux".to_string(),
    )
    .unwrap();
    assert_eq!(
        pulls,
        vec![
            Pull {
                from: path("/home/user/.config/bash/rc"),
                to: Some(path("bash/.config/bash/rc")),
                ops: vec![
                    Op::MakeDirs(path("bash/.config/bash")),
                    Op::Copy {
                        source: path("/home/user/.config/bash/rc"),
                        target: path("bash/.config/bash/rc"),
                    },
                ],
            },
            Pull { from: path("/home/user/.cache"), to: None, ops: vec![] },
        ]
    );
}

#[test]
fn pulling_needs_a_configuration_and_a_destination() {
    let os = "linux".to_string();
    let home = path("/home/user");
    let targets = vec![named("/home/user/x", true)];
    let none = pull_files(&vec![], &path("/repo"), &path("bash"), &targets, Some(&home), &os);
    assert_eq!(none, Ok(vec![]));
    let lost = pull_files(&sites(None), &path("/repo"), &path("bash"), &targets, None, &os);
    assert_eq!(lost, Err(Error::MissingDestination));
    let from_home = pull_files(&sites(None), &path("/repo"), &path("bash"), &targets, Some(&home), &os);
    assert_eq!(from_home.unwrap()[0].to, Some(path("bash/x")));
    let stray = vec![named("/elsewhere/x", false), named("/elsewhere/y", true)];
    let outside = pull_files(&sites(None), &path("/repo"), &path("bash"), &stray, Some(&home), &os);
    assert_eq!(outside, Err(Error::OutsideDestination));
}

#[test]
fn configuration_and_ignore_files_are_no_items() {
    assert!(!filter_ignores(".wagon.toml"));
    assert!(!filter_ignores(".wagon.toml.linux"));
    assert!(!filter_ignores(".wagonignore"));
    assert!(filter_ignores(".wagonignore.bak"));
    assert!(filter_ignores(".wagon"));
    assert!(filter_ignores(".bashrc"));
    assert!(!filter_ignores(".git"));
    assert!(!filter_ignores(".gitignore"));
    assert!(!filter_ignores(".gitmodules"));
    assert!(filter_ignores(".github"));
    assert!(filter_ignores(".gitconfig"));
}
