use wagon::config::{Config, ConfigSite};
use wagon::dest::{get_dest, map_destination};
use wagon::error::Error;
use wagon::path::FsPath;
use wagon::snapshot::{Canonical, Snapshot};

fn path(text: &str) -> FsPath {
    FsPath::parse(text)
}

fn repo() -> Snapshot {
    let bash = Config {
        dest: Some(path("test/home")),
        init: None,
        update: None,
        dirs: None,
        os: None,
    };
    let zsh = Config { dest: None, init: None, update: None, dirs: None, os: None };
    Snapshot {
        root: path("test/repo"),
        entries: vec![],
        configs: vec![
            ConfigSite { dir: path("test/repo/bash"), candidates: vec![Some(bash)] },
            ConfigSite { dir: path("test/repo/zsh"), candidates: vec![Some(zsh)] },
        ],
        canonical: vec![
            Canonical { raw: path("test/home"), resolved: path("/work/test/home") },
            Canonical { raw: path("/home/user"), resolved: path("/home/user") },
        ],
        home: Some(path("/home/user")),
        os: "linux".to_string(),
    }
}

#[test]
fn test_get_dest() {
    let dest = get_dest(&repo(), &path("test/repo/bash/.bashrc")).unwrap();
    assert!(dest == path("test/home"));
}

#[test]
fn test_get_dest_home() {
    let snap = repo();
    let dest = get_dest(&snap, &path("test/repo/zsh/.zshrc")).unwrap();
    assert!(dest == snap.home.clone().unwrap());
}

#[test]
fn a_source_without_configuration_goes_home() {
    let dest = get_dest(&repo(), &path("test/repo/vim/.vimrc")).unwrap();
    assert_eq!(dest, path("/home/user"));
}

#[test]
fn the_directory_that_holds_the_source_is_asked() {
    let dest = get_dest(&repo(), &path("test/repo/bash")).unwrap();
    assert_eq!(dest, path("/home/user"));
}

#[test]
fn without_home_a_destination_may_be_missing() {
    let mut snap = repo();
    snap.home = None;
    assert_eq!(get_dest(&snap, &path("test/repo/zsh/.zshrc")), Err(Error::MissingDestination));
    assert_eq!(get_dest(&snap, &path("test/repo/bash/.bashrc")), Ok(path("test/home")));
}

#[test]
fn a_source_is_mapped_below_the_canonical_destination() {
    let snap = repo();
    assert_eq!(
        map_destination(&snap, &path("test/repo/bash/.bashrc")),
        Ok(path("/work/test/home/bash/.bashrc"))
    );
    assert_eq!(
        map_destination(&snap, &path("test/repo/zsh/.zsh/prompt.zsh")),
        Ok(path("/home/user/zsh/.zsh/prompt.zsh"))
    );
}

#[test]
fn a_destination_that_does_not_resolve_is_an_error() {
    let mut snap = repo();
    snap.canonical.remove(0);
    assert_eq!(map_destination(&snap, &path("test/repo/bash/.bashrc")), Err(Error::Canonicalize));
}

#[test]
fn a_missing_destination_comes_before_one_that_does_not_resolve() {
    let mut snap = repo();
    snap.home = None;
    snap.canonical.clear();
    assert_eq!(map_destination(&snap, &path("test/repo/zsh/.zshrc")), Err(Error::MissingDestination));
}
