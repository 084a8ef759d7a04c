use wagon::config::{Command, Config, ConfigSite};
use wagon::hooks::{is_for, select, Phase};
use wagon::init::{run_init, run_inits};
use wagon::path::FsPath;
use wagon::update::{run_update, run_updates};

fn path(text: &str) -> FsPath {
    FsPath::parse(text)
}

fn command(name: &str, args: &[&str], os: Option<&str>) -> Command {
    Command {
        command: name.to_string(),
        args: args.iter().map(|a| a.to_string()).collect(),
        os: os.map(|o| o.to_string()),
    }
}

fn sites() -> Vec<ConfigSite> {
    let bash = Config {
        dest: Some(path("test/home")),
        init: Some(vec![
            command("touch", &["testtouch"], None),
            command("brew", &["install", "bash"], Some("macos")),
            command("apt", &["install", "bash"], Some("linux-gnu")),
        ]),
        update: Some(vec![command("touch", &["testtouch"], Some("linux"))]),
        dirs: None,
        os: None,
    };
    let zsh = Config {
        dest: None,
        init: None,
        update: Some(vec![command("zsh", &["-c", "true"], None)]),
        dirs: None,
        os: None,
    };
    vec![
        ConfigSite { dir: path("test/repo/bash"), candidates: vec![Some(bash)] },
        ConfigSite { dir: path("test/repo/zsh"), candidates: vec![Some(zsh)] },
    ]
}

fn names(hooks: &[&Command]) -> Vec<String> {
    hooks.iter().map(|c| c.command.clone()).collect()
}

#[test]
fn test_run_init() {
    let sites = sites();
    let hooks = run_init(&sites, &path("test/repo/bash"), &"linux".to_string());
    assert_eq!(names(&hooks), vec!["touch", "apt"]);
    assert_eq!(hooks[0].args, vec!["testtouch"]);
}

#[test]
fn test_run_update() {
    let sites = sites();
    let hooks = run_update(&sites, &path("test/repo/bash"), &"linux".to_string());
    assert_eq!(names(&hooks), vec!["touch"]);
    assert_eq!(hooks[0].args, vec!["testtouch"]);
}

#[test]
fn a_hook_for_another_system_is_left_out() {
    let sites = sites();
    let os = "macos".to_string();
    assert_eq!(names(&run_init(&sites, &path("test/repo/bash"), &os)), vec!["touch", "brew"]);
    assert_eq!(names(&run_update(&sites, &path("test/repo/bash"), &os)), Vec::<String>::new());
    assert!(is_for(&command("x", &[], Some("linux-musl")), &"linux".to_string()));
    assert!(!is_for(&command("x", &[], Some("lin")), &"linux".to_string()));
    assert!(is_for(&command("x", &[], None), &"linux".to_string()));
}

#[test]
fn a_directory_without_configuration_has_no_hooks() {
    let sites = sites();
    let os = "linux".to_string();
    assert!(run_init(&sites, &path("test/repo/vim"), &os).is_empty());
    assert!(run_init(&sites, &path("test/repo/zsh"), &os).is_empty());
    assert!(select(&sites, &path("elsewhere"), &os, Phase::Update).is_empty());
}

#[test]
fn the_hooks_of_several_directories_come_in_their_order() {
    let sites = sites();
    let os = "linux".to_string();
    let dirs = vec![path("zsh"), path("vim"), path("bash")];
    assert_eq!(names(&run_updates(&sites, &path("test/repo"), &dirs, &os)), vec!["zsh", "touch"]);
    assert_eq!(names(&run_inits(&sites, &path("test/repo"), &dirs, &os)), vec!["touch", "apt"]);
    assert!(run_inits(&sites, &path("test/repo"), &vec![], &os).is_empty());
}

#[test]
fn an_absolute_directory_stands_for_itself() {
    let mut sites = sites();
    sites[1].dir = path("/abs/zsh");
    let os = "linux".to_string();
    let dirs = vec![path("/abs/zsh")];
    assert_eq!(names(&run_updates(&sites, &path("test/repo"), &dirs, &os)), vec!["zsh"]);
}
