use wagon::config::{
    get_config, is_accepted, is_for_any, is_for_system, Config, ConfigSite, GlobalConfig,
};
use wagon::path::FsPath;

fn path(text: &str) -> FsPath {
    FsPath::parse(text)
}

fn config(dest: &str, os: Option<&str>) -> Config {
    Config {
        dest: Some(path(dest)),
        init: None,
        update: None,
        dirs: None,
        os: os.map(|o| o.to_string()),
    }
}

fn sites() -> Vec<ConfigSite> {
    vec![
        ConfigSite { dir: path("test/repo/bash"), candidates: vec![Some(config("test/home", None))] },
        ConfigSite {
            dir: path("test/repo"),
            candidates: vec![
                None,
                Some(config("/mac", Some("macos"))),
                Some(config("/linux", Some("linux"))),
                Some(config("/any", None)),
            ],
        },
        ConfigSite { dir: path("test"), candidates: vec![Some(config("/top", None))] },
    ]
}

fn dest_of(base: &str, os: &str) -> Option<FsPath> {
    let sites = sites();
    let found = get_config(&sites, &path(base), &os.to_string());
    found.and_then(|f| f.config.dest.clone())
}

#[test]
fn test_get_config() {
    let sites = sites();
    let config = get_config(&sites, &path("test/repo/bash"), &"linux".to_string());
    assert!(config.is_some());
}

#[test]
fn the_nearest_directory_decides() {
    assert_eq!(dest_of("test/repo/bash", "linux"), Some(path("test/home")));
    assert_eq!(dest_of("test/repo/bash/deeper/still", "linux"), Some(path("test/home")));
}

#[test]
fn the_directory_that_offers_the_configuration_is_named() {
    let sites = sites();
    let found = get_config(&sites, &path("test/repo/zsh/sub"), &"linux".to_string()).unwrap();
    assert_eq!(found.dir, &path("test/repo"));
}

#[test]
fn a_configuration_for_another_system_is_passed_over() {
    assert_eq!(dest_of("test/repo/zsh", "linux"), Some(path("/linux")));
    assert_eq!(dest_of("test/repo/zsh", "macos"), Some(path("/mac")));
    assert_eq!(dest_of("test/repo/zsh", "freebsd"), Some(path("/any")));
}

#[test]
fn the_search_goes_up_where_a_directory_offers_nothing() {
    let mut sites = sites();
    sites[1].candidates.truncate(3);
    let found = get_config(&sites, &path("test/repo/zsh"), &"freebsd".to_string()).unwrap();
    assert_eq!(found.dir, &path("test"));
    assert_eq!(found.config.dest, Some(path("/top")));
}

#[test]
fn no_configuration_governs_a_path_outside() {
    let sites = sites();
    assert!(get_config(&sites, &path("elsewhere/repo"), &"linux".to_string()).is_none());
    assert!(get_config(&sites, &path(""), &"linux".to_string()).is_none());
}

#[test]
fn a_file_that_could_not_be_read_is_not_accepted() {
    let os = "linux".to_string();
    assert!(!is_accepted(&None, &os));
    assert!(is_accepted(&Some(config("/d", None)), &os));
    assert!(is_accepted(&Some(config("/d", Some("linux"))), &os));
    assert!(!is_accepted(&Some(config("/d", Some("linux-gnu"))), &os));
}

#[test]
fn the_first_site_recorded_for_a_directory_counts() {
    let mut sites = sites();
    sites.push(ConfigSite { dir: path("test/repo/bash"), candidates: vec![Some(config("/late", None))] });
    let found = get_config(&sites, &path("test/repo/bash"), &"linux".to_string()).unwrap();
    assert_eq!(found.config.dest, Some(path("test/home")));
}

#[test]
fn the_own_configuration_has_its_place() {
    let home = path("/home/user");
    let named = path("/etc/xdg");
    assert_eq!(GlobalConfig::get_path(Some(&home), None), path("/home/user/.config/wagon/config.toml"));
    assert_eq!(GlobalConfig::get_path(Some(&home), Some(&named)), path("/etc/xdg/wagon/config.toml"));
    assert_eq!(GlobalConfig::get_path(None, None), path("/.config/wagon/config.toml"));
}

#[test]
fn the_repositories_are_held_in_src_unless_told() {
    assert_eq!(GlobalConfig::new(None).src, path("src"));
    assert_eq!(GlobalConfig::new(Some(None)).src, path(""));
    assert_eq!(GlobalConfig::new(Some(Some(path("code")))).src, path("code"));
}

#[test]
fn a_configuration_for_the_system_comes_before_one_for_every_system() {
    let sites = vec![ConfigSite {
        dir: path("/repo"),
        candidates: vec![
            Some(config("/a", None)),
            None,
            Some(config("/b", Some("linux"))),
            Some(config("/c", Some("linux"))),
            Some(config("/d", None)),
        ],
    }];
    let found = |os: &str| {
        get_config(&sites, &path("/repo/bash"), &os.to_string()).and_then(|f| f.config.dest.clone())
    };
    assert_eq!(found("linux"), Some(path("/b")));
    assert_eq!(found("macos"), Some(path("/a")));
}

#[test]
fn a_nearer_configuration_for_every_system_comes_before_a_farther_one_for_the_system() {
    let sites = vec![
        ConfigSite { dir: path("/repo/bash"), candidates: vec![Some(config("/near", None))] },
        ConfigSite { dir: path("/repo"), candidates: vec![Some(config("/far", Some("linux")))] },
    ];
    let found = get_config(&sites, &path("/repo/bash"), &"linux".to_string()).unwrap();
    assert_eq!(found.config.dest, Some(path("/near")));
}

#[test]
fn candidates_are_told_apart_by_their_system() {
    let os = "linux".to_string();
    assert!(is_for_system(&Some(config("/d", Some("linux"))), &os));
    assert!(!is_for_system(&Some(config("/d", None)), &os));
    assert!(!is_for_system(&Some(config("/d", Some("macos"))), &os));
    assert!(!is_for_system(&None, &os));
    assert!(is_for_any(&Some(config("/d", None))));
    assert!(!is_for_any(&Some(config("/d", Some("linux")))));
    assert!(!is_for_any(&None));
}

#[test]
fn the_own_configuration_for_the_system_governs_whatever_stands_above() {
    let sites = vec![
        ConfigSite { dir: path("/repo/bash"), candidates: vec![Some(config("/own", Some("linux")))] },
        ConfigSite { dir: path("/repo"), candidates: vec![Some(config("/above", Some("linux")))] },
        ConfigSite { dir: path("/"), candidates: vec![Some(config("/top", None))] },
    ];
    let found = get_config(&sites, &path("/repo/bash"), &"linux".to_string()).unwrap();
    assert_eq!(found.config.dest, Some(path("/own")));
    assert_eq!(found.dir, &path("/repo/bash"));
}

#[test]
fn the_empty_path_is_not_asked() {
    let sites = vec![ConfigSite { dir: path(""), candidates: vec![Some(config("/cwd", None))] }];
    assert!(get_config(&sites, &path(""), &"linux".to_string()).is_none());
    assert!(get_config(&sites, &path("a/b"), &"linux".to_string()).is_none());
}
