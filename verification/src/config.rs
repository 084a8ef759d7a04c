//! Configurations and the search for the one that governs a path.

use crate::path::{root_name, FsPath};
use vstd::prelude::*;

verus! {

/// One hook of a configuration: a program, its arguments, and the operating
/// systems it is meant for.
#[derive(Debug, PartialEq, Eq)]
pub struct Command {
    pub command: String,
    pub args: Vec<String>,
    pub os: Option<String>,
}

/// What one configuration file says.
#[derive(Debug, PartialEq, Eq)]
pub struct Config {
    /// The destination root for everything below the configuration's directory.
    pub dest: Option<FsPath>,
    pub init: Option<Vec<Command>>,
    pub update: Option<Vec<Command>>,
    /// Directories, relative to the configuration's directory, that are
    /// linked as a whole.
    pub dirs: Option<Vec<FsPath>>,
    /// The operating system that the configuration is for.
    pub os: Option<String>,
}

/// What the tool is told for all repositories of a user.
#[derive(Debug, PartialEq, Eq)]
pub struct GlobalConfig {
    /// The directory, below the home directory, that holds the repositories.
    pub src: FsPath,
}

/// The name of the directory of configurations below the home directory.
pub open spec fn config_dir_name() -> Seq<char> {
    ".config"@
}

/// The path of the tool's own configuration below a directory of
/// configurations.
pub open spec fn own_config() -> Seq<Seq<char>> {
    seq!["wagon"@, "config.toml"@]
}

/// The place of the tool's own configuration: in the directory of
/// configurations that is named for the user, else in the one below the home
/// directory, else in the one below the root.
pub open spec fn global_config_path(
    home: Option<Seq<Seq<char>>>,
    named: Option<Seq<Seq<char>>>,
) -> Seq<Seq<char>> {
    let base = match named {
        Some(dir) => dir,
        None => match home {
            Some(h) => h.push(config_dir_name()),
            None => seq![root_name(), config_dir_name()],
        },
    };
    base + own_config()
}

/// The view of a path that may be missing.
pub open spec fn path_view(p: Option<&FsPath>) -> Option<Seq<Seq<char>>> {
    match p {
        Some(p) => Some(p@),
        None => None,
    }
}

impl GlobalConfig {
    /// Makes the tool's configuration of what was found at its place: `None`
    /// where there is no file, and then the repositories are held in `src`;
    /// `Some(None)` where the file does not say, and then they are held in
    /// the home directory itself; else what the file says.
    pub fn new(found: Option<Option<FsPath>>) -> (r: Self)
        ensures
            r.src@ == match found {
                Some(Some(src)) => src@,
                Some(None) => Seq::<Seq<char>>::empty(),
                None => seq!["src"@],
            },
    {
        match found {
            Some(Some(src)) => GlobalConfig { src },
            Some(None) => GlobalConfig { src: FsPath::new() },
            None => {
                let src = FsPath::new().child(&String::from_str("src"));
                assert(src@ =~= seq!["src"@]);
                GlobalConfig { src }
            },
        }
    }

    /// Gives the place of the tool's own configuration.
    pub fn get_path(home: Option<&FsPath>, named: Option<&FsPath>) -> (r: FsPath)
        ensures
            r@ == global_config_path(path_view(home), path_view(named)),
    {
        proof {
            reveal_strlit("/");
        }
        let dot_config = String::from_str(".config");
        let base = match named {
            Some(dir) => dir.clone(),
            None => match home {
                Some(h) => h.child(&dot_config),
                None => {
                    let root = String::from_str("/");
                    assert(root@ =~= root_name());
                    let base = FsPath::new().child(&root).child(&dot_config);
                    assert(base@ =~= seq![root_name(), config_dir_name()]);
                    base
                },
            },
        };
        let r = base.child(&String::from_str("wagon")).child(&String::from_str("config.toml"));
        assert(r@ =~= base@ + own_config());
        r
    }
}

/// The configuration files found in one directory, in the order in which the
/// directory lists them. A file that could not be read as a configuration is
/// `None`. A site that is recorded for the empty path is never asked.
#[derive(Debug, PartialEq, Eq)]
pub struct ConfigSite {
    pub dir: FsPath,
    pub candidates: Vec<Option<Config>>,
}

/// A configuration together with the directory it was found in.
pub struct Resolved<'a> {
    pub dir: &'a FsPath,
    pub config: &'a Config,
}

/// A candidate that was read and is meant for the operating system `os`.
pub open spec fn for_system(candidate: Option<Config>, os: Seq<char>) -> bool {
    match candidate {
        Some(c) => match c.os {
            Some(o) => o@ == os,
            None => false,
        },
        None => false,
    }
}

/// A candidate that was read and is meant for every operating system.
pub open spec fn for_any(candidate: Option<Config>) -> bool {
    match candidate {
        Some(c) => c.os.is_none(),
        None => false,
    }
}

/// A candidate is accepted when it was read and is not meant for another
/// operating system.
pub open spec fn accepted(candidate: Option<Config>, os: Seq<char>) -> bool {
    for_system(candidate, os) || for_any(candidate)
}

/// The position of the first candidate at or after `from` that is meant for
/// the operating system `os`.
pub open spec fn first_for_system(candidates: Seq<Option<Config>>, os: Seq<char>, from: int) -> Option<
    int,
>
    decreases candidates.len() - from,
{
    if from < 0 || from >= candidates.len() {
        None
    } else if for_system(candidates[from], os) {
        Some(from)
    } else {
        first_for_system(candidates, os, from + 1)
    }
}

/// The position of the first candidate at or after `from` that is meant for
/// every operating system.
pub open spec fn first_for_any(candidates: Seq<Option<Config>>, from: int) -> Option<int>
    decreases candidates.len() - from,
{
    if from < 0 || from >= candidates.len() {
        None
    } else if for_any(candidates[from]) {
        Some(from)
    } else {
        first_for_any(candidates, from + 1)
    }
}

/// The position of the candidate that is preferred: the first that is meant
/// for the operating system `os`; if there is none, the first that is meant
/// for every operating system.
pub open spec fn preferred(candidates: Seq<Option<Config>>, os: Seq<char>) -> Option<int> {
    match first_for_system(candidates, os, 0) {
        Some(j) => Some(j),
        None => first_for_any(candidates, 0),
    }
}

/// The candidate at `j` is the preferred one: it is the first that is meant
/// for the operating system `os`, or no candidate is meant for `os` and it
/// is the first that is meant for every operating system.
pub open spec fn is_preferred(candidates: Seq<Option<Config>>, os: Seq<char>, j: int) -> bool {
    &&& 0 <= j < candidates.len()
    &&& {
        ||| for_system(candidates[j], os) && forall|k: int|
            0 <= k < j ==> !for_system(#[trigger] candidates[k], os)
        ||| for_any(candidates[j]) && (forall|k: int|
            0 <= k < candidates.len() ==> !for_system(#[trigger] candidates[k], os)) && forall|
            k: int,
        | 0 <= k < j ==> !for_any(#[trigger] candidates[k])
    }
}

/// The position of the first site at or after `from` that is recorded for `dir`.
pub open spec fn site_of(sites: Seq<ConfigSite>, dir: Seq<Seq<char>>, from: int) -> Option<int>
    decreases sites.len() - from,
{
    if from < 0 || from >= sites.len() {
        None
    } else if sites[from].dir@ == dir {
        Some(from)
    } else {
        site_of(sites, dir, from + 1)
    }
}

/// The configuration that `dir` itself offers: the preferred candidate of
/// the first site recorded for it, as (site, candidate).
pub open spec fn offered(sites: Seq<ConfigSite>, dir: Seq<Seq<char>>, os: Seq<char>) -> Option<
    (int, int),
> {
    match site_of(sites, dir, 0) {
        Some(i) => match preferred(sites[i].candidates@, os) {
            Some(j) => Some((i, j)),
            None => None,
        },
        None => None,
    }
}

/// The configuration that governs `path`, looking at the directory made of
/// its first `depth` components and then upwards: the one offered by the
/// nearest directory that offers any.
pub open spec fn resolve_from(
    sites: Seq<ConfigSite>,
    path: Seq<Seq<char>>,
    depth: nat,
    os: Seq<char>,
) -> Option<(int, int)>
    decreases depth,
{
    if depth == 0 || depth > path.len() {
        None
    } else {
        match offered(sites, path.subrange(0, depth as int), os) {
            Some(found) => Some(found),
            None => resolve_from(sites, path, (depth - 1) as nat, os),
        }
    }
}

/// The configuration that governs `path`, as (site, candidate): `path` is
/// tried first, then each of its ancestors up to its first component. The
/// empty path is not tried.
pub open spec fn resolve(sites: Seq<ConfigSite>, path: Seq<Seq<char>>, os: Seq<char>) -> Option<
    (int, int),
> {
    resolve_from(sites, path, path.len(), os)
}

/// The configuration at a position that `resolve` gave.
pub open spec fn config_at(sites: Seq<ConfigSite>, at: (int, int)) -> Config {
    sites[at.0].candidates@[at.1]->0
}

/// The candidate that is found for the operating system is meant for it,
/// and none before it is.
pub proof fn lemma_first_for_system(candidates: Seq<Option<Config>>, os: Seq<char>, from: int)
    requires
        0 <= from,
    ensures
        match first_for_system(candidates, os, from) {
            Some(j) => from <= j < candidates.len() && for_system(candidates[j], os) && forall|
                k: int,
            | from <= k < j ==> !for_system(#[trigger] candidates[k], os),
            None => forall|k: int|
                from <= k < candidates.len() ==> !for_system(#[trigger] candidates[k], os),
        },
    decreases candidates.len() - from,
{
    if from < candidates.len() && !for_system(candidates[from], os) {
        lemma_first_for_system(candidates, os, from + 1);
    }
}

/// The candidate that is found for every operating system is meant for
/// every one, and none before it is.
pub proof fn lemma_first_for_any(candidates: Seq<Option<Config>>, from: int)
    requires
        0 <= from,
    ensures
        match first_for_any(candidates, from) {
            Some(j) => from <= j < candidates.len() && for_any(candidates[j]) && forall|k: int|
                from <= k < j ==> !for_any(#[trigger] candidates[k]),
            None => forall|k: int| from <= k < candidates.len() ==> !for_any(#[trigger] candidates[k]),
        },
    decreases candidates.len() - from,
{
    if from < candidates.len() && !for_any(candidates[from]) {
        lemma_first_for_any(candidates, from + 1);
    }
}

/// The position that is given is that of the preferred candidate, and no
/// other position is; no position is given only where no candidate is
/// accepted.
pub proof fn lemma_preferred(candidates: Seq<Option<Config>>, os: Seq<char>)
    ensures
        match preferred(candidates, os) {
            Some(j) => is_preferred(candidates, os, j) && accepted(candidates[j], os),
            None => forall|k: int|
                0 <= k < candidates.len() ==> !accepted(#[trigger] candidates[k], os),
        },
        forall|j: int| is_preferred(candidates, os, j) ==> preferred(candidates, os) == Some(j),
{
    lemma_first_for_system(candidates, os, 0);
    lemma_first_for_any(candidates, 0);
    assert forall|j: int| is_preferred(candidates, os, j) implies preferred(candidates, os)
        == Some(j) by {
        match preferred(candidates, os) {
            Some(m) => {
                if m < j {
                    assert(for_system(candidates[m], os) || for_any(candidates[m]));
                }
                if j < m {
                    assert(for_system(candidates[j], os) || for_any(candidates[j]));
                }
            },
            None => {
                assert(!accepted(candidates[j], os));
            },
        }
    }
}

/// The site found for a directory is the first one recorded for it.
pub proof fn lemma_site_of(sites: Seq<ConfigSite>, dir: Seq<Seq<char>>, from: int)
    requires
        0 <= from,
    ensures
        match site_of(sites, dir, from) {
            Some(i) => from <= i < sites.len() && sites[i].dir@ == dir && forall|k: int|
                from <= k < i ==> (#[trigger] sites[k]).dir@ != dir,
            None => forall|k: int| from <= k < sites.len() ==> (#[trigger] sites[k]).dir@ != dir,
        },
    decreases sites.len() - from,
{
    if from < sites.len() && sites[from].dir@ != dir {
        lemma_site_of(sites, dir, from + 1);
    }
}

/// What a directory offers is the preferred candidate of the first site
/// recorded for it, and so one that was read and is not meant for another
/// operating system.
pub proof fn lemma_offered(sites: Seq<ConfigSite>, dir: Seq<Seq<char>>, os: Seq<char>)
    ensures
        offered(sites, dir, os) matches Some((i, j)) ==> 0 <= i < sites.len() && sites[i].dir@
            == dir && is_preferred(sites[i].candidates@, os, j) && accepted(
            sites[i].candidates@[j],
            os,
        ),
{
    lemma_site_of(sites, dir, 0);
    if let Some(i) = site_of(sites, dir, 0) {
        lemma_preferred(sites[i].candidates@, os);
    }
}

/// The governing configuration is offered by a directory that is `path` or
/// above it, and no directory between the two offers one.
pub proof fn lemma_resolve_from(
    sites: Seq<ConfigSite>,
    path: Seq<Seq<char>>,
    depth: nat,
    os: Seq<char>,
)
    requires
        depth <= path.len(),
    ensures
        match resolve_from(sites, path, depth, os) {
            Some(found) => exists|d: int|
                1 <= d <= depth && #[trigger] offered(sites, path.subrange(0, d), os) == Some(found)
                    && forall|e: int|
                    d < e <= depth ==> (#[trigger] offered(
                        sites,
                        path.subrange(0, e),
                        os,
                    )).is_none(),
            None => forall|e: int|
                1 <= e <= depth ==> (#[trigger] offered(sites, path.subrange(0, e), os)).is_none(),
        },
    decreases depth,
{
    if depth > 0 {
        if offered(sites, path.subrange(0, depth as int), os).is_none() {
            lemma_resolve_from(sites, path, (depth - 1) as nat, os);
        }
    }
}

/// A configuration governs a path only if it was read and is not meant for
/// another operating system, and only from a directory that is the path or
/// lies above it.
pub proof fn law_governing_is_accepted(sites: Seq<ConfigSite>, path: Seq<Seq<char>>, os: Seq<char>)
    ensures
        resolve(sites, path, os) matches Some((i, j)) ==> {
            &&& 0 <= i < sites.len()
            &&& 0 <= j < sites[i].candidates@.len()
            &&& accepted(sites[i].candidates@[j], os)
            &&& is_preferred(sites[i].candidates@, os, j)
            &&& sites[i].dir@.len() > 0
            &&& sites[i].dir@.is_prefix_of(path)
        },
{
    lemma_resolve_from(sites, path, path.len(), os);
    if let Some(found) = resolve(sites, path, os) {
        let d = choose|d: int|
            1 <= d <= path.len() && #[trigger] offered(sites, path.subrange(0, d), os) == Some(found);
        lemma_offered(sites, path.subrange(0, d), os);
    }
}

/// Among the configurations of one directory, one that is meant for the
/// operating system comes before one that is meant for every system,
/// wherever the two stand: where the site that governs a path holds a
/// candidate that is meant for `os`, the governing configuration is meant
/// for `os`.
pub proof fn law_system_configuration_is_preferred(
    sites: Seq<ConfigSite>,
    path: Seq<Seq<char>>,
    os: Seq<char>,
    at: (int, int),
    k: int,
)
    requires
        resolve(sites, path, os) == Some(at),
        0 <= k < sites[at.0].candidates@.len(),
        for_system(sites[at.0].candidates@[k], os),
    ensures
        for_system(sites[at.0].candidates@[at.1], os),
        at.1 <= k,
{
    law_governing_is_accepted(sites, path, os);
}

/// A directory's own configuration for the system governs it whatever
/// stands above: where the first candidate of the first site recorded for a
/// path of at least one component is meant for `os`, that candidate governs
/// the path.
pub proof fn law_own_system_configuration_governs(
    sites: Seq<ConfigSite>,
    path: Seq<Seq<char>>,
    os: Seq<char>,
    i: int,
)
    requires
        path.len() >= 1,
        site_of(sites, path, 0) == Some(i),
        sites[i].candidates@.len() >= 1,
        for_system(sites[i].candidates@[0], os),
    ensures
        resolve(sites, path, os) == Some((i, 0int)),
{
    lemma_site_of(sites, path, 0);
    lemma_preferred(sites[i].candidates@, os);
    assert(is_preferred(sites[i].candidates@, os, 0));
    assert(path.subrange(0, path.len() as int) =~= path);
}

/// There is no configuration for the empty path.
pub proof fn law_empty_path_is_not_governed(sites: Seq<ConfigSite>, os: Seq<char>)
    ensures
        resolve(sites, Seq::<Seq<char>>::empty(), os).is_none(),
{
}

/// The directory and the configuration at a position.
pub open spec fn found_at(sites: Seq<ConfigSite>, at: Option<(int, int)>) -> Option<
    (Seq<Seq<char>>, Config),
> {
    match at {
        Some(at) => Some((sites[at.0].dir@, config_at(sites, at))),
        None => None,
    }
}

/// The configuration that governs `path`, with the directory that offers it.
pub open spec fn governing(sites: Seq<ConfigSite>, path: Seq<Seq<char>>, os: Seq<char>) -> Option<
    (Seq<Seq<char>>, Config),
> {
    found_at(sites, resolve(sites, path, os))
}

/// The preferred candidate itself.
pub open spec fn picked(candidates: Seq<Option<Config>>, os: Seq<char>) -> Option<Config> {
    match preferred(candidates, os) {
        Some(j) => candidates[j],
        None => None,
    }
}

/// Without a candidate that is not accepted, the same candidate is picked.
pub proof fn lemma_picked_without(candidates: Seq<Option<Config>>, os: Seq<char>, j: int)
    requires
        0 <= j < candidates.len(),
        !accepted(candidates[j], os),
    ensures
        picked(candidates.remove(j), os) == picked(candidates, os),
{
    let rest = candidates.remove(j);
    lemma_preferred(candidates, os);
    lemma_preferred(rest, os);
    assert forall|k: int| 0 <= k < rest.len() implies #[trigger] rest[k] == candidates[if k < j {
        k
    } else {
        k + 1
    }] by {}
    match preferred(candidates, os) {
        Some(k) => {
            let m = if k < j {
                k
            } else {
                k - 1
            };
            assert(rest[m] == candidates[k]);
            assert forall|n: int| 0 <= n < m implies !for_system(#[trigger] rest[n], os) by {
                let at = if n < j {
                    n
                } else {
                    n + 1
                };
                assert(rest[n] == candidates[at]);
                if at != j {
                    assert(at < k);
                }
            }
            if !for_system(candidates[k], os) {
                assert forall|n: int| 0 <= n < rest.len() implies !for_system(
                    #[trigger] rest[n],
                    os,
                ) by {
                    let at = if n < j {
                        n
                    } else {
                        n + 1
                    };
                    assert(rest[n] == candidates[at]);
                }
                assert forall|n: int| 0 <= n < m implies !for_any(#[trigger] rest[n]) by {
                    let at = if n < j {
                        n
                    } else {
                        n + 1
                    };
                    assert(rest[n] == candidates[at]);
                    if at != j {
                        assert(at < k);
                    }
                }
            }
            assert(is_preferred(rest, os, m));
        },
        None => {
            match preferred(rest, os) {
                Some(n) => {
                    assert(!accepted(candidates[if n < j {
                        n
                    } else {
                        n + 1
                    }], os));
                },
                None => {},
            }
        },
    }
}

/// Two lists of sites that name the same directories find the same site for
/// a directory.
pub proof fn lemma_site_of_same_dirs(
    sites: Seq<ConfigSite>,
    other: Seq<ConfigSite>,
    dir: Seq<Seq<char>>,
    from: int,
)
    requires
        0 <= from,
        other.len() == sites.len(),
        forall|k: int| 0 <= k < sites.len() ==> (#[trigger] other[k]).dir@ == sites[k].dir@,
    ensures
        site_of(other, dir, from) == site_of(sites, dir, from),
    decreases sites.len() - from,
{
    if from < sites.len() {
        assert(other[from].dir@ == sites[from].dir@);
        if sites[from].dir@ != dir {
            lemma_site_of_same_dirs(sites, other, dir, from + 1);
        }
    }
}

/// A candidate that is not accepted counts as much as no candidate: a
/// configuration file that is meant for another operating system, or that
/// could not be read, changes nothing. With it and without it the same
/// configuration governs every path.
pub proof fn law_other_os_is_passed_over(
    sites: Seq<ConfigSite>,
    without: Seq<ConfigSite>,
    i: int,
    j: int,
    path: Seq<Seq<char>>,
    os: Seq<char>,
)
    requires
        0 <= i < sites.len(),
        0 <= j < sites[i].candidates@.len(),
        !accepted(sites[i].candidates@[j], os),
        without.len() == sites.len(),
        forall|k: int| 0 <= k < sites.len() && k != i ==> #[trigger] without[k] == sites[k],
        without[i].dir@ == sites[i].dir@,
        without[i].candidates@ == sites[i].candidates@.remove(j),
    ensures
        governing(without, path, os) == governing(sites, path, os),
{
    lemma_passed_over_from(sites, without, i, j, path, path.len(), os);
}

/// The same, for the search from a given depth.
proof fn lemma_passed_over_from(
    sites: Seq<ConfigSite>,
    without: Seq<ConfigSite>,
    i: int,
    j: int,
    path: Seq<Seq<char>>,
    depth: nat,
    os: Seq<char>,
)
    requires
        0 <= i < sites.len(),
        0 <= j < sites[i].candidates@.len(),
        !accepted(sites[i].candidates@[j], os),
        without.len() == sites.len(),
        forall|k: int| 0 <= k < sites.len() && k != i ==> #[trigger] without[k] == sites[k],
        without[i].dir@ == sites[i].dir@,
        without[i].candidates@ == sites[i].candidates@.remove(j),
    ensures
        found_at(without, resolve_from(without, path, depth, os)) == found_at(
            sites,
            resolve_from(sites, path, depth, os),
        ),
    decreases depth,
{
    if depth > 0 && depth <= path.len() {
        let dir = path.subrange(0, depth as int);
        assert forall|k: int| 0 <= k < sites.len() implies (#[trigger] without[k]).dir@
            == sites[k].dir@ by {
            if k != i {
                assert(without[k] == sites[k]);
            }
        }
        lemma_site_of_same_dirs(sites, without, dir, 0);
        lemma_site_of(sites, dir, 0);
        match site_of(sites, dir, 0) {
            Some(s) => {
                lemma_preferred(sites[s].candidates@, os);
                lemma_preferred(without[s].candidates@, os);
                if s == i {
                    lemma_picked_without(sites[i].candidates@, os, j);
                } else {
                    assert(without[s] == sites[s]);
                }
                assert(picked(without[s].candidates@, os) == picked(sites[s].candidates@, os));
            },
            None => {},
        }
        if offered(sites, dir, os).is_none() {
            assert(offered(without, dir, os).is_none());
            lemma_passed_over_from(sites, without, i, j, path, (depth - 1) as nat, os);
        } else {
            assert(offered(without, dir, os).is_some());
        }
    }
}

/// The nearest directory that offers a configuration decides: what it
/// offers governs `path`, whatever the directories above it offer.
pub proof fn law_nearest_config_governs(
    sites: Seq<ConfigSite>,
    path: Seq<Seq<char>>,
    os: Seq<char>,
    depth: int,
)
    requires
        1 <= depth <= path.len(),
        offered(sites, path.subrange(0, depth), os).is_some(),
        forall|e: int|
            depth < e <= path.len() ==> (#[trigger] offered(sites, path.subrange(0, e), os)).is_none(),
    ensures
        resolve(sites, path, os) == offered(sites, path.subrange(0, depth), os),
{
    lemma_nearest_from(sites, path, os, depth, path.len());
}

/// The same, for the search from a given depth.
proof fn lemma_nearest_from(
    sites: Seq<ConfigSite>,
    path: Seq<Seq<char>>,
    os: Seq<char>,
    depth: int,
    from: nat,
)
    requires
        1 <= depth <= from <= path.len(),
        offered(sites, path.subrange(0, depth), os).is_some(),
        forall|e: int|
            depth < e <= path.len() ==> (#[trigger] offered(sites, path.subrange(0, e), os)).is_none(),
    ensures
        resolve_from(sites, path, from, os) == offered(sites, path.subrange(0, depth), os),
    decreases from,
{
    if from > depth {
        assert(offered(sites, path.subrange(0, from as int), os).is_none());
        lemma_nearest_from(sites, path, os, depth, (from - 1) as nat);
    }
}

/// What is recorded for a directory matters only to the paths in it: two
/// lists of sites that differ only in what they record for `sub` give every
/// path that is not `sub` and does not lie below it the same governing
/// configuration.
pub proof fn law_config_is_scoped(
    sites: Seq<ConfigSite>,
    other: Seq<ConfigSite>,
    sub: Seq<Seq<char>>,
    path: Seq<Seq<char>>,
    os: Seq<char>,
)
    requires
        other.len() == sites.len(),
        forall|k: int| 0 <= k < sites.len() ==> (#[trigger] other[k]).dir@ == sites[k].dir@,
        forall|k: int|
            0 <= k < sites.len() && sites[k].dir@ != sub ==> #[trigger] other[k] == sites[k],
        !sub.is_prefix_of(path),
    ensures
        governing(other, path, os) == governing(sites, path, os),
{
    lemma_scoped_from(sites, other, sub, path, path.len(), os);
}

/// The same, for the search from a given depth.
proof fn lemma_scoped_from(
    sites: Seq<ConfigSite>,
    other: Seq<ConfigSite>,
    sub: Seq<Seq<char>>,
    path: Seq<Seq<char>>,
    depth: nat,
    os: Seq<char>,
)
    requires
        other.len() == sites.len(),
        forall|k: int| 0 <= k < sites.len() ==> (#[trigger] other[k]).dir@ == sites[k].dir@,
        forall|k: int|
            0 <= k < sites.len() && sites[k].dir@ != sub ==> #[trigger] other[k] == sites[k],
        !sub.is_prefix_of(path),
    ensures
        found_at(other, resolve_from(other, path, depth, os)) == found_at(
            sites,
            resolve_from(sites, path, depth, os),
        ),
    decreases depth,
{
    if depth > 0 && depth <= path.len() {
        let dir = path.subrange(0, depth as int);
        lemma_site_of_same_dirs(sites, other, dir, 0);
        lemma_site_of(sites, dir, 0);
        match site_of(sites, dir, 0) {
            Some(s) => {
                assert(sites[s].dir@ == dir);
                assert(dir != sub);
                assert(other[s] == sites[s]);
                lemma_preferred(sites[s].candidates@, os);
            },
            None => {},
        }
        if offered(sites, dir, os).is_none() {
            lemma_scoped_from(sites, other, sub, path, (depth - 1) as nat, os);
        }
    }
}

/// Whether a candidate is accepted on the operating system `os`.
pub fn is_accepted(candidate: &Option<Config>, os: &String) -> (b: bool)
    ensures
        b == accepted(*candidate, os@),
{
    match candidate {
        Some(c) => match &c.os {
            Some(o) => *o == *os,
            None => true,
        },
        None => false,
    }
}

/// Whether a candidate was read and is meant for the operating system `os`.
pub fn is_for_system(candidate: &Option<Config>, os: &String) -> (b: bool)
    ensures
        b == for_system(*candidate, os@),
{
    match candidate {
        Some(c) => match &c.os {
            Some(o) => *o == *os,
            None => false,
        },
        None => false,
    }
}

/// Whether a candidate was read and is meant for every operating system.
pub fn is_for_any(candidate: &Option<Config>) -> (b: bool)
    ensures
        b == for_any(*candidate),
{
    match candidate {
        Some(c) => c.os.is_none(),
        None => false,
    }
}

/// Finds the preferred candidate: the first that is meant for the operating
/// system `os`; if there is none, the first that is meant for every
/// operating system.
pub fn find_preferred(candidates: &Vec<Option<Config>>, os: &String) -> (r: Option<usize>)
    ensures
        match r {
            Some(j) => preferred(candidates@, os@) == Some(j as int) && is_preferred(
                candidates@,
                os@,
                j as int,
            ) && candidates[j as int].is_some(),
            None => preferred(candidates@, os@).is_none() && forall|k: int|
                0 <= k < candidates.len() ==> !accepted(#[trigger] candidates@[k], os@),
        },
{
    proof {
        lemma_preferred(candidates@, os@);
    }
    let mut j: usize = 0;
    while j < candidates.len()
        invariant
            j <= candidates.len(),
            first_for_system(candidates@, os@, 0) == first_for_system(candidates@, os@, j as int),
        decreases candidates.len() - j,
    {
        if is_for_system(&candidates[j], os) {
            proof {
                lemma_preferred(candidates@, os@);
            }
            return Some(j);
        }
        j += 1;
    }
    let mut k: usize = 0;
    while k < candidates.len()
        invariant
            k <= candidates.len(),
            first_for_system(candidates@, os@, 0).is_none(),
            first_for_any(candidates@, 0) == first_for_any(candidates@, k as int),
        decreases candidates.len() - k,
    {
        if is_for_any(&candidates[k]) {
            proof {
                lemma_preferred(candidates@, os@);
            }
            return Some(k);
        }
        k += 1;
    }
    proof {
        lemma_preferred(candidates@, os@);
    }
    None
}

/// Finds the first site recorded for `dir`.
pub fn find_site(sites: &Vec<ConfigSite>, dir: &FsPath) -> (r: Option<usize>)
    ensures
        r.is_some() == site_of(sites@, dir@, 0).is_some(),
        r matches Some(i) ==> site_of(sites@, dir@, 0) == Some(i as int) && i < sites.len(),
        match r {
            Some(i) => i < sites.len() && sites@[i as int].dir@ == dir@ && forall|k: int|
                0 <= k < i ==> (#[trigger] sites@[k]).dir@ != dir@,
            None => forall|k: int| 0 <= k < sites.len() ==> (#[trigger] sites@[k]).dir@ != dir@,
        },
{
    let mut i: usize = 0;
    while i < sites.len()
        invariant
            i <= sites.len(),
            site_of(sites@, dir@, 0) == site_of(sites@, dir@, i as int),
        decreases sites.len() - i,
    {
        if sites[i].dir.same(dir) {
            proof {
                lemma_site_of(sites@, dir@, 0);
            }
            return Some(i);
        }
        i += 1;
    }
    proof {
        lemma_site_of(sites@, dir@, 0);
    }
    None
}

/// Finds the configuration that governs `base`: `base` itself is asked first,
/// then each directory above it, up to the root. A directory answers with the
/// first of its configuration files that was read and is meant for the
/// operating system `os`; if it has none, with the first that was read and
/// is meant for every operating system. The first directory that answers
/// decides; what lies above it is not looked at. The empty path names no
/// directory: it is not asked, and no configuration governs it.
pub fn get_config<'a>(sites: &'a Vec<ConfigSite>, base: &FsPath, os: &String) -> (r: Option<
    Resolved<'a>,
>)
    ensures
        r.is_some() == resolve(sites@, base@, os@).is_some(),
        r matches Some(found) ==> {
            let at = resolve(sites@, base@, os@)->0;
            &&& 0 <= at.0 < sites@.len()
            &&& 0 <= at.1 < sites@[at.0].candidates@.len()
            &&& accepted(sites@[at.0].candidates@[at.1], os@)
            &&& is_preferred(sites@[at.0].candidates@, os@, at.1)
            &&& *found.dir == sites@[at.0].dir
            &&& *found.config == config_at(sites@, at)
            &&& found.dir@.len() > 0
            &&& found.dir@.is_prefix_of(base@)
            &&& offered(sites@, found.dir@, os@) == Some(at)
            &&& forall|e: int|
                found.dir@.len() < e <= base@.len() ==> (#[trigger] offered(
                    sites@,
                    base@.subrange(0, e),
                    os@,
                )).is_none()
        },
        r.is_none() ==> forall|e: int|
            1 <= e <= base@.len() ==> (#[trigger] offered(sites@, base@.subrange(0, e), os@)).is_none(),
        base@.len() == 0 ==> r.is_none(),
{
    let mut depth: usize = base.len();
    while depth > 0
        invariant
            depth <= base@.len(),
            resolve(sites@, base@, os@) == resolve_from(sites@, base@, depth as nat, os@),
            forall|e: int|
                depth < e <= base@.len() ==> (#[trigger] offered(
                    sites@,
                    base@.subrange(0, e),
                    os@,
                )).is_none(),
        decreases depth,
    {
        let dir = base.prefix(depth);
        if let Some(i) = find_site(sites, &dir) {
            if let Some(j) = find_preferred(&sites[i].candidates, os) {
                proof {
                    lemma_preferred(sites@[i as int].candidates@, os@);
                    lemma_site_of(sites@, dir@, 0);
                    assert(dir@.is_prefix_of(base@));
                    assert(offered(sites@, dir@, os@) == Some((i as int, j as int)));
                }
                if let Some(config) = &sites[i].candidates[j] {
                    return Some(Resolved { dir: &sites[i].dir, config });
                }
            }
        }
        depth -= 1;
    }
    None
}

} // verus!
