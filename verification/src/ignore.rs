//! The ignore set of a tree: the paths that are never items.
//!
//! A line of an ignore file is a shell pattern, matched as the `glob` crate
//! matches it against what a path is called from the ignore file's
//! directory. No line takes back what another line excludes, and the rules
//! of other tools' ignore files are not read. What a version control system
//! keeps for itself in a repository is never an item.

use crate::error::Error;
use crate::path::{is_strictly_under, slash_text, FsPath};
use crate::pattern::{compile, is_match, pattern_matches, pattern_text, pattern_valid};
use crate::text::{has_prefix, same_text};
use crate::tree::{flatten, listed_view, listing, Entry, Listed, Node};
use vstd::prelude::*;

verus! {

/// The name of a configuration file. A file whose name starts with it is a
/// variant of the configuration for one operating system.
pub const CONFFILE_NAME: &'static str = ".wagon.toml";

/// The name of an ignore file.
pub const IGNOREFILE_NAME: &'static str = ".wagonignore";

/// The name of a configuration file or of one of its variants.
pub open spec fn is_config_name(name: Seq<char>) -> bool {
    CONFFILE_NAME@.is_prefix_of(name)
}

/// The name of an ignore file.
pub open spec fn is_ignore_name(name: Seq<char>) -> bool {
    name == IGNOREFILE_NAME@
}

/// The name of what a version control system keeps for itself: its
/// directory, its ignore file, its list of modules.
pub open spec fn is_vcs_name(name: Seq<char>) -> bool {
    name == ".git"@ || name == ".gitignore"@ || name == ".gitmodules"@
}

/// A name that no item has.
pub open spec fn is_reserved_name(name: Seq<char>) -> bool {
    is_config_name(name) || is_ignore_name(name) || is_vcs_name(name)
}

/// A path whose last component is the name of a configuration file, of an
/// ignore file, or of what a version control system keeps for itself.
pub open spec fn is_reserved(p: Seq<Seq<char>>) -> bool {
    p.len() > 0 && is_reserved_name(p.last())
}

/// A listed entry that is an ignore file.
pub open spec fn is_ignore_file(item: (Seq<Seq<char>>, Node)) -> bool {
    item.0.len() > 0 && is_ignore_name(item.0.last()) && item.1 is File
}

/// The lines of a listed file.
pub open spec fn file_lines(item: (Seq<Seq<char>>, Node)) -> Seq<String> {
    match item.1 {
        Node::File(lines) => lines@,
        _ => Seq::empty(),
    }
}

/// What `p` is called from the directory `dir` above it.
pub open spec fn relative_text(p: Seq<Seq<char>>, dir: Seq<Seq<char>>) -> Seq<char> {
    slash_text(p.subrange(dir.len() as int, p.len() as int))
}

/// Line `k` of the ignore file `file` excludes `p`: the line is not empty,
/// `p` lies below the file's directory, and the line, read as a pattern in
/// which only `/` matches `/`, matches what `p` is called from there.
pub open spec fn line_excludes(file: (Seq<Seq<char>>, Node), k: int, p: Seq<Seq<char>>) -> bool {
    &&& is_ignore_file(file)
    &&& 0 <= k < file_lines(file).len()
    &&& file_lines(file)[k]@.len() > 0
    &&& is_strictly_under(p, file.0.drop_last())
    &&& pattern_matches(
        file_lines(file)[k]@,
        relative_text(p, file.0.drop_last()),
        true,
        true,
        false,
    )
}

/// Some line of the ignore file excludes `p`.
pub open spec fn file_excludes(file: (Seq<Seq<char>>, Node), p: Seq<Seq<char>>) -> bool {
    exists|k: int| line_excludes(file, k, p)
}

/// `p` is reserved, or some ignore file of the listing excludes it.
pub open spec fn is_hit(all: Seq<(Seq<Seq<char>>, Node)>, p: Seq<Seq<char>>) -> bool {
    is_reserved(p) || exists|f: int| 0 <= f < all.len() && file_excludes(#[trigger] all[f], p)
}

/// `p` is in the ignore set of the listing: it is a path of the listing, and
/// it is reserved or excluded by an ignore file.
pub open spec fn is_ignored(all: Seq<(Seq<Seq<char>>, Node)>, p: Seq<Seq<char>>) -> bool {
    is_hit(all, p) && exists|q: int| 0 <= q < all.len() && (#[trigger] all[q]).0 == p
}

/// Line `k` of a listed entry is a line of an ignore file, is not empty and
/// is no pattern.
pub open spec fn line_is_bad(file: (Seq<Seq<char>>, Node), k: int) -> bool {
    &&& is_ignore_file(file)
    &&& 0 <= k < file_lines(file).len()
    &&& file_lines(file)[k]@.len() > 0
    &&& !pattern_valid(file_lines(file)[k]@)
}

/// Some ignore file of the listing holds a line that is no pattern.
pub open spec fn has_bad_pattern(all: Seq<(Seq<Seq<char>>, Node)>) -> bool {
    exists|f: int, k: int| 0 <= f < all.len() && #[trigger] line_is_bad(all[f], k)
}

/// Some path of the list is `p`.
pub open spec fn contains_path(list: Seq<FsPath>, p: Seq<Seq<char>>) -> bool {
    exists|i: int| 0 <= i < list.len() && (#[trigger] list[i])@ == p
}

/// No path stands twice in the list: the list is a set.
pub open spec fn distinct_paths(list: Seq<FsPath>) -> bool {
    forall|i: int, j: int| 0 <= i < j < list.len() ==> (#[trigger] list[i])@ != (#[trigger] list[j])@
}

/// Whether some path of the list is `p`.
pub fn holds(list: &Vec<FsPath>, p: &FsPath) -> (b: bool)
    ensures
        b == contains_path(list@, p@),
{
    let mut i: usize = 0;
    while i < list.len()
        invariant
            i <= list.len(),
            forall|j: int| 0 <= j < i ==> (#[trigger] list@[j])@ != p@,
        decreases list.len() - i,
    {
        if list[i].same(p) {
            return true;
        }
        i += 1;
    }
    false
}

/// Whether an entry of this name can be an item: not if it is named as a
/// configuration file, a variant of one, an ignore file, or what a version
/// control system keeps for itself.
pub fn filter_ignores(name: &str) -> (keep: bool)
    ensures
        keep == !is_reserved_name(name@),
{
    !(has_prefix(name, CONFFILE_NAME) || same_text(name, IGNOREFILE_NAME) || same_text(name, ".git")
        || same_text(name, ".gitignore") || same_text(name, ".gitmodules"))
}

/// The compiled lines of one listed entry: `None` for an entry that is no
/// ignore file; for an ignore file one pattern for each line that is not
/// empty, at the line's position.
pub open spec fn compiled_for(
    item: (Seq<Seq<char>>, Node),
    rules: Option<Vec<Option<glob::Pattern>>>,
) -> bool {
    match rules {
        None => !is_ignore_file(item),
        Some(patterns) => {
            &&& is_ignore_file(item)
            &&& patterns@.len() == file_lines(item).len()
            &&& forall|k: int|
                0 <= k < patterns@.len() ==> match #[trigger] patterns@[k] {
                    None => file_lines(item)[k]@.len() == 0,
                    Some(p) => file_lines(item)[k]@.len() > 0 && pattern_text(p) == file_lines(
                        item,
                    )[k]@,
                }
        },
    }
}

/// Compiles the lines of an ignore file, leaving out the empty ones.
fn compile_lines(lines: &Vec<String>) -> (r: Result<Vec<Option<glob::Pattern>>, Error>)
    ensures
        match r {
            Ok(patterns) => {
                &&& patterns@.len() == lines@.len()
                &&& forall|k: int|
                    0 <= k < patterns@.len() ==> match #[trigger] patterns@[k] {
                        None => lines@[k]@.len() == 0,
                        Some(p) => lines@[k]@.len() > 0 && pattern_valid(lines@[k]@)
                            && pattern_text(p) == lines@[k]@,
                    }
            },
            Err(e) => e == Error::Pattern && exists|k: int|
                0 <= k < lines@.len() && (#[trigger] lines@[k])@.len() > 0 && !pattern_valid(
                    lines@[k]@,
                ),
        },
{
    let mut patterns: Vec<Option<glob::Pattern>> = Vec::new();
    let mut k: usize = 0;
    while k < lines.len()
        invariant
            k <= lines.len(),
            patterns@.len() == k,
            forall|j: int|
                0 <= j < k ==> match #[trigger] patterns@[j] {
                    None => lines@[j]@.len() == 0,
                    Some(p) => lines@[j]@.len() > 0 && pattern_valid(lines@[j]@) && pattern_text(p)
                        == lines@[j]@,
                },
        decreases lines.len() - k,
    {
        let line = lines[k].as_str();
        if line.unicode_len() == 0 {
            patterns.push(None);
        } else {
            match compile(line) {
                Ok(p) => {
                    patterns.push(Some(p));
                },
                Err(_) => {
                    return Err(Error::Pattern);
                },
            }
        }
        k += 1;
    }
    Ok(patterns)
}

/// Whether a listed entry is an ignore file.
fn listed_is_ignore_file(item: &Listed) -> (b: bool)
    ensures
        b == is_ignore_file(item@),
{
    match item.node {
        Node::File(_) => match item.path.file_name() {
            Some(name) => same_text(name.as_str(), IGNOREFILE_NAME),
            None => false,
        },
        _ => false,
    }
}

/// Compiles every ignore file of a listing.
fn compile_all(all: &Vec<Listed>) -> (r: Result<Vec<Option<Vec<Option<glob::Pattern>>>>, Error>)
    ensures
        match r {
            Ok(rules) => {
                &&& !has_bad_pattern(listed_view(all@))
                &&& rules@.len() == all@.len()
                &&& forall|f: int|
                    0 <= f < rules@.len() ==> compiled_for(
                        #[trigger] listed_view(all@)[f],
                        rules@[f],
                    )
            },
            Err(e) => e == Error::Pattern && has_bad_pattern(listed_view(all@)),
        },
{
    let ghost items = listed_view(all@);
    let mut rules: Vec<Option<Vec<Option<glob::Pattern>>>> = Vec::new();
    let mut f: usize = 0;
    while f < all.len()
        invariant
            f <= all.len(),
            items == listed_view(all@),
            rules@.len() == f,
            forall|g: int| 0 <= g < f ==> compiled_for(#[trigger] items[g], rules@[g]),
            forall|g: int, k: int| 0 <= g < f ==> !#[trigger] line_is_bad(items[g], k),
        decreases all.len() - f,
    {
        assert(items[f as int] == all@[f as int]@);
        if listed_is_ignore_file(&all[f]) {
            match all[f].node {
                Node::File(lines) => {
                    match compile_lines(lines) {
                        Ok(patterns) => {
                            assert forall|k: int| !line_is_bad(items[f as int], k) by {
                                if 0 <= k < lines@.len() {
                                    assert(patterns@[k] is None || patterns@[k] is Some);
                                }
                            }
                            rules.push(Some(patterns));
                        },
                        Err(e) => {
                            proof {
                                let k = choose|k: int|
                                    0 <= k < lines@.len() && (#[trigger] lines@[k])@.len() > 0
                                        && !pattern_valid(lines@[k]@);
                                assert(line_is_bad(items[f as int], k));
                            }
                            return Err(e);
                        },
                    }
                },
                _ => {
                    rules.push(None);
                },
            }
        } else {
            rules.push(None);
        }
        f += 1;
    }
    Ok(rules)
}

/// Whether some line of a compiled ignore file excludes `p`.
fn excluded_by(item: &Listed, patterns: &Vec<Option<glob::Pattern>>, p: &FsPath) -> (b: bool)
    requires
        compiled_for(item@, Some(*patterns)),
    ensures
        b == file_excludes(item@, p@),
{
    let n = item.path.len();
    let dir = item.path.prefix(n - 1);
    assert(dir@ =~= item@.0.drop_last());
    if !(p.starts_with(&dir) && p.len() > dir.len()) {
        return false;
    }
    let text = p.suffix(dir.len()).to_text();
    let mut k: usize = 0;
    while k < patterns.len()
        invariant
            k <= patterns.len(),
            compiled_for(item@, Some(*patterns)),
            dir@ == item@.0.drop_last(),
            is_strictly_under(p@, dir@),
            text@ == relative_text(p@, dir@),
            forall|j: int| 0 <= j < k ==> !line_excludes(item@, j, p@),
        decreases patterns.len() - k,
    {
        match &patterns[k] {
            Some(pattern) => {
                if is_match(pattern, text.as_str(), true, true, false) {
                    assert(line_excludes(item@, k as int, p@));
                    return true;
                }
            },
            None => {},
        }
        k += 1;
    }
    false
}

/// Whether `p` is reserved or excluded by an ignore file of the listing.
fn hit(all: &Vec<Listed>, rules: &Vec<Option<Vec<Option<glob::Pattern>>>>, p: &FsPath) -> (b: bool)
    requires
        rules@.len() == all@.len(),
        forall|f: int|
            0 <= f < rules@.len() ==> compiled_for(#[trigger] listed_view(all@)[f], rules@[f]),
    ensures
        b == is_hit(listed_view(all@), p@),
{
    let ghost items = listed_view(all@);
    match p.file_name() {
        Some(name) => {
            if !filter_ignores(name.as_str()) {
                return true;
            }
        },
        None => {},
    }
    let mut f: usize = 0;
    while f < all.len()
        invariant
            f <= all.len(),
            items == listed_view(all@),
            rules@.len() == all@.len(),
            !is_reserved(p@),
            forall|g: int| 0 <= g < rules@.len() ==> compiled_for(#[trigger] items[g], rules@[g]),
            forall|g: int| 0 <= g < f ==> !file_excludes(#[trigger] items[g], p@),
        decreases all.len() - f,
    {
        assert(items[f as int] == all@[f as int]@);
        match &rules[f] {
            Some(patterns) => {
                if excluded_by(&all[f], patterns, p) {
                    return true;
                }
            },
            None => {
                assert(!is_ignore_file(items[f as int]));
                assert(forall|k: int| !line_excludes(items[f as int], k, p@));
            },
        }
        f += 1;
    }
    false
}

/// Builds the ignore set of the tree that stands at `root`: every path of the
/// tree that has a reserved name, and every path that a line of an ignore
/// file matches. A line is a pattern for what
/// lies below the ignore file's own directory; an empty line says nothing. A
/// line that is no pattern fails the whole set. No path is held twice.
pub fn build_ignores(root: &FsPath, entries: &Vec<Entry>) -> (r: Result<Vec<FsPath>, Error>)
    ensures
        match r {
            Ok(set) => !has_bad_pattern(listing(root@, entries@, 0)) && forall|p: Seq<Seq<char>>|
                contains_path(set@, p) <==> is_ignored(listing(root@, entries@, 0), p),
            Err(e) => e == Error::Pattern && has_bad_pattern(listing(root@, entries@, 0)),
        },
        r matches Ok(set) ==> distinct_paths(set@),
{
    let all = flatten(root, entries);
    let ghost items = listed_view(all@);
    let rules = match compile_all(&all) {
        Ok(rules) => rules,
        Err(e) => {
            return Err(e);
        },
    };
    let mut set: Vec<FsPath> = Vec::new();
    let mut q: usize = 0;
    while q < all.len()
        invariant
            q <= all.len(),
            items == listed_view(all@),
            rules@.len() == all@.len(),
            distinct_paths(set@),
            forall|f: int| 0 <= f < rules@.len() ==> compiled_for(#[trigger] items[f], rules@[f]),
            forall|i: int|
                0 <= i < set@.len() ==> is_hit(items, (#[trigger] set@[i])@) && exists|j: int|
                    0 <= j < q && (#[trigger] items[j]).0 == set@[i]@,
            forall|j: int|
                0 <= j < q && is_hit(items, (#[trigger] items[j]).0) ==> contains_path(
                    set@,
                    items[j].0,
                ),
        decreases all.len() - q,
    {
        assert(items[q as int] == all@[q as int]@);
        if hit(&all, &rules, &all[q].path) && !holds(&set, &all[q].path) {
            let ghost before = set@;
            set.push(all[q].path.clone());
            assert(forall|i: int| 0 <= i < before.len() ==> set@[i] == before[i]);
            assert(set@[before.len() as int]@ == items[q as int].0);
            assert forall|j: int|
                0 <= j < q + 1 && is_hit(items, (#[trigger] items[j]).0) implies contains_path(
                set@,
                items[j].0,
            ) by {
                if j < q {
                    let i = choose|i: int|
                        0 <= i < before.len() && (#[trigger] before[i])@ == items[j].0;
                    assert(set@[i]@ == items[j].0);
                } else {
                    assert(set@[before.len() as int]@ == items[j].0);
                }
            }
        }
        assert(is_hit(items, items[q as int].0) ==> contains_path(set@, items[q as int].0));
        q += 1;
    }
    proof {
        assert forall|p: Seq<Seq<char>>| contains_path(set@, p) <==> is_ignored(items, p) by {
            if contains_path(set@, p) {
                let i = choose|i: int| 0 <= i < set@.len() && (#[trigger] set@[i])@ == p;
                assert(is_hit(items, set@[i]@));
            }
            if is_ignored(items, p) {
                let j = choose|j: int| 0 <= j < items.len() && (#[trigger] items[j]).0 == p;
                assert(contains_path(set@, items[j].0));
            }
        }
    }
    Ok(set)
}

} // verus!
