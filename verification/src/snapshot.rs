//! What is captured of the disk before a plan is made.

use crate::config::ConfigSite;
use crate::path::{is_absolute, is_name, FsPath};
use crate::text::{has_char, same_text};
use crate::tree::{distinct_names, Entry, Node};
use vstd::prelude::*;

verus! {

/// A path as it was written and the canonical path that it resolves to.
#[derive(Debug, PartialEq, Eq)]
pub struct Canonical {
    pub raw: FsPath,
    pub resolved: FsPath,
}

/// A repository as it was found: its tree, the configurations around it, and
/// what the machine says of itself.
#[derive(Debug, PartialEq, Eq)]
pub struct Snapshot {
    /// The canonical path of the repository's root.
    pub root: FsPath,
    /// What the root holds.
    pub entries: Vec<Entry>,
    /// The configuration files of the directories of the tree and of those
    /// above the root.
    pub configs: Vec<ConfigSite>,
    /// The paths that were resolved. One that is not listed does not resolve.
    pub canonical: Vec<Canonical>,
    /// The home directory, if there is one.
    pub home: Option<FsPath>,
    /// The name of the operating system.
    pub os: String,
}

/// A name as a directory lists it: a name that is neither `.` nor `..`.
pub open spec fn is_entry_name(name: Seq<char>) -> bool {
    is_name(name) && name != "."@ && name != ".."@
}

/// A path in canonical form: it starts at the root, and every component
/// behind the root is a name as a directory lists it.
pub open spec fn is_canonical_path(p: Seq<Seq<char>>) -> bool {
    is_absolute(p) && forall|k: int| 1 <= k < p.len() ==> is_entry_name(#[trigger] p[k])
}

/// Every entry of the tree has a name as a directory lists it.
pub open spec fn listed_names(entries: Seq<Entry>) -> bool
    decreases entries,
{
    forall|i: int|
        0 <= i < entries.len() ==> is_entry_name((#[trigger] entries[i]).name@)
            && match entries[i].node {
            Node::Dir(sub) => listed_names(sub@),
            _ => true,
        }
}

/// The snapshot is what a capture of the disk gives. The root is in
/// canonical form and resolves to itself. The tree holds every entry under
/// the name that its directory lists it by, and no directory lists a name
/// twice; an entry that is a symlink is held as one that cannot be
/// inspected, so that the path of a file or a directory of the tree is its
/// canonical path. Every path that something resolves to is in canonical
/// form.
pub open spec fn is_valid(snap: Snapshot) -> bool {
    &&& is_canonical_path(snap.root@)
    &&& canonical_of(snap.canonical@, snap.root@) == Some(snap.root@)
    &&& listed_names(snap.entries@)
    &&& distinct_names(snap.entries@)
    &&& forall|k: int|
        0 <= k < snap.canonical@.len() ==> is_canonical_path(
            (#[trigger] snap.canonical@[k]).resolved@,
        )
}

/// What a path resolves to is what a record of the table says.
pub proof fn lemma_canonical_at(table: Seq<Canonical>, raw: Seq<Seq<char>>, from: int)
    requires
        0 <= from,
    ensures
        canonical_at(table, raw, from) matches Some(i) ==> from <= i < table.len() && table[i].raw@
            == raw,
    decreases table.len() - from,
{
    if from < table.len() && table[from].raw@ != raw {
        lemma_canonical_at(table, raw, from + 1);
    }
}

/// The position of the first record at or after `from` that resolves `raw`.
pub open spec fn canonical_at(table: Seq<Canonical>, raw: Seq<Seq<char>>, from: int) -> Option<int>
    decreases table.len() - from,
{
    if from < 0 || from >= table.len() {
        None
    } else if table[from].raw@ == raw {
        Some(from)
    } else {
        canonical_at(table, raw, from + 1)
    }
}

/// The canonical path of `raw`, if it resolves.
pub open spec fn canonical_of(table: Seq<Canonical>, raw: Seq<Seq<char>>) -> Option<Seq<Seq<char>>> {
    match canonical_at(table, raw, 0) {
        Some(i) => Some(table[i].resolved@),
        None => None,
    }
}

/// The position of the first entry at or after `from` that is called `name`.
pub open spec fn child_at(entries: Seq<Entry>, name: Seq<char>, from: int) -> Option<int>
    decreases entries.len() - from,
{
    if from < 0 || from >= entries.len() {
        None
    } else if entries[from].name@ == name {
        Some(from)
    } else {
        child_at(entries, name, from + 1)
    }
}

/// What stands at `rel` below a directory that holds `entries`.
pub open spec fn node_at(entries: Seq<Entry>, rel: Seq<Seq<char>>) -> Option<Node>
    decreases rel.len(),
{
    if rel.len() == 0 {
        None
    } else {
        match child_at(entries, rel[0], 0) {
            None => None,
            Some(i) => if rel.len() == 1 {
                Some(entries[i].node)
            } else {
                match entries[i].node {
                    Node::Dir(sub) => node_at(sub@, rel.drop_first()),
                    _ => None,
                }
            },
        }
    }
}

/// `p` is a directory of the snapshot's tree, below its root.
pub open spec fn is_tree_dir(snap: Snapshot, p: Seq<Seq<char>>) -> bool {
    snap.root@.is_prefix_of(p) && node_at(
        snap.entries@,
        p.subrange(snap.root@.len() as int, p.len() as int),
    ) is Some && node_at(snap.entries@, p.subrange(snap.root@.len() as int, p.len() as int))->0 is Dir
}

/// Finds the first entry called `name`.
pub fn find_child(entries: &Vec<Entry>, name: &String) -> (r: Option<usize>)
    ensures
        r.is_some() == child_at(entries@, name@, 0).is_some(),
        r matches Some(i) ==> child_at(entries@, name@, 0) == Some(i as int) && i < entries.len(),
{
    let mut i: usize = 0;
    while i < entries.len()
        invariant
            i <= entries.len(),
            child_at(entries@, name@, 0) == child_at(entries@, name@, i as int),
        decreases entries.len() - i,
    {
        if entries[i].name == *name {
            return Some(i);
        }
        i += 1;
    }
    None
}

/// Finds what stands at `rel` below a directory that holds `entries`.
pub fn find_node<'a>(entries: &'a Vec<Entry>, rel: &FsPath) -> (r: Option<&'a Node>)
    ensures
        r.is_some() == node_at(entries@, rel@).is_some(),
        r matches Some(node) ==> Some(*node) == node_at(entries@, rel@),
{
    let n = rel.len();
    if n == 0 {
        return None;
    }
    let mut current = entries;
    let mut k: usize = 0;
    assert(rel@.subrange(0, n as int) =~= rel@);
    while k + 1 < n
        invariant
            k < n == rel@.len(),
            node_at(entries@, rel@) == node_at(current@, rel@.subrange(k as int, n as int)),
        decreases n - k,
    {
        let ghost rest = rel@.subrange(k as int, n as int);
        assert(rest[0] == rel@[k as int]);
        assert(rest.drop_first() =~= rel@.subrange(k + 1, n as int));
        match find_child(current, &rel.parts[k]) {
            None => {
                return None;
            },
            Some(i) => match &current[i].node {
                Node::Dir(sub) => {
                    current = sub;
                },
                _ => {
                    return None;
                },
            },
        }
        k += 1;
    }
    let ghost rest = rel@.subrange(k as int, n as int);
    assert(rest[0] == rel@[k as int]);
    match find_child(current, &rel.parts[k]) {
        None => None,
        Some(i) => Some(&current[i].node),
    }
}

/// Whether a name is one as a directory lists it.
pub fn check_name(name: &str) -> (b: bool)
    ensures
        b == is_entry_name(name@),
{
    name.unicode_len() > 0 && !has_char(name, '/') && !same_text(name, ".") && !same_text(
        name,
        "..",
    )
}

/// Whether a path is in canonical form.
pub fn check_path(p: &FsPath) -> (b: bool)
    ensures
        b == is_canonical_path(p@),
{
    if !p.is_absolute() {
        return false;
    }
    let mut k: usize = 1;
    while k < p.parts.len()
        invariant
            1 <= k <= p.parts.len(),
            is_absolute(p@),
            forall|j: int| 1 <= j < k ==> is_entry_name(#[trigger] p@[j]),
        decreases p.parts.len() - k,
    {
        if !check_name(p.parts[k].as_str()) {
            assert(!is_entry_name(p@[k as int]));
            return false;
        }
        k += 1;
    }
    true
}

/// Whether every entry of the tree has a name as a directory lists it, and
/// no directory of the tree holds two entries of one name.
pub fn check_entries(entries: &Vec<Entry>) -> (b: bool)
    ensures
        b == (listed_names(entries@) && distinct_names(entries@)),
    decreases entries,
{
    let mut i: usize = 0;
    while i < entries.len()
        invariant
            i <= entries.len(),
            forall|a: int|
                0 <= a < i ==> is_entry_name((#[trigger] entries@[a]).name@)
                    && match entries@[a].node {
                    Node::Dir(sub) => listed_names(sub@) && distinct_names(sub@),
                    _ => true,
                },
            forall|a: int, b: int|
                0 <= a < b < i ==> (#[trigger] entries@[a]).name@ != (#[trigger] entries@[b]).name@,
        decreases entries.len() - i,
    {
        if !check_name(entries[i].name.as_str()) {
            assert(!is_entry_name(entries@[i as int].name@));
            return false;
        }
        match &entries[i].node {
            Node::Dir(sub) => {
                if !check_entries(sub) {
                    assert(!(listed_names(entries@) && distinct_names(entries@))) by {
                        if listed_names(entries@) && distinct_names(entries@) {
                            assert(is_entry_name(entries@[i as int].name@));
                        }
                    }
                    return false;
                }
            },
            _ => {},
        }
        let mut j: usize = 0;
        while j < i
            invariant
                j <= i < entries.len(),
                forall|a: int| 0 <= a < j ==> (#[trigger] entries@[a]).name@ != entries@[i as int].name@,
            decreases i - j,
        {
            if entries[j].name == entries[i].name {
                assert(entries@[j as int].name@ == entries@[i as int].name@);
                return false;
            }
            j += 1;
        }
        i += 1;
    }
    true
}

impl Snapshot {
    /// Whether the snapshot is what a capture of the disk gives: whether it
    /// is valid.
    pub fn check(&self) -> (b: bool)
        ensures
            b == is_valid(*self),
    {
        if !check_path(&self.root) {
            return false;
        }
        match self.canonicalize(&self.root) {
            Some(resolved) => {
                if !resolved.same(&self.root) {
                    return false;
                }
            },
            None => {
                return false;
            },
        }
        if !check_entries(&self.entries) {
            return false;
        }
        let mut k: usize = 0;
        while k < self.canonical.len()
            invariant
                k <= self.canonical.len(),
                forall|j: int|
                    0 <= j < k ==> is_canonical_path((#[trigger] self.canonical@[j]).resolved@),
            decreases self.canonical.len() - k,
        {
            if !check_path(&self.canonical[k].resolved) {
                return false;
            }
            k += 1;
        }
        true
    }

    /// The canonical path of `raw`, if it resolves.
    pub fn canonicalize(&self, raw: &FsPath) -> (r: Option<&FsPath>)
        ensures
            r.is_some() == canonical_of(self.canonical@, raw@).is_some(),
            r matches Some(p) ==> Some(p@) == canonical_of(self.canonical@, raw@),
    {
        let mut i: usize = 0;
        while i < self.canonical.len()
            invariant
                i <= self.canonical.len(),
                canonical_at(self.canonical@, raw@, 0) == canonical_at(
                    self.canonical@,
                    raw@,
                    i as int,
                ),
            decreases self.canonical.len() - i,
        {
            if self.canonical[i].raw.same(raw) {
                return Some(&self.canonical[i].resolved);
            }
            i += 1;
        }
        None
    }

    /// Whether `p` is a directory of the tree, below its root.
    pub fn is_dir(&self, p: &FsPath) -> (b: bool)
        ensures
            b == is_tree_dir(*self, p@),
    {
        match p.strip_prefix(&self.root) {
            None => false,
            Some(rel) => match find_node(&self.entries, &rel) {
                Some(Node::Dir(_)) => true,
                _ => false,
            },
        }
    }
}

} // verus!
