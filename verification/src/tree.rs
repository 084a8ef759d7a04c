//! A captured directory tree.

use crate::path::FsPath;
use vstd::prelude::*;

verus! {

/// What stands at a path.
#[derive(Debug, PartialEq, Eq)]
pub enum Node {
    /// A file that is no symlink. The lines of its text are held for an
    /// ignore file and left empty for any other file.
    File(Vec<String>),
    /// A directory that is no symlink, and what it holds, in the order in
    /// which it lists them.
    Dir(Vec<Entry>),
    /// An entry that could not be inspected, or that is a symlink.
    Other,
}

/// A named entry of a directory.
#[derive(Debug, PartialEq, Eq)]
pub struct Entry {
    pub name: String,
    pub node: Node,
}

/// An entry of a tree with the path that leads to it.
pub struct Listed<'a> {
    pub path: FsPath,
    pub node: &'a Node,
}

impl<'a> View for Listed<'a> {
    type V = (Seq<Seq<char>>, Node);

    open spec fn view(&self) -> (Seq<Seq<char>>, Node) {
        (self.path@, *self.node)
    }
}

/// The view of each listed entry.
pub open spec fn listed_view(items: Seq<Listed>) -> Seq<(Seq<Seq<char>>, Node)> {
    items.map_values(|l: Listed| l@)
}

/// Every entry of `entries` from the `from`-th on, and all that lies below
/// them, each with its path below `dir`: a directory comes before what it
/// holds, and siblings keep their order.
pub open spec fn listing(dir: Seq<Seq<char>>, entries: Seq<Entry>, from: int) -> Seq<
    (Seq<Seq<char>>, Node),
>
    decreases entries, entries.len() - from,
{
    if from < 0 || from >= entries.len() {
        Seq::empty()
    } else {
        listing_of(dir, entries[from]) + listing(dir, entries, from + 1)
    }
}

/// The entry itself, then all that lies below it.
pub open spec fn listing_of(dir: Seq<Seq<char>>, entry: Entry) -> Seq<(Seq<Seq<char>>, Node)>
    decreases entry, 0int,
{
    let path = dir.push(entry.name@);
    match entry.node {
        Node::Dir(sub) => seq![(path, entry.node)] + listing(path, sub@, 0),
        _ => seq![(path, entry.node)],
    }
}

/// No directory of the tree holds two entries of one name.
pub open spec fn distinct_names(entries: Seq<Entry>) -> bool
    decreases entries,
{
    &&& forall|i: int, j: int|
        0 <= i < j < entries.len() ==> (#[trigger] entries[i]).name@ != (#[trigger] entries[j]).name@
    &&& forall|i: int|
        0 <= i < entries.len() ==> match (#[trigger] entries[i]).node {
            Node::Dir(sub) => distinct_names(sub@),
            _ => true,
        }
}

/// Lists a tree: every entry with its path, a directory before what it holds.
pub fn flatten<'a>(dir: &FsPath, entries: &'a Vec<Entry>) -> (r: Vec<Listed<'a>>)
    ensures
        listed_view(r@) == listing(dir@, entries@, 0),
    decreases entries,
{
    let mut out: Vec<Listed<'a>> = Vec::new();
    let mut i: usize = 0;
    assert(listed_view(out@) =~= Seq::empty());
    while i < entries.len()
        invariant
            i <= entries.len(),
            listed_view(out@) + listing(dir@, entries@, i as int) == listing(dir@, entries@, 0),
        decreases entries.len() - i,
    {
        let entry = &entries[i];
        let path = dir.child(&entry.name);
        let ghost before = listed_view(out@);
        out.push(Listed { path: path.clone(), node: &entry.node });
        assert(listed_view(out@) =~= before.push((path@, entry.node)));
        match &entry.node {
            Node::Dir(sub) => {
                let mut below = flatten(&path, sub);
                let ghost mid = listed_view(out@);
                let ghost added = listed_view(below@);
                out.append(&mut below);
                assert(listed_view(out@) =~= mid + added);
                assert(listed_view(out@) =~= before + listing_of(dir@, entries@[i as int]));
            },
            _ => {
                assert(listed_view(out@) =~= before + listing_of(dir@, entries@[i as int]));
            },
        }
        assert(before + listing_of(dir@, entries@[i as int]) + listing(dir@, entries@, i + 1)
            =~= before + listing(dir@, entries@, i as int));
        i += 1;
    }
    assert(listed_view(out@) =~= listed_view(out@) + listing(dir@, entries@, i as int));
    out
}

} // verus!
