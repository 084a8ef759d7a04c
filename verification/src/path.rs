//! Paths as sequences of component names.
//!
//! A path is the list of its components, outermost first. An absolute path
//! starts with the root component `/`. Two paths are the same when their
//! components are.

use crate::text::same_text;
use vstd::prelude::*;

verus! {

/// The text of each string of a sequence.
pub open spec fn texts(names: Seq<String>) -> Seq<Seq<char>> {
    names.map_values(|s: String| s@)
}

/// The name of the root component.
pub open spec fn root_name() -> Seq<char> {
    seq!['/']
}

/// A path is absolute when its first component is the root.
pub open spec fn is_absolute(p: Seq<Seq<char>>) -> bool {
    p.len() > 0 && p[0] == root_name()
}

/// `rel` below `base`: an absolute `rel` replaces `base`.
pub open spec fn joined(base: Seq<Seq<char>>, rel: Seq<Seq<char>>) -> Seq<Seq<char>> {
    if is_absolute(rel) {
        rel
    } else {
        base + rel
    }
}

/// The path without its last component. The empty path and the root have none.
pub open spec fn parent_of(p: Seq<Seq<char>>) -> Option<Seq<Seq<char>>> {
    if p.len() == 0 || (p.len() == 1 && is_absolute(p)) {
        None
    } else {
        Some(p.drop_last())
    }
}

/// `p` lies below `base` or is `base` itself.
pub open spec fn is_under(p: Seq<Seq<char>>, base: Seq<Seq<char>>) -> bool {
    base.is_prefix_of(p)
}

/// `p` lies below `base` and is not `base`.
pub open spec fn is_strictly_under(p: Seq<Seq<char>>, base: Seq<Seq<char>>) -> bool {
    base.is_prefix_of(p) && base.len() < p.len()
}

/// The components joined by `/`, as a path is written. Behind the root
/// stands no further slash.
pub open spec fn slash_text(p: Seq<Seq<char>>) -> Seq<char>
    decreases p.len(),
{
    if p.len() == 0 {
        Seq::empty()
    } else if p.len() == 1 {
        p[0]
    } else if slash_text(p.drop_last()) == root_name() {
        root_name() + p.last()
    } else {
        slash_text(p.drop_last()) + seq!['/'] + p.last()
    }
}

/// The pieces of `text` between its slashes, from position `at` on, where
/// the piece that is being read began at `start`. An empty piece is none.
pub open spec fn pieces(text: Seq<char>, start: int, at: int) -> Seq<Seq<char>>
    decreases text.len() - at,
{
    if at < 0 || at >= text.len() {
        if 0 <= start < at {
            seq![text.subrange(start, at)]
        } else {
            Seq::empty()
        }
    } else if text[at] == '/' {
        if 0 <= start < at {
            seq![text.subrange(start, at)] + pieces(text, at + 1, at + 1)
        } else {
            pieces(text, at + 1, at + 1)
        }
    } else {
        pieces(text, start, at + 1)
    }
}

/// The path that a text names: the root, if the text begins with a slash,
/// then the pieces between the slashes.
pub open spec fn parsed(text: Seq<char>) -> Seq<Seq<char>> {
    if text.len() > 0 && text[0] == '/' {
        seq![root_name()] + pieces(text, 0, 0)
    } else {
        pieces(text, 0, 0)
    }
}

/// A name of an entry: not empty, and without a slash.
pub open spec fn is_name(name: Seq<char>) -> bool {
    name.len() > 0 && forall|i: int| 0 <= i < name.len() ==> name[i] != '/'
}

/// A path as it comes from the disk: every component is a name, but for the
/// root, which may stand first.
pub open spec fn is_well_formed(p: Seq<Seq<char>>) -> bool {
    forall|k: int| 0 <= k < p.len() ==> is_name(#[trigger] p[k]) || (k == 0 && p[0] == root_name())
}

/// A text that holds no slash from `at` on gives one piece, unless it is
/// empty.
pub proof fn lemma_pieces_of_name(text: Seq<char>, start: int, at: int)
    requires
        0 <= start <= at <= text.len(),
        forall|i: int| at <= i < text.len() ==> text[i] != '/',
    ensures
        pieces(text, start, at) == if start < text.len() {
            seq![text.subrange(start, text.len() as int)]
        } else {
            Seq::<Seq<char>>::empty()
        },
    decreases text.len() - at,
{
    if at < text.len() {
        lemma_pieces_of_name(text, start, at + 1);
    }
}

/// A name behind a slash is one more piece.
pub proof fn lemma_pieces_push(text: Seq<char>, name: Seq<char>, start: int, at: int)
    requires
        0 <= start <= at <= text.len(),
        is_name(name),
    ensures
        pieces(text + seq!['/'] + name, start, at) == pieces(text, start, at).push(name),
    decreases text.len() - at,
{
    let longer = text + seq!['/'] + name;
    if at < text.len() {
        assert(longer[at] == text[at]);
        if text[at] == '/' {
            lemma_pieces_push(text, name, at + 1, at + 1);
            if start < at {
                assert(longer.subrange(start, at) =~= text.subrange(start, at));
                assert((seq![text.subrange(start, at)] + pieces(text, at + 1, at + 1)).push(name)
                    =~= seq![text.subrange(start, at)] + pieces(text, at + 1, at + 1).push(name));
            }
        } else {
            lemma_pieces_push(text, name, start, at + 1);
        }
    } else {
        assert(longer[at] == '/');
        assert forall|i: int| at + 1 <= i < longer.len() implies longer[i] != '/' by {
            assert(longer[i] == name[i - at - 1]);
        }
        lemma_pieces_of_name(longer, at + 1, at + 1);
        assert(longer.subrange(at + 1, longer.len() as int) =~= name);
        if start < at {
            assert(longer.subrange(start, at) =~= text.subrange(start, at));
            assert(seq![text.subrange(start, at)] + seq![name] =~= seq![
                text.subrange(start, at),
            ].push(name));
        } else {
            assert(Seq::<Seq<char>>::empty().push(name) =~= seq![name]);
        }
    }
}

/// The text of a well-formed path of more than one component ends with a
/// name, and so is not the root's.
pub proof fn lemma_text_ends_with_name(p: Seq<Seq<char>>)
    requires
        is_well_formed(p),
        p.len() >= 2,
    ensures
        slash_text(p).len() >= 2,
        slash_text(p).last() != '/',
{
    assert(is_name(p.last()));
    let last = p.last();
    assert(last[last.len() - 1] != '/');
    if slash_text(p.drop_last()) == root_name() {
        assert(slash_text(p) =~= root_name() + last);
    } else {
        assert(p.drop_last().len() >= 1);
        assert(slash_text(p) =~= slash_text(p.drop_last()) + seq!['/'] + last);
    }
}

/// A path is read back from its text: what a well-formed path is written as
/// names that path and no other.
pub proof fn law_text_names_the_path(p: Seq<Seq<char>>)
    requires
        is_well_formed(p),
    ensures
        parsed(slash_text(p)) == p,
    decreases p.len(),
{
    if p.len() == 0 {
        assert(parsed(slash_text(p)) =~= p);
    } else if p.len() == 1 {
        let name = p[0];
        if name == root_name() {
            assert(pieces(name, 0, 0) =~= pieces(name, 1, 1));
            assert(parsed(name) =~= seq![root_name()]);
        } else {
            assert(is_name(name));
            assert(name[0] != '/');
            lemma_pieces_of_name(name, 0, 0);
            assert(name.subrange(0, name.len() as int) =~= name);
        }
        assert(parsed(slash_text(p)) =~= p);
    } else {
        let front = p.drop_last();
        let name = p.last();
        let text = slash_text(front);
        assert(is_name(name));
        assert forall|k: int| 0 <= k < front.len() implies is_name(#[trigger] front[k]) || (k == 0
            && front[0] == root_name()) by {
            assert(front[k] == p[k]);
        }
        law_text_names_the_path(front);
        if text == root_name() {
            if front.len() >= 2 {
                lemma_text_ends_with_name(front);
            }
            assert(front =~= seq![root_name()]);
            let whole = root_name() + name;
            assert(whole[0] == '/');
            assert(pieces(whole, 0, 0) == pieces(whole, 1, 1));
            assert forall|i: int| 1 <= i < whole.len() implies whole[i] != '/' by {
                assert(whole[i] == name[i - 1]);
            }
            lemma_pieces_of_name(whole, 1, 1);
            assert(whole.subrange(1, whole.len() as int) =~= name);
            assert(parsed(whole) =~= seq![root_name(), name]);
            assert(p =~= seq![root_name(), name]);
        } else {
            let whole = text + seq!['/'] + name;
            lemma_pieces_push(text, name, 0, 0);
            if front.len() >= 2 {
                lemma_text_ends_with_name(front);
            } else {
                assert(text == front[0]);
                assert(is_name(front[0]));
            }
            assert(text.len() > 0);
            assert(whole[0] == text[0]);
            assert(parsed(whole) =~= parsed(text).push(name));
            assert(p =~= front.push(name));
        }
    }
}

/// A path, held as its components.
#[derive(Debug, PartialEq, Eq, Hash)]
pub struct FsPath {
    pub parts: Vec<String>,
}

impl View for FsPath {
    type V = Seq<Seq<char>>;

    open spec fn view(&self) -> Seq<Seq<char>> {
        texts(self.parts@)
    }
}

impl Clone for FsPath {
    fn clone(&self) -> (r: Self)
        ensures
            r@ == self@,
    {
        let r = self.prefix(self.parts.len());
        assert(self@.subrange(0, self@.len() as int) =~= self@);
        r
    }
}

impl FsPath {
    /// The empty path.
    pub fn new() -> (r: FsPath)
        ensures
            r@ == Seq::<Seq<char>>::empty(),
    {
        let r = FsPath { parts: Vec::new() };
        assert(r@ =~= Seq::<Seq<char>>::empty());
        r
    }

    /// The path with the given components.
    pub fn from_parts(parts: Vec<String>) -> (r: FsPath)
        ensures
            r@ == texts(parts@),
    {
        FsPath { parts }
    }

    /// Reads a path from its text: components are divided by `/`, a leading
    /// `/` is the root, and an empty piece is no component.
    pub fn parse(text: &str) -> (r: FsPath)
        ensures
            r@ == parsed(text@),
    {
        proof {
            reveal_strlit("/");
        }
        let n = text.unicode_len();
        let mut parts: Vec<String> = Vec::new();
        if n > 0 && text.get_char(0) == '/' {
            parts.push(String::from_str("/"));
            assert(parts@[0]@ =~= root_name());
            assert(texts(parts@) =~= seq![root_name()]);
        } else {
            assert(texts(parts@) =~= Seq::<Seq<char>>::empty());
        }
        let mut start: usize = 0;
        let mut at: usize = 0;
        while at < n
            invariant
                start <= at <= n == text@.len(),
                texts(parts@) + pieces(text@, start as int, at as int) == parsed(text@),
            decreases n - at,
        {
            let ghost before = texts(parts@);
            let ghost rest = pieces(text@, start as int, at as int);
            if text.get_char(at) == '/' {
                if start < at {
                    parts.push(text.substring_char(start, at).to_owned());
                    assert(texts(parts@) =~= before.push(text@.subrange(start as int, at as int)));
                    assert(texts(parts@) + pieces(text@, at + 1, at + 1) =~= before + rest);
                }
                start = at + 1;
            }
            at += 1;
        }
        if start < at {
            let ghost before = texts(parts@);
            parts.push(text.substring_char(start, at).to_owned());
            assert(texts(parts@) =~= before + pieces(text@, start as int, at as int));
        } else {
            assert(texts(parts@) + pieces(text@, start as int, at as int) =~= texts(parts@));
        }
        FsPath { parts }
    }

    /// The number of components.
    pub fn len(&self) -> (n: usize)
        ensures
            n == self@.len(),
    {
        self.parts.len()
    }

    /// Whether the two paths have the same components.
    pub fn same(&self, other: &FsPath) -> (b: bool)
        ensures
            b == (self@ == other@),
    {
        if self.parts.len() != other.parts.len() {
            assert(self@.len() != other@.len());
            return false;
        }
        let mut i: usize = 0;
        while i < self.parts.len()
            invariant
                i <= self.parts.len(),
                self.parts.len() == other.parts.len(),
                forall|j: int| 0 <= j < i ==> self@[j] == other@[j],
            decreases self.parts.len() - i,
        {
            if !(self.parts[i] == other.parts[i]) {
                assert(self@[i as int] != other@[i as int]);
                return false;
            }
            i += 1;
        }
        assert(self@ =~= other@);
        true
    }

    /// The first `n` components.
    pub fn prefix(&self, n: usize) -> (r: FsPath)
        requires
            n <= self@.len(),
        ensures
            r@ == self@.subrange(0, n as int),
    {
        let mut parts: Vec<String> = Vec::new();
        let mut i: usize = 0;
        while i < n
            invariant
                i <= n <= self.parts.len(),
                parts.len() == i,
                forall|j: int| 0 <= j < i ==> parts@[j]@ == self@[j],
            decreases n - i,
        {
            parts.push(self.parts[i].clone());
            i += 1;
        }
        let r = FsPath { parts };
        assert(r@ =~= self@.subrange(0, n as int));
        r
    }

    /// The components from the `n`-th on.
    pub fn suffix(&self, n: usize) -> (r: FsPath)
        requires
            n <= self@.len(),
        ensures
            r@ == self@.subrange(n as int, self@.len() as int),
    {
        let mut parts: Vec<String> = Vec::new();
        let mut i: usize = n;
        while i < self.parts.len()
            invariant
                n <= i <= self.parts.len(),
                parts.len() == i - n,
                forall|j: int| 0 <= j < i - n ==> parts@[j]@ == self@[j + n],
            decreases self.parts.len() - i,
        {
            parts.push(self.parts[i].clone());
            i += 1;
        }
        let r = FsPath { parts };
        assert(r@ =~= self@.subrange(n as int, self@.len() as int));
        r
    }

    /// Whether `base` is this path or one of its ancestors, component by
    /// component.
    pub fn starts_with(&self, base: &FsPath) -> (b: bool)
        ensures
            b == is_under(self@, base@),
    {
        if base.parts.len() > self.parts.len() {
            return false;
        }
        let mut i: usize = 0;
        while i < base.parts.len()
            invariant
                i <= base.parts.len() <= self.parts.len(),
                forall|j: int| 0 <= j < i ==> self@[j] == base@[j],
            decreases base.parts.len() - i,
        {
            if !(self.parts[i] == base.parts[i]) {
                assert(self@.subrange(0, base@.len() as int)[i as int] != base@[i as int]);
                return false;
            }
            i += 1;
        }
        assert(self@.subrange(0, base@.len() as int) =~= base@);
        true
    }

    /// What is left of this path below `base`, if it lies there.
    pub fn strip_prefix(&self, base: &FsPath) -> (r: Option<FsPath>)
        ensures
            r.is_some() == is_under(self@, base@),
            r matches Some(rest) ==> rest@ == self@.subrange(
                base@.len() as int,
                self@.len() as int,
            ) && base@ + rest@ == self@,
    {
        if self.starts_with(base) {
            let rest = self.suffix(base.parts.len());
            assert(base@ + rest@ =~= self@);
            Some(rest)
        } else {
            None
        }
    }

    /// Whether the path starts at the root.
    pub fn is_absolute(&self) -> (b: bool)
        ensures
            b == is_absolute(self@),
    {
        if self.parts.len() == 0 {
            return false;
        }
        proof {
            reveal_strlit("/");
        }
        let root = String::from_str("/");
        assert(root@ =~= root_name());
        self.parts[0] == root
    }

    /// `rel` below this path; an absolute `rel` stands for itself.
    pub fn join(&self, rel: &FsPath) -> (r: FsPath)
        ensures
            r@ == joined(self@, rel@),
    {
        if rel.is_absolute() {
            return rel.clone();
        }
        let mut r = self.clone();
        let mut i: usize = 0;
        while i < rel.parts.len()
            invariant
                i <= rel.parts.len(),
                r@ == self@ + rel@.subrange(0, i as int),
            decreases rel.parts.len() - i,
        {
            let ghost before = r@;
            r.parts.push(rel.parts[i].clone());
            assert(r@ =~= before.push(rel@[i as int]));
            assert(r@ =~= self@ + rel@.subrange(0, i + 1));
            i += 1;
        }
        assert(rel@.subrange(0, rel@.len() as int) =~= rel@);
        r
    }

    /// The entry called `name` in this directory.
    pub fn child(&self, name: &String) -> (r: FsPath)
        ensures
            r@ == self@.push(name@),
    {
        let mut r = self.clone();
        r.parts.push(name.clone());
        assert(r@ =~= self@.push(name@));
        r
    }

    /// The directory that holds this path.
    pub fn parent(&self) -> (r: Option<FsPath>)
        ensures
            r.is_some() == parent_of(self@).is_some(),
            r matches Some(p) ==> Some(p@) == parent_of(self@),
    {
        let n = self.parts.len();
        if n == 0 || (n == 1 && self.is_absolute()) {
            None
        } else {
            let p = self.prefix(n - 1);
            assert(p@ =~= self@.drop_last());
            Some(p)
        }
    }

    /// The last component.
    pub fn file_name(&self) -> (r: Option<&String>)
        ensures
            r.is_some() == (self@.len() > 0),
            r matches Some(name) ==> name@ == self@.last(),
    {
        let n = self.parts.len();
        if n == 0 {
            None
        } else {
            Some(&self.parts[n - 1])
        }
    }

    /// The path as it is written, with `/` between the components.
    pub fn to_text(&self) -> (r: String)
        ensures
            r@ == slash_text(self@),
    {
        let mut r = String::new();
        let mut i: usize = 0;
        while i < self.parts.len()
            invariant
                i <= self.parts.len(),
                r@ == slash_text(self@.subrange(0, i as int)),
            decreases self.parts.len() - i,
        {
            proof {
                reveal_strlit("/");
                let cur = self@.subrange(0, i as int);
                let next = self@.subrange(0, i + 1);
                assert(next.drop_last() =~= cur);
                assert(next.last() == self@[i as int]);
                assert("/"@ =~= root_name());
            }
            if i > 0 && !same_text(r.as_str(), "/") {
                r.append("/");
            }
            r.append(self.parts[i].as_str());
            proof {
                if i == 0 {
                    assert(r@ =~= self@[0]);
                }
            }
            i += 1;
        }
        assert(self@.subrange(0, self@.len() as int) =~= self@);
        r
    }
}

} // verus!
