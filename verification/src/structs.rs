//! The values that the planner hands out.

use crate::ignore::contains_path;
use crate::path::{slash_text, texts, FsPath};
use crate::text::{lines_of, split_lines};
use vstd::prelude::*;
use vstd::string::StringSliceAdditionalSpecFns;
use vstd::utf8::{decode_utf8, encode_utf8_decode_utf8, valid_utf8};

verus! {

/// One managed item: what stands in the repository and where it belongs in
/// the destination tree.
#[derive(Debug, PartialEq, Eq)]
pub struct Link {
    pub source: FsPath,
    pub target: FsPath,
    /// The item is a directory that is linked or copied as a whole.
    pub is_dir: bool,
}

/// A link as plain values.
pub ghost struct LinkView {
    pub source: Seq<Seq<char>>,
    pub target: Seq<Seq<char>>,
    pub is_dir: bool,
}

impl View for Link {
    type V = LinkView;

    open spec fn view(&self) -> LinkView {
        LinkView { source: self.source@, target: self.target@, is_dir: self.is_dir }
    }
}

impl Clone for Link {
    fn clone(&self) -> (r: Self)
        ensures
            r@ == self@,
    {
        Link { source: self.source.clone(), target: self.target.clone(), is_dir: self.is_dir }
    }
}

/// The view of each link.
pub open spec fn links_view(items: Seq<Link>) -> Seq<LinkView> {
    items.map_values(|l: Link| l@)
}

/// How a link is written: the target, an arrow, the source.
pub open spec fn link_text(link: LinkView) -> Seq<char> {
    slash_text(link.target) + seq![' ', '-', '>', ' '] + slash_text(link.source)
}

impl Link {
    pub fn new(source: FsPath, target: FsPath, is_dir: bool) -> (r: Self)
        ensures
            r.source == source,
            r.target == target,
            r.is_dir == is_dir,
    {
        Self { source, target, is_dir }
    }

    /// The link as a line of text: `target -> source`.
    pub fn describe(&self) -> (r: String)
        ensures
            r@ == link_text(self@),
    {
        proof {
            reveal_strlit(" -> ");
        }
        let mut r = self.target.to_text();
        r.append(" -> ");
        assert(" -> "@ =~= seq![' ', '-', '>', ' ']);
        r.append(self.source.to_text().as_str());
        r
    }
}

/// What was read of a file.
#[derive(Debug, PartialEq, Eq)]
pub enum Content {
    /// Text, line by line.
    Text(Vec<String>),
    /// Bytes, with their number as it was reported when they were read.
    Binary(usize, Vec<u8>),
}

impl Content {
    /// Says what the bytes of a file are: the lines of a text, where the
    /// bytes are UTF-8; else the bytes themselves, with the number that was
    /// reported for them.
    pub fn from_bytes(size: usize, bytes: Vec<u8>) -> (r: Content)
        ensures
            match r {
                Content::Text(lines) => valid_utf8(bytes@) && texts(lines@) == lines_of(
                    decode_utf8(bytes@),
                ),
                Content::Binary(n, held) => !valid_utf8(bytes@) && n == size && held@ == bytes@,
            },
    {
        let lines = match core::str::from_utf8(bytes.as_slice()) {
            Ok(text) => {
                proof {
                    encode_utf8_decode_utf8(text@);
                }
                Some(split_lines(text))
            },
            Err(_) => None,
        };
        match lines {
            Some(lines) => Content::Text(lines),
            None => Content::Binary(size, bytes),
        }
    }
}

/// The two sets of paths that steer a walk. Each is held as a list; a path
/// that stands twice in a list counts once.
#[derive(Debug, PartialEq, Eq)]
pub struct PathDict {
    /// The directories that are items as a whole.
    pub dir: Vec<FsPath>,
    /// The paths that are never items.
    pub ign: Vec<FsPath>,
}

/// The paths of a list, as a set.
pub open spec fn path_set(list: Seq<FsPath>) -> Set<Seq<Seq<char>>> {
    Set::new(|p: Seq<Seq<char>>| contains_path(list, p))
}

} // verus!
