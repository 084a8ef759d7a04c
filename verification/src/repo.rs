//! Naming a repository that is to be fetched.

use crate::path::{joined, parsed, FsPath};
use crate::text::{has_prefix, same_text};
use vstd::prelude::*;

verus! {

/// What a repository's address begins with.
pub open spec fn scheme() -> Seq<char> {
    "https://"@
}

/// What a repository's address ends with.
pub open spec fn git_suffix() -> Seq<char> {
    ".git"@
}

/// The position of the first `c` in `s` at or after `from`.
pub open spec fn first_at(s: Seq<char>, c: char, from: int) -> Option<int>
    decreases s.len() - from,
{
    if from < 0 || from >= s.len() {
        None
    } else if s[from] == c {
        Some(from)
    } else {
        first_at(s, c, from + 1)
    }
}

/// A text without the suffixes `.git` at its end.
pub open spec fn without_git(s: Seq<char>) -> Seq<char>
    decreases s.len(),
{
    if git_suffix().len() > 0 && git_suffix().is_suffix_of(s) {
        without_git(s.subrange(0, s.len() - git_suffix().len()))
    } else {
        s
    }
}

/// The site that a short form stands for.
pub open spec fn site_for(short: Seq<char>) -> Option<Seq<char>> {
    if short == "gh"@ {
        Some("github.com"@)
    } else if short == "gl"@ {
        Some("gitlab.com"@)
    } else if short == "bb"@ {
        Some("bitbucket.org"@)
    } else {
        None
    }
}

/// The site and the path that a name of a repository stands for: an address
/// is divided at the first slash behind the scheme, and its path is taken
/// without `.git`; a short form and a path, divided by a colon, name the
/// site by the short form; anything else is a path on the first site.
pub open spec fn site_and_path(name: Seq<char>) -> Option<(Seq<char>, Seq<char>)> {
    if scheme().is_prefix_of(name) {
        let rest = name.subrange(scheme().len() as int, name.len() as int);
        match first_at(rest, '/', 0) {
            Some(i) => Some((rest.subrange(0, i), without_git(rest.subrange(i + 1, rest.len() as int)))),
            None => Some((Seq::empty(), Seq::empty())),
        }
    } else {
        match first_at(name, ':', 0) {
            Some(i) => match site_for(name.subrange(0, i)) {
                Some(site) => Some((site, name.subrange(i + 1, name.len() as int))),
                None => None,
            },
            None => Some(("github.com"@, name)),
        }
    }
}

/// The site that a name of a repository stands for.
pub open spec fn site_named(name: Seq<char>) -> Seq<char> {
    match site_and_path(name) {
        Some((site, _)) => site,
        None => Seq::empty(),
    }
}

/// The path that a name of a repository stands for.
pub open spec fn path_named(name: Seq<char>) -> Seq<char> {
    match site_and_path(name) {
        Some((_, path)) => path,
        None => Seq::empty(),
    }
}

/// The address from which a repository is fetched.
pub open spec fn address(site: Seq<char>, path: Seq<char>) -> Seq<char> {
    scheme() + site + "/"@ + path + git_suffix()
}

/// The place of a repository on this machine: below the home directory the
/// directory of repositories, then the site, then the path.
pub open spec fn place(
    home: Option<Seq<Seq<char>>>,
    src: Seq<Seq<char>>,
    site: Seq<char>,
    path: Seq<char>,
) -> Seq<Seq<char>> {
    let base = match home {
        Some(h) => h,
        None => Seq::empty(),
    };
    joined(joined(joined(base, src), parsed(site)), parsed(path))
}

/// A repository that is to be fetched: from where, and to where.
#[derive(Debug, PartialEq, Eq)]
pub struct Checkout {
    pub url: String,
    pub path: FsPath,
}

/// Finds the first `c` in `s`.
pub fn find_char(s: &str, c: char) -> (r: Option<usize>)
    ensures
        r.is_some() == first_at(s@, c, 0).is_some(),
        r matches Some(i) ==> first_at(s@, c, 0) == Some(i as int) && i < s@.len() && s@[i as int]
            == c,
{
    let n = s.unicode_len();
    let mut i: usize = 0;
    while i < n
        invariant
            i <= n == s@.len(),
            first_at(s@, c, 0) == first_at(s@, c, i as int),
        decreases n - i,
    {
        if s.get_char(i) == c {
            return Some(i);
        }
        i += 1;
    }
    None
}

/// Whether `text` ends with `suffix`.
pub fn has_suffix(text: &str, suffix: &str) -> (b: bool)
    ensures
        b == suffix@.is_suffix_of(text@),
{
    let n = text.unicode_len();
    let m = suffix.unicode_len();
    if m > n {
        return false;
    }
    let tail = text.substring_char(n - m, n);
    same_text(tail, suffix)
}

/// Takes the suffixes `.git` off the end of a text.
pub fn trim_git(s: &str) -> (r: &str)
    ensures
        r@ == without_git(s@),
{
    proof {
        reveal_strlit(".git");
    }
    let m = ".git".unicode_len();
    let mut n: usize = s.unicode_len();
    assert(s@.subrange(0, n as int) =~= s@);
    let mut rest = s.substring_char(0, n);
    while has_suffix(rest, ".git")
        invariant
            m == git_suffix().len(),
            m > 0,
            n <= s@.len(),
            rest@ == s@.subrange(0, n as int),
            without_git(s@) == without_git(rest@),
        decreases n,
    {
        assert(rest@.subrange(0, rest@.len() - m) =~= s@.subrange(0, n - m));
        n -= m;
        rest = s.substring_char(0, n);
    }
    rest
}

/// Reads the short form of a site.
pub fn site_of_short(short: &str) -> (r: Option<&'static str>)
    ensures
        match r {
            Some(site) => site_for(short@) == Some(site@),
            None => site_for(short@).is_none(),
        },
{
    if same_text(short, "gh") {
        Some("github.com")
    } else if same_text(short, "gl") {
        Some("gitlab.com")
    } else if same_text(short, "bb") {
        Some("bitbucket.org")
    } else {
        None
    }
}

/// Reads the name of a repository as a site and a path on that site. A
/// short form that is not known names no repository.
pub fn read_name<'a>(name: &'a str) -> (r: Option<(&'a str, &'a str)>)
    ensures
        match r {
            Some((site, path)) => site_and_path(name@) == Some((site@, path@)),
            None => site_and_path(name@).is_none(),
        },
{
    proof {
        reveal_strlit("");
        assert(""@ =~= Seq::<char>::empty());
    }
    let n = name.unicode_len();
    if has_prefix(name, "https://") {
        let rest = name.substring_char("https://".unicode_len(), n);
        match find_char(rest, '/') {
            Some(i) => Some(
                (
                    rest.substring_char(0, i),
                    trim_git(rest.substring_char(i + 1, rest.unicode_len())),
                ),
            ),
            None => Some(("", "")),
        }
    } else {
        match find_char(name, ':') {
            Some(i) => match site_of_short(name.substring_char(0, i)) {
                Some(site) => Some((site, name.substring_char(i + 1, n))),
                None => None,
            },
            None => {
                assert(name@.subrange(0, n as int) =~= name@);
                Some(("github.com", name.substring_char(0, n)))
            },
        }
    }
}

/// Says from where the repository of a name is fetched and where it is put.
/// The name must name a repository: a short form that is not known is no
/// name.
pub fn load_repo(name: &str, home: Option<&FsPath>, src: &FsPath) -> (checkout: Checkout)
    requires
        site_and_path(name@).is_some(),
    ensures
        checkout.url@ == address(site_named(name@), path_named(name@)),
        checkout.path@ == place(
            match home {
                Some(h) => Some(h@),
                None => None,
            },
            src@,
            site_named(name@),
            path_named(name@),
        ),
{
    let (site, path) = match read_name(name) {
        Some(found) => found,
        None => unreached(),
    };
    let mut url = String::from_str("https://");
    url.append(site);
    url.append("/");
    url.append(path);
    url.append(".git");
    let base = match home {
        Some(h) => h.clone(),
        None => FsPath::new(),
    };
    let place = base.join(src).join(&FsPath::parse(site)).join(&FsPath::parse(path));
    Checkout { url, path: place }
}

} // verus!
