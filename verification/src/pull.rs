//! Taking files of the destination tree back into a repository.

use crate::config::{config_at, get_config, resolve, ConfigSite};
use crate::error::Error;
use crate::path::{is_under, joined, parent_of, FsPath};
use crate::plan::{ops_view, Op, OpView};
use vstd::prelude::*;

verus! {

/// A path that is named for pulling, and whether a file stands there.
#[derive(Debug, PartialEq, Eq)]
pub struct Candidate {
    pub path: FsPath,
    pub is_file: bool,
}

/// What is done for one path that is named for pulling.
#[derive(Debug, PartialEq, Eq)]
pub struct Pull {
    pub from: FsPath,
    /// Where the file goes; `None` for what is no file and is passed over.
    pub to: Option<FsPath>,
    pub ops: Vec<Op>,
}

/// A pull, as plain values.
pub ghost struct PullView {
    pub from: Seq<Seq<char>>,
    pub to: Option<Seq<Seq<char>>>,
    pub ops: Seq<OpView>,
}

impl View for Pull {
    type V = PullView;

    open spec fn view(&self) -> PullView {
        PullView {
            from: self.from@,
            to: match self.to {
                Some(p) => Some(p@),
                None => None,
            },
            ops: ops_view(self.ops@),
        }
    }
}

/// The view of each pull.
pub open spec fn pulls_view(pulls: Seq<Pull>) -> Seq<PullView> {
    pulls.map_values(|p: Pull| p@)
}

/// What is done for one path: a file is copied to the place in `dir` that
/// answers to its place below `dest`, after the directory for it has been
/// made; anything else is passed over.
pub open spec fn pull_of(dir: Seq<Seq<char>>, dest: Seq<Seq<char>>, c: Candidate) -> PullView {
    if c.is_file {
        let to = joined(dir, c.path@.subrange(dest.len() as int, c.path@.len() as int));
        PullView {
            from: c.path@,
            to: Some(to),
            ops: seq![
                OpView::MakeDirs(
                    match parent_of(to) {
                        Some(p) => p,
                        None => dir,
                    },
                ),
                OpView::Copy { source: c.path@, target: to },
            ],
        }
    } else {
        PullView { from: c.path@, to: None, ops: Seq::empty() }
    }
}

/// The destination from which files are pulled into `dir`: that of the
/// configuration, else the home directory.
pub open spec fn pull_root(dest: Option<FsPath>, home: Option<Seq<Seq<char>>>) -> Option<
    Seq<Seq<char>>,
> {
    match dest {
        Some(d) => Some(d@),
        None => home,
    }
}

/// A file among the first `n` candidates does not lie below `dest`.
pub open spec fn strays(targets: Seq<Candidate>, dest: Seq<Seq<char>>, n: int) -> bool {
    exists|k: int| 0 <= k < n && (#[trigger] targets[k]).is_file && !is_under(targets[k].path@, dest)
}

/// What pulling does: nothing where no configuration governs the directory;
/// else one pull for each path, unless there is no destination or a file
/// does not lie below it.
pub open spec fn pulled(
    sites: Seq<ConfigSite>,
    base: Seq<Seq<char>>,
    dir: Seq<Seq<char>>,
    targets: Seq<Candidate>,
    home: Option<Seq<Seq<char>>>,
    os: Seq<char>,
) -> Result<Seq<PullView>, Error> {
    match resolve(sites, joined(base, dir), os) {
        None => Ok(Seq::empty()),
        Some(at) => match pull_root(config_at(sites, at).dest, home) {
            None => Err(Error::MissingDestination),
            Some(dest) => if strays(targets, dest, targets.len() as int) {
                Err(Error::OutsideDestination)
            } else {
                Ok(targets.map_values(|c: Candidate| pull_of(dir, dest, c)))
            },
        },
    }
}

/// Plans the pulling of files from the destination tree into the directory
/// `dir` of a repository. The directory `dir` below `base` must have a
/// governing configuration, else nothing is pulled. Each file is copied to
/// the place in `dir` that answers to its place below the destination; what
/// is no file is passed over.
pub fn pull_files(
    sites: &Vec<ConfigSite>,
    base: &FsPath,
    dir: &FsPath,
    targets: &Vec<Candidate>,
    home: Option<&FsPath>,
    os: &String,
) -> (r: Result<Vec<Pull>, Error>)
    ensures
        match r {
            Ok(pulls) => pulled(
                sites@,
                base@,
                dir@,
                targets@,
                match home {
                    Some(h) => Some(h@),
                    None => None,
                },
                os@,
            ) == Ok::<Seq<PullView>, Error>(pulls_view(pulls@)),
            Err(e) => pulled(
                sites@,
                base@,
                dir@,
                targets@,
                match home {
                    Some(h) => Some(h@),
                    None => None,
                },
                os@,
            ) == Err::<Seq<PullView>, Error>(e),
        },
{
    let mut pulls: Vec<Pull> = Vec::new();
    let found = match get_config(sites, &base.join(dir), os) {
        Some(found) => found,
        None => {
            assert(pulls_view(pulls@) =~= Seq::empty());
            return Ok(pulls);
        },
    };
    let dest: &FsPath = match &found.config.dest {
        Some(d) => d,
        None => match home {
            Some(h) => h,
            None => {
                return Err(Error::MissingDestination);
            },
        },
    };
    let mut i: usize = 0;
    while i < targets.len()
        invariant
            i <= targets.len(),
            pulls@.len() == i,
            resolve(sites@, joined(base@, dir@), os@) is Some,
            pull_root(
                config_at(sites@, resolve(sites@, joined(base@, dir@), os@)->0).dest,
                match home {
                    Some(h) => Some(h@),
                    None => None,
                },
            ) == Some(dest@),
            !strays(targets@, dest@, i as int),
            forall|j: int| 0 <= j < i ==> (#[trigger] pulls@[j])@ == pull_of(dir@, dest@, targets@[j]),
        decreases targets.len() - i,
    {
        let target = &targets[i];
        let mut ops: Vec<Op> = Vec::new();
        if target.is_file {
            let rest = match target.path.strip_prefix(dest) {
                Some(rest) => rest,
                None => {
                    assert(targets@[i as int].is_file && !is_under(
                        targets@[i as int].path@,
                        dest@,
                    ));
                    assert(strays(targets@, dest@, targets@.len() as int));
                    return Err(Error::OutsideDestination);
                },
            };
            let to = dir.join(&rest);
            let above = match to.parent() {
                Some(p) => p,
                None => dir.clone(),
            };
            ops.push(Op::MakeDirs(above));
            ops.push(Op::Copy { source: target.path.clone(), target: to.clone() });
            let pull = Pull { from: target.path.clone(), to: Some(to), ops };
            assert(pull@.ops =~= pull_of(dir@, dest@, *target).ops);
            pulls.push(pull);
        } else {
            let pull = Pull { from: target.path.clone(), to: None, ops };
            assert(pull@.ops =~= pull_of(dir@, dest@, *target).ops);
            pulls.push(pull);
        }
        i += 1;
    }
    assert(pulls_view(pulls@) =~= targets@.map_values(|c: Candidate| pull_of(dir@, dest@, c)));
    Ok(pulls)
}

} // verus!
