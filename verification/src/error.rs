//! Why a plan cannot be made.

use vstd::prelude::*;

verus! {

/// Why a plan could not be made.
#[derive(Debug, Clone, Copy, PartialEq, Eq, Structural)]
pub enum Error {
    /// An ignore file holds a line that is no pattern.
    Pattern,
    /// No configuration gives a destination and there is no home directory.
    MissingDestination,
    /// The destination root does not resolve to a directory.
    Canonicalize,
    /// A file that is to be pulled does not lie in the destination tree.
    OutsideDestination,
}

/// What `first` gives, then what `rest` gives; the first failure is the
/// result.
pub open spec fn in_turn<T>(first: Result<Seq<T>, Error>, rest: Result<Seq<T>, Error>) -> Result<
    Seq<T>,
    Error,
> {
    match first {
        Ok(a) => match rest {
            Ok(b) => Ok(a + b),
            Err(e) => Err(e),
        },
        Err(e) => Err(e),
    }
}

} // verus!
