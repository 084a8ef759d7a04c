//! What the rest of the library takes from outside for reading and
//! comparing texts.
//!
//! Nothing in this file is proved.

use crate::path::texts;
use vstd::prelude::*;
use vstd::string::StringSliceAdditionalSpecFns;
use vstd::utf8::valid_utf8;

verus! {

/// Whether a character is white space: what `char::is_whitespace` returns.
pub uninterp spec fn is_space(c: char) -> bool;

/// `char::is_whitespace` says whether the character has the Unicode
/// property White_Space. The answer depends on the character alone.
pub assume_specification[ char::is_whitespace ](c: char) -> (b: bool)
    ensures
        b == is_space(c),
;

/// `core::str::Utf8Error`, the reason why bytes are no text. Its inside is
/// not visible here.
#[verifier::external_type_specification]
#[verifier::external_body]
pub struct ExUtf8Error(core::str::Utf8Error);

/// `core::str::from_utf8` reads bytes as a text. It succeeds exactly on the
/// bytes that are UTF-8, and the bytes of the text that it gives are the
/// bytes that it was given.
pub assume_specification[ core::str::from_utf8 ](v: &[u8]) -> (r: Result<
    &str,
    core::str::Utf8Error,
>)
    ensures
        r.is_ok() == valid_utf8(v@),
        r matches Ok(s) ==> s.spec_bytes() == v@,
;

/// The lines of the unified diff of two texts, each given as its lines, with
/// the names and dates of the two files for the header and `n` lines of
/// context: what `difflib::unified_diff` returns.
pub uninterp spec fn diff_lines(
    first: Seq<Seq<char>>,
    second: Seq<Seq<char>>,
    from_file: Seq<char>,
    to_file: Seq<char>,
    from_date: Seq<char>,
    to_date: Seq<char>,
    n: nat,
) -> Seq<Seq<char>>;

/// Calls `difflib::unified_diff`. The lines that come back depend on the
/// arguments alone. The bound on `n` keeps the sums that the call forms of
/// `n` and a position in a text within the machine's integers.
#[verifier::external_body]
pub(crate) fn unified_diff(
    first: &Vec<String>,
    second: &Vec<String>,
    from_file: &str,
    to_file: &str,
    from_date: &str,
    to_date: &str,
    n: usize,
) -> (r: Vec<String>)
    requires
        n <= 0x1000_0000,
    ensures
        texts(r@) == diff_lines(
            texts(first@),
            texts(second@),
            from_file@,
            to_file@,
            from_date@,
            to_date@,
            n as nat,
        ),
{
    difflib::unified_diff(first, second, from_file, to_file, from_date, to_date, n)
}

} // verus!
