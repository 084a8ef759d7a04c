//! Shell patterns, as the `glob` crate compiles and matches them.
//!
//! Nothing in this file is proved: each item states what the rest of the
//! library takes from `glob`.

use vstd::prelude::*;

verus! {

/// `glob::Pattern`, a compiled pattern. Its inside is not visible here.
#[verifier::external_type_specification]
#[verifier::external_body]
pub struct ExPattern(glob::Pattern);

/// `glob::PatternError`, the reason why a text is no pattern.
#[verifier::external_type_specification]
#[verifier::external_body]
pub struct ExPatternError(glob::PatternError);

/// Whether `glob::Pattern::new` accepts `text` as a pattern.
pub uninterp spec fn pattern_valid(text: Seq<char>) -> bool;

/// The text that a compiled pattern was made from: what
/// `glob::Pattern::as_str` returns for it.
pub uninterp spec fn pattern_text(pattern: glob::Pattern) -> Seq<char>;

/// Whether the pattern compiled from `pattern` matches the whole of `text`
/// under the given options: what `glob::Pattern::matches_with` returns, on a
/// platform whose path separator is `/`.
pub uninterp spec fn pattern_matches(
    pattern: Seq<char>,
    text: Seq<char>,
    case_sensitive: bool,
    literal_separator: bool,
    literal_leading_dot: bool,
) -> bool;

/// Calls `glob::Pattern::new`. The call succeeds exactly on the texts that
/// are patterns, and the compiled pattern remembers the text it was made
/// from.
#[verifier::external_body]
pub(crate) fn compile(text: &str) -> (r: Result<glob::Pattern, glob::PatternError>)
    ensures
        r.is_ok() == pattern_valid(text@),
        r matches Ok(p) ==> pattern_text(p) == text@,
{
    glob::Pattern::new(text)
}

/// Calls `glob::Pattern::matches_with`. The three flags are the fields of
/// `glob::MatchOptions`. The answer depends on the pattern's text, on `text`
/// and on the flags, and on nothing else.
#[verifier::external_body]
pub(crate) fn is_match(
    pattern: &glob::Pattern,
    text: &str,
    case_sensitive: bool,
    literal_separator: bool,
    literal_leading_dot: bool,
) -> (r: bool)
    ensures
        r == pattern_matches(
            pattern_text(*pattern),
            text@,
            case_sensitive,
            literal_separator,
            literal_leading_dot,
        ),
{
    pattern.matches_with(
        text,
        glob::MatchOptions {
            case_sensitive,
            require_literal_separator: literal_separator,
            require_literal_leading_dot: literal_leading_dot,
        },
    )
}

} // verus!
