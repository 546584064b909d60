//! The pattern matcher: regular expressions as the `regex` crate reads them.
//!
//! Nothing in this module is proved. It names what the crate's searches
//! return and wraps the calls; the lexer is verified against these contracts.

use vstd::prelude::*;

verus! {

/// `regex::Error`, with which `regex::Regex::new` refuses a pattern.
#[verifier::external_type_specification]
#[verifier::external_body]
pub struct ExRegexError(regex::Error);

/// Whether `regex::Regex::new` takes `pattern`: whether it compiles it
/// rather than refusing it, for its syntax or for the size of what it
/// compiles to.
pub uninterp spec fn regex_accepts(pattern: Seq<char>) -> bool;

/// What `regex::Regex::find` returns for the regular expression `pattern` on
/// `haystack`: the byte offsets at which the leftmost match starts and ends,
/// or `None` where nothing in `haystack` matches.
pub uninterp spec fn regex_find(pattern: Seq<char>, haystack: Seq<char>) -> Option<(int, int)>;

/// What `regex::Regex::is_match` returns for the regular expression
/// `pattern` on `haystack`: whether anything in `haystack` matches.
pub uninterp spec fn regex_is_match(pattern: Seq<char>, haystack: Seq<char>) -> bool;

/// The offsets of a match as integers.
pub open spec fn offsets(found: Option<(usize, usize)>) -> Option<(int, int)> {
    match found {
        Some((start, end)) => Some((start as int, end as int)),
        None => None,
    }
}

/// Compiles `pattern` with `regex::Regex::new` and searches `haystack` with
/// `regex::Regex::find`.
///
/// Trusted: whether `new` takes a pattern depends on the pattern alone, and
/// the error with which it refuses one comes back as it is. Where the
/// pattern compiles, the offsets returned are those that `find` reports,
/// which depend on the pattern and the haystack alone.
#[verifier::external_body]
pub(crate) fn find(pattern: &str, haystack: &str) -> (r: Result<
    Option<(usize, usize)>,
    regex::Error,
>)
    ensures
        r is Ok <==> regex_accepts(pattern@),
        r matches Ok(found) ==> offsets(found) == regex_find(pattern@, haystack@),
{
    let compiled = regex::Regex::new(pattern)?;
    match compiled.find(haystack) {
        Some(m) => Ok(Some((m.start(), m.end()))),
        None => Ok(None),
    }
}

/// Compiles `pattern` with `regex::Regex::new` and tests `haystack` with
/// `regex::Regex::is_match`.
///
/// Trusted: whether `new` takes a pattern depends on the pattern alone, and
/// the error with which it refuses one comes back as it is. Where the
/// pattern compiles, the answer is that of `is_match`, which depends on the
/// pattern and the haystack alone.
#[verifier::external_body]
pub(crate) fn is_match(pattern: &str, haystack: &str) -> (r: Result<bool, regex::Error>)
    ensures
        r is Ok <==> regex_accepts(pattern@),
        r matches Ok(found) ==> found == regex_is_match(pattern@, haystack@),
{
    let compiled = regex::Regex::new(pattern)?;
    Ok(compiled.is_match(haystack))
}

} // verus!
