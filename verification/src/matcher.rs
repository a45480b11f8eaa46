//! The search itself, which the `regex` crate does. Nothing in this file is
//! proved: it states what the rest of the library takes from that crate.

use crate::offsets::spans_fit;
use vstd::prelude::*;
use vstd::string::*;

verus! {

/// The error that `regex::Regex::new` returns for a pattern it rejects.
#[verifier::external_type_specification]
#[verifier::external_body]
pub struct ExRegexError(regex::Error);

/// Whether `regex::Regex::new` accepts `pattern`: whether it parses and its
/// compiled form stays under the crate's default size limit.
pub uninterp spec fn pattern_compiles(pattern: Seq<char>) -> bool;

/// The matches that `regex::Regex::find_iter` yields for the compiled
/// `pattern` on `text`, in the order it yields them, each as the pair of
/// byte offsets `(start, end)` into the UTF-8 encoding of `text`.
pub uninterp spec fn pattern_matches(pattern: Seq<char>, text: Seq<char>) -> Seq<(usize, usize)>;

/// Compiles `pattern` with `regex::Regex::new` and collects the matches of
/// `regex::Regex::find_iter` on `text`.
///
/// Trusted: the pattern alone decides whether it compiles, and pattern and
/// text alone decide the matches. Of the matches only what the crate
/// documents is claimed: they come in order and do not overlap, no match is
/// reversed or reaches beyond the text, and every offset falls between two
/// characters.
#[verifier::external_body]
pub(crate) fn find_matches(pattern: &str, text: &str) -> (found: Result<
    Vec<(usize, usize)>,
    regex::Error,
>)
    ensures
        found is Ok <==> pattern_compiles(pattern@),
        found matches Ok(spans) ==> spans@ == pattern_matches(pattern@, text@) && spans_fit(
            text@,
            spans@,
        ),
{
    let re = regex::Regex::new(pattern)?;
    Ok(re.find_iter(text).map(|m| (m.start(), m.end())).collect())
}

} // verus!
