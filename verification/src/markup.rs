//! The two strings that are built from an abbreviation entry: the pattern it
//! is searched with and the markup that replaces each occurrence.

use vstd::prelude::*;
use vstd::string::*;

verus! {

/// The search pattern for `abbr`: the abbreviation as a capture group between
/// two word-boundary assertions. The abbreviation is not escaped, so it is
/// read as a pattern itself.
pub open spec fn word_pattern(abbr: Seq<char>) -> Seq<char> {
    "\\b("@ + abbr + ")\\b"@
}

/// The markup that stands for one occurrence of `abbr`: an `abbr` element
/// whose title is the expansion, verbatim, and whose content is the
/// abbreviation.
pub open spec fn annotation(abbr: Seq<char>, expanded: Seq<char>) -> Seq<char> {
    "<abbr title=\""@ + expanded + "\">"@ + abbr + "</abbr>"@
}

/// Builds the search pattern for `abbr`.
pub fn build_word_pattern(abbr: &str) -> (pattern: String)
    ensures
        pattern@ == word_pattern(abbr@),
{
    let mut pattern = String::from_str("\\b(");
    pattern.append(abbr);
    pattern.append(")\\b");
    pattern
}

/// Builds the markup for `abbr` with the expansion `expanded`.
pub fn build_annotation(abbr: &str, expanded: &str) -> (markup: String)
    ensures
        markup@ == annotation(abbr@, expanded@),
{
    let mut markup = String::from_str("<abbr title=\"");
    markup.append(expanded);
    markup.append("\">");
    markup.append(abbr);
    markup.append("</abbr>");
    markup
}

} // verus!
