//! The substitution engine: every entry of a list, in order, applied to a
//! text, each to the output of the one before.

use crate::entry::{views_of, Abbreviation, ConfigError};
use crate::markup::{annotation, build_annotation, build_word_pattern, word_pattern};
use crate::matcher::{find_matches, pattern_compiles, pattern_matches};
use crate::offsets::{char_ranges, replace_spans, spans_fit};
use crate::splice::spliced;
use vstd::prelude::*;
use vstd::string::*;

verus! {

/// Whether the abbreviation of `entry` gives a valid search pattern.
pub open spec fn entry_compiles(entry: (Seq<char>, Seq<char>)) -> bool {
    pattern_compiles(word_pattern(entry.0))
}

/// The whole-word occurrences of the abbreviation of `entry` in `text`, as
/// spans of byte offsets.
pub open spec fn occurrences(text: Seq<char>, entry: (Seq<char>, Seq<char>)) -> Seq<
    (usize, usize),
> {
    pattern_matches(word_pattern(entry.0), text)
}

/// `text` with every whole-word occurrence of the abbreviation of `entry`
/// replaced by its markup.
pub open spec fn applied(text: Seq<char>, entry: (Seq<char>, Seq<char>)) -> Seq<char> {
    spliced(text, char_ranges(text, occurrences(text, entry)), annotation(entry.0, entry.1))
}

/// `text` after each of `entries` has been applied in turn, the first entry
/// to `text` itself and each later one to the output of its predecessor.
pub open spec fn transformed(text: Seq<char>, entries: Seq<(Seq<char>, Seq<char>)>) -> Seq<char>
    decreases entries.len(),
{
    if entries.len() == 0 {
        text
    } else {
        applied(transformed(text, entries.drop_last()), entries.last())
    }
}

/// Every entry gives a valid search pattern.
pub open spec fn all_compile(entries: Seq<(Seq<char>, Seq<char>)>) -> bool {
    forall|i: int| 0 <= i < entries.len() ==> entry_compiles(#[trigger] entries[i])
}

/// `index` is the position of the first entry that gives no valid search
/// pattern.
pub open spec fn first_invalid(entries: Seq<(Seq<char>, Seq<char>)>, index: int) -> bool {
    &&& 0 <= index < entries.len()
    &&& !entry_compiles(entries[index])
    &&& forall|i: int| 0 <= i < index ==> entry_compiles(#[trigger] entries[i])
}

/// Replaces every whole-word occurrence of the entry's abbreviation in `text`
/// by its markup. Returns `None` exactly where the abbreviation gives no
/// valid search pattern.
pub fn apply_entry(text: &str, entry: &Abbreviation) -> (out: Option<String>)
    ensures
        out is Some <==> entry_compiles(entry@),
        out matches Some(s) ==> s@ == applied(text@, entry@) && spans_fit(
            text@,
            occurrences(text@, entry@),
        ),
{
    let pattern = build_word_pattern(entry.abbr.as_str());
    let markup = build_annotation(entry.abbr.as_str(), entry.expanded.as_str());
    match find_matches(pattern.as_str(), text) {
        Ok(spans) => replace_spans(text, spans.as_slice(), markup.as_str()),
        Err(_) => None,
    }
}

/// Applies `entries` to `text` in order, each to the output of the one
/// before, so a later entry also matches inside the markup and the expansion
/// that an earlier one inserted, and an abbreviation that the list holds twice
/// is wrapped twice. Fails with the first entry whose abbreviation gives no
/// valid search pattern, whatever the text holds; `text` itself is never
/// changed.
pub fn transform(text: &str, entries: &[Abbreviation]) -> (out: Result<String, ConfigError>)
    ensures
        out is Ok <==> all_compile(views_of(entries@)),
        match out {
            Ok(s) => all_compile(views_of(entries@)) && s@ == transformed(
                text@,
                views_of(entries@),
            ),
            Err(e) => first_invalid(views_of(entries@), e.index as int) && e.abbr@
                == entries@[e.index as int].abbr@,
        },
        entries@.len() == 0 ==> out is Ok && out->Ok_0@ == text@,
{
    let ghost views = views_of(entries@);
    let mut current = text.to_owned();
    let mut i: usize = 0;
    while i < entries.len()
        invariant
            views == views_of(entries@),
            0 <= i <= entries.len(),
            current@ == transformed(text@, views.take(i as int)),
            forall|k: int| 0 <= k < i ==> entry_compiles(#[trigger] views[k]),
        decreases entries.len() - i,
    {
        proof {
            assert(views.take(i + 1).drop_last() =~= views.take(i as int));
            assert(views.take(i + 1).last() == entries@[i as int]@);
        }
        match apply_entry(current.as_str(), &entries[i]) {
            Some(next) => {
                current = next;
            },
            None => {
                return Err(ConfigError { index: i, abbr: entries[i].abbr.clone() });
            },
        }
        i += 1;
    }
    proof {
        assert(views.take(entries@.len() as int) =~= views);
    }
    Ok(current)
}

} // verus!
