//! What holds of every replacement and of every transformation.

use crate::engine::{applied, occurrences, transformed};
use crate::markup::annotation;
use crate::offsets::{char_ranges, lemma_spans_give_ranges, spans_fit};
use crate::splice::{cut, range_in_place, ranges_fit, replaced_upto, spliced};
use vstd::prelude::*;

verus! {

/// The number of characters that the first `k` ranges cover.
pub open spec fn covered(ranges: Seq<(int, int)>, k: int) -> int
    decreases k,
{
    if k <= 0 {
        0
    } else {
        covered(ranges, k - 1) + (ranges[k - 1].1 - ranges[k - 1].0)
    }
}

/// The position in the output at which the text that precedes range `k`
/// begins; with `k` the number of ranges, the text after the last range. It
/// is the position in the input, less what the earlier ranges covered, plus
/// one replacement for each of them.
pub open spec fn gap_lands(ranges: Seq<(int, int)>, replacement_len: int, k: int) -> int {
    cut(ranges, k) - covered(ranges, k) + k * replacement_len
}

/// The position in the output at which the replacement of range `k` begins.
pub open spec fn range_lands(ranges: Seq<(int, int)>, replacement_len: int, k: int) -> int {
    ranges[k].0 - covered(ranges, k) + k * replacement_len
}

/// The output up to range `k` has the length that `gap_lands` gives.
proof fn lemma_upto_len(text: Seq<char>, ranges: Seq<(int, int)>, replacement: Seq<char>, k: int)
    requires
        ranges_fit(text.len() as int, ranges),
        0 <= k <= ranges.len(),
    ensures
        replaced_upto(text, ranges, replacement, k).len() == gap_lands(
            ranges,
            replacement.len() as int,
            k,
        ),
        0 <= covered(ranges, k) <= cut(ranges, k) <= text.len(),
    decreases k,
{
    let r = replacement.len() as int;
    if k > 0 {
        lemma_upto_len(text, ranges, replacement, k - 1);
        assert(range_in_place(text.len() as int, ranges, k - 1));
        assert((k - 1) * r + r == k * r) by (nonlinear_arith);
    } else {
        assert(k * r == 0) by (nonlinear_arith)
            requires
                k == 0,
        ;
    }
}

/// The output up to range `j` is the beginning of the output up to any later
/// range.
proof fn lemma_upto_grows(
    text: Seq<char>,
    ranges: Seq<(int, int)>,
    replacement: Seq<char>,
    j: int,
    k: int,
)
    requires
        0 <= j <= k,
    ensures
        replaced_upto(text, ranges, replacement, j).len() <= replaced_upto(
            text,
            ranges,
            replacement,
            k,
        ).len(),
        replaced_upto(text, ranges, replacement, k).subrange(
            0,
            replaced_upto(text, ranges, replacement, j).len() as int,
        ) == replaced_upto(text, ranges, replacement, j),
    decreases k,
{
    let short = replaced_upto(text, ranges, replacement, j);
    let long = replaced_upto(text, ranges, replacement, k);
    if j == k {
        assert(long.subrange(0, long.len() as int) =~= long);
    } else {
        lemma_upto_grows(text, ranges, replacement, j, k - 1);
        let before = replaced_upto(text, ranges, replacement, k - 1);
        assert(long.subrange(0, short.len() as int) =~= before.subrange(0, short.len() as int));
    }
}

/// Replacing no range leaves the text as it is.
pub proof fn lemma_no_range_is_identity(text: Seq<char>, replacement: Seq<char>)
    ensures
        spliced(text, Seq::empty(), replacement) == text,
{
    assert(spliced(text, Seq::empty(), replacement) =~= text);
}

/// The length of the output: that of the text, less what the ranges cover,
/// plus one replacement for each range.
pub proof fn lemma_spliced_len(text: Seq<char>, ranges: Seq<(int, int)>, replacement: Seq<char>)
    requires
        ranges_fit(text.len() as int, ranges),
    ensures
        spliced(text, ranges, replacement).len() == text.len() - covered(
            ranges,
            ranges.len() as int,
        ) + ranges.len() * replacement.len(),
{
    lemma_upto_len(text, ranges, replacement, ranges.len() as int);
}

/// Every range is replaced, and once: where range `k` lands in the output,
/// the replacement stands in its place.
pub proof fn lemma_range_is_replaced(
    text: Seq<char>,
    ranges: Seq<(int, int)>,
    replacement: Seq<char>,
    k: int,
)
    requires
        ranges_fit(text.len() as int, ranges),
        0 <= k < ranges.len(),
    ensures
        0 <= range_lands(ranges, replacement.len() as int, k),
        range_lands(ranges, replacement.len() as int, k) + replacement.len() <= spliced(
            text,
            ranges,
            replacement,
        ).len(),
        spliced(text, ranges, replacement).subrange(
            range_lands(ranges, replacement.len() as int, k),
            range_lands(ranges, replacement.len() as int, k) + replacement.len(),
        ) == replacement,
{
    let n = ranges.len() as int;
    let at = range_lands(ranges, replacement.len() as int, k);
    let before = replaced_upto(text, ranges, replacement, k);
    let gap = text.subrange(cut(ranges, k), ranges[k].0);
    let through = replaced_upto(text, ranges, replacement, k + 1);
    let whole = spliced(text, ranges, replacement);
    lemma_upto_len(text, ranges, replacement, k);
    lemma_upto_len(text, ranges, replacement, k + 1);
    lemma_upto_len(text, ranges, replacement, n);
    lemma_upto_grows(text, ranges, replacement, k + 1, n);
    assert(range_in_place(text.len() as int, ranges, k));
    assert(through == before + gap + replacement);
    assert(whole.subrange(0, through.len() as int) =~= through);
    assert(whole.subrange(at, at + replacement.len()) =~= through.subrange(
        at,
        at + replacement.len(),
    ));
    assert(through.subrange(at, at + replacement.len()) =~= replacement);
}

/// Nothing else changes: the text that precedes range `k` stands in the
/// output where `gap_lands` says, and so does, with `k` the number of ranges,
/// the text after the last range.
pub proof fn lemma_gap_is_kept(
    text: Seq<char>,
    ranges: Seq<(int, int)>,
    replacement: Seq<char>,
    k: int,
)
    requires
        ranges_fit(text.len() as int, ranges),
        0 <= k <= ranges.len(),
    ensures
        ({
            let from = gap_lands(ranges, replacement.len() as int, k);
            let until = if k < ranges.len() {
                ranges[k].0
            } else {
                text.len() as int
            };
            &&& 0 <= from
            &&& cut(ranges, k) <= until
            &&& from + (until - cut(ranges, k)) <= spliced(text, ranges, replacement).len()
            &&& spliced(text, ranges, replacement).subrange(from, from + (until - cut(ranges, k)))
                == text.subrange(cut(ranges, k), until)
        }),
{
    let n = ranges.len() as int;
    let from = gap_lands(ranges, replacement.len() as int, k);
    let before = replaced_upto(text, ranges, replacement, k);
    let whole = spliced(text, ranges, replacement);
    lemma_upto_len(text, ranges, replacement, k);
    lemma_upto_len(text, ranges, replacement, n);
    if k < n {
        let gap = text.subrange(cut(ranges, k), ranges[k].0);
        let through = replaced_upto(text, ranges, replacement, k + 1);
        lemma_upto_len(text, ranges, replacement, k + 1);
        lemma_upto_grows(text, ranges, replacement, k + 1, n);
        assert(range_in_place(text.len() as int, ranges, k));
        assert(through == before + gap + replacement);
        assert(whole.subrange(0, through.len() as int) =~= through);
        assert(whole.subrange(from, from + gap.len()) =~= through.subrange(
            from,
            from + gap.len(),
        ));
        assert(through.subrange(from, from + gap.len()) =~= gap);
    } else {
        let tail = text.subrange(cut(ranges, n), text.len() as int);
        assert(whole.subrange(from, from + tail.len()) =~= tail);
    }
}

/// Every whole-word occurrence of an abbreviation is wrapped, and once: where
/// occurrence `k` lands in the output, the markup of the entry stands in its
/// place.
pub proof fn lemma_occurrence_is_wrapped(text: Seq<char>, entry: (Seq<char>, Seq<char>), k: int)
    requires
        spans_fit(text, occurrences(text, entry)),
        0 <= k < occurrences(text, entry).len(),
    ensures
        ({
            let ranges = char_ranges(text, occurrences(text, entry));
            let markup = annotation(entry.0, entry.1);
            let at = range_lands(ranges, markup.len() as int, k);
            &&& 0 <= at
            &&& at + markup.len() <= applied(text, entry).len()
            &&& applied(text, entry).subrange(at, at + markup.len()) == markup
        }),
{
    let ranges = char_ranges(text, occurrences(text, entry));
    lemma_spans_give_ranges(text, occurrences(text, entry));
    lemma_range_is_replaced(text, ranges, annotation(entry.0, entry.1), k);
}

/// An entry whose abbreviation does not occur in the text as a whole word
/// leaves the text as it is.
pub proof fn lemma_absent_entry_is_identity(text: Seq<char>, entry: (Seq<char>, Seq<char>))
    requires
        occurrences(text, entry).len() == 0,
    ensures
        applied(text, entry) == text,
{
    assert(char_ranges(text, occurrences(text, entry)) =~= Seq::empty());
    lemma_no_range_is_identity(text, annotation(entry.0, entry.1));
}

/// Where no abbreviation of the list occurs in the text as a whole word, the
/// transformation is the identity.
pub proof fn lemma_no_match_is_identity(text: Seq<char>, entries: Seq<(Seq<char>, Seq<char>)>)
    requires
        forall|i: int|
            0 <= i < entries.len() ==> (#[trigger] occurrences(text, entries[i])).len() == 0,
    ensures
        transformed(text, entries) == text,
    decreases entries.len(),
{
    if entries.len() > 0 {
        let earlier = entries.drop_last();
        assert forall|i: int| 0 <= i < earlier.len() implies (#[trigger] occurrences(
            text,
            earlier[i],
        )).len() == 0 by {
            assert(earlier[i] == entries[i]);
        }
        lemma_no_match_is_identity(text, earlier);
        assert(occurrences(text, entries[entries.len() - 1]).len() == 0);
        lemma_absent_entry_is_identity(text, entries.last());
    }
}

/// With no entries the transformation is the identity.
pub proof fn lemma_no_entries_is_identity(text: Seq<char>)
    ensures
        transformed(text, Seq::empty()) == text,
{
}

} // verus!
