//! Replacing ranges of a text by one replacement, as a function on
//! sequences of characters.
//!
//! A range is a pair `(start, end)` of character positions: it covers the
//! characters from `start` up to, not including, `end`.

use vstd::prelude::*;

verus! {

/// Where the text that precedes range `k` begins: at the end of range
/// `k - 1`, or at the start of the text for the first range. With `k` the
/// number of ranges, this is where the text after the last range begins.
pub open spec fn cut(ranges: Seq<(int, int)>, k: int) -> int {
    if k <= 0 {
        0
    } else {
        ranges[k - 1].1
    }
}

/// Range `k` does not begin before its predecessor ends, is not reversed and
/// ends within a text of `len` characters.
pub open spec fn range_in_place(len: int, ranges: Seq<(int, int)>, k: int) -> bool {
    cut(ranges, k) <= ranges[k].0 <= ranges[k].1 <= len
}

/// Every range is in place: the ranges are ordered, disjoint and lie within
/// a text of `len` characters.
pub open spec fn ranges_fit(len: int, ranges: Seq<(int, int)>) -> bool {
    forall|k: int| 0 <= k < ranges.len() ==> range_in_place(len, ranges, k)
}

/// The output up to and including the replacement of range `k - 1`: for each
/// of the first `k` ranges, the text between its predecessor and itself,
/// followed by `replacement`.
pub open spec fn replaced_upto(
    text: Seq<char>,
    ranges: Seq<(int, int)>,
    replacement: Seq<char>,
    k: int,
) -> Seq<char>
    decreases k,
{
    if k <= 0 {
        Seq::empty()
    } else {
        replaced_upto(text, ranges, replacement, k - 1) + text.subrange(
            cut(ranges, k - 1),
            ranges[k - 1].0,
        ) + replacement
    }
}

/// `text` with each range replaced by `replacement`: the output up to the
/// last replacement, followed by the text after the last range.
pub open spec fn spliced(text: Seq<char>, ranges: Seq<(int, int)>, replacement: Seq<char>) -> Seq<
    char,
> {
    replaced_upto(text, ranges, replacement, ranges.len() as int) + text.subrange(
        cut(ranges, ranges.len() as int),
        text.len() as int,
    )
}

} // verus!
