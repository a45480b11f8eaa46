//! Spans of byte offsets, as a search reports them, and the ranges of
//! characters that they stand for.
//!
//! A span is a pair `(start, end)` of offsets into the UTF-8 encoding of a
//! text. It stands for a range of characters where both offsets fall
//! between two characters.

use crate::splice::{cut, range_in_place, ranges_fit, replaced_upto, spliced};
use vstd::prelude::*;
use vstd::string::*;
use vstd::utf8::*;

verus! {

/// Whether `offset` falls between two characters of `text`, or at one of its
/// ends, in the encoding of `text`.
pub open spec fn between_chars(text: Seq<char>, offset: int) -> bool {
    is_char_boundary(encode_utf8(text), offset)
}

/// The number of characters of `text` that the first `offset` bytes of its
/// encoding hold, for an offset between two characters.
pub open spec fn chars_before(text: Seq<char>, offset: int) -> int {
    decode_utf8(encode_utf8(text).subrange(0, offset)).len() as int
}

/// The offset at which the predecessor of span `k` ends, or 0 for the first
/// span.
pub open spec fn floor_of(spans: Seq<(usize, usize)>, k: int) -> int {
    if k <= 0 {
        0
    } else {
        spans[k - 1].1 as int
    }
}

/// Span `k` does not begin before its predecessor ends, is not reversed, ends
/// within the encoding of `text`, and both its offsets fall between two
/// characters.
pub open spec fn span_in_place(text: Seq<char>, spans: Seq<(usize, usize)>, k: int) -> bool {
    &&& floor_of(spans, k) <= spans[k].0 <= spans[k].1 <= encode_utf8(text).len()
    &&& between_chars(text, spans[k].0 as int)
    &&& between_chars(text, spans[k].1 as int)
}

/// Every span is in place: the spans are ordered, disjoint and cut `text`
/// between characters only.
pub open spec fn spans_fit(text: Seq<char>, spans: Seq<(usize, usize)>) -> bool {
    forall|k: int| 0 <= k < spans.len() ==> span_in_place(text, spans, k)
}

/// The ranges of characters of `text` that `spans` stand for, in order.
pub open spec fn char_ranges(text: Seq<char>, spans: Seq<(usize, usize)>) -> Seq<(int, int)> {
    Seq::new(
        spans.len(),
        |k: int| (chars_before(text, spans[k].0 as int), chars_before(text, spans[k].1 as int)),
    )
}

/// A character boundary of `bytes` at or after the boundary `from` is a
/// boundary of the part of `bytes` that starts at `from`.
pub proof fn lemma_boundary_after(bytes: Seq<u8>, from: int, to: int)
    requires
        valid_utf8(bytes),
        0 <= from <= to <= bytes.len(),
        is_char_boundary(bytes, from),
        is_char_boundary(bytes, to),
    ensures
        valid_utf8(bytes.subrange(from, bytes.len() as int)),
        is_char_boundary(bytes.subrange(from, bytes.len() as int), to - from),
{
    let rest = bytes.subrange(from, bytes.len() as int);
    valid_utf8_split(bytes, from);
    is_char_boundary_start_end_of_seq(rest);
    if from < to < bytes.len() {
        is_char_boundary_iff_not_is_continuation_byte(bytes, to);
        is_char_boundary_iff_not_is_continuation_byte(rest, to - from);
    }
}

/// A character boundary of `bytes` at or before the boundary `to` is a
/// boundary of the part of `bytes` that ends at `to`.
pub proof fn lemma_boundary_before(bytes: Seq<u8>, from: int, to: int)
    requires
        valid_utf8(bytes),
        0 <= from <= to <= bytes.len(),
        is_char_boundary(bytes, from),
        is_char_boundary(bytes, to),
    ensures
        valid_utf8(bytes.subrange(0, to)),
        is_char_boundary(bytes.subrange(0, to), from),
{
    let head = bytes.subrange(0, to);
    valid_utf8_split(bytes, to);
    is_char_boundary_start_end_of_seq(head);
    if 0 < from < to {
        is_char_boundary_iff_not_is_continuation_byte(bytes, from);
        is_char_boundary_iff_not_is_continuation_byte(head, from);
    }
}

/// The bytes between two boundaries of the encoding of `text` encode the
/// characters between the positions that the boundaries stand for, and a
/// later boundary stands for a later position.
pub proof fn lemma_chars_between(text: Seq<char>, from: int, to: int)
    requires
        0 <= from <= to <= encode_utf8(text).len(),
        between_chars(text, from),
        between_chars(text, to),
    ensures
        0 <= chars_before(text, from) <= chars_before(text, to) <= text.len(),
        decode_utf8(encode_utf8(text).subrange(from, to)) == text.subrange(
            chars_before(text, from),
            chars_before(text, to),
        ),
{
    let bytes = encode_utf8(text);
    let head = bytes.subrange(0, to);
    encode_utf8_valid_utf8(text);
    encode_utf8_decode_utf8(text);
    decode_utf8_split(bytes, to);
    lemma_boundary_before(bytes, from, to);
    decode_utf8_split(head, from);
    assert(head.subrange(0, from) =~= bytes.subrange(0, from));
    assert(head.subrange(from, head.len() as int) =~= bytes.subrange(from, to));
    let upto_from = decode_utf8(bytes.subrange(0, from));
    let upto_to = decode_utf8(head);
    let part = decode_utf8(bytes.subrange(from, to));
    assert(upto_to =~= upto_from + part);
    assert(text =~= upto_to + decode_utf8(bytes.subrange(to, bytes.len() as int)));
    assert(part =~= text.subrange(upto_from.len() as int, upto_to.len() as int));
}

/// The two ends of the encoding stand for the two ends of the text.
pub proof fn lemma_chars_before_ends(text: Seq<char>)
    ensures
        between_chars(text, 0),
        between_chars(text, encode_utf8(text).len() as int),
        chars_before(text, 0) == 0,
        chars_before(text, encode_utf8(text).len() as int) == text.len(),
{
    let bytes = encode_utf8(text);
    encode_utf8_valid_utf8(text);
    encode_utf8_decode_utf8(text);
    is_char_boundary_start_end_of_seq(bytes);
    assert(bytes.subrange(0, bytes.len() as int) =~= bytes);
    assert(bytes.subrange(0, 0) =~= Seq::<u8>::empty());
    assert(decode_utf8(Seq::<u8>::empty()) =~= Seq::<char>::empty());
}

/// In a text of ASCII characters every offset up to its length falls between
/// two characters and stands for the position of the same number.
pub proof fn lemma_ascii_offsets(text: Seq<char>, offset: int)
    requires
        is_ascii_chars(text),
        0 <= offset <= text.len(),
    ensures
        encode_utf8(text).len() == text.len(),
        between_chars(text, offset),
        chars_before(text, offset) == offset,
{
    let bytes = encode_utf8(text);
    let head = text.subrange(0, offset);
    encode_utf8_valid_utf8(text);
    is_ascii_chars_encode_utf8(text);
    is_ascii_chars_encode_utf8(head);
    assert(encode_utf8(head) =~= bytes.subrange(0, offset));
    encode_utf8_decode_utf8(head);
    is_char_boundary_start_end_of_seq(bytes);
    if offset < text.len() {
        is_char_boundary_iff_not_is_continuation_byte(bytes, offset);
        is_ascii_chars_nat_bound(text);
    }
}

/// Where span `k` is in place, the text before it begins, in characters,
/// where its predecessor ends, and the range that it stands for is in place.
pub proof fn lemma_span_gives_range(text: Seq<char>, spans: Seq<(usize, usize)>, k: int)
    requires
        0 <= k < spans.len(),
        span_in_place(text, spans, k),
        k > 0 ==> span_in_place(text, spans, k - 1),
    ensures
        cut(char_ranges(text, spans), k) == chars_before(text, floor_of(spans, k)),
        between_chars(text, floor_of(spans, k)),
        range_in_place(text.len() as int, char_ranges(text, spans), k),
{
    lemma_chars_before_ends(text);
    lemma_chars_between(text, floor_of(spans, k), spans[k].0 as int);
    lemma_chars_between(text, spans[k].0 as int, spans[k].1 as int);
}

/// Spans that fit a text stand for ranges that fit it.
pub proof fn lemma_spans_give_ranges(text: Seq<char>, spans: Seq<(usize, usize)>)
    requires
        spans_fit(text, spans),
    ensures
        ranges_fit(text.len() as int, char_ranges(text, spans)),
{
    assert forall|k: int| 0 <= k < char_ranges(text, spans).len() implies range_in_place(
        text.len() as int,
        char_ranges(text, spans),
        k,
    ) by {
        assert(span_in_place(text, spans, k));
        if k > 0 {
            assert(span_in_place(text, spans, k - 1));
        }
        lemma_span_gives_range(text, spans, k);
    }
}

/// Replaces each of `spans` in `text` by `replacement`, or returns `None`
/// where the spans do not fit the text.
pub fn replace_spans(text: &str, spans: &[(usize, usize)], replacement: &str) -> (out: Option<
    String,
>)
    ensures
        out is Some <==> spans_fit(text@, spans@),
        out matches Some(s) ==> s@ == spliced(text@, char_ranges(text@, spans@), replacement@),
{
    let ghost bytes = encode_utf8(text@);
    let ghost ranges = char_ranges(text@, spans@);
    let mut out = String::new();
    let mut rest: &str = text;
    let mut pos: usize = 0;
    let mut i: usize = 0;
    let len: usize = text.as_bytes().len();
    proof {
        encode_utf8_valid_utf8(text@);
        lemma_chars_before_ends(text@);
        assert(bytes.subrange(0, bytes.len() as int) =~= bytes);
    }
    while i < spans.len()
        invariant
            bytes == encode_utf8(text@),
            ranges == char_ranges(text@, spans@),
            valid_utf8(bytes),
            len == bytes.len(),
            0 <= i <= spans.len(),
            pos == floor_of(spans@, i as int),
            pos <= len,
            between_chars(text@, pos as int),
            chars_before(text@, pos as int) == cut(ranges, i as int),
            rest.spec_bytes() == bytes.subrange(pos as int, len as int),
            forall|k: int| 0 <= k < i ==> span_in_place(text@, spans@, k),
            out@ == replaced_upto(text@, ranges, replacement@, i as int),
        decreases spans.len() - i,
    {
        let start: usize = spans[i].0;
        let end: usize = spans[i].1;
        if start < pos || end < start || end > len || !text.is_char_boundary(start)
            || !text.is_char_boundary(end) {
            proof {
                assert(!span_in_place(text@, spans@, i as int));
            }
            return None;
        }
        proof {
            lemma_boundary_after(bytes, pos as int, start as int);
        }
        let (gap, after) = rest.split_at(start - pos);
        proof {
            assert(gap.spec_bytes() =~= bytes.subrange(pos as int, start as int));
            assert(after.spec_bytes() =~= bytes.subrange(start as int, len as int));
            lemma_boundary_after(bytes, start as int, end as int);
        }
        let (_, tail) = after.split_at(end - start);
        proof {
            assert(tail.spec_bytes() =~= bytes.subrange(end as int, len as int));
            encode_utf8_decode_utf8(gap@);
            lemma_chars_between(text@, pos as int, start as int);
        }
        out.append(gap);
        out.append(replacement);
        rest = tail;
        pos = end;
        i += 1;
    }
    proof {
        encode_utf8_decode_utf8(rest@);
        lemma_chars_between(text@, pos as int, len as int);
    }
    out.append(rest);
    Some(out)
}

} // verus!
