//! Spans that are located in the lowercase form of a line.
//!
//! Where the case is ignored, a span is an offset into the lowercase form
//! of a line, applied to the line itself. The two agree where lowercasing
//! keeps the layout of the line: character for character, each in as many
//! bytes as before.

use crate::boundary::{lemma_first_occurrence_on_boundaries, lemma_prefix_ends_on_boundary};
use crate::lower::{folded, lowercased};
use crate::matcher::{lemma_found_lines_match, line_matches, matching_lines, span_start, texts};
use crate::span::{cuts, lemma_exact_span, span_end};
use crate::substring::lemma_first_index_of;
use vstd::prelude::*;
use vstd::string::*;
use vstd::utf8::*;

verus! {

/// `left` and `right` have as many characters, and each character of one
/// takes as many bytes as the character at its place in the other.
pub open spec fn same_widths(left: Seq<char>, right: Seq<char>) -> bool {
    &&& left.len() == right.len()
    &&& forall|i: int|
        0 <= i < left.len() ==> encode_scalar(#[trigger] left[i] as u32).len() == encode_scalar(
            right[i] as u32,
        ).len()
}

/// Lowercasing keeps the layout of `text`: the lowercase form has the
/// widths of `text`, and the lowercase form of each part of `text` is the
/// part of the lowercase form at the same place.
pub open spec fn lowering_keeps_layout(text: Seq<char>) -> bool {
    &&& same_widths(text, lowercased(text))
    &&& forall|from: int, to: int|
        0 <= from <= to <= text.len() ==> lowercased(#[trigger] text.subrange(from, to))
            == lowercased(text).subrange(from, to)
}

/// The bytes of two texts in a row are the bytes of the first and the
/// bytes of the second in a row.
pub proof fn lemma_encode_concat(left: Seq<char>, right: Seq<char>)
    ensures
        encode_utf8(left + right) == encode_utf8(left) + encode_utf8(right),
    decreases left.len(),
{
    if left.len() == 0 {
        assert(left + right =~= right);
        assert(encode_utf8(left) + encode_utf8(right) =~= encode_utf8(right));
    } else {
        assert((left + right).drop_first() =~= left.drop_first() + right);
        lemma_encode_concat(left.drop_first(), right);
        assert(encode_utf8(left + right) =~= encode_utf8(left) + encode_utf8(right));
    }
}

/// A boundary of the bytes of a text lies behind a whole number of its
/// characters: the bytes before the boundary encode those characters, the
/// bytes behind it the others.
pub proof fn lemma_chars_before_boundary(chars: Seq<char>, at: int) -> (count: int)
    requires
        0 <= at <= encode_utf8(chars).len(),
        is_char_boundary(encode_utf8(chars), at),
    ensures
        0 <= count <= chars.len(),
        encode_utf8(chars.take(count)) == encode_utf8(chars).subrange(0, at),
        encode_utf8(chars.skip(count)) == encode_utf8(chars).subrange(
            at,
            encode_utf8(chars).len() as int,
        ),
{
    let bytes = encode_utf8(chars);
    let head = decode_utf8(bytes.subrange(0, at));
    let tail = decode_utf8(bytes.subrange(at, bytes.len() as int));
    encode_utf8_valid_utf8(chars);
    encode_utf8_decode_utf8(chars);
    decode_utf8_split(bytes, at);
    valid_utf8_split(bytes, at);
    decode_utf8_encode_utf8(bytes.subrange(0, at));
    decode_utf8_encode_utf8(bytes.subrange(at, bytes.len() as int));
    assert(chars =~= head + tail);
    assert(chars.take(head.len() as int) =~= head);
    assert(chars.skip(head.len() as int) =~= tail);
    head.len() as int
}

/// Texts of the same widths have their characters at the same offsets.
pub proof fn lemma_same_widths_same_offsets(left: Seq<char>, right: Seq<char>, count: int)
    requires
        same_widths(left, right),
        0 <= count <= left.len(),
    ensures
        encode_utf8(left.take(count)).len() == encode_utf8(right.take(count)).len(),
    decreases count,
{
    if count > 0 {
        lemma_same_widths_same_offsets(left, right, count - 1);
        lemma_encode_one_more(left, count);
        lemma_encode_one_more(right, count);
        assert(encode_scalar(left[count - 1] as u32).len() == encode_scalar(
            right[count - 1] as u32,
        ).len());
    } else {
        assert(left.take(0).len() == 0);
        assert(right.take(0).len() == 0);
    }
}

/// The bytes of the first `count` characters end in the bytes of the last
/// of them.
proof fn lemma_encode_one_more(chars: Seq<char>, count: int)
    requires
        0 < count <= chars.len(),
    ensures
        encode_utf8(chars.take(count)).len() == encode_utf8(chars.take(count - 1)).len()
            + encode_scalar(chars[count - 1] as u32).len(),
{
    let last = seq![chars[count - 1]];
    assert(chars.take(count) =~= chars.take(count - 1) + last);
    lemma_encode_concat(chars.take(count - 1), last);
    assert(encode_utf8(last.drop_first()).len() == 0);
    assert(encode_utf8(last) =~= encode_scalar(chars[count - 1] as u32));
}

/// Where lowercasing keeps the layout of a line and the byte length of the
/// query, the span that is located in the lowercase line cuts the line
/// itself, and the text within it has the lowercase form of the query.
pub proof fn lemma_folded_span_holds_query(line: &str, query: &str)
    ensures
        ({
            let hay = line.spec_bytes();
            let needle = query.spec_bytes();
            let first = span_start(hay, needle, false);
            let last = span_end(hay, needle, false);
            (line_matches(hay, needle, false) && lowering_keeps_layout(line@) && folded(
                needle,
            ).len() == needle.len()) ==> {
                &&& cuts(hay, first, last)
                &&& lowercased(decode_utf8(hay.subrange(first, last))) == lowercased(query@)
            }
        }),
{
    let hay = line.spec_bytes();
    let needle = query.spec_bytes();
    let low = lowercased(line@);
    let low_query = lowercased(query@);
    let low_hay = encode_utf8(low);
    let low_needle = encode_utf8(low_query);
    encode_utf8_decode_utf8(line@);
    encode_utf8_decode_utf8(query@);
    assert(folded(hay) == low_hay);
    assert(folded(needle) == low_needle);
    if line_matches(hay, needle, false) && lowering_keeps_layout(line@) && low_needle.len()
        == needle.len() {
        let first = span_start(hay, needle, false);
        let last = span_end(hay, needle, false);
        lemma_first_index_of(low_hay, low_needle);
        encode_utf8_valid_utf8(low);
        encode_utf8_valid_utf8(low_query);
        lemma_first_occurrence_on_boundaries(low_hay, low_needle, first);
        // The lowercase query stands behind `skipped` characters of the
        // lowercase line and takes `taken` of them.
        let skipped = lemma_chars_before_boundary(low, first);
        let low_rest = low.skip(skipped);
        encode_utf8_valid_utf8(low_rest);
        assert(encode_utf8(low_rest).subrange(0, low_needle.len() as int) =~= low_hay.subrange(
            first,
            first + low_needle.len(),
        ));
        lemma_prefix_ends_on_boundary(encode_utf8(low_rest), low_needle);
        let taken = lemma_chars_before_boundary(low_rest, low_needle.len() as int);
        let end = skipped + taken;
        encode_utf8_decode_utf8(low_rest.take(taken));
        encode_utf8_decode_utf8(low_query);
        assert(low.subrange(skipped, end) =~= low_rest.take(taken));
        assert(low.subrange(skipped, end) == low_query);
        // The same characters of the line itself lie at the same offsets.
        lemma_same_widths_same_offsets(line@, low, skipped);
        lemma_same_widths_same_offsets(line@, low, end);
        assert(low.take(end) =~= low.take(skipped) + low.subrange(skipped, end));
        lemma_encode_concat(low.take(skipped), low.subrange(skipped, end));
        let before = line@.take(skipped);
        let within = line@.subrange(skipped, end);
        let after = line@.skip(end);
        assert(line@.take(end) =~= before + within);
        assert(line@ =~= line@.take(end) + after);
        lemma_encode_concat(before, within);
        lemma_encode_concat(line@.take(end), after);
        assert(encode_utf8(before).len() == first);
        assert(encode_utf8(line@.take(end)).len() == last);
        assert(hay.subrange(0, first) =~= encode_utf8(before));
        assert(hay.subrange(0, last) =~= encode_utf8(line@.take(end)));
        assert(hay.subrange(first, last) =~= encode_utf8(within));
        encode_utf8_valid_utf8(line@);
        encode_utf8_valid_utf8(before);
        encode_utf8_valid_utf8(line@.take(end));
        lemma_prefix_ends_on_boundary(hay, encode_utf8(before));
        lemma_prefix_ends_on_boundary(hay, encode_utf8(line@.take(end)));
        encode_utf8_decode_utf8(within);
        assert(lowercased(within) == low.subrange(skipped, end));
    }
}

/// For each line that a search finds, the span of the query in that line
/// cuts the line out around the query. Where the case is regarded, the text
/// within the span is the query. Where it is not, and lowercasing keeps the
/// layout of the line and the byte length of the query, the text within the
/// span has the lowercase form of the query.
pub proof fn lemma_span_of_found_line(
    query: &str,
    contents: &str,
    case_sensitive: bool,
    found: Seq<&str>,
    i: int,
)
    ensures
        ({
            let needle = query.spec_bytes();
            let lines = matching_lines(needle, contents.spec_bytes(), case_sensitive);
            texts(found) == lines && 0 <= i < found.len() ==> {
                let line = found[i].spec_bytes();
                let first = span_start(line, needle, case_sensitive);
                let last = span_end(line, needle, case_sensitive);
                let within = decode_utf8(line.subrange(first, last));
                &&& line_matches(line, needle, case_sensitive)
                &&& case_sensitive ==> cuts(line, first, last) && within == query@
                &&& (!case_sensitive && lowering_keeps_layout(found[i]@) && folded(needle).len()
                    == needle.len()) ==> cuts(line, first, last) && lowercased(within)
                    == lowercased(query@)
            }
        }),
{
    let needle = query.spec_bytes();
    let lines = matching_lines(needle, contents.spec_bytes(), case_sensitive);
    if texts(found) == lines && 0 <= i < found.len() {
        assert(texts(found)[i] == found[i].spec_bytes());
        lemma_found_lines_match(needle, contents.spec_bytes(), case_sensitive, i);
        if case_sensitive {
            lemma_exact_span(found[i], query);
        } else {
            lemma_folded_span_holds_query(found[i], query);
        }
    }
}

} // verus!
