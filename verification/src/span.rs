//! The byte span of the first occurrence of a query in a line.

use crate::boundary::lemma_first_occurrence_on_boundaries;
use crate::lines::lemma_no_bytes_no_chars;
use crate::lower::folded;
use crate::matcher::{line_matches, locate, span_start};
use crate::substring::{contains, is_first_occurrence, lemma_first_index_of};
use vstd::prelude::*;
use vstd::string::*;
use vstd::utf8::*;

verus! {

/// A span of a line, in byte offsets: from `first_index` up to, not
/// with, `last_index`.
#[derive(Clone, Copy, Debug, PartialEq, Eq)]
pub struct Match {
    pub first_index: usize,
    pub last_index: usize,
}

/// The byte offset at which the span of `query` in `line` ends: its start
/// plus the byte length of `query` as given.
pub open spec fn span_end(line: Seq<u8>, query: Seq<u8>, case_sensitive: bool) -> int {
    span_start(line, query, case_sensitive) + query.len()
}

/// The span from `first` to `last` lies within `line` and both of its ends
/// stand between two characters, so that it cuts `line` into three texts.
pub open spec fn cuts(line: Seq<u8>, first: int, last: int) -> bool {
    &&& 0 <= first <= last <= line.len()
    &&& is_char_boundary(line, first)
    &&& is_char_boundary(line, last)
}

/// The span of the first occurrence of `query` in `text`.
///
/// Gives the span exactly where `text` holds `query` under the given case
/// mode (and the end of the span can be held in a `usize`, which is always
/// so where `case_sensitive`); gives back `text` as the error otherwise.
/// Where the case is ignored the start is an offset into the lowercase
/// form of `text`, and the span need not lie within `text`.
pub fn grab_match<'a>(text: &'a str, query: &str, case_sensitive: bool) -> (grab: Result<
    Match,
    &'a str,
>)
    ensures
        grab is Ok <==> {
            &&& line_matches(text.spec_bytes(), query.spec_bytes(), case_sensitive)
            &&& span_end(text.spec_bytes(), query.spec_bytes(), case_sensitive) <= usize::MAX
        },
        grab matches Ok(span) ==> {
            &&& span.first_index as int == span_start(
                text.spec_bytes(),
                query.spec_bytes(),
                case_sensitive,
            )
            &&& span.last_index as int == span_end(
                text.spec_bytes(),
                query.spec_bytes(),
                case_sensitive,
            )
        },
        grab matches Err(line) ==> line@ == text@,
        query@.len() == 0 ==> (grab matches Ok(span) && span.first_index == 0 && span.last_index
            == 0),
        case_sensitive ==> (grab is Ok <==> contains(text.spec_bytes(), query.spec_bytes())),
        case_sensitive ==> (grab matches Ok(span) ==> {
            &&& cuts(text.spec_bytes(), span.first_index as int, span.last_index as int)
            &&& text.spec_bytes().subrange(span.first_index as int, span.last_index as int)
                == query.spec_bytes()
        }),
{
    proof {
        lemma_exact_span(text, query);
        lemma_no_bytes_no_chars(query@);
    }
    // Reading the length of `text` shows that it fits a `usize`, and with
    // it the end of a span that lies within `text`.
    let _size: usize = text.as_bytes().len();
    match locate(text, query, case_sensitive) {
        None => Err(text),
        Some(first_index) => match first_index.checked_add(query.as_bytes().len()) {
            Some(last_index) => Ok(Match { first_index, last_index }),
            None => Err(text),
        },
    }
}

/// Where a line holds the query byte for byte, the span of the query lies
/// within the line, stands between characters of the line, and the bytes of
/// the line within the span are the query.
pub proof fn lemma_exact_span(line: &str, query: &str)
    ensures
        contains(line.spec_bytes(), query.spec_bytes()) ==> {
            let first = span_start(line.spec_bytes(), query.spec_bytes(), true);
            let last = span_end(line.spec_bytes(), query.spec_bytes(), true);
            &&& cuts(line.spec_bytes(), first, last)
            &&& line.spec_bytes().subrange(first, last) == query.spec_bytes()
            &&& decode_utf8(line.spec_bytes().subrange(first, last)) == query@
        },
{
    let hay = line.spec_bytes();
    let needle = query.spec_bytes();
    if contains(hay, needle) {
        lemma_first_index_of(hay, needle);
        encode_utf8_valid_utf8(line@);
        encode_utf8_valid_utf8(query@);
        encode_utf8_decode_utf8(query@);
        lemma_first_occurrence_on_boundaries(hay, needle, span_start(hay, needle, true));
    }
}

/// Where the lowercase form of a line holds the lowercase form of the
/// query, the start of the span is the offset in the lowercase line at
/// which the lowercase query stands first.
pub proof fn lemma_folded_span(line: Seq<u8>, query: Seq<u8>)
    ensures
        line_matches(line, query, false) ==> {
            let first = span_start(line, query, false);
            &&& is_first_occurrence(folded(line), folded(query), first)
            &&& folded(line).subrange(first, first + folded(query).len()) == folded(query)
        },
{
    if line_matches(line, query, false) {
        lemma_first_index_of(folded(line), folded(query));
    }
}

} // verus!
