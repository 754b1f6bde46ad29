//! Character boundaries of UTF-8 texts under substring search.
//!
//! UTF-8 is self-synchronising: where a well-formed needle stands in a
//! well-formed text, it starts and ends between two characters of the text.

use crate::substring::{is_first_occurrence, occurs_at};
use vstd::prelude::*;
use vstd::utf8::*;

verus! {

/// A well-formed prefix of a well-formed text ends on a character boundary.
pub proof fn lemma_prefix_ends_on_boundary(text: Seq<u8>, prefix: Seq<u8>)
    requires
        valid_utf8(text),
        valid_utf8(prefix),
        prefix.len() <= text.len(),
        text.subrange(0, prefix.len() as int) == prefix,
    ensures
        is_char_boundary(text, prefix.len() as int),
    decreases prefix.len(),
{
    if prefix.len() > 0 {
        assert(prefix[0] == text.subrange(0, prefix.len() as int)[0]);
        let width = length_of_first_scalar(prefix);
        assert(width == length_of_first_scalar(text));
        assert(width <= prefix.len());
        let text_rest = pop_first_scalar(text);
        let prefix_rest = pop_first_scalar(prefix);
        assert(text_rest.subrange(0, prefix_rest.len() as int) =~= prefix_rest) by {
            assert forall|j: int| 0 <= j < prefix_rest.len() implies text_rest[j]
                == prefix_rest[j] by {
                assert(text.subrange(0, prefix.len() as int)[width + j] == prefix[width + j]);
            }
        }
        lemma_prefix_ends_on_boundary(text_rest, prefix_rest);
    }
}

/// A boundary of a text that lies within a prefix cut at a boundary is a
/// boundary of that prefix.
pub proof fn lemma_boundary_in_prefix(text: Seq<u8>, first: int, last: int)
    requires
        valid_utf8(text),
        0 <= first <= last <= text.len(),
        is_char_boundary(text, first),
        is_char_boundary(text, last),
    ensures
        valid_utf8(text.subrange(0, last)),
        is_char_boundary(text.subrange(0, last), first),
{
    let prefix = text.subrange(0, last);
    valid_utf8_split(text, last);
    if first == last {
        is_char_boundary_start_end_of_seq(prefix);
    } else {
        is_char_boundary_iff_not_is_continuation_byte(text, first);
        is_char_boundary_iff_not_is_continuation_byte(prefix, first);
    }
}

/// A boundary of a suffix cut at a boundary is a boundary of the text.
pub proof fn lemma_boundary_in_suffix(text: Seq<u8>, from: int, offset: int)
    requires
        valid_utf8(text),
        0 <= from <= text.len(),
        is_char_boundary(text, from),
        0 <= offset <= text.len() - from,
        is_char_boundary(text.subrange(from, text.len() as int), offset),
    ensures
        is_char_boundary(text, from + offset),
{
    let suffix = text.subrange(from, text.len() as int);
    valid_utf8_split(text, from);
    if from + offset == text.len() {
        is_char_boundary_start_end_of_seq(text);
    } else {
        is_char_boundary_iff_not_is_continuation_byte(suffix, offset);
        is_char_boundary_iff_not_is_continuation_byte(text, from + offset);
    }
}

/// A non-empty well-formed needle starts and ends on character boundaries
/// of the well-formed text in which it stands.
pub proof fn lemma_occurrence_on_boundaries(hay: Seq<u8>, needle: Seq<u8>, at: int)
    requires
        valid_utf8(hay),
        valid_utf8(needle),
        needle.len() > 0,
        occurs_at(hay, needle, at),
    ensures
        is_char_boundary(hay, at),
        is_char_boundary(hay, at + needle.len()),
{
    assert(hay.subrange(at, at + needle.len())[0] == needle[0]);
    is_char_boundary_iff_not_is_continuation_byte(needle, 0);
    is_char_boundary_iff_not_is_continuation_byte(hay, at);
    let suffix = hay.subrange(at, hay.len() as int);
    valid_utf8_split(hay, at);
    assert(suffix.subrange(0, needle.len() as int) =~= hay.subrange(at, at + needle.len()));
    lemma_prefix_ends_on_boundary(suffix, needle);
    lemma_boundary_in_suffix(hay, at, needle.len() as int);
}

/// The first occurrence of a well-formed needle in a well-formed text
/// starts and ends on character boundaries of the text.
pub proof fn lemma_first_occurrence_on_boundaries(hay: Seq<u8>, needle: Seq<u8>, at: int)
    requires
        valid_utf8(hay),
        valid_utf8(needle),
        is_first_occurrence(hay, needle, at),
    ensures
        is_char_boundary(hay, at),
        is_char_boundary(hay, at + needle.len()),
{
    if needle.len() > 0 {
        lemma_occurrence_on_boundaries(hay, needle, at);
    } else {
        assert(hay.subrange(0, 0) =~= needle);
        assert(occurs_at(hay, needle, 0));
    }
}

} // verus!
