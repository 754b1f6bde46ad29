//! Splitting a text into lines.
//!
//! A line ends at a line feed; a carriage return directly before that line
//! feed belongs to the terminator. The last line needs no terminator, and a
//! text that ends in one has no empty line after it.

use vstd::prelude::*;
use vstd::string::*;
use vstd::utf8::*;

verus! {

/// The byte that ends a line.
pub const LINE_FEED: u8 = 0x0a;

/// The byte that may stand before a line feed as part of the terminator.
pub const CARRIAGE_RETURN: u8 = 0x0d;

/// `at` is the offset of the first line feed of `text`, or `text.len()`
/// where `text` holds none.
pub open spec fn is_line_end(text: Seq<u8>, at: int) -> bool {
    &&& 0 <= at <= text.len()
    &&& forall|j: int| 0 <= j < at ==> text[j] != LINE_FEED
    &&& at < text.len() ==> text[at] == LINE_FEED
}

/// The offset of the first line feed of `text`, or `text.len()`.
pub open spec fn line_end(text: Seq<u8>) -> int
    decreases text.len(),
{
    if text.len() == 0 || text[0] == LINE_FEED {
        0
    } else {
        1 + line_end(text.drop_first())
    }
}

/// `line_end` is the one offset that `is_line_end` describes.
pub proof fn lemma_line_end(text: Seq<u8>)
    ensures
        is_line_end(text, line_end(text)),
        forall|at: int| is_line_end(text, at) ==> at == line_end(text),
    decreases text.len(),
{
    if text.len() == 0 || text[0] == LINE_FEED {
    } else {
        let rest = text.drop_first();
        lemma_line_end(rest);
        let at = line_end(rest);
        assert forall|j: int| 0 <= j < at + 1 implies text[j] != LINE_FEED by {
            if j > 0 {
                assert(text[j] == rest[j - 1]);
            }
        }
        assert(at < rest.len() ==> text[at + 1] == rest[at]);
    }
    assert forall|at: int| is_line_end(text, at) implies at == line_end(text) by {
        let end = line_end(text);
        if at < end {
            assert(text[at] != LINE_FEED);
        } else if end < at {
            assert(text[end] != LINE_FEED);
        }
    }
}

/// `line` without the carriage return at its end, if it has one.
pub open spec fn without_carriage_return(line: Seq<u8>) -> Seq<u8> {
    if line.len() > 0 && line.last() == CARRIAGE_RETURN {
        line.drop_last()
    } else {
        line
    }
}

/// The first line of a non-empty text, without its terminator.
pub open spec fn first_line(text: Seq<u8>) -> Seq<u8> {
    let at = line_end(text);
    if at == text.len() {
        text
    } else {
        without_carriage_return(text.take(at))
    }
}

/// What follows the terminator of the first line.
pub open spec fn after_first_line(text: Seq<u8>) -> Seq<u8> {
    let at = line_end(text);
    if at == text.len() {
        Seq::empty()
    } else {
        text.skip(at + 1)
    }
}

/// The lines of `text`, in order, each without its terminator.
pub open spec fn lines_of(text: Seq<u8>) -> Seq<Seq<u8>>
    decreases text.len(),
    via lines_of_decreases
{
    if text.len() == 0 {
        Seq::empty()
    } else {
        seq![first_line(text)] + lines_of(after_first_line(text))
    }
}

#[via_fn]
proof fn lines_of_decreases(text: Seq<u8>) {
    lemma_line_end(text);
}

/// No line holds a line feed.
pub proof fn lemma_lines_hold_no_line_feed(text: Seq<u8>)
    ensures
        forall|i: int, j: int|
            0 <= i < lines_of(text).len() && 0 <= j < lines_of(text)[i].len() ==> #[trigger] lines_of(
                text,
            )[i][j] != LINE_FEED,
    decreases text.len(),
{
    if text.len() > 0 {
        lemma_line_end(text);
        let later = lines_of(after_first_line(text));
        lemma_lines_hold_no_line_feed(after_first_line(text));
        assert forall|i: int, j: int|
            0 <= i < lines_of(text).len() && 0 <= j < lines_of(text)[i].len() implies #[trigger] lines_of(
            text,
        )[i][j] != LINE_FEED by {
            if i > 0 {
                assert(lines_of(text)[i] == later[i - 1]);
            }
        }
    }
}

/// Only the empty text has no bytes.
pub proof fn lemma_no_bytes_no_chars(chars: Seq<char>)
    ensures
        encode_utf8(chars).len() == 0 <==> chars.len() == 0,
{
}

/// The first line of `text` and what follows its terminator; `None` for the
/// empty text, which has no line.
pub fn split_first_line<'a>(text: &'a str) -> (parts: Option<(&'a str, &'a str)>)
    ensures
        parts is None <==> text.spec_bytes().len() == 0,
        parts matches Some((line, rest)) ==> {
            &&& line.spec_bytes() == first_line(text.spec_bytes())
            &&& rest.spec_bytes() == after_first_line(text.spec_bytes())
            &&& rest.spec_bytes().len() < text.spec_bytes().len()
        },
{
    let bytes = text.as_bytes();
    let n: usize = bytes.len();
    if n == 0 {
        return None;
    }
    let mut at: usize = 0;
    while at < n && bytes[at] != LINE_FEED
        invariant
            n == bytes@.len(),
            at <= n,
            forall|j: int| 0 <= j < at ==> bytes@[j] != LINE_FEED,
        decreases n - at,
    {
        at += 1;
    }
    proof {
        lemma_line_end(bytes@);
        assert(is_line_end(bytes@, at as int));
        encode_utf8_valid_utf8(text@);
        if at < n {
            is_char_boundary_iff_not_is_continuation_byte(bytes@, at as int);
        } else {
            is_char_boundary_start_end_of_seq(bytes@);
        }
    }
    let (head, tail) = text.split_at(at);
    if at == n {
        assert(bytes@.subrange(0, n as int) =~= bytes@);
        return Some((head, tail));
    }
    proof {
        let after = tail.spec_bytes();
        encode_utf8_valid_utf8(tail@);
        assert(after[0] == LINE_FEED);
        assert(is_char_boundary(pop_first_scalar(after), 0)) by {
            is_char_boundary_start_end_of_seq(pop_first_scalar(after));
        }
        assert(is_char_boundary(after, 1));
    }
    let (_, rest) = tail.split_at(1);
    let line = strip_carriage_return(head);
    proof {
        assert(bytes@.subrange(0, at as int) =~= bytes@.take(at as int));
        assert(tail.spec_bytes().subrange(1, tail.spec_bytes().len() as int) =~= bytes@.skip(
            at + 1,
        ));
    }
    Some((line, rest))
}

/// Drops one carriage return from the end of `line`, if it ends in one.
fn strip_carriage_return<'a>(line: &'a str) -> (stripped: &'a str)
    ensures
        stripped.spec_bytes() == without_carriage_return(line.spec_bytes()),
{
    let bytes = line.as_bytes();
    let n: usize = bytes.len();
    if n > 0 && bytes[n - 1] == CARRIAGE_RETURN {
        proof {
            encode_utf8_valid_utf8(line@);
            is_char_boundary_iff_not_is_continuation_byte(bytes@, n - 1);
        }
        let (kept, _) = line.split_at(n - 1);
        assert(bytes@.subrange(0, n - 1) =~= bytes@.drop_last());
        kept
    } else {
        line
    }
}

} // verus!
