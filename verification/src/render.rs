//! Showing a span of a line in green.

use crate::boundary::lemma_boundary_in_prefix;
use crate::span::{cuts, Match};
use colored::Colorize;
use vstd::prelude::*;
use vstd::string::*;
use vstd::utf8::*;

verus! {

/// The escape sequence that switches the colour green on.
pub open spec fn green_on() -> Seq<char> {
    seq!['\u{1b}', '[', '3', '2', 'm']
}

/// The escape sequence that switches every colour off.
pub open spec fn color_off() -> Seq<char> {
    seq!['\u{1b}', '[', '0', 'm']
}

/// `text` with green switched on again behind each `color_off` that
/// `text` itself holds, so that the colour lasts to the end of `text`.
pub open spec fn reopened(text: Seq<char>) -> Seq<char>
    decreases text.len(),
{
    if text.len() == 0 {
        text
    } else if color_off().is_prefix_of(text) {
        color_off() + green_on() + reopened(text.skip(4))
    } else {
        seq![text[0]] + reopened(text.skip(1))
    }
}

/// `text` between the sequences that switch green on and off.
pub open spec fn painted_green(text: Seq<char>) -> Seq<char> {
    green_on() + reopened(text) + color_off()
}

/// `shown` is one of the two forms in which `text` is shown in green:
/// painted, or as it is where colours are switched off.
pub open spec fn shown_green(text: Seq<char>, shown: Seq<char>) -> bool {
    shown == text || shown == painted_green(text)
}

/// `shown` is `line` with its span from `first` to `last` shown in green.
pub open spec fn shows_span(line: Seq<u8>, first: int, last: int, shown: Seq<char>) -> bool {
    let before = decode_utf8(line.subrange(0, first));
    let within = decode_utf8(line.subrange(first, last));
    let after = decode_utf8(line.subrange(last, line.len() as int));
    shown == before + within + after || shown == before + painted_green(within) + after
}

/// Calls `Colorize::green` of the crate `colored` on `text` and formats
/// the `ColoredString` that it returns.
///
/// Trusted, not proved: the result is `text` itself where `colored` finds
/// colours switched off (by its override, by the variables `NO_COLOR`,
/// `CLICOLOR` and `CLICOLOR_FORCE`, or because the standard output is no
/// terminal), and else `text` between the sequences for green and for
/// reset, with green switched on again behind each reset inside `text`.
/// This supposes that no other thread changes the override of `colored`
/// while the text is formatted.
#[verifier::external_body]
fn paint_green(text: &str) -> (shown: String)
    ensures
        shown_green(text@, shown@),
{
    text.green().to_string()
}

/// The line that is made of `before`, `shown` and `after`, in this order.
pub fn render(before: &str, shown: &str, after: &str) -> (line: String)
    ensures
        line@ == before@ + shown@ + after@,
{
    let mut line = before.to_owned();
    line.append(shown);
    line.append(after);
    line
}

/// The three texts into which `span` cuts `line`: before it, within it and
/// after it. `None` where the span does not lie within `line` or one of its
/// ends stands inside a character.
pub fn cut<'a>(line: &'a str, span: &Match) -> (parts: Option<(&'a str, &'a str, &'a str)>)
    ensures
        parts is Some <==> cuts(
            line.spec_bytes(),
            span.first_index as int,
            span.last_index as int,
        ),
        parts matches Some((before, within, after)) ==> {
            &&& before.spec_bytes() == line.spec_bytes().subrange(0, span.first_index as int)
            &&& within.spec_bytes() == line.spec_bytes().subrange(
                span.first_index as int,
                span.last_index as int,
            )
            &&& after.spec_bytes() == line.spec_bytes().subrange(
                span.last_index as int,
                line.spec_bytes().len() as int,
            )
        },
{
    let size: usize = line.as_bytes().len();
    if span.first_index <= span.last_index && span.last_index <= size && line.is_char_boundary(
        span.first_index,
    ) && line.is_char_boundary(span.last_index) {
        let (head, after) = line.split_at(span.last_index);
        proof {
            encode_utf8_valid_utf8(line@);
            lemma_boundary_in_prefix(
                line.spec_bytes(),
                span.first_index as int,
                span.last_index as int,
            );
        }
        let (before, within) = head.split_at(span.first_index);
        assert(within.spec_bytes() =~= line.spec_bytes().subrange(
            span.first_index as int,
            span.last_index as int,
        ));
        assert(before.spec_bytes() =~= line.spec_bytes().subrange(0, span.first_index as int));
        Some((before, within, after))
    } else {
        None
    }
}

/// `line` with `span` shown in green; `None` where `span` does not cut
/// `line`. Whether the colour is switched on is for `colored` to decide
/// each time, so that the result is one of two texts.
pub fn highlight(line: &str, span: &Match) -> (shown: Option<String>)
    ensures
        shown is Some <==> cuts(
            line.spec_bytes(),
            span.first_index as int,
            span.last_index as int,
        ),
        shown matches Some(text) ==> shows_span(
            line.spec_bytes(),
            span.first_index as int,
            span.last_index as int,
            text@,
        ),
{
    match cut(line, span) {
        None => None,
        Some((before, within, after)) => {
            let green = paint_green(within);
            proof {
                encode_utf8_decode_utf8(before@);
                encode_utf8_decode_utf8(within@);
                encode_utf8_decode_utf8(after@);
            }
            Some(render(before, green.as_str(), after))
        },
    }
}

} // verus!
