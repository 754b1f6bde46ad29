//! One search from its configuration to the lines that are shown.

use crate::config::Config;
use crate::matcher::{
    lemma_found_lines_match, matching_lines, search, search_case_insensitive, span_start, texts,
};
use crate::render::{highlight, shows_span};
use crate::span::{cuts, grab_match, span_end};
use vstd::prelude::*;
use vstd::string::*;
use vstd::utf8::*;

verus! {

/// The span of `query` in `line` can be held in a `Match` and cuts `line`.
pub open spec fn span_cuts(line: Seq<u8>, query: Seq<u8>, case_sensitive: bool) -> bool {
    &&& span_end(line, query, case_sensitive) <= usize::MAX
    &&& cuts(
        line,
        span_start(line, query, case_sensitive),
        span_end(line, query, case_sensitive),
    )
}

/// Searches `contents` as `config` asks and gives the lines to print: each
/// line that holds the query, in order, with the span of the query's first
/// occurrence shown in green.
///
/// Where the case is ignored, the span is located in the lowercase form of
/// a line, and may fail to cut the line itself. The search stops at the
/// first such line with that line as the error. A search that regards case
/// always succeeds, and so does a search for the empty query. The file that
/// `config` names is not read here.
pub fn run<'a>(config: &Config, contents: &'a str) -> (shown: Result<Vec<String>, &'a str>)
    ensures
        ({
            let query = encode_utf8(config.query@);
            let mode = config.case_sensitive;
            let lines = matching_lines(query, contents.spec_bytes(), mode);
            match shown {
                Ok(out) => {
                    &&& out@.len() == lines.len()
                    &&& forall|i: int|
                        0 <= i < lines.len() ==> {
                            &&& span_cuts(#[trigger] lines[i], query, mode)
                            &&& shows_span(
                                lines[i],
                                span_start(lines[i], query, mode),
                                span_end(lines[i], query, mode),
                                out@[i]@,
                            )
                        }
                },
                Err(line) => exists|i: int|
                    {
                        &&& 0 <= i < lines.len()
                        &&& line.spec_bytes() == #[trigger] lines[i]
                        &&& !span_cuts(lines[i], query, mode)
                        &&& forall|j: int| 0 <= j < i ==> span_cuts(#[trigger] lines[j], query, mode)
                    },
            }
        }),
        config.case_sensitive || config.query@.len() == 0 ==> shown is Ok,
{
    let query = config.query.as_str();
    let mode = config.case_sensitive;
    let found = if mode {
        search(query, contents)
    } else {
        search_case_insensitive(query, contents)
    };
    let ghost lines = matching_lines(query.spec_bytes(), contents.spec_bytes(), mode);
    let mut out: Vec<String> = Vec::new();
    let mut at: usize = 0;
    while at < found.len()
        invariant
            at <= found@.len(),
            out@.len() == at,
            mode == config.case_sensitive,
            query@ == config.query@,
            lines == matching_lines(query.spec_bytes(), contents.spec_bytes(), mode),
            texts(found@) == lines,
            forall|i: int|
                0 <= i < at ==> {
                    &&& span_cuts(#[trigger] lines[i], query.spec_bytes(), mode)
                    &&& shows_span(
                        lines[i],
                        span_start(lines[i], query.spec_bytes(), mode),
                        span_end(lines[i], query.spec_bytes(), mode),
                        out@[i]@,
                    )
                },
        decreases found@.len() - at,
    {
        let line = found[at];
        proof {
            assert(texts(found@)[at as int] == line.spec_bytes());
            encode_utf8_valid_utf8(line@);
            lemma_found_lines_match(
                query.spec_bytes(),
                contents.spec_bytes(),
                mode,
                at as int,
            );
        }
        let span = match grab_match(line, query, mode) {
            Ok(span) => span,
            Err(_) => {
                return Err(line);
            },
        };
        match highlight(line, &span) {
            Some(text) => {
                out.push(text);
            },
            None => {
                return Err(line);
            },
        }
        at += 1;
    }
    Ok(out)
}

} // verus!
