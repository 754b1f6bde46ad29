//! Choosing the lines of a text that hold a query.

use crate::lines::{lemma_no_bytes_no_chars, lines_of, split_first_line};
use crate::lower::{folded, lowercase};
use crate::substring::{
    contains, find, first_index_of, lemma_empty_needle, lemma_first_occurrence_unique,
};
use vstd::prelude::*;
use vstd::string::*;
use vstd::utf8::*;

verus! {

/// `line` holds `query`: byte for byte where `case_sensitive`, else between
/// the lowercase forms of the two.
pub open spec fn line_matches(line: Seq<u8>, query: Seq<u8>, case_sensitive: bool) -> bool {
    if case_sensitive {
        contains(line, query)
    } else {
        contains(folded(line), folded(query))
    }
}

/// The byte offset at which the first occurrence of `query` starts: in
/// `line` itself where `case_sensitive`, else the offset of the lowercase
/// query in the lowercase line. Meaningful only where `line_matches`.
pub open spec fn span_start(line: Seq<u8>, query: Seq<u8>, case_sensitive: bool) -> int {
    if case_sensitive {
        first_index_of(line, query)
    } else {
        first_index_of(folded(line), folded(query))
    }
}

/// The lines of `contents` that hold `query`, in the order of `contents`.
pub open spec fn matching_lines(query: Seq<u8>, contents: Seq<u8>, case_sensitive: bool) -> Seq<
    Seq<u8>,
> {
    lines_of(contents).filter(|line: Seq<u8>| line_matches(line, query, case_sensitive))
}

/// The bytes of each of `lines`.
pub open spec fn texts(lines: Seq<&str>) -> Seq<Seq<u8>> {
    lines.map_values(|line: &str| line.spec_bytes())
}

/// Each line that `matching_lines` keeps holds the query.
pub proof fn lemma_found_lines_match(
    query: Seq<u8>,
    contents: Seq<u8>,
    case_sensitive: bool,
    i: int,
)
    ensures
        0 <= i < matching_lines(query, contents, case_sensitive).len() ==> line_matches(
            matching_lines(query, contents, case_sensitive)[i],
            query,
            case_sensitive,
        ),
{
    if 0 <= i < matching_lines(query, contents, case_sensitive).len() {
        lines_of(contents).lemma_filter_pred(
            |line: Seq<u8>| line_matches(line, query, case_sensitive),
            i,
        );
    }
}

/// A search is a function of the query, the contents and the case mode:
/// two results for the same three hold the same lines in the same order.
pub proof fn lemma_search_is_a_function(
    query: &str,
    contents: &str,
    case_sensitive: bool,
    once: Seq<&str>,
    again: Seq<&str>,
)
    ensures
        ({
            let lines = matching_lines(query.spec_bytes(), contents.spec_bytes(), case_sensitive);
            texts(once) == lines && texts(again) == lines ==> {
                &&& once.len() == again.len()
                &&& forall|i: int| 0 <= i < once.len() ==> (#[trigger] once[i])@ == again[i]@
            }
        }),
{
    let lines = matching_lines(query.spec_bytes(), contents.spec_bytes(), case_sensitive);
    if texts(once) == lines && texts(again) == lines {
        assert(texts(once).len() == texts(again).len());
        assert forall|i: int| 0 <= i < once.len() implies (#[trigger] once[i])@ == again[i]@ by {
            assert(texts(once)[i] == texts(again)[i]);
            encode_utf8_decode_utf8(once[i]@);
            encode_utf8_decode_utf8(again[i]@);
        }
    }
}

/// Where in `line` the first occurrence of `query` starts under the given
/// case mode, or `None` where `line` does not hold `query`.
pub fn locate(line: &str, query: &str, case_sensitive: bool) -> (at: Option<usize>)
    ensures
        at is Some <==> line_matches(line.spec_bytes(), query.spec_bytes(), case_sensitive),
        at matches Some(first) ==> first as int == span_start(
            line.spec_bytes(),
            query.spec_bytes(),
            case_sensitive,
        ),
        query@.len() == 0 ==> at == Some(0usize),
{
    if case_sensitive {
        let at = find(line.as_bytes(), query.as_bytes());
        proof {
            lemma_no_bytes_no_chars(query@);
            if query@.len() == 0 {
                lemma_empty_needle(line.spec_bytes(), query.spec_bytes());
            }
            if let Some(first) = at {
                lemma_first_occurrence_unique(
                    line.spec_bytes(),
                    query.spec_bytes(),
                    first as int,
                );
            }
        }
        at
    } else {
        let lowered_line = lowercase(line);
        let lowered_query = lowercase(query);
        let hay = lowered_line.as_str().as_bytes();
        let needle = lowered_query.as_str().as_bytes();
        let at = find(hay, needle);
        proof {
            encode_utf8_decode_utf8(line@);
            encode_utf8_decode_utf8(query@);
            assert(hay@ == folded(line.spec_bytes()));
            assert(needle@ == folded(query.spec_bytes()));
            lemma_no_bytes_no_chars(lowered_query@);
            if query@.len() == 0 {
                lemma_empty_needle(hay@, needle@);
            }
            if let Some(first) = at {
                lemma_first_occurrence_unique(hay@, needle@, first as int);
            }
        }
        at
    }
}

/// The lines of `contents` that hold `query` under the given case mode.
fn select_lines<'a>(query: &str, contents: &'a str, case_sensitive: bool) -> (found: Vec<&'a str>)
    ensures
        texts(found@) == matching_lines(
            query.spec_bytes(),
            contents.spec_bytes(),
            case_sensitive,
        ),
        query@.len() == 0 ==> texts(found@) == lines_of(contents.spec_bytes()),
{
    let mut found: Vec<&'a str> = Vec::new();
    let mut rest: &'a str = contents;
    let ghost wanted = |line: Seq<u8>| line_matches(line, query.spec_bytes(), case_sensitive);
    assert(texts(found@) =~= Seq::<Seq<u8>>::empty());
    loop
        invariant
            wanted == |line: Seq<u8>| line_matches(line, query.spec_bytes(), case_sensitive),
            lines_of(contents.spec_bytes()).filter(wanted) == texts(found@) + lines_of(
                rest.spec_bytes(),
            ).filter(wanted),
            query@.len() == 0 ==> lines_of(contents.spec_bytes()) == texts(found@) + lines_of(
                rest.spec_bytes(),
            ),
        ensures
            lines_of(contents.spec_bytes()).filter(wanted) == texts(found@),
            query@.len() == 0 ==> lines_of(contents.spec_bytes()) == texts(found@),
        decreases rest.spec_bytes().len(),
    {
        match split_first_line(rest) {
            None => {
                assert(lines_of(rest.spec_bytes()) =~= Seq::<Seq<u8>>::empty());
                assert(lines_of(rest.spec_bytes()).filter(wanted) =~= Seq::<Seq<u8>>::empty()) by {
                    reveal(Seq::filter);
                }
                break ;
            },
            Some((line, tail)) => {
                let ghost before = texts(found@);
                let held = locate(line, query, case_sensitive).is_some();
                if held {
                    found.push(line);
                }
                proof {
                    let later = lines_of(tail.spec_bytes());
                    assert(lines_of(rest.spec_bytes()) == seq![line.spec_bytes()] + later);
                    later.lemma_filter_prepend(line.spec_bytes(), wanted);
                    if held {
                        assert(texts(found@) =~= before.push(line.spec_bytes()));
                        assert(before + (seq![line.spec_bytes()] + later.filter(wanted))
                            =~= texts(found@) + later.filter(wanted));
                        assert(before + (seq![line.spec_bytes()] + later) =~= texts(found@)
                            + later);
                    } else {
                        assert(Seq::<Seq<u8>>::empty() + later.filter(wanted) =~= later.filter(
                            wanted,
                        ));
                    }
                }
                rest = tail;
            },
        }
    }
    found
}

/// The lines of `contents` that hold `query` byte for byte, in order.
///
/// An empty query is held by every line.
pub fn search<'a>(query: &str, contents: &'a str) -> (found: Vec<&'a str>)
    ensures
        texts(found@) == matching_lines(query.spec_bytes(), contents.spec_bytes(), true),
        query@.len() == 0 ==> texts(found@) == lines_of(contents.spec_bytes()),
{
    select_lines(query, contents, true)
}

/// The lines of `contents` whose lowercase form holds the lowercase form of
/// `query`, in order and as they stand in `contents`.
///
/// An empty query is held by every line.
pub fn search_case_insensitive<'a>(query: &str, contents: &'a str) -> (found: Vec<&'a str>)
    ensures
        texts(found@) == matching_lines(query.spec_bytes(), contents.spec_bytes(), false),
        query@.len() == 0 ==> texts(found@) == lines_of(contents.spec_bytes()),
{
    select_lines(query, contents, false)
}

} // verus!
