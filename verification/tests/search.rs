use minigrep::matcher::locate;
use minigrep::{search, search_case_insensitive};

#[test]
fn case_sensitive() {
    let query = "duct";
    let contents = "\
Rust:
safe, fast, productive.
Pick three.
Duct tape.";

    assert_eq!(vec!["safe, fast, productive."], search(query, contents));
}

#[test]
fn case_insensitive() {
    let query = "rUsT";
    let contents = "\
Rust:
safe, fast, productive.
Pick three.
Trust me.";

    assert_eq!(
        vec!["Rust:", "Trust me."],
        search_case_insensitive(query, contents)
    );
}

#[test]
fn no_line_holds_the_query() {
    let contents = "one\ntwo\nthree";
    assert_eq!(Vec::<&str>::new(), search("four", contents));
    assert_eq!(Vec::<&str>::new(), search_case_insensitive("FOUR", contents));
}

#[test]
fn exact_search_regards_case() {
    let contents = "Rust:\nTrust me.\nrUsT";
    assert_eq!(vec!["rUsT"], search("rUsT", contents));
    assert_eq!(vec!["Rust:"], search("Rust", contents));
}

#[test]
fn empty_query_keeps_every_line() {
    let contents = "Rust:\n\nsafe, fast, productive.\r\nPick three.\n";
    let all = vec!["Rust:", "", "safe, fast, productive.", "Pick three."];
    assert_eq!(all, search("", contents));
    assert_eq!(all, search_case_insensitive("", contents));
}

#[test]
fn found_lines_keep_order_and_repeats() {
    let contents = "b a\na\nc\na\na b";
    assert_eq!(vec!["b a", "a", "a", "a b"], search("a", contents));
    assert_eq!(
        vec!["b a", "a", "a", "a b"],
        search_case_insensitive("A", contents)
    );
}

#[test]
fn searching_twice_gives_the_same_lines() {
    let contents = "Rust:\nsafe, fast, productive.\nTrust me.";
    assert_eq!(search("ust", contents), search("ust", contents));
    assert_eq!(
        search_case_insensitive("RUST", contents),
        search_case_insensitive("RUST", contents)
    );
}

#[test]
fn found_lines_are_not_lowered() {
    assert_eq!(
        vec!["TRUST Me"],
        search_case_insensitive("trust", "TRUST Me\nnothing")
    );
}

#[test]
fn query_is_not_found_across_lines() {
    assert_eq!(Vec::<&str>::new(), search("a\nb", "a\nb"));
    assert_eq!(Vec::<&str>::new(), search("ab", "a\nb"));
}

#[test]
fn carriage_return_before_line_feed_is_no_part_of_a_line() {
    assert_eq!(Vec::<&str>::new(), search("\r", "one\r\ntwo\r\n"));
    assert_eq!(vec!["two\r"], search("\r", "one\r\ntwo\r"));
    assert_eq!(vec!["o\rne"], search("\r", "o\rne\r\ntwo"));
}

#[test]
fn search_in_text_beyond_ascii() {
    let contents = "Grüße aus Köln\nÄRGER\nnichts";
    assert_eq!(vec!["Grüße aus Köln"], search("Köln", contents));
    assert_eq!(vec!["ÄRGER"], search_case_insensitive("ärger", contents));
    assert_eq!(Vec::<&str>::new(), search("ärger", contents));
}

#[test]
fn locate_gives_the_first_byte_offset() {
    assert_eq!(Some(6), locate("safe, fast, fast", "fast", true));
    assert_eq!(None, locate("safe, fast", "Fast", true));
    assert_eq!(Some(6), locate("safe, FAST, fast", "Fast", false));
    assert_eq!(Some(0), locate("anything", "", true));
    assert_eq!(Some(0), locate("", "", false));
    assert_eq!(None, locate("", "a", true));
    assert_eq!(Some(7), locate("héllo wörld", "wörld", true));
}
