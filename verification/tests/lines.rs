use minigrep::lines::split_first_line;
use minigrep::search;
use minigrep::substring::find;

#[test]
fn empty_text_has_no_line() {
    assert_eq!(None, split_first_line(""));
    assert_eq!(Vec::<&str>::new(), search("", ""));
}

#[test]
fn first_line_ends_at_the_line_feed() {
    assert_eq!(Some(("one", "two\nthree")), split_first_line("one\ntwo\nthree"));
    assert_eq!(Some(("", "two")), split_first_line("\ntwo"));
    assert_eq!(Some(("one", "")), split_first_line("one\n"));
    assert_eq!(Some(("one", "")), split_first_line("one"));
}

#[test]
fn one_carriage_return_goes_with_the_line_feed() {
    assert_eq!(Some(("one", "two")), split_first_line("one\r\ntwo"));
    assert_eq!(Some(("one\r", "two")), split_first_line("one\r\r\ntwo"));
    assert_eq!(Some(("one\rtwo", "")), split_first_line("one\rtwo"));
    assert_eq!(Some(("one\r", "")), split_first_line("one\r"));
    assert_eq!(Some(("", "")), split_first_line("\r\n"));
}

#[test]
fn lines_are_those_of_the_standard_library() {
    let texts = [
        "",
        "\n",
        "\n\n",
        "a",
        "a\n",
        "a\n\nb",
        "a\r\nb\r\n",
        "foo\nbar\n\r\nbaz\r",
        "\r",
        "\r\n\r",
        "é\r\nü\n",
    ];
    for text in texts {
        let expected: Vec<&str> = text.lines().collect();
        assert_eq!(expected, search("", text));
    }
}

#[test]
fn last_line_needs_no_terminator() {
    assert_eq!(vec!["a", "b"], search("", "a\nb"));
    assert_eq!(vec!["a", "b"], search("", "a\nb\n"));
    assert_eq!(vec!["a", "b", ""], search("", "a\nb\n\n"));
}

#[test]
fn find_gives_the_first_offset() {
    assert_eq!(Some(1), find(b"abcabc", b"bc"));
    assert_eq!(Some(0), find(b"abcabc", b""));
    assert_eq!(Some(0), find(b"", b""));
    assert_eq!(Some(3), find(b"aaab", b"b"));
    assert_eq!(Some(0), find(b"abc", b"abc"));
    assert_eq!(None, find(b"abc", b"abcd"));
    assert_eq!(None, find(b"abc", b"ca"));
    assert_eq!(Some(2), find(b"aaaab", b"aab"));
}
