use minigrep::render::highlight;
use minigrep::{run, Config, Match};

fn config(query: &str, case_sensitive: bool) -> Config {
    Config {
        query: query.to_string(),
        filename: String::new(),
        case_sensitive,
    }
}

#[test]
fn span_is_painted_green() {
    colored::control::set_override(true);
    let shown = highlight("safe, fast, productive.", &Match { first_index: 6, last_index: 10 });
    assert_eq!(Some("safe, \u{1b}[32mfast\u{1b}[0m, productive.".to_string()), shown);
}

#[test]
fn empty_span_is_painted_too() {
    colored::control::set_override(true);
    let shown = highlight("abc", &Match { first_index: 0, last_index: 0 });
    assert_eq!(Some("\u{1b}[32m\u{1b}[0mabc".to_string()), shown);
}

#[test]
fn green_is_switched_on_again_behind_a_reset_in_the_span() {
    colored::control::set_override(true);
    let line = "a\u{1b}[0mb\u{1b}[0m";
    let shown = highlight(line, &Match { first_index: 0, last_index: line.len() });
    assert_eq!(
        Some("\u{1b}[32ma\u{1b}[0m\u{1b}[32mb\u{1b}[0m\u{1b}[32m\u{1b}[0m".to_string()),
        shown
    );
}

#[test]
fn span_that_does_not_cut_the_line_is_not_shown() {
    colored::control::set_override(true);
    assert_eq!(None, highlight("aé", &Match { first_index: 0, last_index: 2 }));
    assert_eq!(None, highlight("aé", &Match { first_index: 0, last_index: 9 }));
}

#[test]
fn run_paints_the_first_occurrence_in_each_found_line() {
    colored::control::set_override(true);
    let contents = "Rust:\nsafe, fast, productive.\nPick three.\nTrust me, trust.";
    let shown = run(&config("ust", true), contents);
    assert_eq!(
        Ok(vec![
            "R\u{1b}[32must\u{1b}[0m:".to_string(),
            "Tr\u{1b}[32must\u{1b}[0m me, trust.".to_string(),
        ]),
        shown
    );
}

#[test]
fn run_without_regard_to_case_paints_the_line_as_it_stands() {
    colored::control::set_override(true);
    let contents = "Rust:\nsafe, fast, productive.\nPick three.\nTrust me.";
    let shown = run(&config("rUsT", false), contents);
    assert_eq!(
        Ok(vec![
            "\u{1b}[32mRust\u{1b}[0m:".to_string(),
            "T\u{1b}[32mrust\u{1b}[0m me.".to_string(),
        ]),
        shown
    );
}

#[test]
fn run_stops_at_a_line_that_its_span_does_not_cut() {
    colored::control::set_override(true);
    let contents = "fine x\n\u{130}x\nx again";
    assert_eq!(Err("\u{130}x"), run(&config("x", false), contents));
    assert!(run(&config("x", true), contents).is_ok());
}
