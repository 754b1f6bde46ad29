use minigrep::render::{highlight, render};
use minigrep::{run, Config, Match};

#[test]
fn line_is_shown_as_it_is_where_colours_are_off() {
    colored::control::set_override(false);
    let shown = highlight("safe, fast, productive.", &Match { first_index: 6, last_index: 10 });
    assert_eq!(Some("safe, fast, productive.".to_string()), shown);
}

#[test]
fn run_gives_the_found_lines_where_colours_are_off() {
    colored::control::set_override(false);
    let config = Config {
        query: "duct".to_string(),
        filename: String::new(),
        case_sensitive: true,
    };
    let contents = "Rust:\nsafe, fast, productive.\nPick three.\nDuct tape.";
    assert_eq!(Ok(vec!["safe, fast, productive.".to_string()]), run(&config, contents));
}

#[test]
fn run_finds_nothing_in_an_empty_text() {
    colored::control::set_override(false);
    let config = Config {
        query: String::new(),
        filename: String::new(),
        case_sensitive: false,
    };
    assert_eq!(Ok(Vec::<String>::new()), run(&config, ""));
}

#[test]
fn render_joins_its_three_parts() {
    assert_eq!("safe, <fast>, productive.", render("safe, ", "<fast>", ", productive."));
    assert_eq!("", render("", "", ""));
}
