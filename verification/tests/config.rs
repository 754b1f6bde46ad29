use minigrep::Config;

fn args(words: &[&str]) -> Vec<String> {
    words.iter().map(|word| word.to_string()).collect()
}

#[test]
fn config_takes_query_and_file_name() {
    let config = Config::new(&args(&["minigrep", "needle", "haystack.txt"]), false).unwrap();
    assert_eq!("needle", config.query);
    assert_eq!("haystack.txt", config.filename);
    assert!(config.case_sensitive);
}

#[test]
fn config_ignores_case_where_the_switch_is_present() {
    let config = Config::new(&args(&["minigrep", "needle", "haystack.txt"]), true).unwrap();
    assert!(!config.case_sensitive);
}

#[test]
fn config_passes_over_further_arguments() {
    let config = Config::new(&args(&["minigrep", "a", "b", "c", "d"]), false).unwrap();
    assert_eq!("a", config.query);
    assert_eq!("b", config.filename);
}

#[test]
fn config_wants_a_query() {
    assert_eq!(Some("Didn't get a query string"), Config::new(&args(&["minigrep"]), false).err());
    assert_eq!(Some("Didn't get a query string"), Config::new(&args(&[]), true).err());
}

#[test]
fn config_wants_a_file_name() {
    assert_eq!(
        Some("Didn't get a file name"),
        Config::new(&args(&["minigrep", "needle"]), false).err()
    );
}
