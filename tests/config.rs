use minigrep::{Config, ConfigError};

fn args(items: &[&str]) -> Vec<String> {
    items.iter().map(|s| s.to_string()).collect()
}

#[test]
fn only_program_name_is_insufficient() {
    let r = Config::new(&args(&["prog"]), false);
    assert!(matches!(r, Err(ConfigError::InsufficientArguments)));
}

#[test]
fn one_argument_is_insufficient() {
    let r = Config::new(&args(&["prog", "query"]), true);
    assert!(matches!(r, Err(ConfigError::InsufficientArguments)));
}

#[test]
fn no_arguments_is_insufficient() {
    let r = Config::new(&[], false);
    assert!(matches!(r, Err(ConfigError::InsufficientArguments)));
}

#[test]
fn two_arguments_suffice() {
    let c = Config::new(&args(&["prog", "needle", "poem.txt"]), false).unwrap();
    assert_eq!(c.query, "needle");
    assert_eq!(c.filename, "poem.txt");
    assert!(c.case_sensitive);
}

#[test]
fn extra_arguments_are_ignored() {
    let c = Config::new(&args(&["prog", "needle", "poem.txt", "more"]), false).unwrap();
    assert_eq!(c.query, "needle");
    assert_eq!(c.filename, "poem.txt");
}

#[test]
fn empty_arguments_are_accepted() {
    let c = Config::new(&args(&["prog", "", ""]), false).unwrap();
    assert_eq!(c.query, "");
    assert_eq!(c.filename, "");
}

#[test]
fn set_variable_turns_case_off() {
    let c = Config::new(&args(&["prog", "q", "f"]), true).unwrap();
    assert!(!c.case_sensitive);
}

#[test]
fn error_message() {
    assert_eq!(ConfigError::InsufficientArguments.message(), "not enough arguments");
}

#[test]
fn search_follows_the_case_setting() {
    let contents = "Rust:\nsafe, fast, productive.\nPick three.\nTrust me.";
    let exact = Config::new(&args(&["prog", "ruST", "f"]), false).unwrap();
    assert_eq!(Vec::<&str>::new(), exact.search(contents));
    let folded = Config::new(&args(&["prog", "ruST", "f"]), true).unwrap();
    assert_eq!(vec!["Rust:", "Trust me."], folded.search(contents));
}
