use minigrep::{contains, search_case_insensitive, search_case_sensitive};

const CONTENTS: &str = "\
Rust:
safe, fast, productive.
Pick three.
Trust me.";

#[test]
fn case_sensitive() {
    let query = "duct";
    let expected = vec!["safe, fast, productive."];

    assert_eq!(expected, search_case_sensitive(query, CONTENTS));
}

#[test]
fn case_insensitive() {
    let query = "ruST";
    let expected = vec!["Rust:", "Trust me."];

    assert_eq!(expected, search_case_insensitive(query, CONTENTS));
}

#[test]
fn case_sensitive_on_three_lines() {
    let contents = "Rust:\nsafe, fast, productive.\nPick three.";
    assert_eq!(vec!["safe, fast, productive."], search_case_sensitive("duct", contents));
}

#[test]
fn no_line_matches() {
    let contents = "Rust:\nsafe, fast, productive.\nPick three.";
    assert_eq!(Vec::<&str>::new(), search_case_sensitive("xyz", contents));
    assert_eq!(Vec::<&str>::new(), search_case_insensitive("xyz", contents));
}

#[test]
fn case_sensitive_ignores_other_case() {
    assert_eq!(vec!["Trust me."], search_case_sensitive("rust", CONTENTS));
    assert_eq!(vec!["Rust:"], search_case_sensitive("Rust", CONTENTS));
}

#[test]
fn insensitive_returns_lines_unchanged() {
    let contents = "HELLO World\nnothing here\nhello again";
    assert_eq!(vec!["HELLO World", "hello again"], search_case_insensitive("Hello", contents));
}

#[test]
fn insensitive_folds_non_ascii_letters() {
    let contents = "ÄPFEL und Birnen\nnur Birnen";
    assert_eq!(vec!["ÄPFEL und Birnen"], search_case_insensitive("äpfel", contents));
    assert_eq!(Vec::<&str>::new(), search_case_sensitive("äpfel", contents));
}

#[test]
fn empty_query_keeps_every_line() {
    let contents = "one\n\nthree\n";
    assert_eq!(vec!["one", "", "three"], search_case_sensitive("", contents));
    assert_eq!(vec!["one", "", "three"], search_case_insensitive("", contents));
}

#[test]
fn results_keep_line_order() {
    let contents = "b match\na match\nno\nc match";
    assert_eq!(vec!["b match", "a match", "c match"], search_case_sensitive("match", contents));
    assert_eq!(vec!["b match", "a match", "c match"], search_case_insensitive("MATCH", contents));
}

#[test]
fn empty_contents_have_no_lines() {
    assert_eq!(Vec::<&str>::new(), search_case_sensitive("", ""));
    assert_eq!(Vec::<&str>::new(), search_case_insensitive("", ""));
}

#[test]
fn crlf_terminators_are_stripped() {
    let contents = "first line\r\nsecond line\r\nthird";
    assert_eq!(vec!["first line", "second line", "third"], search_case_sensitive("", contents));
    assert_eq!(vec!["second line"], search_case_sensitive("second", contents));
}

#[test]
fn final_terminator_adds_no_line() {
    assert_eq!(vec!["a", "b"], search_case_sensitive("", "a\nb\n"));
    assert_eq!(vec![""], search_case_sensitive("", "\n"));
    assert_eq!(vec!["", ""], search_case_sensitive("", "\n\n"));
}

#[test]
fn lone_carriage_return_stays() {
    assert_eq!(vec!["a\rb", "c\r"], search_case_sensitive("", "a\rb\nc\r"));
    assert_eq!(vec!["x"], search_case_sensitive("", "x\r\n"));
}

#[test]
fn query_spanning_lines_matches_nothing() {
    assert_eq!(Vec::<&str>::new(), search_case_sensitive("a\nb", "a\nb"));
}

#[test]
fn returned_lines_borrow_from_contents() {
    let contents = String::from("alpha\nbeta\ngamma");
    let found = search_case_sensitive("eta", &contents);
    assert_eq!(found.len(), 1);
    let start = found[0].as_ptr() as usize - contents.as_ptr() as usize;
    assert_eq!(start, 6);
}

#[test]
fn contains_finds_substrings() {
    assert!(contains("safe, fast, productive.", "duct"));
    assert!(contains("abc", ""));
    assert!(contains("", ""));
    assert!(contains("abc", "abc"));
    assert!(!contains("abc", "abcd"));
    assert!(!contains("abc", "ac"));
    assert!(!contains("", "a"));
    assert!(contains("aaab", "aab"));
}
