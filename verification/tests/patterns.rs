use regex_finder::pattern::{compile_all, is_valid_pattern, matches_any};

#[test]
fn well_formed_patterns_are_accepted() {
    assert!(is_valid_pattern(r"\.txt$"));
    assert!(is_valid_pattern("^a.*b$"));
    assert!(is_valid_pattern(""));
}

#[test]
fn unbalanced_parenthesis_is_rejected() {
    assert!(!is_valid_pattern("("));
    assert!(!is_valid_pattern("foo(bar"));
}

#[test]
fn compile_all_keeps_order_and_text() {
    let sources = vec![r"\.txt$".to_string(), r"\.log$".to_string()];
    let mut compiled = compile_all(&sources).ok().unwrap();
    assert_eq!(compiled.len(), 2);
    let last = vec![compiled.pop().unwrap()];
    assert!(matches_any(&last, "b.log"));
    assert!(!matches_any(&last, "a.txt"));
    assert!(matches_any(&compiled, "a.txt"));
    assert!(!matches_any(&compiled, "b.log"));
}

#[test]
fn a_pattern_is_case_sensitive() {
    let compiled = compile_all(&vec!["s".to_string()]).ok().unwrap();
    assert!(matches_any(&compiled, "s"));
    assert!(!matches_any(&compiled, "S"));
}

#[test]
fn compile_all_reports_the_first_bad_pattern() {
    let sources = vec!["a".to_string(), "(".to_string(), "b".to_string(), "[".to_string()];
    assert_eq!(compile_all(&sources).err(), Some(1));
}

#[test]
fn compile_all_of_nothing_is_empty() {
    let sources: Vec<String> = Vec::new();
    assert!(compile_all(&sources).ok().unwrap().is_empty());
}

#[test]
fn matches_any_tests_every_pattern() {
    let sources = vec![r"\.txt$".to_string(), r"\.log$".to_string()];
    let compiled = compile_all(&sources).ok().unwrap();
    assert!(matches_any(&compiled, "a.txt"));
    assert!(matches_any(&compiled, "b.log"));
    assert!(!matches_any(&compiled, "c.csv"));
    assert!(!matches_any(&compiled, "txt"));
}

#[test]
fn matches_any_of_no_pattern_is_false() {
    let compiled = compile_all(&Vec::new()).ok().unwrap();
    assert!(!matches_any(&compiled, "a.txt"));
}

#[test]
fn a_pattern_matches_anywhere_in_the_name() {
    let compiled = compile_all(&vec!["ell".to_string()]).ok().unwrap();
    assert!(matches_any(&compiled, "hello.rs"));
    assert!(!matches_any(&compiled, "help.rs"));
}
