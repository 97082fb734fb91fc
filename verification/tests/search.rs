use minigrep::search_case_insensitive;
use minigrep::search_case_sensitive;
use minigrep::split_lines;

#[test]
fn test_case_sensitive() {
    let pattern = "duct";
    let text = "\
Rust:
sécurité, rapidité, productivité.
Obtenez les trois en même temps.
C'est pas rustique.";

    assert_eq!(
        vec!["sécurité, rapidité, productivité."],
        search_case_sensitive(pattern, text)
    );
}

#[test]
fn test_case_insensitive() {
    let pattern = "rUsT";
    let text = "\
Rust:
sécurité, rapidité, productivité.
Obtenez les trois en même temps.
C'est pas rustique.";

    assert_eq!(
        vec!["Rust:", "C'est pas rustique."],
        search_case_insensitive(pattern, text)
    );
}

#[test]
fn empty_pattern_matches_every_line() {
    let text = "one\ntwo\nthree";
    assert_eq!(vec!["one", "two", "three"], search_case_sensitive("", text));
    assert_eq!(vec!["one", "two", "three"], search_case_insensitive("", text));
}

#[test]
fn empty_text_yields_no_matches() {
    assert!(search_case_sensitive("x", "").is_empty());
    assert!(search_case_insensitive("x", "").is_empty());
}

#[test]
fn no_match_yields_empty_result_not_error() {
    let text = "alpha\nbeta";
    assert!(search_case_sensitive("gamma", text).is_empty());
    assert!(search_case_insensitive("gamma", text).is_empty());
}

#[test]
fn pattern_longer_than_line_does_not_match_it() {
    let text = "ab\nabcdef";
    assert_eq!(vec!["abcdef"], search_case_sensitive("abcd", text));
}

#[test]
fn matchers_are_idempotent() {
    let pattern = "rUsT";
    let text = "Rust:\nsécurité, rapidité, productivité.\nC'est pas rustique.";
    assert_eq!(
        search_case_sensitive(pattern, text),
        search_case_sensitive(pattern, text)
    );
    assert_eq!(
        search_case_insensitive(pattern, text),
        search_case_insensitive(pattern, text)
    );
}

#[test]
fn insensitive_count_at_least_sensitive_count() {
    let text = "Rust:\nsécurité, rapidité, productivité.\nObtenez les trois en même temps.\nC'est pas rustique.";
    for pattern in ["rUsT", "Rust", "duct", "t"] {
        let sensitive = search_case_sensitive(pattern, text);
        let insensitive = search_case_insensitive(pattern, text);
        assert!(insensitive.len() >= sensitive.len());
    }
}

#[test]
fn insensitive_keeps_original_casing() {
    let found = search_case_insensitive("warning", "WARNING: disk full\nall good");
    assert_eq!(vec!["WARNING: disk full"], found);
}

#[test]
fn lowercasing_applies_to_pattern_and_line() {
    assert_eq!(
        vec!["rust is here"],
        search_case_insensitive("RUST", "rust is here\nnothing else")
    );
    assert_eq!(
        vec!["RUST IS HERE"],
        search_case_insensitive("rust", "RUST IS HERE\nNOTHING ELSE")
    );
}

#[test]
fn accented_characters_fold_too() {
    assert_eq!(
        vec!["sécurité, rapidité"],
        search_case_insensitive("SÉCURITÉ", "sécurité, rapidité\nrien d'autre")
    );
}

#[test]
fn split_lines_handles_crlf_endings() {
    assert_eq!(vec!["a", "b", "c"], split_lines("a\r\nb\nc"));
}

#[test]
fn split_lines_keeps_bare_carriage_return() {
    assert_eq!(vec!["a\rb", "c\r"], split_lines("a\rb\nc\r"));
}

#[test]
fn trailing_newline_yields_no_empty_last_line() {
    assert_eq!(vec!["a", "b"], split_lines("a\nb\n"));
    assert_eq!(vec!["a", "b"], search_case_sensitive("", "a\nb\n"));
}

#[test]
fn inner_empty_lines_are_kept() {
    assert_eq!(vec!["a", "", "b"], split_lines("a\n\nb"));
}

#[test]
fn match_inside_crlf_terminated_line() {
    assert_eq!(vec!["needle here"], search_case_sensitive("needle", "needle here\r\nhaystack"));
}
