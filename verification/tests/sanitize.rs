use std::collections::HashSet;

use dn::config::default_illegal_characters;
use dn::sanitize::{fold_case, normalize, sanitize};

#[test]
fn sanitize_lowers_and_joins_words() {
    let illegal = default_illegal_characters();
    assert_eq!(sanitize("My First Note!", &illegal), "my-first-note");
}

#[test]
fn sanitize_is_idempotent_on_samples() {
    let illegal = default_illegal_characters();
    for raw in [
        "My First Note!",
        "  leading and trailing  ",
        "a - b -- c",
        "--__==@@..",
        "ÉCLAIR au Café",
        "İstanbul",
        "tab\tand\nnewline",
        "",
        "ΣΟΦΟΣ",
        "already-clean",
    ] {
        let once = sanitize(raw, &illegal);
        let twice = sanitize(&once, &illegal);
        assert_eq!(once, twice, "input {raw:?}");
    }
}

#[test]
fn sanitize_collapses_runs_of_breaks() {
    let illegal = default_illegal_characters();
    assert_eq!(sanitize("a   b", &illegal), "a-b");
    assert_eq!(sanitize("a - b", &illegal), "a-b");
    assert_eq!(sanitize("a ! b", &illegal), "a-b");
    assert_eq!(sanitize("a---b", &illegal), "a-b");
}

#[test]
fn sanitize_trims_separators() {
    let illegal = default_illegal_characters();
    assert_eq!(sanitize("  hello  ", &illegal), "hello");
    assert_eq!(sanitize("-hello-", &illegal), "hello");
    assert_eq!(sanitize(" - ", &illegal), "");
}

#[test]
fn sanitize_removes_reserved_characters_whatever_the_set() {
    let illegal: HashSet<char> = HashSet::new();
    assert_eq!(sanitize("a_b.c@d=e", &illegal), "abcde");
    assert_eq!(sanitize("a/b", &illegal), "ab");
    assert_eq!(sanitize("../../etc/passwd", &illegal), "etcpasswd");
    assert_eq!(sanitize("keep!this", &illegal), "keep!this");
}

#[test]
fn sanitize_removes_what_the_set_names() {
    let illegal = HashSet::from(['a', '2']);
    assert_eq!(sanitize("banana 2024", &illegal), "bnn-04");
}

#[test]
fn sanitize_empty_is_empty() {
    let illegal = default_illegal_characters();
    assert_eq!(sanitize("", &illegal), "");
    assert_eq!(sanitize("!!!", &illegal), "");
}

#[test]
fn sanitize_keeps_old_titles() {
    let illegal = default_illegal_characters();
    assert_eq!(sanitize("old-title", &illegal), "old-title");
}

#[test]
fn fold_case_lowers_letters_beyond_ascii() {
    let folded: String = fold_case("ÉCLAIR Ω").into_iter().collect();
    assert_eq!(folded, "éclair ω");
}

#[test]
fn fold_case_leaves_lowercase_alone() {
    let folded: String = fold_case("abc-é ß").into_iter().collect();
    assert_eq!(folded, "abc-é ß");
}

#[test]
fn normalize_does_not_lower() {
    let illegal = default_illegal_characters();
    let chars: Vec<char> = "Ab  Cd!".chars().collect();
    assert_eq!(normalize(&chars, &illegal), "Ab-Cd");
}

#[test]
fn normalize_treats_every_white_space_as_a_break() {
    let illegal: HashSet<char> = HashSet::new();
    let chars: Vec<char> = "a\u{00A0}b\u{2003}c\u{3000}d\te".chars().collect();
    assert_eq!(normalize(&chars, &illegal), "a-b-c-d-e");
}
