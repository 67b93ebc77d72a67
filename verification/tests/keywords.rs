use dn::config::default_illegal_characters;
use dn::keywords::{clean_keywords, resolve_keywords, split_list};

fn list(items: &[&str]) -> Vec<String> {
    items.iter().map(|s| s.to_string()).collect()
}

#[test]
fn split_list_splits_at_commas() {
    assert_eq!(split_list("draft, idea"), list(&["draft", " idea"]));
    assert_eq!(split_list("one"), list(&["one"]));
    assert_eq!(split_list(""), list(&[""]));
    assert_eq!(split_list("a,,b,"), list(&["a", "", "b", ""]));
}

#[test]
fn clean_keywords_sanitises_and_drops() {
    let illegal = default_illegal_characters();
    let raw = list(&["Draft", " idea", "", "draft", "two words", "!!"]);
    assert_eq!(clean_keywords(&raw, &illegal), list(&["draft", "idea", "two-words"]));
}

#[test]
fn resolve_keywords_adds_then_removes() {
    let illegal = default_illegal_characters();
    let result =
        resolve_keywords(&list(&["foo"]), None, &list(&["bar"]), &list(&["foo"]), &illegal);
    assert_eq!(result, list(&["bar"]));
}

#[test]
fn resolve_keywords_removal_wins_over_addition() {
    let illegal = default_illegal_characters();
    let result = resolve_keywords(
        &list(&["a", "b"]),
        None,
        &list(&["c", "d"]),
        &list(&["c", "B"]),
        &illegal,
    );
    assert_eq!(result, list(&["a", "d"]));
}

#[test]
fn resolve_keywords_replacement_supersedes_current() {
    let illegal = default_illegal_characters();
    let replacement = list(&["X", "y", "x", ""]);
    let result = resolve_keywords(&list(&["a", "b"]), Some(&replacement), &vec![], &vec![], &illegal);
    assert_eq!(result, list(&["x", "y"]));
    assert_eq!(result, clean_keywords(&replacement, &illegal));
}

#[test]
fn resolve_keywords_never_holds_the_empty_keyword() {
    let illegal = default_illegal_characters();
    let result = resolve_keywords(&list(&["", "?"]), None, &list(&[" ", "ok"]), &vec![], &illegal);
    assert_eq!(result, list(&["ok"]));
}

#[test]
fn resolve_keywords_with_nothing_to_do_cleans_current() {
    let illegal = default_illegal_characters();
    let result = resolve_keywords(&list(&["b", "a", "b"]), None, &vec![], &vec![], &illegal);
    assert_eq!(result, list(&["b", "a"]));
}
