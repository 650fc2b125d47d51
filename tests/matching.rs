use slacordbot::config::{SlacordConfig, TriggerResponse};
use slacordbot::matcher::{find_matches, Match};
use slacordbot::text::split_words;

fn rule(triggers: &[&str], responses: &[&str]) -> TriggerResponse {
    TriggerResponse {
        triggers: triggers.iter().map(|s| s.to_string()).collect(),
        responses: responses.iter().map(|s| s.to_string()).collect(),
    }
}

fn config(rules: Vec<TriggerResponse>) -> SlacordConfig {
    SlacordConfig::new(rules).unwrap()
}

fn m(entry: usize, trigger: usize, token: usize) -> Match {
    Match { entry, trigger, token }
}

#[test]
fn split_words_skips_runs_of_spaces() {
    assert_eq!(split_words("a  b c "), vec!["a", "b", "c"]);
    assert_eq!(split_words(""), Vec::<String>::new());
    assert_eq!(split_words("   "), Vec::<String>::new());
    assert_eq!(split_words("hello, world!"), vec!["hello,", "world!"]);
}

#[test]
fn trigger_among_words_matches() {
    let c = config(vec![rule(&["hello"], &["hi"])]);
    assert_eq!(find_matches(&c, "well hello there"), vec![m(0, 0, 1)]);
}

#[test]
fn no_trigger_no_match() {
    let c = config(vec![rule(&["hello"], &["hi"])]);
    assert!(find_matches(&c, "good morning").is_empty());
}

#[test]
fn matching_is_case_sensitive_and_whole_word() {
    let c = config(vec![rule(&["hello"], &["a"]), rule(&["Hello"], &["b"]), rule(&["hell"], &["c"])]);
    assert_eq!(find_matches(&c, "hello"), vec![m(0, 0, 0)]);
    assert!(find_matches(&c, "hello!").is_empty());
}

#[test]
fn empty_message_has_no_match() {
    let c = config(vec![rule(&["hello"], &["hi"])]);
    assert!(find_matches(&c, "").is_empty());
}

#[test]
fn repeated_word_matches_twice_in_order() {
    let c = config(vec![
        rule(&["a", "b"], &["x"]),
        rule(&["b"], &["y"]),
    ]);
    assert_eq!(
        find_matches(&c, "b a b"),
        vec![m(0, 0, 1), m(0, 1, 0), m(0, 1, 2), m(1, 0, 0), m(1, 0, 2)]
    );
}

#[test]
fn rule_without_triggers_matches_nothing() {
    let c = config(vec![rule(&[], &["x"])]);
    assert!(find_matches(&c, "anything at all").is_empty());
}
