use slacordbot::config::TriggerResponse;
use slacordbot::emoji::{substitute_emojis, EmojiCache, EmojiRecord};
use slacordbot::render::{pick_index, render, render_with};
use slacordbot::text::{chars_of, push_decimal, replace_chars};

fn emoji(name: &str, id: u64, animated: bool) -> EmojiRecord {
    EmojiRecord { name: name.to_string(), id, animated }
}

fn single(response: &str) -> TriggerResponse {
    TriggerResponse { triggers: vec!["t".to_string()], responses: vec![response.to_string()] }
}

#[test]
fn mention_markup() {
    assert_eq!(emoji("wave", 42, false).mention(), "<:wave:42>");
    assert_eq!(emoji("dance", 7, true).mention(), "<a:dance:7>");
    assert_eq!(emoji("wave", 42, false).shortcode(), ":wave:");
}

#[test]
fn decimal_rendering() {
    let mut s = String::from("#");
    push_decimal(&mut s, 0);
    assert_eq!(s, "#0");
    let mut s = String::new();
    push_decimal(&mut s, u64::MAX);
    assert_eq!(s, "18446744073709551615");
    let mut s = String::new();
    push_decimal(&mut s, 1000);
    assert_eq!(s, "1000");
}

#[test]
fn replace_is_left_to_right_without_overlap() {
    let r = replace_chars(&chars_of("aaa"), &chars_of("aa"), &chars_of("b"));
    assert_eq!(r, chars_of("ba"));
    let r = replace_chars(&chars_of("xax"), &chars_of("a"), &chars_of("aa"));
    assert_eq!(r, chars_of("xaax"));
}

#[test]
fn emoji_round_trip_through_cache() {
    let mut cache = EmojiCache::new();
    cache.record_fetch(1, Some(vec![emoji("wave", 42, false)]));
    let out = render_with(&single("hi :wave:"), 0, cache.lookup(1));
    assert_eq!(out, "hi <:wave:42>");
}

#[test]
fn unknown_shortcode_left_intact() {
    let list = vec![emoji("wave", 42, false)];
    assert_eq!(substitute_emojis(":unknown: :wave:", &list), ":unknown: <:wave:42>");
}

#[test]
fn all_occurrences_and_all_emojis_replaced() {
    let list = vec![emoji("a", 1, false), emoji("b", 2, true)];
    assert_eq!(substitute_emojis(":a::b: :a:", &list), "<:a:1><a:b:2> <:a:1>");
}

#[test]
fn without_cache_entry_reply_is_unchanged() {
    let cache = EmojiCache::new();
    assert_eq!(render_with(&single("hi :wave:"), 5, cache.lookup(1)), "hi :wave:");
}

#[test]
fn draw_picks_index_modulo_count() {
    assert_eq!(pick_index(7, 3), 1);
    assert_eq!(pick_index(usize::MAX, 1), 0);
    let rule = TriggerResponse {
        triggers: vec![],
        responses: vec!["a".to_string(), "b".to_string(), "c".to_string()],
    };
    assert_eq!(render_with(&rule, 4, None), "b");
    assert_eq!(render_with(&rule, 2, None), "c");
}

#[test]
fn random_pick_is_roughly_uniform() {
    let rule = TriggerResponse {
        triggers: vec![],
        responses: vec!["a".to_string(), "b".to_string(), "c".to_string()],
    };
    let mut counts = [0usize; 3];
    for _ in 0..3000 {
        let r = render(&rule, None);
        let i = rule.responses.iter().position(|x| *x == r).unwrap();
        counts[i] += 1;
    }
    for c in counts {
        assert!(c > 800 && c < 1200, "counts {:?}", counts);
    }
}

#[test]
fn cache_fetches_once_unless_forced() {
    let mut cache = EmojiCache::new();
    assert!(cache.needs_fetch(9, false));
    cache.record_fetch(9, Some(vec![emoji("x", 3, false)]));
    assert!(!cache.needs_fetch(9, false));
    assert!(cache.needs_fetch(9, true));
    cache.record_fetch(9, Some(vec![]));
    assert_eq!(cache.lookup(9).unwrap().len(), 0);
}

#[test]
fn failed_fetch_leaves_cache_alone() {
    let mut cache = EmojiCache::new();
    cache.record_fetch(4, None);
    assert!(cache.lookup(4).is_none());
    assert!(cache.needs_fetch(4, false));
    cache.record_fetch(4, Some(vec![emoji("x", 3, false)]));
    cache.record_fetch(4, None);
    assert_eq!(cache.lookup(4).unwrap()[0].id, 3);
}
