use slacordbot::config::{SlacordConfig, TriggerResponse};
use slacordbot::emoji::{EmojiCache, EmojiRecord};
use slacordbot::handler::{lookup_emojis, replies, reply_with, MessageEvent};
use slacordbot::matcher::Match;

fn config() -> SlacordConfig {
    SlacordConfig::new(vec![TriggerResponse {
        triggers: vec!["hello".to_string()],
        responses: vec!["hi :wave:".to_string()],
    }])
    .unwrap()
}

fn event(text: &str, bot: bool, webhook: bool, server: Option<u64>) -> MessageEvent {
    MessageEvent { server_id: server, author_is_bot: bot, has_webhook_id: webhook, text: text.to_string() }
}

fn cache() -> EmojiCache {
    let mut c = EmojiCache::new();
    c.record_fetch(1, Some(vec![EmojiRecord { name: "wave".to_string(), id: 42, animated: false }]));
    c
}

#[test]
fn bot_and_webhook_messages_are_ignored() {
    let c = config();
    for ev in [event("hello", true, false, Some(1)), event("hello", false, true, Some(1))] {
        assert!(!ev.should_handle());
        assert_eq!(ev.emoji_server(), None);
        assert!(replies(&c, &cache(), &ev).is_empty());
    }
}

#[test]
fn replies_one_per_match_with_emoji() {
    let ev = event("hello hello", false, false, Some(1));
    assert_eq!(ev.emoji_server(), Some(1));
    assert_eq!(replies(&config(), &cache(), &ev), vec!["hi <:wave:42>", "hi <:wave:42>"]);
}

#[test]
fn message_outside_server_gets_raw_shortcode() {
    let ev = event("hello", false, false, None);
    assert_eq!(ev.emoji_server(), None);
    assert!(lookup_emojis(&cache(), None).is_none());
    assert_eq!(replies(&config(), &cache(), &ev), vec!["hi :wave:"]);
}

#[test]
fn reply_for_one_match() {
    let ev = event("hello", false, false, Some(1));
    let m = Match { entry: 0, trigger: 0, token: 0 };
    assert_eq!(reply_with(&config(), &cache(), &ev, m, 17), "hi <:wave:42>");
}

#[test]
fn unmatched_message_gets_no_reply() {
    let ev = event("Hello hell", false, false, Some(1));
    assert!(replies(&config(), &cache(), &ev).is_empty());
}
