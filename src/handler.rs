//! Deciding what to do with an incoming message.

use vstd::prelude::*;

use crate::config::SlacordConfig;
use crate::emoji::{EmojiCache, EmojiRecord};
use crate::matcher::{all_matches, find_matches, Match};
use crate::render::{render, render_with, rendered};
use crate::text::words;

verus! {

/// What the bot learns of a message it receives.
#[derive(Clone, Debug)]
pub struct MessageEvent {
    /// The server it was posted in, if any.
    pub server_id: Option<u64>,
    pub author_is_bot: bool,
    pub has_webhook_id: bool,
    pub text: String,
}

/// Messages of bots and of webhooks are never answered, so that bots do
/// not answer each other forever.
pub open spec fn ignored(ev: MessageEvent) -> bool {
    ev.author_is_bot || ev.has_webhook_id
}

/// The cached emoji list that applies to a message from `server`.
pub open spec fn emojis_for(cache: EmojiCache, server: Option<u64>) -> Option<Vec<EmojiRecord>> {
    match server {
        Some(s) => if cache.servers@.contains_key(s) {
            Some(cache.servers@[s])
        } else {
            None
        },
        None => None,
    }
}

/// The reply text for a match, picked by `draw`.
pub open spec fn reply_text(
    config: SlacordConfig,
    cache: EmojiCache,
    ev: MessageEvent,
    m: Match,
    draw: nat,
) -> Seq<char> {
    let rule = config.responses@[m.entry as int];
    match emojis_for(cache, ev.server_id) {
        Some(list) => rendered(rule, draw, Some(&list)),
        None => rendered(rule, draw, None),
    }
}

/// `rs` are the replies to `ev`, one per match and in match order, the
/// reply to each match picked by the draw at the same position.
pub open spec fn replies_drawn(
    config: SlacordConfig,
    cache: EmojiCache,
    ev: MessageEvent,
    draws: Seq<nat>,
    rs: Seq<String>,
) -> bool {
    let ms = all_matches(config.responses@, words(ev.text@));
    &&& rs.len() == ms.len()
    &&& draws.len() == ms.len()
    &&& forall|i: int|
        0 <= i < ms.len() ==> (#[trigger] rs[i])@ == reply_text(config, cache, ev, ms[i], draws[i])
}

impl MessageEvent {
    /// Whether the message is to be looked at at all.
    pub fn should_handle(&self) -> (r: bool)
        ensures
            r == !ignored(*self),
    {
        !(self.author_is_bot || self.has_webhook_id)
    }

    /// The server whose emoji list must be in the cache before replying:
    /// none for an ignored message or one posted outside a server.
    pub fn emoji_server(&self) -> (r: Option<u64>)
        ensures
            r == if ignored(*self) {
                None
            } else {
                self.server_id
            },
    {
        if self.should_handle() {
            self.server_id
        } else {
            None
        }
    }
}

/// The emoji list that applies to a message from `server`, looked up in the cache.
pub fn lookup_emojis<'a>(cache: &'a EmojiCache, server: Option<u64>) -> (r: Option<&'a Vec<EmojiRecord>>)
    ensures
        r matches Some(list) ==> emojis_for(*cache, server) == Some(*list),
        r is None ==> emojis_for(*cache, server) is None,
{
    match server {
        Some(s) => cache.lookup(s),
        None => None,
    }
}

/// The text of the reply for match `m`, picked by `draw`.
pub fn reply_with(
    config: &SlacordConfig,
    cache: &EmojiCache,
    ev: &MessageEvent,
    m: Match,
    draw: usize,
) -> (r: String)
    requires
        config.well_formed(),
        m.entry < config.responses@.len(),
    ensures
        r@ == reply_text(*config, *cache, *ev, m, draw as nat),
{
    let rule = &config.responses[m.entry];
    render_with(rule, draw, lookup_emojis(cache, ev.server_id))
}

/// The replies to a message, one per match and in match order, each a
/// reply of the matched rule picked at random. An ignored message gets
/// none, and its text is not even looked at.
pub fn replies(config: &SlacordConfig, cache: &EmojiCache, ev: &MessageEvent) -> (r: Vec<String>)
    requires
        config.well_formed(),
    ensures
        ignored(*ev) ==> r@.len() == 0,
        !ignored(*ev) ==> exists|draws: Seq<nat>| #[trigger] replies_drawn(*config, *cache, *ev, draws, r@),
{
    let mut out: Vec<String> = Vec::new();
    if !ev.should_handle() {
        return out;
    }
    let found = find_matches(config, ev.text.as_str());
    let emojis = lookup_emojis(cache, ev.server_id);
    let mut i: usize = 0;
    let ghost mut draws: Seq<nat> = seq![];
    while i < found.len()
        invariant
            config.well_formed(),
            found@ == all_matches(config.responses@, words(ev.text@)),
            forall|j: int| 0 <= j < found@.len() ==> (#[trigger] found@[j]).entry < config.responses@.len(),
            i <= found@.len(),
            out@.len() == i,
            draws.len() == i,
            emojis matches Some(list) ==> emojis_for(*cache, ev.server_id) == Some(*list),
            emojis is None ==> emojis_for(*cache, ev.server_id) is None,
            forall|j: int|
                0 <= j < i ==> (#[trigger] out@[j])@ == reply_text(
                    *config,
                    *cache,
                    *ev,
                    found@[j],
                    draws[j],
                ),
        decreases found@.len() - i,
    {
        let m = found[i];
        let rule = &config.responses[m.entry];
        let reply = render(rule, emojis);
        let ghost d = choose|d: nat| reply@ == rendered(*rule, d, emojis);
        assert(reply@ == reply_text(*config, *cache, *ev, m, d));
        out.push(reply);
        proof {
            draws = draws.push(d);
        }
        i += 1;
    }
    assert(replies_drawn(*config, *cache, *ev, draws, out@));
    out
}

} // verus!
