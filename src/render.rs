//! Turning a matched rule into the text of a reply.

use vstd::prelude::*;

use crate::config::TriggerResponse;
use crate::emoji::{substitute_emojis, substituted, EmojiRecord};

verus! {

/// The reply of index `draw % n` among the rule's `n` replies.
pub open spec fn picked(rule: TriggerResponse, draw: nat) -> Seq<char> {
    rule.responses@[(draw % rule.responses@.len()) as int]@
}

/// The reply picked by `draw`, with the server's emoji shortcodes replaced
/// where the server's emoji list is known, and as written where it is not.
pub open spec fn rendered(rule: TriggerResponse, draw: nat, emojis: Option<&Vec<EmojiRecord>>) -> Seq<
    char,
> {
    match emojis {
        Some(list) => substituted(picked(rule, draw), list@),
        None => picked(rule, draw),
    }
}

/// Relies on `rand::random`: a value drawn from the thread's random number
/// generator. Nothing is known of it.
pub assume_specification<T>[ rand::random::<T> ]() -> (r: T)
    where
        rand::distributions::Standard: rand::distributions::Distribution<T>,
;

/// The index that `draw` picks among `n` replies.
pub fn pick_index(draw: usize, n: usize) -> (r: usize)
    requires
        n > 0,
    ensures
        r == draw % n,
        r < n,
{
    draw % n
}

/// Every reply of a rule can be picked: the draw equal to its index picks it,
/// and so does every draw that many rule lengths further on.
pub proof fn lemma_every_reply_reachable(rule: TriggerResponse, index: int, k: nat)
    requires
        rule.well_formed(),
        0 <= index < rule.responses@.len(),
    ensures
        picked(rule, (index + k * rule.responses@.len()) as nat) == rule.responses@[index]@,
{
    let n = rule.responses@.len() as int;
    vstd::arithmetic::div_mod::lemma_mod_multiples_vanish(k as int, index, n);
    vstd::arithmetic::div_mod::lemma_small_mod(index as nat, n as nat);
    assert((index + k * n) % n == index);
}

/// Renders the reply of `rule` picked by `draw`, for a server whose emoji
/// list is `emojis` (`None` where it is not known).
pub fn render_with(rule: &TriggerResponse, draw: usize, emojis: Option<&Vec<EmojiRecord>>) -> (r:
    String)
    requires
        rule.well_formed(),
    ensures
        r@ == rendered(*rule, draw as nat, emojis),
{
    let index = pick_index(draw, rule.responses.len());
    let text = rule.responses[index].as_str();
    match emojis {
        Some(list) => substitute_emojis(text, list),
        None => text.to_owned(),
    }
}

/// Renders one reply of `rule`, picked at random: some reply of the rule,
/// with the server's emoji shortcodes replaced where its list is known.
pub fn render(rule: &TriggerResponse, emojis: Option<&Vec<EmojiRecord>>) -> (r: String)
    requires
        rule.well_formed(),
    ensures
        exists|draw: nat| r@ == rendered(*rule, draw, emojis),
{
    let draw = rand::random::<usize>();
    render_with(rule, draw, emojis)
}

} // verus!
