//! Finding the rules that a message sets off.

use vstd::prelude::*;

use crate::config::{SlacordConfig, TriggerResponse};
use crate::text::{lemma_words_len, split_words, words};

verus! {

/// A word of a message that equals a trigger: the rule's position in the
/// configuration, the trigger's position in the rule, the word's position
/// in the message.
#[derive(Clone, Copy, Debug, PartialEq, Eq, Structural)]
pub struct Match {
    pub entry: usize,
    pub trigger: usize,
    pub token: usize,
}

/// The triggers of a rule as character sequences.
pub open spec fn triggers_of(rule: TriggerResponse) -> Seq<Seq<char>> {
    rule.triggers.deep_view()
}

/// The matches of trigger `t` of rule `e` among the first `n` words.
pub open spec fn token_hits(e: int, t: int, trigger: Seq<char>, toks: Seq<Seq<char>>, n: int) -> Seq<
    Match,
>
    decreases n,
{
    if n <= 0 {
        seq![]
    } else {
        let rest = token_hits(e, t, trigger, toks, n - 1);
        if toks[n - 1] == trigger {
            rest.push(Match { entry: e as usize, trigger: t as usize, token: (n - 1) as usize })
        } else {
            rest
        }
    }
}

/// The matches of the first `m` triggers of rule `e`, trigger by trigger.
pub open spec fn trigger_hits(e: int, triggers: Seq<Seq<char>>, toks: Seq<Seq<char>>, m: int) -> Seq<
    Match,
>
    decreases m,
{
    if m <= 0 {
        seq![]
    } else {
        trigger_hits(e, triggers, toks, m - 1) + token_hits(
            e,
            m - 1,
            triggers[m - 1],
            toks,
            toks.len() as int,
        )
    }
}

/// The matches of the first `n` rules, rule by rule.
pub open spec fn entry_hits(rules: Seq<TriggerResponse>, toks: Seq<Seq<char>>, n: int) -> Seq<Match>
    decreases n,
{
    if n <= 0 {
        seq![]
    } else {
        entry_hits(rules, toks, n - 1) + trigger_hits(
            n - 1,
            triggers_of(rules[n - 1]),
            toks,
            triggers_of(rules[n - 1]).len() as int,
        )
    }
}

/// Every match of the rules against the words `toks`: in rule order, then
/// trigger order, then word order. A trigger that occurs as two words
/// matches twice.
pub open spec fn all_matches(rules: Seq<TriggerResponse>, toks: Seq<Seq<char>>) -> Seq<Match> {
    entry_hits(rules, toks, rules.len() as int)
}

/// `m` names a rule, one of its triggers and a word equal to that trigger.
pub open spec fn is_hit(rules: Seq<TriggerResponse>, toks: Seq<Seq<char>>, m: Match) -> bool {
    &&& m.entry < rules.len()
    &&& m.trigger < triggers_of(rules[m.entry as int]).len()
    &&& m.token < toks.len()
    &&& toks[m.token as int] == triggers_of(rules[m.entry as int])[m.trigger as int]
}

/// Finds every match of the configuration's triggers among the words of `text`.
pub fn find_matches(config: &SlacordConfig, text: &str) -> (r: Vec<Match>)
    ensures
        r@ == all_matches(config.responses@, words(text@)),
        forall|i: int| 0 <= i < r@.len() ==> (#[trigger] r@[i]).entry < config.responses@.len(),
{
    let toks = split_words(text);
    let ghost tv = toks.deep_view();
    let rules = &config.responses;
    let mut out: Vec<Match> = Vec::new();
    let mut e: usize = 0;
    while e < rules.len()
        invariant
            e <= rules@.len(),
            tv == toks.deep_view(),
            out@ == entry_hits(rules@, tv, e as int),
            forall|j: int| 0 <= j < out@.len() ==> (#[trigger] out@[j]).entry < rules@.len(),
        decreases rules@.len() - e,
    {
        let triggers = &rules[e].triggers;
        let ghost trv = triggers.deep_view();
        let ghost base = out@;
        let mut t: usize = 0;
        while t < triggers.len()
            invariant
                e < rules@.len(),
                triggers == rules@[e as int].triggers,
                trv == triggers.deep_view(),
                t <= triggers@.len(),
                tv == toks.deep_view(),
                out@ == base + trigger_hits(e as int, trv, tv, t as int),
                forall|j: int| 0 <= j < out@.len() ==> (#[trigger] out@[j]).entry < rules@.len(),
            decreases triggers@.len() - t,
        {
            let ghost mid = out@;
            let mut k: usize = 0;
            while k < toks.len()
                invariant
                    e < rules@.len(),
                    t < triggers@.len(),
                    trv == triggers.deep_view(),
                    tv == toks.deep_view(),
                    k <= toks@.len(),
                    out@ == mid + token_hits(e as int, t as int, trv[t as int], tv, k as int),
                    forall|j: int| 0 <= j < out@.len() ==> (#[trigger] out@[j]).entry < rules@.len(),
                decreases toks@.len() - k,
            {
                if toks[k] == triggers[t] {
                    out.push(Match { entry: e, trigger: t, token: k });
                }
                k += 1;
            }
            t += 1;
            assert(out@ =~= base + trigger_hits(e as int, trv, tv, t as int));
        }
        e += 1;
        assert(out@ =~= entry_hits(rules@, tv, e as int));
    }
    out
}

proof fn lemma_push_contains(s: Seq<Match>, x: Match, m: Match)
    ensures
        s.push(x).contains(m) <==> (s.contains(m) || m == x),
{
    if s.push(x).contains(m) {
        let i = choose|i: int| 0 <= i < s.push(x).len() && s.push(x)[i] == m;
        if i < s.len() {
            assert(s[i] == m);
        }
    }
    if s.contains(m) {
        let i = choose|i: int| 0 <= i < s.len() && s[i] == m;
        assert(s.push(x)[i] == m);
    }
    if m == x {
        assert(s.push(x)[s.len() as int] == m);
    }
}

proof fn lemma_concat_contains(a: Seq<Match>, b: Seq<Match>, m: Match)
    ensures
        (a + b).contains(m) <==> (a.contains(m) || b.contains(m)),
{
    if (a + b).contains(m) {
        let i = choose|i: int| 0 <= i < (a + b).len() && (a + b)[i] == m;
        if i < a.len() {
            assert(a[i] == m);
        } else {
            assert(b[i - a.len()] == m);
        }
    }
    if a.contains(m) {
        let i = choose|i: int| 0 <= i < a.len() && a[i] == m;
        assert((a + b)[i] == m);
    }
    if b.contains(m) {
        let i = choose|i: int| 0 <= i < b.len() && b[i] == m;
        assert((a + b)[a.len() + i] == m);
    }
}

proof fn lemma_token_hits(e: int, t: int, trigger: Seq<char>, toks: Seq<Seq<char>>, n: int, m: Match)
    requires
        0 <= e <= usize::MAX,
        0 <= t <= usize::MAX,
        0 <= n <= toks.len(),
        toks.len() <= usize::MAX,
    ensures
        token_hits(e, t, trigger, toks, n).contains(m) <==> (m.entry == e && m.trigger == t
            && m.token < n && toks[m.token as int] == trigger),
    decreases n,
{
    if n > 0 {
        lemma_token_hits(e, t, trigger, toks, n - 1, m);
        let x = Match { entry: e as usize, trigger: t as usize, token: (n - 1) as usize };
        let rest = token_hits(e, t, trigger, toks, n - 1);
        if toks[n - 1] == trigger {
            lemma_push_contains(rest, x, m);
        }
    }
}

proof fn lemma_trigger_hits(e: int, triggers: Seq<Seq<char>>, toks: Seq<Seq<char>>, k: int, m: Match)
    requires
        0 <= e <= usize::MAX,
        0 <= k <= triggers.len(),
        triggers.len() <= usize::MAX,
        toks.len() <= usize::MAX,
    ensures
        trigger_hits(e, triggers, toks, k).contains(m) <==> (m.entry == e && m.trigger < k
            && m.token < toks.len() && toks[m.token as int] == triggers[m.trigger as int]),
    decreases k,
{
    if k > 0 {
        lemma_trigger_hits(e, triggers, toks, k - 1, m);
        lemma_token_hits(e, k - 1, triggers[k - 1], toks, toks.len() as int, m);
        lemma_concat_contains(
            trigger_hits(e, triggers, toks, k - 1),
            token_hits(e, k - 1, triggers[k - 1], toks, toks.len() as int),
            m,
        );
    }
}

proof fn lemma_entry_hits(rules: Seq<TriggerResponse>, toks: Seq<Seq<char>>, n: int, m: Match)
    requires
        0 <= n <= rules.len(),
        rules.len() <= usize::MAX,
        toks.len() <= usize::MAX,
        forall|i: int| 0 <= i < rules.len() ==> #[trigger] triggers_of(rules[i]).len() <= usize::MAX,
    ensures
        entry_hits(rules, toks, n).contains(m) <==> (m.entry < n && is_hit(rules, toks, m)),
    decreases n,
{
    if n > 0 {
        let trs = triggers_of(rules[n - 1]);
        lemma_entry_hits(rules, toks, n - 1, m);
        assert(trs.len() <= usize::MAX);
        lemma_trigger_hits(n - 1, trs, toks, trs.len() as int, m);
        lemma_concat_contains(
            entry_hits(rules, toks, n - 1),
            trigger_hits(n - 1, trs, toks, trs.len() as int),
            m,
        );
    }
}

/// A message is matched by exactly the (rule, trigger, word) triples in
/// which the word equals the trigger: a trigger that occurs among the words
/// is reported, and a message none of whose words is a trigger has no match.
pub proof fn lemma_matches_exact(config: SlacordConfig, text: Seq<char>)
    requires
        text.len() <= usize::MAX,
        config.responses@.len() <= usize::MAX,
        forall|i: int|
            0 <= i < config.responses@.len() ==> #[trigger] config.responses@[i].triggers@.len()
                <= usize::MAX,
    ensures
        forall|m: Match|
            #[trigger] all_matches(config.responses@, words(text)).contains(m) <==> is_hit(
                config.responses@,
                words(text),
                m,
            ),
        (forall|e: int, t: int, k: int|
            0 <= e < config.responses@.len() && 0 <= t < triggers_of(config.responses@[e]).len()
                && 0 <= k < words(text).len() && #[trigger] words(text)[k]
                == #[trigger] triggers_of(config.responses@[e])[t] ==> all_matches(
                config.responses@,
                words(text),
            ).contains(Match { entry: e as usize, trigger: t as usize, token: k as usize })),
        all_matches(config.responses@, words(text)).len() == 0 <==> !exists|m: Match|
            is_hit(config.responses@, words(text), m),
{
    let rules = config.responses@;
    let toks = words(text);
    lemma_words_len(text);
    assert forall|i: int| 0 <= i < rules.len() implies #[trigger] triggers_of(rules[i]).len()
        <= usize::MAX by {
        assert(rules[i].triggers@.len() <= usize::MAX);
        assert(triggers_of(rules[i]).len() == rules[i].triggers@.len());
    }
    assert forall|m: Match| #[trigger] all_matches(rules, toks).contains(m) <==> is_hit(rules, toks, m) by {
        lemma_entry_hits(rules, toks, rules.len() as int, m);
    }
    let ms = all_matches(rules, toks);
    if ms.len() > 0 {
        assert(ms.contains(ms[0]));
    }
    if exists|m: Match| is_hit(rules, toks, m) {
        let m = choose|m: Match| is_hit(rules, toks, m);
        assert(ms.contains(m));
    }
}

} // verus!
