//! Custom emoji: their mention markup, shortcode substitution in a reply,
//! and the per-server cache of emoji lists.

use std::collections::HashMap;

use vstd::prelude::*;

use crate::text::{append_chars, chars_of, decimal, push_decimal, replace_chars, replaced};

verus! {

broadcast use vstd::std_specs::hash::group_hash_axioms;

/// A custom emoji of a server.
#[derive(Clone, Debug)]
pub struct EmojiRecord {
    pub name: String,
    pub id: u64,
    pub animated: bool,
}

/// The shortcode that stands for the emoji called `name`: `:name:`.
pub open spec fn shortcode(name: Seq<char>) -> Seq<char> {
    seq![':'] + name + seq![':']
}

/// The markup that shows the emoji: `<:name:id>`, or `<a:name:id>` for an
/// animated one, with the id in decimal.
pub open spec fn mention(e: EmojiRecord) -> Seq<char> {
    (if e.animated {
        seq!['<', 'a', ':']
    } else {
        seq!['<', ':']
    }) + e.name@ + seq![':'] + decimal(e.id as nat) + seq!['>']
}

/// `text` with the shortcode of each emoji of `emojis` replaced by its
/// markup, emoji by emoji in list order.
pub open spec fn substituted(text: Seq<char>, emojis: Seq<EmojiRecord>) -> Seq<char>
    decreases emojis.len(),
{
    if emojis.len() == 0 {
        text
    } else {
        replaced(
            substituted(text, emojis.drop_last()),
            shortcode(emojis.last().name@),
            mention(emojis.last()),
        )
    }
}

impl EmojiRecord {
    /// The shortcode of this emoji, `:name:`.
    pub fn shortcode(&self) -> (r: String)
        ensures
            r@ == shortcode(self.name@),
    {
        let mut r = String::new();
        let colon = [':'];
        append_chars(&mut r, &colon);
        r.append(self.name.as_str());
        append_chars(&mut r, &colon);
        assert(r@ =~= shortcode(self.name@));
        r
    }

    /// The markup that shows this emoji in a message.
    pub fn mention(&self) -> (r: String)
        ensures
            r@ == mention(*self),
    {
        let mut r = String::new();
        if self.animated {
            append_chars(&mut r, &['<', 'a', ':']);
        } else {
            append_chars(&mut r, &['<', ':']);
        }
        r.append(self.name.as_str());
        append_chars(&mut r, &[':']);
        push_decimal(&mut r, self.id);
        append_chars(&mut r, &['>']);
        assert(r@ =~= mention(*self));
        r
    }
}

/// Replaces the shortcode of every emoji of `emojis` in `text` with that
/// emoji's markup. Shortcodes of unknown emoji are left as they are.
pub fn substitute_emojis(text: &str, emojis: &Vec<EmojiRecord>) -> (r: String)
    ensures
        r@ == substituted(text@, emojis@),
{
    let mut cur = chars_of(text);
    let mut i: usize = 0;
    while i < emojis.len()
        invariant
            i <= emojis@.len(),
            cur@ == substituted(text@, emojis@.subrange(0, i as int)),
        decreases emojis@.len() - i,
    {
        let code = emojis[i].shortcode();
        let tag = emojis[i].mention();
        let pat = chars_of(code.as_str());
        let rep = chars_of(tag.as_str());
        cur = replace_chars(cur.as_slice(), pat.as_slice(), rep.as_slice());
        let ghost done = emojis@.subrange(0, i + 1);
        assert(done.drop_last() =~= emojis@.subrange(0, i as int));
        i += 1;
    }
    assert(emojis@.subrange(0, i as int) =~= emojis@);
    let mut r = String::new();
    append_chars(&mut r, cur.as_slice());
    assert(r@ =~= cur@);
    r
}

/// Whether `ensure` on `server` must fetch the emoji list: when forced, or
/// when nothing is cached for the server yet.
pub open spec fn fetch_needed(cached: Map<u64, Vec<EmojiRecord>>, server: u64, force: bool) -> bool {
    force || !cached.contains_key(server)
}

/// The cache after a fetch for `server` came back with `fetched`: a list
/// replaces the entry wholesale, a failure leaves the cache as it was.
pub open spec fn after_fetch(
    cached: Map<u64, Vec<EmojiRecord>>,
    server: u64,
    fetched: Option<Vec<EmojiRecord>>,
) -> Map<u64, Vec<EmojiRecord>> {
    match fetched {
        Some(list) => cached.insert(server, list),
        None => cached,
    }
}

/// The cache after a whole `ensure(server, force)`: a fetch is made only
/// where one is needed, and its outcome is `fetched`.
pub open spec fn after_ensure(
    cached: Map<u64, Vec<EmojiRecord>>,
    server: u64,
    force: bool,
    fetched: Option<Vec<EmojiRecord>>,
) -> Map<u64, Vec<EmojiRecord>> {
    if fetch_needed(cached, server, force) {
        after_fetch(cached, server, fetched)
    } else {
        cached
    }
}

/// The emoji lists of the servers seen so far, by server id. Entries are
/// only ever inserted or replaced, never removed.
#[derive(Debug)]
pub struct EmojiCache {
    pub servers: HashMap<u64, Vec<EmojiRecord>>,
}

impl EmojiCache {
    /// An empty cache.
    pub fn new() -> (r: EmojiCache)
        ensures
            r.servers@ == Map::<u64, Vec<EmojiRecord>>::empty(),
    {
        EmojiCache { servers: HashMap::new() }
    }

    /// Whether `ensure(server, force)` has to fetch the server's emoji list.
    /// A forced refresh always fetches; otherwise only a missing entry does.
    pub fn needs_fetch(&self, server: u64, force: bool) -> (r: bool)
        ensures
            r == fetch_needed(self.servers@, server, force),
            force ==> r,
    {
        force || !self.servers.contains_key(&server)
    }

    /// Records the outcome of a fetch for `server`: a list replaces or
    /// inserts the entry, a failure (`None`) changes nothing.
    pub fn record_fetch(&mut self, server: u64, fetched: Option<Vec<EmojiRecord>>)
        ensures
            final(self).servers@ == after_fetch(old(self).servers@, server, fetched),
    {
        match fetched {
            Some(list) => {
                self.servers.insert(server, list);
            },
            None => {},
        }
    }

    /// The cached emoji list of `server`, if there is one. Never fetches.
    pub fn lookup(&self, server: u64) -> (r: Option<&Vec<EmojiRecord>>)
        ensures
            r matches Some(list) ==> self.servers@.contains_key(server) && *list
                == self.servers@[server],
            r is None ==> !self.servers@.contains_key(server),
    {
        self.servers.get(&server)
    }
}

/// Two `ensure(server, false)` in a row fetch at most once: once the first
/// has a list for the server (it was cached, or its fetch succeeded), the
/// second needs no fetch and leaves the cache as it is.
pub proof fn lemma_ensure_twice_fetches_once(
    cached: Map<u64, Vec<EmojiRecord>>,
    server: u64,
    first: Option<Vec<EmojiRecord>>,
    second: Option<Vec<EmojiRecord>>,
)
    requires
        fetch_needed(cached, server, false) ==> first is Some,
    ensures
        !fetch_needed(after_ensure(cached, server, false, first), server, false),
        after_ensure(after_ensure(cached, server, false, first), server, false, second)
            == after_ensure(cached, server, false, first),
{
}

/// A forced `ensure` fetches whatever the cache holds, and its successful
/// outcome becomes the server's entry.
pub proof fn lemma_forced_ensure_fetches(
    cached: Map<u64, Vec<EmojiRecord>>,
    server: u64,
    list: Vec<EmojiRecord>,
)
    ensures
        fetch_needed(cached, server, true),
        after_ensure(cached, server, true, Some(list))[server] == list,
        after_ensure(cached, server, true, Some(list)).contains_key(server),
{
}

} // verus!
