//! Which session serves which chat, and what is remembered of each chat for the
//! title of its thread.
use dashmap::DashMap;
use std::collections::VecDeque;
use std::sync::Arc;
use vstd::prelude::*;
use vstd::string::*;

use crate::config::Config;
use crate::maps;
use crate::session::SessionKey;
use crate::text;

verus! {

/// The most recent messages that are remembered of a chat.
pub const MAX_STORED_MESSAGES: usize = 12;

/// The most messages that make up a title.
pub const MAX_CONTEXT_MESSAGES: usize = 5;

/// The most characters of the messages that make up a title.
pub const MAX_CONTEXT_CHARS: usize = 180;

/// The most characters that are remembered of a message.
pub const MAX_SINGLE_MESSAGE_CHARS: usize = 96;

/// Data used to derive a forum topic title update.
#[derive(Debug)]
pub struct ThreadTitleData {
    pub total_messages: usize,
    pub context_snippet: String,
}

/// What is remembered of a message: its first characters, on one line.
pub open spec fn normalized(text: Seq<char>) -> Seq<char> {
    let compact = text::trimmed(text::compacted(text));
    if compact.len() <= MAX_SINGLE_MESSAGE_CHARS {
        compact
    } else {
        compact.take(MAX_SINGLE_MESSAGE_CHARS as int)
    }
}

/// What is remembered of a message.
pub fn normalize_for_title(text: &str) -> (r: String)
    ensures
        r@ == normalized(text@),
{
    let compact = text::compact_line(text);
    let v = text::chars_of(compact.as_str());
    let t = text::trim_chars(v.as_slice());
    let n: usize = t.len();
    if n <= MAX_SINGLE_MESSAGE_CHARS {
        text::string_of(t.as_slice())
    } else {
        let head = text::sub_chars(t.as_slice(), 0, MAX_SINGLE_MESSAGE_CHARS);
        assert(head@ =~= t@.take(MAX_SINGLE_MESSAGE_CHARS as int));
        text::string_of(head.as_slice())
    }
}

/// The remembered messages after another one: the last few that are not empty.
pub open spec fn remembered(history: Seq<Seq<char>>, message: Seq<char>) -> Seq<Seq<char>> {
    if message.len() == 0 {
        history
    } else {
        let all = history.push(message);
        if all.len() <= MAX_STORED_MESSAGES {
            all
        } else {
            all.skip(all.len() - MAX_STORED_MESSAGES)
        }
    }
}

/// How much longer a message makes a title that holds `count` messages already.
pub open spec fn added_chars(message: Seq<char>, count: nat) -> nat {
    if count == 0 {
        message.len()
    } else {
        3 + message.len()
    }
}

/// The messages that make up a title, beside `count` later ones of `used` characters:
/// the latest ones, as many as fit.
pub open spec fn picked(history: Seq<Seq<char>>, used: nat, count: nat) -> Seq<Seq<char>>
    decreases history.len(),
{
    if history.len() == 0 || count >= MAX_CONTEXT_MESSAGES {
        Seq::empty()
    } else if history.last().len() == 0 {
        picked(history.drop_last(), used, count)
    } else if used + added_chars(history.last(), count) > MAX_CONTEXT_CHARS {
        Seq::empty()
    } else {
        picked(
            history.drop_last(),
            used + added_chars(history.last(), count),
            count + 1,
        ).push(history.last())
    }
}

/// The title that remembered messages make up.
pub open spec fn snippet(history: Seq<Seq<char>>) -> Seq<char> {
    text::join(picked(history, 0, 0), " · "@)
}

/// The messages in a history.
pub open spec fn messages(history: VecDeque<String>) -> Seq<Seq<char>> {
    text::strings(history@)
}

/// The title that remembered messages make up.
fn context_snippet(history: &VecDeque<String>) -> (r: String)
    ensures
        r@ == snippet(messages(*history)),
{
    let ghost all = messages(*history);
    let mut reversed: Vec<usize> = Vec::new();
    let mut used: usize = 0;
    let mut i: usize = history.len();
    let mut full = false;
    let ghost mut tail: Seq<Seq<char>> = Seq::empty();
    proof {
        assert(all.take(all.len() as int) =~= all);
        assert(picked(all, 0, 0) =~= picked(all, 0, 0) + tail);
    }
    while i > 0 && !full
        invariant
            i <= history@.len(),
            all == messages(*history),
            used <= MAX_CONTEXT_CHARS,
            reversed@.len() == tail.len() <= MAX_CONTEXT_MESSAGES,
            forall|k: int|
                0 <= k < tail.len() ==> #[trigger] reversed@[k] < history@.len()
                    && all[reversed@[k] as int] == tail[tail.len() - 1 - k],
            !full ==> picked(all, 0, 0) == picked(
                all.take(i as int),
                used as nat,
                tail.len(),
            ) + tail,
            full ==> picked(all, 0, 0) == tail,
        decreases i + (if full { 0int } else { 1 }),
    {
        let ghost before = all.take(i as int);
        let ghost old_tail = tail;
        let ghost old_reversed = reversed@;
        assert(before.drop_last() =~= all.take(i - 1));
        assert(before.last() == history@[i - 1]@);
        if reversed.len() >= MAX_CONTEXT_MESSAGES {
            full = true;
            assert(picked(before, used as nat, tail.len()) =~= Seq::empty());
            assert(picked(all, 0, 0) =~= tail);
        } else {
            let chars = text::chars_of(history[i - 1].as_str());
            let length: usize = chars.len();
            if length > MAX_CONTEXT_CHARS {
                full = true;
            } else if length > 0 {
                let added: usize = if reversed.len() == 0 { length } else { 3 + length };
                if used + added > MAX_CONTEXT_CHARS {
                    full = true;
                } else {
                    reversed.push(i - 1);
                    used += added;
                    proof {
                        tail = seq![before.last()] + tail;
                        assert forall|k: int| 0 <= k < tail.len() implies #[trigger] reversed@[k]
                            < history@.len() && all[reversed@[k] as int] == tail[tail.len() - 1
                            - k] by {
                            if k < old_tail.len() {
                                assert(reversed@[k] == old_reversed[k]);
                            }
                        }
                        let rest = picked(all.take(i - 1), used as nat, tail.len());
                        assert(rest.push(before.last()) + old_tail =~= rest + tail);
                    }
                }
            }
            if full {
                assert(picked(before, used as nat, tail.len()) =~= Seq::empty());
                assert(picked(all, 0, 0) =~= tail);
            }
        }
        i -= 1;
    }
    proof {
        if !full {
            assert(all.take(0) =~= Seq::empty());
            assert(picked(all.take(0), used as nat, tail.len()) =~= Seq::empty());
            assert(picked(all, 0, 0) =~= tail);
        }
    }
    let mut selected: Vec<String> = Vec::new();
    let n: usize = reversed.len();
    let mut j: usize = 0;
    while j < n
        invariant
            j <= n,
            n == reversed@.len() == tail.len(),
            all == messages(*history),
            forall|k: int|
                0 <= k < tail.len() ==> #[trigger] reversed@[k] < history@.len()
                    && all[reversed@[k] as int] == tail[tail.len() - 1 - k],
            text::strings(selected@) == tail.take(j as int),
        decreases n - j,
    {
        let k: usize = reversed[n - 1 - j];
        let ghost before = text::strings(selected@);
        selected.push(history[k].clone());
        assert(text::strings(selected@) =~= before.push(tail[j as int]));
        assert(tail.take(j + 1) =~= before.push(tail[j as int]));
        j += 1;
    }
    assert(tail.take(n as int) =~= tail);
    text::join_strings(selected.as_slice(), " · ")
}

/// Where the session for a chat comes from.
#[derive(Debug, Clone, Copy, PartialEq, Eq, Structural)]
pub enum SessionSource {
    /// The chat has this session already.
    Existing(usize),
    /// This session was made ahead and is now to be installed.
    Warm(usize),
    /// A session has to be created and installed.
    Create,
}

/// What became of a session that was to serve a chat.
#[derive(Debug, Clone, Copy, PartialEq, Eq, Structural)]
pub struct Installed {
    /// The session that serves the chat.
    pub session: usize,
    /// Whether it is the one that was to serve it.
    pub is_new: bool,
    /// Whether to start to fill the pool of sessions.
    pub refill: bool,
}

/// The histories as plain values.
pub open spec fn all_messages(m: Map<SessionKey, VecDeque<String>>) -> Map<
    SessionKey,
    Seq<Seq<char>>,
> {
    m.map_values(|h: VecDeque<String>| messages(h))
}

/// The remembered messages of a chat.
pub open spec fn history_at(
    histories: Map<SessionKey, Seq<Seq<char>>>,
    key: SessionKey,
) -> Seq<Seq<char>> {
    if histories.contains_key(key) {
        histories[key]
    } else {
        Seq::empty()
    }
}

/// The number of messages of a chat.
pub open spec fn count_at(counters: Map<SessionKey, usize>, key: SessionKey) -> nat {
    if counters.contains_key(key) {
        counters[key] as nat
    } else {
        0
    }
}

/// The histories after a message.
pub open spec fn histories_after(
    histories: Map<SessionKey, Seq<Seq<char>>>,
    key: SessionKey,
    text: Seq<char>,
) -> Map<SessionKey, Seq<Seq<char>>> {
    if normalized(text).len() == 0 {
        histories
    } else {
        histories.insert(key, remembered(history_at(histories, key), normalized(text)))
    }
}

/// Registry of active ACP sessions. A session is known by a number.
pub struct SessionManager {
    sessions: DashMap<SessionKey, usize>,
    message_counters: DashMap<SessionKey, usize>,
    recent_user_messages: DashMap<SessionKey, VecDeque<String>>,
    warm_pool: Vec<usize>,
    warm_refill_running: bool,
    next_session: usize,
    config: Arc<Config>,
}

impl SessionManager {
    /// The session of each chat that has one.
    pub closed spec fn active(&self) -> Map<SessionKey, usize> {
        maps::numbers(self.sessions)
    }

    /// The number of messages of each chat.
    pub closed spec fn counters(&self) -> Map<SessionKey, usize> {
        maps::numbers(self.message_counters)
    }

    /// The remembered messages of each chat.
    pub closed spec fn histories(&self) -> Map<SessionKey, Seq<Seq<char>>> {
        all_messages(maps::histories(self.recent_user_messages))
    }

    /// The sessions that were made ahead.
    pub closed spec fn pool(&self) -> Seq<usize> {
        self.warm_pool@
    }

    /// Whether the pool is being filled.
    pub closed spec fn refilling(&self) -> bool {
        self.warm_refill_running
    }

    /// How many sessions the pool is filled up to.
    pub closed spec fn target(&self) -> usize {
        self.config.warm_session_pool_size
    }

    /// The number of the next session that is made.
    pub closed spec fn next(&self) -> usize {
        self.next_session
    }

    /// Whether the registry is in order: there are only so many chats, and no session
    /// is in two places.
    pub open spec fn valid(&self) -> bool {
        &&& self.active().dom().finite()
        &&& all_apart(self.active(), self.pool(), self.next())
    }

    /// Whether a session has been made and is in nobody's use.
    pub open spec fn is_free(&self, session: usize) -> bool {
        is_unused(self.active(), self.pool(), self.next(), session)
    }

    /// Whether everything but the pool is as in `other`.
    pub open spec fn same_chats(&self, other: &SessionManager) -> bool {
        &&& self.active() == other.active()
        &&& self.counters() == other.counters()
        &&& self.histories() == other.histories()
        &&& self.target() == other.target()
        &&& self.next() == other.next()
    }

    /// A registry without sessions.
    pub fn new(config: Arc<Config>) -> (r: Self)
        ensures
            r.active() == (Map::<SessionKey, usize>::empty()),
            r.counters() == (Map::<SessionKey, usize>::empty()),
            r.histories() == (Map::<SessionKey, Seq<Seq<char>>>::empty()),
            r.pool() == Seq::<usize>::empty(),
            !r.refilling(),
            r.target() == config.warm_session_pool_size,
            r.next() == 0,
            r.valid(),
    {
        let r = SessionManager {
            sessions: maps::new_numbers(),
            message_counters: maps::new_numbers(),
            recent_user_messages: maps::new_histories(),
            warm_pool: Vec::new(),
            warm_refill_running: false,
            next_session: 0,
            config,
        };
        assert(r.histories() =~= (Map::<SessionKey, Seq<Seq<char>>>::empty()));
        r
    }

    /// Whether to start to fill the pool now: if a pool is wanted, and nobody is at it.
    pub fn ensure_warm_pool_background(&mut self) -> (r: bool)
        ensures
            r == (old(self).target() > 0 && !old(self).refilling()),
            final(self).refilling() == (old(self).refilling() || r),
            final(self).pool() == old(self).pool(),
            final(self).same_chats(old(self)),
            old(self).valid() ==> final(self).valid(),
    {
        if self.config.warm_session_pool_size == 0 {
            return false;
        }
        let running = self.warm_refill_running;
        self.warm_refill_running = true;
        !running
    }

    /// Whether the pool lacks a session.
    pub fn warm_pool_lacks(&self) -> (r: bool)
        ensures
            r == (self.pool().len() < self.target()),
    {
        self.warm_pool.len() < self.config.warm_session_pool_size
    }

    /// The number of a session that is being made, unless all numbers are used up. No
    /// session has had it.
    pub fn reserve(&mut self) -> (r: Option<usize>)
        ensures
            r == next_number(old(self).next()),
            final(self).next() == (if r is Some {
                old(self).next() + 1
            } else {
                old(self).next() as int
            }),
            final(self).active() == old(self).active(),
            final(self).counters() == old(self).counters(),
            final(self).histories() == old(self).histories(),
            final(self).pool() == old(self).pool(),
            final(self).refilling() == old(self).refilling(),
            final(self).target() == old(self).target(),
            old(self).valid() ==> final(self).valid(),
            old(self).valid() && r is Some ==> final(self).is_free(r.unwrap()),
    {
        if self.next_session == usize::MAX {
            return None;
        }
        let number: usize = self.next_session;
        self.next_session = number + 1;
        Some(number)
    }

    /// Put a session into the pool.
    pub fn add_warm(&mut self, session: usize)
        ensures
            final(self).pool() == old(self).pool().push(session),
            final(self).refilling() == old(self).refilling(),
            final(self).same_chats(old(self)),
            old(self).valid() && old(self).is_free(session) ==> final(self).valid(),
    {
        self.warm_pool.push(session);
    }

    /// Nobody fills the pool any more.
    pub fn finish_warm_refill(&mut self)
        ensures
            !final(self).refilling(),
            final(self).pool() == old(self).pool(),
            final(self).same_chats(old(self)),
            old(self).valid() ==> final(self).valid(),
    {
        self.warm_refill_running = false;
    }

    /// Returns whether an ACP session is already warm for this key.
    pub fn has_session(&self, key: &SessionKey) -> (r: bool)
        ensures
            r == self.active().contains_key(*key),
    {
        maps::has_number(&self.sessions, key)
    }

    /// How many messages of a chat have been recorded.
    pub fn message_count(&self, key: &SessionKey) -> (r: usize)
        ensures
            r == count_at(self.counters(), *key),
    {
        match maps::number_at(&self.message_counters, key) {
            Some(n) => n,
            None => 0,
        }
    }

    /// Record one user message for thread naming and return naming context.
    pub fn record_user_message_for_thread_title(&mut self, key: &SessionKey, text: &str) -> (r:
        ThreadTitleData)
        requires
            count_at(old(self).counters(), *key) < usize::MAX,
        ensures
            r.total_messages == count_at(old(self).counters(), *key) + 1,
            r.context_snippet@ == snippet(history_at(final(self).histories(), *key)),
            final(self).counters() == old(self).counters().insert(*key, r.total_messages),
            final(self).histories() == histories_after(old(self).histories(), *key, text@),
            final(self).active() == old(self).active(),
            final(self).pool() == old(self).pool(),
            final(self).refilling() == old(self).refilling(),
            final(self).target() == old(self).target(),
            final(self).next() == old(self).next(),
            old(self).valid() ==> final(self).valid(),
    {
        let total_messages: usize = self.message_count(key) + 1;
        let _before = maps::insert_number(&mut self.message_counters, *key, total_messages);
        let normalized = normalize_for_title(text);
        let ghost note = normalized@;
        let ghost old_map = maps::histories(self.recent_user_messages);
        let ghost old_history = history_at(all_messages(old_map), *key);
        let known = maps::remove_history(&mut self.recent_user_messages, key);
        let mut is_known = known.is_some();
        let mut history: VecDeque<String> = match known {
            Some(history) => history,
            None => VecDeque::new(),
        };
        assert(messages(history) =~= old_history);
        if !text::same_text(normalized.as_str(), "") {
            proof {
                reveal_strlit("");
                assert(note.len() > 0) by {
                    if note.len() == 0 {
                        assert(note =~= ""@);
                    }
                }
            }
            is_known = true;
            history.push_back(normalized);
            let ghost all = old_history.push(note);
            assert(messages(history) =~= all);
            assert(messages(history).len() == history@.len());
            let ghost mut dropped: int = 0;
            while history.len() > MAX_STORED_MESSAGES
                invariant
                    0 <= dropped <= all.len(),
                    messages(history) == all.skip(dropped),
                    history@.len() == all.len() - dropped,
                    dropped > 0 ==> all.len() - dropped >= MAX_STORED_MESSAGES,
                decreases history@.len(),
            {
                let ghost before = history@;
                assert(messages(history).len() == before.len());
                let _oldest = history.pop_front();
                proof {
                    dropped = dropped + 1;
                    assert forall|k: int| 0 <= k < history@.len() implies history@[k]@ == all[k
                        + dropped] by {
                        assert(history@[k] == before[k + 1]);
                        assert(all.skip(dropped - 1)[k + 1] == before[k + 1]@);
                    }
                    assert(messages(history) =~= all.skip(dropped));
                }
            }
            assert(messages(history) =~= remembered(old_history, note));
        } else {
            proof {
                reveal_strlit("");
            }
        }
        let context_snippet = context_snippet(&history);
        let ghost new_history = messages(history);
        if is_known {
            let _none = maps::insert_history(&mut self.recent_user_messages, *key, history);
        }
        proof {
            let after = histories_after(all_messages(old_map), *key, text@);
            assert(self.histories() =~= after);
            assert(history_at(self.histories(), *key) =~= new_history);
        }
        ThreadTitleData { total_messages, context_snippet }
    }

    /// Find the session for a chat: the one it has, or else one from the pool, which
    /// leaves it. A session that is not the chat's own has to be installed.
    pub fn get_or_create(&mut self, key: SessionKey) -> (r: SessionSource)
        ensures
            r == source_of(old(self).active(), old(self).pool(), key),
            final(self).pool() == (if r is Warm {
                old(self).pool().drop_last()
            } else {
                old(self).pool()
            }),
            final(self).refilling() == old(self).refilling(),
            final(self).same_chats(old(self)),
            old(self).valid() ==> final(self).valid(),
            old(self).valid() && r is Warm ==> final(self).is_free(r->Warm_0),
    {
        match maps::number_at(&self.sessions, &key) {
            Some(session) => SessionSource::Existing(session),
            None => match self.warm_pool.pop() {
                Some(session) => SessionSource::Warm(session),
                None => SessionSource::Create,
            },
        }
    }

    /// Let a session serve a chat, unless another one does already.
    pub fn install(&mut self, key: SessionKey, session: usize) -> (r: Installed)
        ensures
            final(self).active() == installed(old(self).active(), key, session),
            r.is_new == !old(self).active().contains_key(key),
            r.session == final(self).active()[key],
            r.refill == (r.is_new && old(self).target() > 0 && !old(self).refilling()),
            final(self).refilling() == (old(self).refilling() || r.refill),
            final(self).counters() == old(self).counters(),
            final(self).histories() == old(self).histories(),
            final(self).pool() == old(self).pool(),
            final(self).target() == old(self).target(),
            final(self).next() == old(self).next(),
            old(self).valid() && old(self).is_free(session) ==> final(self).valid(),
    {
        match maps::number_at(&self.sessions, &key) {
            Some(existing) => Installed { session: existing, is_new: false, refill: false },
            None => {
                let _none = maps::insert_number(&mut self.sessions, key, session);
                let refill = self.ensure_warm_pool_background();
                Installed { session, is_new: true, refill }
            },
        }
    }

    /// Reset a session: forget it and all that is remembered of the chat. Returns the
    /// session that the chat had, and whether to start to fill the pool.
    pub fn reset(&mut self, key: &SessionKey) -> (r: (Option<usize>, bool))
        ensures
            r.0 == old(self).active().get(*key),
            r.1 == (old(self).target() > 0 && !old(self).refilling()),
            final(self).active() == old(self).active().remove(*key),
            final(self).counters() == old(self).counters().remove(*key),
            final(self).histories() == old(self).histories().remove(*key),
            final(self).refilling() == (old(self).refilling() || r.1),
            final(self).pool() == old(self).pool(),
            final(self).target() == old(self).target(),
            final(self).next() == old(self).next(),
            old(self).valid() ==> final(self).valid(),
    {
        let session = maps::remove_number(&mut self.sessions, key);
        let _count = maps::remove_number(&mut self.message_counters, key);
        let _history = maps::remove_history(&mut self.recent_user_messages, key);
        assert(self.histories() =~= old(self).histories().remove(*key));
        let refill = self.ensure_warm_pool_background();
        (session, refill)
    }

    /// The number of chats that have a session.
    pub fn session_count(&self) -> (r: usize)
        ensures
            r == self.active().dom().len(),
    {
        maps::count_numbers(&self.sessions)
    }

    /// Number of currently ready prewarmed sessions in the idle pool.
    pub fn warm_pool_ready_count(&self) -> (r: usize)
        ensures
            r == self.pool().len(),
    {
        self.warm_pool.len()
    }
}

/// Whether a session serves a chat.
pub open spec fn serves(active: Map<SessionKey, usize>, session: usize) -> bool {
    exists|key: SessionKey| #[trigger] active.contains_key(key) && active[key] == session
}

/// Whether no session is in two places: every chat has one of its own, every place of
/// the pool holds another, and none of the pool serves a chat.
pub open spec fn all_apart(active: Map<SessionKey, usize>, pool: Seq<usize>, next: usize) -> bool {
    &&& forall|a: SessionKey, b: SessionKey| #[trigger]
        active.contains_key(a) && #[trigger] active.contains_key(b) && active[a] == active[b]
            ==> a == b
    &&& pool.no_duplicates()
    &&& forall|i: int| 0 <= i < pool.len() ==> !serves(active, #[trigger] pool[i])
    &&& forall|a: SessionKey| #[trigger] active.contains_key(a) ==> active[a] < next
    &&& forall|i: int| 0 <= i < pool.len() ==> #[trigger] pool[i] < next
}

/// Whether a session has been made and neither serves a chat nor is in the pool.
pub open spec fn is_unused(
    active: Map<SessionKey, usize>,
    pool: Seq<usize>,
    next: usize,
    session: usize,
) -> bool {
    session < next && !serves(active, session) && !pool.contains(session)
}

/// The number of a session that is being made, unless all numbers are used up.
pub open spec fn next_number(next: usize) -> Option<usize> {
    if next < usize::MAX {
        Some(next)
    } else {
        None
    }
}

/// Where the session for a chat comes from.
pub open spec fn source_of(
    active: Map<SessionKey, usize>,
    pool: Seq<usize>,
    key: SessionKey,
) -> SessionSource {
    if active.contains_key(key) {
        SessionSource::Existing(active[key])
    } else if pool.len() > 0 {
        SessionSource::Warm(pool.last())
    } else {
        SessionSource::Create
    }
}

/// The sessions after one has been installed.
pub open spec fn installed(
    active: Map<SessionKey, usize>,
    key: SessionKey,
    session: usize,
) -> Map<SessionKey, usize> {
    if active.contains_key(key) {
        active
    } else {
        active.insert(key, session)
    }
}

proof fn lemma_picked(history: Seq<Seq<char>>, used: nat, count: nat)
    requires
        count <= MAX_CONTEXT_MESSAGES,
    ensures
        ({
            let p = picked(history, used, count);
            &&& p.len() + count <= MAX_CONTEXT_MESSAGES
            &&& p.len() > 0 ==> used + added_chars(text::join(p, " · "@), count)
                <= MAX_CONTEXT_CHARS
        }),
    decreases history.len(),
{
    let sep = " · "@;
    reveal_strlit(" · ");
    if history.len() > 0 && count < MAX_CONTEXT_MESSAGES {
        let last = history.last();
        let rest = history.drop_last();
        if last.len() == 0 {
            lemma_picked(rest, used, count);
        } else if used + added_chars(last, count) <= MAX_CONTEXT_CHARS {
            let q = picked(rest, used + added_chars(last, count), count + 1);
            lemma_picked(rest, used + added_chars(last, count), count + 1);
            text::lemma_join_push(q, sep, last);
        }
    }
}

/// A title holds a few messages and never more than a set number of characters.
pub proof fn law_snippet_fits(history: Seq<Seq<char>>)
    ensures
        picked(history, 0, 0).len() <= MAX_CONTEXT_MESSAGES,
        snippet(history).len() <= MAX_CONTEXT_CHARS,
{
    lemma_picked(history, 0, 0);
}

/// Whether a history is one that recorded messages leave: short, and of short messages
/// that are not empty.
pub open spec fn history_ok(history: Seq<Seq<char>>) -> bool {
    &&& history.len() <= MAX_STORED_MESSAGES
    &&& forall|i: int|
        0 <= i < history.len() ==> 0 < #[trigger] history[i].len() <= MAX_SINGLE_MESSAGE_CHARS
}

/// However many messages are recorded, only a few are remembered, and a bounded part
/// of each.
pub proof fn law_history_stays_small(history: Seq<Seq<char>>, text: Seq<char>)
    requires
        history_ok(history),
    ensures
        history_ok(remembered(history, normalized(text))),
        normalized(text).len() <= MAX_SINGLE_MESSAGE_CHARS,
{
}

/// The messages of a title are the last ones, in order, and the latest is among them.
pub proof fn law_snippet_is_of_latest_messages(history: Seq<Seq<char>>)
    requires
        history_ok(history),
    ensures
        picked(history, 0, 0).len() <= history.len(),
        picked(history, 0, 0) == history.skip(history.len() - picked(history, 0, 0).len()),
        history.len() > 0 ==> picked(history, 0, 0).len() > 0 && picked(history, 0, 0).last()
            == history.last(),
{
    lemma_picked_suffix(history, 0, 0);
}

proof fn lemma_picked_suffix(history: Seq<Seq<char>>, used: nat, count: nat)
    requires
        forall|i: int| 0 <= i < history.len() ==> 0 < #[trigger] history[i].len(),
    ensures
        picked(history, used, count).len() <= history.len(),
        picked(history, used, count) == history.skip(
            history.len() - picked(history, used, count).len(),
        ),
    decreases history.len(),
{
    if history.len() > 0 && count < MAX_CONTEXT_MESSAGES && used + added_chars(
        history.last(),
        count,
    ) <= MAX_CONTEXT_CHARS {
        let rest = history.drop_last();
        let q = picked(rest, used + added_chars(history.last(), count), count + 1);
        lemma_picked_suffix(rest, used + added_chars(history.last(), count), count + 1);
        assert(q.push(history.last()) =~= history.skip(history.len() - q.len() - 1));
    } else {
        assert(picked(history, used, count) =~= history.skip(history.len() as int));
    }
}

/// The title that the last `n` messages make up.
pub open spec fn title_of_last(history: Seq<Seq<char>>, n: int) -> Seq<char> {
    text::join(history.skip(history.len() - n), " · "@)
}

/// How many messages a title is made of at most.
pub open spec fn most_messages(history: Seq<Seq<char>>) -> int {
    if history.len() <= MAX_CONTEXT_MESSAGES {
        history.len() as int
    } else {
        MAX_CONTEXT_MESSAGES as int
    }
}

/// Whether the last `n` messages are as many as fit into a title.
pub open spec fn are_most_that_fit(history: Seq<Seq<char>>, n: int) -> bool {
    &&& 0 <= n <= most_messages(history)
    &&& title_of_last(history, n).len() <= MAX_CONTEXT_CHARS
    &&& forall|m: int|
        n < m <= most_messages(history) ==> #[trigger] title_of_last(history, m).len()
            > MAX_CONTEXT_CHARS
}

proof fn lemma_next_does_not_fit(history: Seq<Seq<char>>, used: nat, count: nat)
    requires
        forall|i: int| 0 <= i < history.len() ==> 0 < #[trigger] history[i].len(),
    ensures
        ({
            let k = picked(history, used, count).len() as int;
            k < history.len() && count + k < MAX_CONTEXT_MESSAGES ==> used + added_chars(
                title_of_last(history, k + 1),
                count,
            ) > MAX_CONTEXT_CHARS
        }),
    decreases history.len(),
{
    let sep = " · "@;
    reveal_strlit(" · ");
    if history.len() > 0 && count < MAX_CONTEXT_MESSAGES {
        let last = history.last();
        let rest = history.drop_last();
        if used + added_chars(last, count) > MAX_CONTEXT_CHARS {
            assert(history.skip(history.len() - 1) =~= seq![last]);
        } else {
            let used2 = used + added_chars(last, count);
            lemma_next_does_not_fit(rest, used2, count + 1);
            let k = picked(rest, used2, count + 1).len() as int;
            if k < rest.len() && count + 1 + k < MAX_CONTEXT_MESSAGES {
                let q = rest.skip(rest.len() - (k + 1));
                assert(history.skip(history.len() - (k + 2)) =~= q.push(last));
                text::lemma_join_push(q, sep, last);
            }
        }
    }
}

proof fn lemma_title_grows(history: Seq<Seq<char>>, n: int, m: int)
    requires
        0 <= n <= m <= history.len(),
    ensures
        title_of_last(history, n).len() <= title_of_last(history, m).len(),
    decreases m - n,
{
    if n < m {
        lemma_title_grows(history, n, m - 1);
        let s = history.skip(history.len() - m);
        assert(s.skip(1) =~= history.skip(history.len() - (m - 1)));
    }
}

/// A title takes as many of the latest messages as fit, and never none where there are
/// any.
pub proof fn law_title_takes_as_many_as_fit(history: Seq<Seq<char>>)
    requires
        history_ok(history),
    ensures
        ({
            let n = picked(history, 0, 0).len() as int;
            &&& snippet(history) == title_of_last(history, n)
            &&& are_most_that_fit(history, n)
            &&& history.len() > 0 ==> n > 0
        }),
{
    let n = picked(history, 0, 0).len() as int;
    law_snippet_is_of_latest_messages(history);
    law_snippet_fits(history);
    lemma_next_does_not_fit(history, 0, 0);
    assert forall|m: int| n < m <= most_messages(history) implies #[trigger] title_of_last(
        history,
        m,
    ).len() > MAX_CONTEXT_CHARS by {
        lemma_title_grows(history, n + 1, m);
    }
}

/// What happens to what is remembered of chats.
pub enum MemoryStep {
    Record(SessionKey, Seq<char>),
    Reset(SessionKey),
}

/// The counters and the histories after a run that began without any.
pub open spec fn memory_after(steps: Seq<MemoryStep>) -> (
    Map<SessionKey, usize>,
    Map<SessionKey, Seq<Seq<char>>>,
)
    decreases steps.len(),
{
    if steps.len() == 0 {
        (Map::empty(), Map::empty())
    } else {
        let (counters, histories) = memory_after(steps.drop_last());
        match steps.last() {
            MemoryStep::Record(key, text) => (
                counters.insert(key, (count_at(counters, key) + 1) as usize),
                histories_after(histories, key, text),
            ),
            MemoryStep::Reset(key) => (counters.remove(key), histories.remove(key)),
        }
    }
}

/// The texts that were recorded for a chat since the beginning, or since its last reset.
pub open spec fn recorded(steps: Seq<MemoryStep>, key: SessionKey) -> Seq<Seq<char>>
    decreases steps.len(),
{
    if steps.len() == 0 {
        Seq::empty()
    } else {
        let before = recorded(steps.drop_last(), key);
        match steps.last() {
            MemoryStep::Record(k, text) if k == key => before.push(text),
            MemoryStep::Reset(k) if k == key => Seq::empty(),
            _ => before,
        }
    }
}

/// What texts come to as messages of a title: those that are not blank.
pub open spec fn notes(texts: Seq<Seq<char>>) -> Seq<Seq<char>>
    decreases texts.len(),
{
    if texts.len() == 0 {
        Seq::empty()
    } else if normalized(texts.last()).len() == 0 {
        notes(texts.drop_last())
    } else {
        notes(texts.drop_last()).push(normalized(texts.last()))
    }
}

/// The last messages, as many as are remembered.
pub open spec fn last_stored(all: Seq<Seq<char>>) -> Seq<Seq<char>> {
    if all.len() <= MAX_STORED_MESSAGES {
        all
    } else {
        all.skip(all.len() - MAX_STORED_MESSAGES)
    }
}

proof fn lemma_notes(texts: Seq<Seq<char>>)
    ensures
        notes(texts).len() <= texts.len(),
        forall|i: int|
            0 <= i < notes(texts).len() ==> 0 < #[trigger] notes(texts)[i].len()
                <= MAX_SINGLE_MESSAGE_CHARS,
    decreases texts.len(),
{
    if texts.len() > 0 {
        lemma_notes(texts.drop_last());
    }
}

proof fn lemma_memory(steps: Seq<MemoryStep>, key: SessionKey)
    requires
        steps.len() <= usize::MAX,
    ensures
        recorded(steps, key).len() <= steps.len(),
        count_at(memory_after(steps).0, key) == recorded(steps, key).len(),
        history_at(memory_after(steps).1, key) == last_stored(notes(recorded(steps, key))),
    decreases steps.len(),
{
    if steps.len() == 0 {
        assert(last_stored(notes(recorded(steps, key))) =~= Seq::empty());
    } else {
        let init = steps.drop_last();
        lemma_memory(init, key);
        let before = recorded(init, key);
        match steps.last() {
            MemoryStep::Record(k, text) => {
                if k == key {
                    assert(before.push(text).drop_last() =~= before);
                    let all = notes(before);
                    let note = normalized(text);
                    if note.len() > 0 {
                        assert(remembered(last_stored(all), note) =~= last_stored(all.push(note)));
                    }
                }
            },
            MemoryStep::Reset(k) => {
                if k == key {
                    assert(last_stored(notes(recorded(steps, key))) =~= Seq::empty());
                }
            },
        }
    }
}

/// Over any run, what is recorded of a chat goes back to its last reset: every text
/// counts, and the title is made of those that are not blank, as many of the last ones
/// as fit, the oldest first. What is recorded of other chats has no influence.
pub proof fn law_title_is_of_what_was_recorded(steps: Seq<MemoryStep>, key: SessionKey)
    requires
        steps.len() <= usize::MAX,
    ensures
        count_at(memory_after(steps).0, key) == recorded(steps, key).len(),
        ({
            let all = notes(recorded(steps, key));
            let history = history_at(memory_after(steps).1, key);
            let n = picked(history, 0, 0).len() as int;
            &&& snippet(history) == title_of_last(all, n)
            &&& are_most_that_fit(all, n)
            &&& all.len() > 0 ==> n > 0
        }),
{
    let all = notes(recorded(steps, key));
    let history = history_at(memory_after(steps).1, key);
    lemma_memory(steps, key);
    lemma_notes(recorded(steps, key));
    assert(history_ok(history)) by {
        assert forall|i: int| 0 <= i < history.len() implies 0 < #[trigger] history[i].len()
            <= MAX_SINGLE_MESSAGE_CHARS by {
            assert(history[i] == all[all.len() - history.len() + i]);
        }
    }
    law_title_takes_as_many_as_fit(history);
    assert forall|m: int| 0 <= m <= history.len() implies #[trigger] title_of_last(all, m)
        == title_of_last(history, m) by {
        assert(all.skip(all.len() - m) =~= history.skip(history.len() - m));
    }
    let n = picked(history, 0, 0).len() as int;
    assert forall|m: int| n < m <= most_messages(all) implies #[trigger] title_of_last(
        all,
        m,
    ).len() > MAX_CONTEXT_CHARS by {
        assert(title_of_last(history, m).len() > MAX_CONTEXT_CHARS);
    }
}

/// A message changes nothing for other chats.
pub proof fn law_chats_are_isolated(
    histories: Map<SessionKey, Seq<Seq<char>>>,
    counters: Map<SessionKey, usize>,
    active: Map<SessionKey, usize>,
    key: SessionKey,
    other: SessionKey,
    text: Seq<char>,
    number: usize,
)
    requires
        key != other,
    ensures
        history_at(histories_after(histories, key, text), other) == history_at(histories, other),
        count_at(counters.insert(key, number), other) == count_at(counters, other),
        source_of(installed(active, key, number), Seq::empty(), other) == source_of(
            active,
            Seq::empty(),
            other,
        ),
{
}

/// A session is installed for a chat that has none and only then is new. From then on
/// the chat has it, and what is installed later changes nothing.
pub proof fn law_session_is_kept(
    active: Map<SessionKey, usize>,
    pool: Seq<usize>,
    key: SessionKey,
    session: usize,
    later: usize,
)
    requires
        !active.contains_key(key),
    ensures
        installed(active, key, session).contains_key(key),
        source_of(installed(active, key, session), pool, key) == SessionSource::Existing(session),
        installed(installed(active, key, session), key, later) == installed(active, key, session),
{
}

/// After a reset a chat begins anew.
pub proof fn law_reset_forgets(
    active: Map<SessionKey, usize>,
    counters: Map<SessionKey, usize>,
    histories: Map<SessionKey, Seq<Seq<char>>>,
    key: SessionKey,
)
    ensures
        source_of(active.remove(key), Seq::empty(), key) == SessionSource::Create,
        count_at(counters.remove(key), key) == 0,
        history_at(histories.remove(key), key) == Seq::<Seq<char>>::empty(),
{
}

/// The first message after a reset is the whole title. Other chats keep what they have.
pub proof fn law_first_message_after_reset_is_the_title(
    active: Map<SessionKey, usize>,
    counters: Map<SessionKey, usize>,
    histories: Map<SessionKey, Seq<Seq<char>>>,
    key: SessionKey,
    other: SessionKey,
    text: Seq<char>,
)
    ensures
        count_at(counters.remove(key), key) + 1 == 1,
        snippet(history_at(histories_after(histories.remove(key), key, text), key)) == normalized(
            text,
        ),
        other != key ==> {
            &&& active.remove(key).get(other) == active.get(other)
            &&& count_at(counters.remove(key), other) == count_at(counters, other)
            &&& history_at(histories.remove(key), other) == history_at(histories, other)
        },
{
    let note = normalized(text);
    let none = Seq::<Seq<char>>::empty();
    if note.len() == 0 {
        assert(picked(none, 0, 0) =~= none);
        assert(snippet(none) =~= note);
    } else {
        let one = none.push(note);
        assert(one.drop_last() =~= none);
        assert(picked(none, note.len(), 1) =~= none);
        assert(picked(one, 0, 0) =~= one);
        assert(text::join(one, " · "@) =~= note) by {
            reveal_with_fuel(text::join, 2);
        }
    }
}

/// A reset takes a chat that has a session from the count, and no other. An installed
/// session adds a chat to it that had none.
pub proof fn law_count_follows(active: Map<SessionKey, usize>, key: SessionKey, session: usize)
    requires
        active.dom().finite(),
    ensures
        active.contains_key(key) ==> active.remove(key).dom().len() + 1 == active.dom().len(),
        !active.contains_key(key) ==> active.remove(key).dom().len() == active.dom().len(),
        active.contains_key(key) ==> installed(active, key, session).dom().len()
            == active.dom().len(),
        !active.contains_key(key) ==> installed(active, key, session).dom().len()
            == active.dom().len() + 1,
{
    assert(active.remove(key).dom() =~= active.dom().remove(key));
    assert(active.insert(key, session).dom() =~= active.dom().insert(key));
}

/// What happens to sessions.
pub enum SessionStep {
    /// A session is being made.
    Reserve,
    /// A chat asks for its session.
    GetOrCreate(SessionKey),
    /// A session is to serve a chat. If another one does, it is dropped.
    Install(SessionKey, usize),
    /// A session is put into the pool.
    AddWarm(usize),
    /// A session is dropped: it could not be made.
    Drop(usize),
    /// A chat begins anew.
    Reset(SessionKey),
}

/// Where sessions are: those that serve chats, those in the pool, and those in hand,
/// which were made or taken from the pool and not yet put anywhere.
#[verifier::ext_equal]
pub struct Registry {
    pub active: Map<SessionKey, usize>,
    pub pool: Seq<usize>,
    pub next: usize,
    pub in_hand: Set<usize>,
}

/// The registry after a step.
pub open spec fn registry_step(r: Registry, step: SessionStep) -> Registry {
    match step {
        SessionStep::Reserve => match next_number(r.next) {
            Some(n) => Registry { next: (n + 1) as usize, in_hand: r.in_hand.insert(n), ..r },
            None => r,
        },
        SessionStep::GetOrCreate(key) => match source_of(r.active, r.pool, key) {
            SessionSource::Warm(n) => Registry {
                pool: r.pool.drop_last(),
                in_hand: r.in_hand.insert(n),
                ..r
            },
            _ => r,
        },
        SessionStep::Install(key, n) => Registry {
            active: installed(r.active, key, n),
            in_hand: r.in_hand.remove(n),
            ..r
        },
        SessionStep::AddWarm(n) => Registry {
            pool: r.pool.push(n),
            in_hand: r.in_hand.remove(n),
            ..r
        },
        SessionStep::Drop(n) => Registry { in_hand: r.in_hand.remove(n), ..r },
        SessionStep::Reset(key) => Registry { active: r.active.remove(key), ..r },
    }
}

/// The registry after a run that began without sessions.
pub open spec fn registry_after(steps: Seq<SessionStep>) -> Registry
    decreases steps.len(),
{
    if steps.len() == 0 {
        Registry { active: Map::empty(), pool: Seq::empty(), next: 0, in_hand: Set::empty() }
    } else {
        registry_step(registry_after(steps.drop_last()), steps.last())
    }
}

/// Whether only sessions in hand are put anywhere.
pub open spec fn is_honest(steps: Seq<SessionStep>) -> bool
    decreases steps.len(),
{
    steps.len() == 0 || {
        &&& is_honest(steps.drop_last())
        &&& match steps.last() {
            SessionStep::Install(_, n) => registry_after(steps.drop_last()).in_hand.contains(n),
            SessionStep::AddWarm(n) => registry_after(steps.drop_last()).in_hand.contains(n),
            _ => true,
        }
    }
}

/// Whether a session has served a chat at some time of a run.
pub open spec fn has_served(steps: Seq<SessionStep>, key: SessionKey, n: usize) -> bool
    decreases steps.len(),
{
    ||| registry_after(steps).active.get(key) == Some(n)
    ||| steps.len() > 0 && has_served(steps.drop_last(), key, n)
}

proof fn lemma_registry(steps: Seq<SessionStep>)
    requires
        is_honest(steps),
    ensures
        ({
            let r = registry_after(steps);
            &&& all_apart(r.active, r.pool, r.next)
            &&& r.active.dom().finite()
            &&& forall|n: usize| #[trigger]
                r.in_hand.contains(n) ==> is_unused(r.active, r.pool, r.next, n)
        }),
    decreases steps.len(),
{
    if steps.len() > 0 {
        lemma_registry(steps.drop_last());
        let r = registry_after(steps.drop_last());
        let t = registry_after(steps);
        assert forall|n: usize| #[trigger] t.in_hand.contains(n) implies is_unused(
            t.active,
            t.pool,
            t.next,
            n,
        ) by {
            if r.in_hand.contains(n) {
                assert(is_unused(r.active, r.pool, r.next, n));
            }
        }
    }
}

proof fn lemma_served(steps: Seq<SessionStep>, key: SessionKey, n: usize)
    requires
        is_honest(steps),
        has_served(steps, key, n),
    ensures
        ({
            let r = registry_after(steps);
            &&& n < r.next
            &&& !r.in_hand.contains(n)
            &&& !r.pool.contains(n)
            &&& forall|other: SessionKey| #[trigger]
                r.active.contains_key(other) && r.active[other] == n ==> other == key
        }),
    decreases steps.len(),
{
    lemma_registry(steps);
    let t = registry_after(steps);
    if t.active.get(key) == Some(n) {
        assert(t.active.contains_key(key) && t.active[key] == n);
        assert(serves(t.active, n));
        if t.pool.contains(n) {
            let i = choose|i: int| 0 <= i < t.pool.len() && t.pool[i] == n;
            assert(!serves(t.active, t.pool[i]));
        }
    } else {
        lemma_served(steps.drop_last(), key, n);
        lemma_registry(steps.drop_last());
    }
}

/// Over any run in which only sessions in hand are put anywhere, no session ever serves
/// two chats, not even one after the other, and no session is in two places.
pub proof fn law_no_session_serves_two_chats(
    steps: Seq<SessionStep>,
    a: SessionKey,
    b: SessionKey,
    n: usize,
)
    requires
        is_honest(steps),
    ensures
        has_served(steps, a, n) && has_served(steps, b, n) ==> a == b,
        has_served(steps, a, n) && a != b ==> source_of(
            registry_after(steps).active,
            registry_after(steps).pool,
            b,
        ) != SessionSource::Existing(n) && source_of(
            registry_after(steps).active,
            registry_after(steps).pool,
            b,
        ) != SessionSource::Warm(n),
        all_apart(registry_after(steps).active, registry_after(steps).pool, registry_after(
            steps,
        ).next),
        registry_after(steps).active.dom().finite(),
    decreases steps.len(),
{
    lemma_registry(steps);
    let t = registry_after(steps);
    if has_served(steps, a, n) {
        lemma_served(steps, a, n);
        if t.pool.len() > 0 {
            assert(t.pool.contains(t.pool.last()));
        }
    }
    if has_served(steps, b, n) {
        lemma_served(steps, b, n);
    }
    if has_served(steps, a, n) && has_served(steps, b, n) {
        if t.active.get(a) == Some(n) {
            assert(t.active.contains_key(a) && t.active[a] == n);
        } else if t.active.get(b) == Some(n) {
            assert(t.active.contains_key(b) && t.active[b] == n);
        } else {
            law_no_session_serves_two_chats(steps.drop_last(), a, b, n);
        }
    }
}

/// Whether a run never resets a chat.
pub open spec fn never_resets(steps: Seq<SessionStep>, key: SessionKey) -> bool {
    forall|i: int| 0 <= i < steps.len() ==> #[trigger] steps[i] != SessionStep::Reset(key)
}

/// A chat that has a session keeps it until it is reset, whatever happens meanwhile.
pub proof fn law_session_is_kept_until_reset(
    before: Seq<SessionStep>,
    steps: Seq<SessionStep>,
    key: SessionKey,
)
    requires
        registry_after(before).active.contains_key(key),
        never_resets(steps, key),
    ensures
        ({
            let r = registry_after(before + steps);
            source_of(r.active, r.pool, key) == SessionSource::Existing(
                registry_after(before).active[key],
            )
        }),
    decreases steps.len(),
{
    if steps.len() == 0 {
        assert(before + steps =~= before);
    } else {
        let init = steps.drop_last();
        assert((before + steps).drop_last() =~= before + init);
        assert((before + steps).last() == steps.last());
        assert(steps.last() == steps[steps.len() - 1]);
        assert forall|i: int| 0 <= i < init.len() implies #[trigger] init[i] != SessionStep::Reset(
            key,
        ) by {
            assert(init[i] == steps[i]);
        }
        law_session_is_kept_until_reset(before, init, key);
    }
}

/// A session that could not be made leaves everything as it was: which chats have
/// sessions, and how many do.
pub proof fn law_failed_creation_changes_nothing(steps: Seq<SessionStep>, key: SessionKey, n: usize)
    ensures
        ({
            let r = registry_after(steps);
            let tried = registry_step(
                registry_step(
                    registry_step(r, SessionStep::GetOrCreate(key)),
                    SessionStep::Reserve,
                ),
                SessionStep::Drop(n),
            );
            tried.active == r.active
        }),
{
}

/// A whole call, when no other is under way.
pub enum SessionCall {
    /// A chat gets its session. If one has to be made, that works or not.
    GetOrCreate { key: SessionKey, made: bool },
    /// A session is made for the pool, if that works.
    Refill { made: bool },
    /// A chat begins anew.
    Reset(SessionKey),
}

/// What a chat gets: its session, and whether that is new to it; nothing where none
/// could be made.
pub open spec fn answer_to(r: Registry, key: SessionKey, made: bool) -> Option<(usize, bool)> {
    match source_of(r.active, r.pool, key) {
        SessionSource::Existing(n) => Some((n, false)),
        SessionSource::Warm(n) => Some((n, true)),
        SessionSource::Create => match next_number(r.next) {
            Some(n) if made => Some((n, true)),
            _ => None,
        },
    }
}

/// The steps of a run, with those of one more call.
pub open spec fn then_call(steps: Seq<SessionStep>, call: SessionCall) -> Seq<SessionStep> {
    let r = registry_after(steps);
    match call {
        SessionCall::GetOrCreate { key, made } => {
            let asked = steps.push(SessionStep::GetOrCreate(key));
            match (source_of(r.active, r.pool, key), answer_to(r, key, made)) {
                (SessionSource::Warm(n), _) => asked.push(SessionStep::Install(key, n)),
                (SessionSource::Create, Some((n, _))) => asked.push(SessionStep::Reserve).push(
                    SessionStep::Install(key, n),
                ),
                _ => asked,
            }
        },
        SessionCall::Refill { made } => match next_number(r.next) {
            Some(n) if made => steps.push(SessionStep::Reserve).push(SessionStep::AddWarm(n)),
            _ => steps,
        },
        SessionCall::Reset(key) => steps.push(SessionStep::Reset(key)),
    }
}

/// The steps of a run of calls.
pub open spec fn steps_of(calls: Seq<SessionCall>) -> Seq<SessionStep>
    decreases calls.len(),
{
    if calls.len() == 0 {
        Seq::empty()
    } else {
        then_call(steps_of(calls.drop_last()), calls.last())
    }
}

/// Whether a chat got a session at some time of a run of calls.
pub open spec fn was_given(calls: Seq<SessionCall>, key: SessionKey, n: usize) -> bool
    decreases calls.len(),
{
    calls.len() > 0 && {
        ||| was_given(calls.drop_last(), key, n)
        ||| match calls.last() {
            SessionCall::GetOrCreate { key: k, made } => k == key && match answer_to(
                registry_after(steps_of(calls.drop_last())),
                key,
                made,
            ) {
                Some((m, _)) => m == n,
                None => false,
            },
            _ => false,
        }
    }
}

proof fn lemma_pushed(steps: Seq<SessionStep>, step: SessionStep)
    ensures
        steps.push(step).drop_last() == steps,
        registry_after(steps.push(step)) == registry_step(registry_after(steps), step),
{
    assert(steps.push(step).drop_last() =~= steps);
}

/// What a call changes, step by step.
proof fn lemma_call(steps: Seq<SessionStep>, call: SessionCall)
    requires
        is_honest(steps),
        registry_after(steps).in_hand == Set::<usize>::empty(),
    ensures
        is_honest(then_call(steps, call)),
        ({
            let r = registry_after(steps);
            let t = registry_after(then_call(steps, call));
            &&& t.in_hand == Set::<usize>::empty()
            &&& t.active == match call {
                SessionCall::GetOrCreate { key, made } => match answer_to(r, key, made) {
                    Some((n, _)) => installed(r.active, key, n),
                    None => r.active,
                },
                SessionCall::Refill { .. } => r.active,
                SessionCall::Reset(key) => r.active.remove(key),
            }
        }),
        forall|key: SessionKey, n: usize| #[trigger]
            has_served(steps, key, n) ==> has_served(then_call(steps, call), key, n),
{
    let r = registry_after(steps);
    match call {
        SessionCall::GetOrCreate { key, made } => {
            let one = steps.push(SessionStep::GetOrCreate(key));
            lemma_pushed(steps, SessionStep::GetOrCreate(key));
            assert(is_honest(one));
            match (source_of(r.active, r.pool, key), answer_to(r, key, made)) {
                (SessionSource::Warm(n), _) => {
                    lemma_pushed(one, SessionStep::Install(key, n));
                    assert(registry_after(then_call(steps, call)).in_hand =~= Set::empty());
                },
                (SessionSource::Create, Some((n, _))) => {
                    let two = one.push(SessionStep::Reserve);
                    lemma_pushed(one, SessionStep::Reserve);
                    lemma_pushed(two, SessionStep::Install(key, n));
                    assert(is_honest(two));
                    assert(registry_after(then_call(steps, call)).in_hand =~= Set::empty());
                    assert forall|k: SessionKey, m: usize| #[trigger]
                        has_served(steps, k, m) implies has_served(then_call(steps, call), k, m) by {
                        assert(has_served(one, k, m));
                        assert(has_served(two, k, m));
                    }
                },
                _ => {},
            }
            assert forall|k: SessionKey, m: usize| #[trigger]
                has_served(steps, k, m) implies has_served(then_call(steps, call), k, m) by {
                assert(has_served(one, k, m));
            }
        },
        SessionCall::Refill { made } => {
            let one = steps.push(SessionStep::Reserve);
            lemma_pushed(steps, SessionStep::Reserve);
            if let Some(n) = next_number(r.next) {
                if made {
                    lemma_pushed(one, SessionStep::AddWarm(n));
                    assert(is_honest(one));
                    assert(is_honest(one.push(SessionStep::AddWarm(n))));
                    assert(registry_after(then_call(steps, call)).in_hand =~= Set::empty());
                    assert forall|k: SessionKey, m: usize| #[trigger]
                        has_served(steps, k, m) implies has_served(then_call(steps, call), k, m) by {
                        assert(has_served(one, k, m));
                    }
                }
            }
        },
        SessionCall::Reset(key) => {
            lemma_pushed(steps, SessionStep::Reset(key));
        },
    }
}

proof fn lemma_calls(calls: Seq<SessionCall>)
    ensures
        is_honest(steps_of(calls)),
        registry_after(steps_of(calls)).in_hand == Set::<usize>::empty(),
        forall|key: SessionKey, n: usize| #[trigger]
            was_given(calls, key, n) ==> has_served(steps_of(calls), key, n),
    decreases calls.len(),
{
    if calls.len() > 0 {
        let init = calls.drop_last();
        lemma_calls(init);
        lemma_call(steps_of(init), calls.last());
        assert forall|key: SessionKey, n: usize| #[trigger]
            was_given(calls, key, n) implies has_served(steps_of(calls), key, n) by {
            if was_given(init, key, n) {
                assert(has_served(steps_of(init), key, n));
            } else {
                assert(registry_after(steps_of(calls)).active.get(key) == Some(n));
            }
        }
    }
}

/// After any run of calls, a chat that asks gets the session that it has, or else a new
/// one, and has it from then on; other chats keep theirs. It gets nothing only where it
/// has none, none waits in the pool and none can be made, and then nothing changes.
pub proof fn law_chat_gets_its_session(calls: Seq<SessionCall>, key: SessionKey, made: bool)
    ensures
        ({
            let r = registry_after(steps_of(calls));
            let t = registry_after(
                steps_of(calls.push(SessionCall::GetOrCreate { key, made })),
            );
            match answer_to(r, key, made) {
                Some((n, is_new)) => {
                    &&& is_new == !r.active.contains_key(key)
                    &&& t.active == r.active.insert(key, n)
                },
                None => {
                    &&& !r.active.contains_key(key)
                    &&& r.pool.len() == 0
                    &&& !made || r.next == usize::MAX
                    &&& t.active == r.active
                },
            }
        }),
{
    let longer = calls.push(SessionCall::GetOrCreate { key, made });
    assert(longer.drop_last() =~= calls);
    lemma_calls(calls);
    lemma_call(steps_of(calls), longer.last());
    let r = registry_after(steps_of(calls));
    if r.active.contains_key(key) {
        assert(r.active.insert(key, r.active[key]) =~= r.active);
    }
}

/// Whether a run of calls never resets a chat.
pub open spec fn calls_never_reset(calls: Seq<SessionCall>, key: SessionKey) -> bool {
    forall|i: int| 0 <= i < calls.len() ==> #[trigger] calls[i] != SessionCall::Reset(key)
}

/// A chat that has a session gets the same one, and not as a new one, until it is reset,
/// whatever calls come between.
pub proof fn law_chat_gets_the_same_session_until_reset(
    before: Seq<SessionCall>,
    calls: Seq<SessionCall>,
    key: SessionKey,
    made: bool,
)
    requires
        registry_after(steps_of(before)).active.contains_key(key),
        calls_never_reset(calls, key),
    ensures
        ({
            let n = registry_after(steps_of(before)).active[key];
            let r = registry_after(steps_of(before + calls));
            &&& r.active.get(key) == Some(n)
            &&& answer_to(r, key, made) == Some((n, false))
        }),
    decreases calls.len(),
{
    if calls.len() == 0 {
        assert(before + calls =~= before);
    } else {
        let init = calls.drop_last();
        assert((before + calls).drop_last() =~= before + init);
        assert((before + calls).last() == calls.last());
        assert(calls.last() == calls[calls.len() - 1]);
        assert forall|i: int| 0 <= i < init.len() implies #[trigger] init[i] != SessionCall::Reset(
            key,
        ) by {
            assert(init[i] == calls[i]);
        }
        law_chat_gets_the_same_session_until_reset(before, init, key, made);
        lemma_calls(before + init);
        lemma_call(steps_of(before + init), calls.last());
    }
}

/// Over any run of calls, no two chats are ever given the same session, not even one
/// after the other.
pub proof fn law_no_two_chats_get_the_same_session(
    calls: Seq<SessionCall>,
    a: SessionKey,
    b: SessionKey,
    n: usize,
)
    requires
        was_given(calls, a, n),
        was_given(calls, b, n),
    ensures
        a == b,
{
    lemma_calls(calls);
    law_no_session_serves_two_chats(steps_of(calls), a, b, n);
}

/// A message is remembered on one line, cut at 96 characters, without white space around it.
pub proof fn law_message_is_remembered_on_one_line(text: &str, line: String, r: String)
    requires
        call_ensures(text::compact_line, (text,), line),
        call_ensures(normalize_for_title, (text,), r),
    ensures
        line@.len() <= 96 ==> r@ == line@,
        line@.len() > 96 ==> r@ == line@.take(96),
        r@.len() == 0 <==> text::is_blank(text@),
{
    let none = Seq::<char>::empty();
    if text::is_blank(text@) {
        text::law_blank_text_is_compacted_to_nothing(text@);
        text::law_blank_text_trims_to_nothing(line@);
        assert(text::is_blank(line@));
        assert(text::trimmed(line@) =~= line@);
    } else {
        text::lemma_compacted_ends(text@);
        text::law_trimming_takes_white_space_alone(none, line@, none);
        assert(none + line@ + none =~= line@);
    }
}

/// The last twelve messages are remembered, the oldest first; a blank one changes nothing.
pub proof fn law_last_twelve_messages_are_remembered(
    history: Seq<Seq<char>>,
    message: Seq<char>,
)
    requires
        history.len() <= 12,
    ensures
        message.len() == 0 ==> remembered(history, message) == history,
        message.len() > 0 && history.len() < 12 ==> remembered(history, message) == history + seq![
            message,
        ],
        message.len() > 0 && history.len() == 12 ==> remembered(history, message)
            == history.drop_first() + seq![message],
{
    if message.len() > 0 && history.len() == 12 {
        assert(history.push(message).skip(1) =~= history.drop_first() + seq![message]);
    } else {
        assert(history.push(message) =~= history + seq![message]);
    }
}

/// A title is made of five messages at most and of 180 characters at most; two messages
/// that fit follow one another with a dot between them.
pub proof fn law_title_joins_what_fits(
    history: Seq<Seq<char>>,
    a: Seq<char>,
    b: Seq<char>,
    n: int,
)
    requires
        history_ok(history),
        n == picked(history, 0, 0).len(),
    ensures
        n <= 5,
        snippet(history).len() <= 180,
        n < 5 && n < history.len() ==> title_of_last(history, n + 1).len() > 180,
        history == seq![a] ==> snippet(history) == a,
        history == seq![a, b] && a.len() + 3 + b.len() <= 180 ==> snippet(history) == a + " · "@
            + b,
{
    law_title_takes_as_many_as_fit(history);
    law_snippet_fits(history);
    law_snippet_is_of_latest_messages(history);
    reveal_strlit(" · ");
    reveal_with_fuel(text::join, 3);
    if n < 5 && n < history.len() {
        assert(title_of_last(history, n + 1).len() > MAX_CONTEXT_CHARS);
    }
    if history == seq![a] {
        assert(history.skip(history.len() - n) =~= seq![a]);
    }
    if history == seq![a, b] && a.len() + 3 + b.len() <= 180 {
        assert(history.skip(0) =~= history);
        assert(history.skip(1) =~= seq![b]);
        assert(title_of_last(history, 2) == a + " · "@ + b);
        assert(n == 2) by {
            if n < 2 {
                assert(title_of_last(history, 2).len() > MAX_CONTEXT_CHARS);
            }
        }
    }
}

/// A chat that has a session keeps it; another gets the one that was made last of those
/// kept ready, or else a new one.
pub proof fn law_session_comes_from_where_there_is_one(
    active: Map<SessionKey, usize>,
    pool: Seq<usize>,
    key: SessionKey,
)
    ensures
        active.contains_key(key) ==> source_of(active, pool, key) == SessionSource::Existing(
            active[key],
        ),
        !active.contains_key(key) && pool.len() > 0 ==> source_of(active, pool, key)
            == SessionSource::Warm(pool[pool.len() - 1]),
        !active.contains_key(key) && pool.len() == 0 ==> source_of(active, pool, key)
            == SessionSource::Create,
{
}

/// A message counts, and makes up the title of its chat together with those before it.
pub proof fn law_message_is_recorded(
    manager: &mut SessionManager,
    key: &SessionKey,
    text: &str,
    r: ThreadTitleData,
    other: SessionKey,
    note: String,
)
    requires
        call_ensures(
            SessionManager::record_user_message_for_thread_title,
            (manager, key, text),
            r,
        ),
        call_ensures(normalize_for_title, (text,), note),
    ensures
        ({
            let counts = old(manager).counters();
            let before = old(manager).histories();
            let after = final(manager).histories();
            let known = if before.contains_key(*key) { before[*key] } else { Seq::empty() };
            &&& counts.contains_key(*key) ==> r.total_messages == counts[*key] + 1
            &&& !counts.contains_key(*key) ==> r.total_messages == 1
            &&& final(manager).counters().contains_key(*key)
            &&& final(manager).counters()[*key] == r.total_messages
            &&& note@.len() == 0 ==> after == before
            &&& note@.len() > 0 ==> after.contains_key(*key) && after[*key] == remembered(
                known,
                note@,
            )
            &&& note@.len() > 0 ==> r.context_snippet@ == snippet(after[*key])
            &&& other != *key ==> after.contains_key(other) == before.contains_key(other)
            &&& other != *key && before.contains_key(other) ==> after[other] == before[other]
            &&& final(manager).active() == old(manager).active()
        }),
{
}

/// A chat gets the session that it has, or else one that is kept ready, which is then no
/// longer kept, or else a new one is to be made.
pub proof fn law_chat_is_given_a_session(
    manager: &mut SessionManager,
    key: SessionKey,
    r: SessionSource,
)
    requires
        call_ensures(SessionManager::get_or_create, (manager, key), r),
    ensures
        ({
            let active = old(manager).active();
            let pool = old(manager).pool();
            &&& active.contains_key(key) ==> r == SessionSource::Existing(active[key])
                && final(manager).pool() == pool
            &&& !active.contains_key(key) && pool.len() > 0 ==> r == SessionSource::Warm(
                pool.last(),
            ) && final(manager).pool() == pool.take(pool.len() - 1)
            &&& !active.contains_key(key) && pool.len() == 0 ==> r == SessionSource::Create
                && final(manager).pool() == pool
            &&& final(manager).active() == active
        }),
{
    let pool = old(manager).pool();
    if pool.len() > 0 {
        assert(pool.drop_last() =~= pool.take(pool.len() - 1));
    }
}

/// A session serves a chat from then on, unless the chat has one already, which stays.
pub proof fn law_session_is_installed(
    manager: &mut SessionManager,
    key: SessionKey,
    session: usize,
    r: Installed,
    other: SessionKey,
)
    requires
        call_ensures(SessionManager::install, (manager, key, session), r),
    ensures
        ({
            let before = old(manager).active();
            let after = final(manager).active();
            &&& r.is_new <==> !before.contains_key(key)
            &&& after.contains_key(key)
            &&& after[key] == r.session
            &&& r.is_new ==> r.session == session
            &&& !r.is_new ==> r.session == before[key]
            &&& other != key ==> after.contains_key(other) == before.contains_key(other)
            &&& other != key && before.contains_key(other) ==> after[other] == before[other]
            &&& r.refill ==> r.is_new && !old(manager).refilling() && final(manager).refilling()
        }),
{
}

/// A reset forgets all of a chat, and nothing of the others.
pub proof fn law_chat_is_reset(
    manager: &mut SessionManager,
    key: &SessionKey,
    r: (Option<usize>, bool),
    other: SessionKey,
)
    requires
        call_ensures(SessionManager::reset, (manager, key), r),
    ensures
        !final(manager).active().contains_key(*key),
        !final(manager).counters().contains_key(*key),
        !final(manager).histories().contains_key(*key),
        r.0 is Some <==> old(manager).active().contains_key(*key),
        r.0 is Some ==> r.0->0 == old(manager).active()[*key],
        r.1 <==> old(manager).target() > 0 && !old(manager).refilling(),
        other != *key ==> final(manager).active().get(other) == old(manager).active().get(other)
            && final(manager).counters().get(other) == old(manager).counters().get(other)
            && final(manager).histories().get(other) == old(manager).histories().get(other),
        final(manager).pool() == old(manager).pool(),
{
}

/// Every session that is made has a number of its own, and one that is kept ready is the
/// last of those.
pub proof fn law_sessions_are_numbered_and_kept(
    manager: &mut SessionManager,
    r: Option<usize>,
    pool: &mut SessionManager,
    session: usize,
)
    requires
        call_ensures(SessionManager::reserve, (manager,), r),
        call_ensures(SessionManager::add_warm, (pool, session), ()),
    ensures
        r is Some <==> old(manager).next() < usize::MAX,
        r is Some ==> r->0 == old(manager).next() && final(manager).next() == r->0 + 1,
        final(pool).pool() == old(pool).pool() + seq![session],
        final(pool).active() == old(pool).active(),
{
    assert(old(pool).pool().push(session) =~= old(pool).pool() + seq![session]);
}

/// Sessions that are given out or kept ready change nothing of what is known of chats, nor
/// of how many are to be kept.
pub proof fn law_pool_leaves_the_chats_alone(
    manager: &mut SessionManager,
    key: SessionKey,
    source: SessionSource,
    pool: &mut SessionManager,
    session: usize,
    done: &mut SessionManager,
    start: &mut SessionManager,
    starts: bool,
)
    requires
        call_ensures(SessionManager::get_or_create, (manager, key), source),
        call_ensures(SessionManager::add_warm, (pool, session), ()),
        call_ensures(SessionManager::finish_warm_refill, (done,), ()),
        call_ensures(SessionManager::ensure_warm_pool_background, (start,), starts),
    ensures
        final(manager).counters() == old(manager).counters(),
        final(manager).histories() == old(manager).histories(),
        final(manager).target() == old(manager).target(),
        final(manager).next() == old(manager).next(),
        final(pool).counters() == old(pool).counters(),
        final(pool).histories() == old(pool).histories(),
        final(pool).target() == old(pool).target(),
        final(pool).next() == old(pool).next(),
        final(done).pool() == old(done).pool(),
        final(done).active() == old(done).active(),
        final(done).target() == old(done).target(),
        !final(done).refilling(),
        starts <==> old(start).target() > 0 && !old(start).refilling(),
        final(start).refilling() == (old(start).refilling() || starts),
        final(start).pool() == old(start).pool(),
        final(start).active() == old(start).active(),
        final(start).target() == old(start).target(),
{
}

/// What is asked of the sessions is answered from what is known of them.
pub proof fn law_sessions_are_counted(
    manager: &SessionManager,
    key: &SessionKey,
    has: bool,
    count: usize,
    chats: usize,
    ready: usize,
    lacks: bool,
)
    requires
        call_ensures(SessionManager::has_session, (manager, key), has),
        call_ensures(SessionManager::message_count, (manager, key), count),
        call_ensures(SessionManager::session_count, (manager,), chats),
        call_ensures(SessionManager::warm_pool_ready_count, (manager,), ready),
        call_ensures(SessionManager::warm_pool_lacks, (manager,), lacks),
    ensures
        has <==> manager.active().contains_key(*key),
        manager.counters().contains_key(*key) ==> count == manager.counters()[*key],
        !manager.counters().contains_key(*key) ==> count == 0,
        chats == manager.active().dom().len(),
        ready == manager.pool().len(),
        lacks <==> manager.pool().len() < manager.target(),
{
}

} // verus!
