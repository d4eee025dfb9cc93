//! The "Stop" buttons under responses that are under way.
use dashmap::DashMap;
use tokio_util::sync::CancellationToken;
use vstd::prelude::*;
use vstd::string::*;

use crate::maps;
use crate::text;

verus! {

/// What the data of every "Stop" button begins with.
pub const STOP_PREFIX: &'static str = "stop:";

/// The label of a "Stop" button.
pub const STOP_LABEL: &'static str = "🛑 Stop";

/// What the user is told when a "Stop" button has been pressed.
pub const STOPPED_TEXT: &'static str = "🛑 Остановлено";

/// The data of the "Stop" button under a message.
pub open spec fn key_of(chat_id: int, message_id: int) -> Seq<char> {
    STOP_PREFIX@ + text::signed_decimal(chat_id) + ":"@ + text::signed_decimal(message_id)
}

/// The data of the "Stop" button under a message.
pub fn stop_key(chat_id: i64, message_id: i32) -> (r: String)
    ensures
        r@ == key_of(chat_id as int, message_id as int),
{
    let mut r = STOP_PREFIX.to_owned();
    text::push_signed(&mut r, chat_id);
    r.append(":");
    text::push_signed(&mut r, message_id as i64);
    r
}

/// Registry of active cancellation tokens, keyed by callback data string.
pub struct CancelRegistry {
    tokens: DashMap<String, CancellationToken>,
}

impl CancelRegistry {
    /// The tokens of the responses that are under way.
    pub closed spec fn tokens(&self) -> Map<Seq<char>, CancellationToken> {
        maps::tokens(self.tokens)
    }

    /// A registry without tokens.
    pub fn new() -> (r: Self)
        ensures
            r.tokens() == (Map::<Seq<char>, CancellationToken>::empty()),
    {
        CancelRegistry { tokens: maps::new_tokens() }
    }

    /// Register a token; the one that it replaces is returned.
    pub fn insert(&mut self, key: String, token: CancellationToken) -> (r: Option<
        CancellationToken,
    >)
        ensures
            final(self).tokens() == old(self).tokens().insert(key@, token),
            r == old(self).tokens().get(key@),
    {
        maps::insert_token(&mut self.tokens, key, token)
    }

    /// Take a token out.
    pub fn remove(&mut self, key: &str) -> (r: Option<(String, CancellationToken)>)
        ensures
            final(self).tokens() == old(self).tokens().remove(key@),
            r is Some == old(self).tokens().contains_key(key@),
            r matches Some(entry) ==> entry.0@ == key@ && entry.1 == old(self).tokens()[key@],
    {
        maps::remove_token(&mut self.tokens, key)
    }

    /// The number of tokens.
    pub fn len(&self) -> (r: usize)
        ensures
            r == self.tokens().dom().len(),
    {
        maps::count_tokens(&self.tokens)
    }

    /// Handle the "Stop" inline button callback: the token to cancel, which is taken
    /// out. Other buttons are none of this registry's business.
    pub fn handle_stop_callback(&mut self, data: Option<&str>) -> (r: Option<CancellationToken>)
        ensures
            r == stopped(old(self).tokens(), text::optional(data)),
            final(self).tokens() == tokens_after(old(self).tokens(), text::optional(data)),
    {
        match data {
            Some(data) => {
                if text::starts_with(data, STOP_PREFIX) {
                    let ghost before = self.tokens();
                    match self.remove(data) {
                        Some(entry) => Some(entry.1),
                        None => {
                            assert(before.remove(data@) =~= before);
                            None
                        },
                    }
                } else {
                    None
                }
            },
            None => None,
        }
    }
}

/// The token that a button cancels.
pub open spec fn stopped(
    tokens: Map<Seq<char>, CancellationToken>,
    data: Option<Seq<char>>,
) -> Option<CancellationToken> {
    match data {
        Some(data) => if text::begins_with(data, STOP_PREFIX@) {
            tokens.get(data)
        } else {
            None
        },
        None => None,
    }
}

/// The tokens after a button has been pressed.
pub open spec fn tokens_after(
    tokens: Map<Seq<char>, CancellationToken>,
    data: Option<Seq<char>>,
) -> Map<Seq<char>, CancellationToken> {
    match data {
        Some(data) => if text::begins_with(data, STOP_PREFIX@) {
            tokens.remove(data)
        } else {
            tokens
        },
        None => tokens,
    }
}

/// A button cancels the response that it stands under, once, and no other.
pub proof fn law_button_stops_its_own_response(
    tokens: Map<Seq<char>, CancellationToken>,
    token: CancellationToken,
    chat_id: int,
    message_id: int,
    other: Seq<char>,
)
    requires
        other != key_of(chat_id, message_id),
    ensures
        ({
            let key = key_of(chat_id, message_id);
            let registered = tokens.insert(key, token);
            &&& stopped(registered, Some(key)) == Some(token)
            &&& stopped(tokens_after(registered, Some(key)), Some(key)) is None
            &&& tokens_after(registered, Some(key)).get(other) == tokens.get(other)
        }),
{
    let key = key_of(chat_id, message_id);
    let p = STOP_PREFIX@;
    assert(key.subrange(0, p.len() as int) =~= p);
}

/// Buttons under different messages have different data.
pub proof fn law_stop_keys_differ(chat_a: int, message_a: int, chat_b: int, message_b: int)
    requires
        key_of(chat_a, message_a) == key_of(chat_b, message_b),
    ensures
        chat_a == chat_b,
        message_a == message_b,
{
    let p = STOP_PREFIX@;
    let (a, b) = (text::signed_decimal(chat_a), text::signed_decimal(chat_b));
    let (x, y) = (text::signed_decimal(message_a), text::signed_decimal(message_b));
    let left = a + ":"@ + x;
    let right = b + ":"@ + y;
    reveal_strlit(":");
    assert(key_of(chat_a, message_a).skip(p.len() as int) =~= left);
    assert(key_of(chat_b, message_b).skip(p.len() as int) =~= right);
    text::lemma_signed_decimal(chat_a, chat_b);
    text::lemma_signed_decimal(chat_b, chat_a);
    text::lemma_signed_decimal(message_a, message_b);
    assert(left[a.len() as int] == ':');
    assert(right[b.len() as int] == ':');
    if a.len() < b.len() {
        assert(right[a.len() as int] == b[a.len() as int]);
    }
    if b.len() < a.len() {
        assert(left[b.len() as int] == a[b.len() as int]);
    }
    assert(left.take(a.len() as int) =~= a);
    assert(right.take(b.len() as int) =~= b);
    assert(left.skip(a.len() as int + 1) =~= x);
    assert(right.skip(b.len() as int + 1) =~= y);
}

/// The data of a button names the chat and the message that it stands under.
pub proof fn law_button_names_its_message(chat_id: i64, message_id: i32, r: String)
    requires
        call_ensures(stop_key, (chat_id, message_id), r),
    ensures
        r@ == "stop:"@ + text::signed_decimal(chat_id as int) + ":"@ + text::signed_decimal(
            message_id as int,
        ),
{
}

/// A button with other data, or without any, stops nothing.
pub proof fn law_other_buttons_stop_nothing(
    tokens: Map<Seq<char>, CancellationToken>,
    data: Option<Seq<char>>,
)
    requires
        data is None || !text::begins_with(data->0, "stop:"@) || !tokens.contains_key(data->0),
    ensures
        stopped(tokens, data) is None,
        tokens_after(tokens, data) == tokens,
{
    assert(tokens_after(tokens, data) =~= tokens);
}

/// A button stops the response that is registered under its data, which is then no longer
/// registered; all others stay.
pub proof fn law_button_stops_what_is_registered(
    registry: &mut CancelRegistry,
    data: Option<&str>,
    r: Option<CancellationToken>,
    other: Seq<char>,
)
    requires
        call_ensures(CancelRegistry::handle_stop_callback, (registry, data), r),
    ensures
        ({
            let before = old(registry).tokens();
            let after = final(registry).tokens();
            let hit = data is Some && text::begins_with(data->0@, "stop:"@)
                && before.contains_key(data->0@);
            &&& hit ==> r == Some(before[data->0@]) && !after.contains_key(data->0@)
            &&& !hit ==> r is None && after == before
            &&& hit && other != data->0@ ==> after.get(other) == before.get(other)
        }),
{
    if !(data is Some && text::begins_with(data->0@, "stop:"@) && old(registry).tokens().contains_key(
        data->0@,
    )) {
        law_other_buttons_stop_nothing(old(registry).tokens(), text::optional(data));
    }
}

/// A response is registered under its data until it is taken out.
pub proof fn law_response_is_registered(
    registry: &mut CancelRegistry,
    key: String,
    token: CancellationToken,
    r: Option<CancellationToken>,
)
    requires
        call_ensures(CancelRegistry::insert, (registry, key, token), r),
    ensures
        final(registry).tokens().contains_key(key@),
        final(registry).tokens()[key@] == token,
        r is Some <==> old(registry).tokens().contains_key(key@),
{
}

} // verus!
