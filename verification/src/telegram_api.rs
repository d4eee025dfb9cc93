//! Calls of the Telegram Bot API that are made without a client library.
use vstd::prelude::*;
use vstd::string::*;

use crate::json;
use crate::json::{Json, JsonTree};

verus! {

/// A call: where it goes, and what is posted there.
#[derive(Debug)]
pub struct ApiCall {
    pub url: String,
    pub body: Json,
}

/// The address of the `sendMessageDraft` method.
pub open spec fn draft_url(token: Seq<char>) -> Seq<char> {
    "https://api.telegram.org/bot"@ + token + "/sendMessageDraft"@
}

/// What is posted to the `sendMessageDraft` method.
pub open spec fn draft_body(
    chat_id: int,
    draft_id: int,
    text: Seq<char>,
    thread_id: Option<i32>,
) -> JsonTree {
    let fields = seq![
        ("chat_id"@, json::integer_tree(chat_id)),
        ("draft_id"@, json::integer_tree(draft_id)),
        ("text"@, JsonTree::Str(text)),
    ];
    match thread_id {
        Some(id) => JsonTree::Object(
            fields.push(("message_thread_id"@, json::integer_tree(id as int))),
        ),
        None => JsonTree::Object(fields),
    }
}

/// Call the `sendMessageDraft` Telegram Bot API method.
///
/// Streams a partial message to the user while it is being generated.
/// Changes of drafts with the same `draft_id` are animated on the client.
pub fn send_message_draft(
    token: &str,
    chat_id: i64,
    draft_id: i64,
    text: &str,
    thread_id: Option<i32>,
) -> (r: ApiCall)
    ensures
        r.url@ == draft_url(token@),
        r.body@ == draft_body(chat_id as int, draft_id as int, text@, thread_id),
{
    let mut url = "https://api.telegram.org/bot".to_owned();
    url.append(token);
    url.append("/sendMessageDraft");
    let ghost want = draft_body(chat_id as int, draft_id as int, text@, thread_id)->Object_0;
    let body = json::with(json::empty_object(), "chat_id", json::integer(chat_id));
    let body = json::with(body, "draft_id", json::integer(draft_id));
    let body = json::with(body, "text", json::string(text));
    let body = match thread_id {
        Some(id) => json::with(body, "message_thread_id", json::integer(id as i64)),
        None => body,
    };
    assert(body@->Object_0 =~= want);
    ApiCall { url, body }
}

/// What is said of a call that was answered with an error.
pub fn draft_failure(status: &str, body: &str) -> (r: String)
    ensures
        r@ == "sendMessageDraft returned "@ + status@ + ": "@ + body@,
{
    let mut r = "sendMessageDraft returned ".to_owned();
    r.append(status);
    r.append(": ");
    r.append(body);
    r
}

/// A draft goes to the method of the bot with the token, with its chat, its number, its
/// text as it is, and its thread where it has one.
pub proof fn law_draft_says_where_it_goes_and_what_it_is(
    token: &str,
    chat_id: i64,
    draft_id: i64,
    text: &str,
    thread_id: Option<i32>,
    r: ApiCall,
)
    requires
        call_ensures(send_message_draft, (token, chat_id, draft_id, text, thread_id), r),
    ensures
        r.url@ == "https://api.telegram.org/bot"@ + token@ + "/sendMessageDraft"@,
        json::field_of(Some(r.body@), "chat_id"@) == Some(json::integer_tree(chat_id as int)),
        json::field_of(Some(r.body@), "draft_id"@) == Some(json::integer_tree(draft_id as int)),
        json::field_of(Some(r.body@), "text"@) == Some(JsonTree::Str(text@)),
        thread_id is Some ==> json::field_of(Some(r.body@), "message_thread_id"@) == Some(
            json::integer_tree(thread_id->0 as int),
        ),
        thread_id is None ==> json::field_of(Some(r.body@), "message_thread_id"@) is None,
{
    reveal_strlit("chat_id");
    reveal_strlit("draft_id");
    reveal_strlit("text");
    reveal_strlit("message_thread_id");
    assert("chat_id"@[0] == 'c' && "draft_id"@[0] == 'd' && "text"@[0] == 't'
        && "message_thread_id"@[0] == 'm');
    let fields = r.body@->Object_0;
    json::law_first_field_with_the_key_counts(fields, "chat_id"@, 0);
    json::law_first_field_with_the_key_counts(fields, "draft_id"@, 1);
    json::law_first_field_with_the_key_counts(fields, "text"@, 2);
    json::law_first_field_with_the_key_counts(fields, "message_thread_id"@, 3);
}

} // verus!
