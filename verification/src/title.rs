//! The titles of forum topics.
use vstd::prelude::*;
use vstd::string::*;

use crate::text;

verus! {

/// The most characters of a summary that a title holds.
pub const MAX_SUMMARY_CHARS: usize = 96;

/// The most characters of a title.
pub const MAX_TITLE_CHARS: usize = 128;

/// The first characters of a text.
pub open spec fn first_chars(s: Seq<char>, max: nat) -> Seq<char> {
    if s.len() <= max {
        s
    } else {
        s.take(max as int)
    }
}

/// The first characters of a text.
fn take_chars(s: &str, max: usize) -> (r: String)
    ensures
        r@ == first_chars(s@, max as nat),
{
    let v = text::chars_of(s);
    let n: usize = v.len();
    if n <= max {
        text::string_of(v.as_slice())
    } else {
        let head = text::sub_chars(v.as_slice(), 0, max);
        assert(head@ =~= v@.take(max as int));
        text::string_of(head.as_slice())
    }
}

/// The summary that a title begins with.
pub open spec fn summary_of(context_snippet: Seq<char>) -> Seq<char> {
    let summary = text::compacted(context_snippet);
    first_chars(
        if summary.len() == 0 {
            "Сессия"@
        } else {
            summary
        },
        MAX_SUMMARY_CHARS as nat,
    )
}

/// The title of a topic: what it is about, and how many messages there were.
pub open spec fn thread_title(context_snippet: Seq<char>, total_messages: nat) -> Seq<char> {
    let summary = summary_of(context_snippet);
    let title = first_chars(
        if total_messages <= 1 {
            summary
        } else {
            summary + " · #"@ + text::decimal(total_messages)
        },
        MAX_TITLE_CHARS as nat,
    );
    if text::is_blank(title) {
        "Сессия"@
    } else {
        title
    }
}

/// The title of a topic.
pub fn make_thread_title(context_snippet: &str, total_messages: usize) -> (r: String)
    ensures
        r@ == thread_title(context_snippet@, total_messages as nat),
{
    let compact = text::compact_line(context_snippet);
    let v = text::chars_of(compact.as_str());
    let summary = if v.len() == 0 {
        take_chars("Сессия", MAX_SUMMARY_CHARS)
    } else {
        take_chars(compact.as_str(), MAX_SUMMARY_CHARS)
    };
    let mut title = summary;
    if total_messages > 1 {
        title.append(" · #");
        text::push_decimal(&mut title, total_messages as u128);
    }
    let title = take_chars(title.as_str(), MAX_TITLE_CHARS);
    let chars = text::chars_of(title.as_str());
    if text::blank(chars.as_slice()) {
        "Сессия".to_owned()
    } else {
        title
    }
}

/// Whether a topic gets a new title: at its first message, and then every so often;
/// never where the interval is 0.
pub open spec fn renames(total_messages: nat, rename_every: nat) -> bool {
    rename_every > 0 && (total_messages == 1 || (total_messages > 0 && total_messages
        % rename_every == 0))
}

/// The new title of a topic, if it is to have one now. Only a topic has a title.
pub fn rename_thread_title(
    context_snippet: &str,
    total_messages: usize,
    rename_every: usize,
    thread_id: Option<i32>,
) -> (r: Option<String>)
    ensures
        text::text_of(r) == (if renames(total_messages as nat, rename_every as nat)
            && thread_id is Some {
            Some(thread_title(context_snippet@, total_messages as nat))
        } else {
            None
        }),
{
    let due = rename_every > 0 && (total_messages == 1 || (total_messages > 0 && total_messages
        % rename_every == 0));
    if due && thread_id.is_some() {
        Some(make_thread_title(context_snippet, total_messages))
    } else {
        None
    }
}

/// A title is never blank and never longer than a set number of characters.
pub proof fn law_title_fits(context_snippet: Seq<char>, total_messages: nat)
    ensures
        0 < thread_title(context_snippet, total_messages).len() <= MAX_TITLE_CHARS,
        !text::is_blank(thread_title(context_snippet, total_messages)),
{
    reveal_strlit("Сессия");
    assert(!text::is_blank("Сессия"@)) by {
        assert(!text::is_space("Сессия"@[0]));
    }
    let t = thread_title(context_snippet, total_messages);
    assert(t.len() > 0) by {
        if t.len() == 0 {
            assert(text::is_blank(t));
        }
    }
}

/// With an interval of 0 no topic is ever renamed.
pub proof fn law_zero_disables_renaming()
    ensures
        forall|n: nat| !renames(n, 0),
{
}

/// With any other interval the first message names the topic, and so does every
/// message whose number is a multiple of the interval.
pub proof fn law_topic_is_named_at_first_and_then_every_so_often(rename_every: nat, k: nat)
    requires
        rename_every > 0,
        k > 0,
    ensures
        renames(1, rename_every),
        renames(k * rename_every, rename_every),
        !renames(0, rename_every),
{
    assert((k * rename_every) % rename_every == 0 && k * rename_every > 0) by (nonlinear_arith)
        requires
            rename_every > 0,
            k > 0,
    ;
}

/// A title is the snippet on one line, cut at 96 characters, or a word for a session
/// where the snippet is blank; from the second message on, the number of messages follows.
pub proof fn law_title_is_the_snippet_and_the_number(
    snippet: &str,
    total: usize,
    line: String,
    r: String,
)
    requires
        call_ensures(text::compact_line, (snippet,), line),
        call_ensures(make_thread_title, (snippet, total), r),
    ensures
        ({
            let head = if text::is_blank(snippet@) {
                "Сессия"@
            } else if line@.len() <= 96 {
                line@
            } else {
                line@.take(96)
            };
            &&& total <= 1 ==> r@ == head
            &&& total > 1 ==> r@ == head + " · #"@ + text::decimal(total as nat)
        }),
{
    reveal_strlit("Сессия");
    reveal_strlit(" · #");
    assert(!text::is_space("Сессия"@[0]));
    text::lemma_count_has_few_digits(total);
    let c = text::compacted(snippet@);
    if text::is_blank(snippet@) {
        text::law_blank_text_is_compacted_to_nothing(snippet@);
    } else {
        text::lemma_compacted_ends(snippet@);
    }
    let head = summary_of(snippet@);
    assert(head.len() > 0 && !text::is_space(head[0]));
    assert(head.len() <= 96);
    let whole = if total <= 1 {
        head
    } else {
        head + " · #"@ + text::decimal(total as nat)
    };
    assert(whole[0] == head[0]);
    assert(whole.len() <= 128);
}

/// A topic gets the title of the moment at its first message and at every message whose
/// number the interval divides; a chat that is no topic gets none, and neither does any
/// where the interval is 0.
pub proof fn law_topic_is_renamed_when_it_is_due(
    snippet: &str,
    total: usize,
    every: usize,
    thread_id: Option<i32>,
    title: String,
    r: Option<String>,
)
    requires
        call_ensures(make_thread_title, (snippet, total), title),
        call_ensures(rename_thread_title, (snippet, total, every, thread_id), r),
    ensures
        r is Some <==> thread_id is Some && every > 0 && total > 0 && (total == 1 || total % every
            == 0),
        r is Some ==> r->0@ == title@,
{
}

} // verus!
