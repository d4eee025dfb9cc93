//! Sessions with the agent: prompts, and what the agent's events become on the way
//! to the chat.
use vstd::prelude::*;
use vstd::string::*;

use crate::acp;
use crate::acp::{AcpEvent, Event};
use crate::chunks;
use crate::config;
use crate::json;
use crate::json::{Json, JsonTree};
use crate::progress::StreamEventPayload;
use crate::text;

verus! {

/// Session key: `(chat_id, thread_id)`.
/// `thread_id` is `Some` when the message belongs to a Telegram forum topic.
pub type SessionKey = (i64, Option<i32>);

/// Internal prefix for structured stream events sent over the text channel.
///
/// The streaming display consumes these events to show tools, progress and waiting
/// without polluting the final assistant text.
pub const STREAM_EVENT_PREFIX: &'static str = "__TOODLES_EVT__:";

/// The most characters of a tool's text that an event carries.
pub const MAX_TOOL_TEXT: usize = 200;

/// A session with the agent: what is known of it between prompts.
#[derive(Debug)]
pub struct Session {
    /// The ACP session ID returned by `session/new`.
    pub session_id: String,
    /// Whether all actions are approved without asking.
    pub yolo: bool,
    /// System prompt prepended to the first query.
    pub system_prompt: Option<String>,
    /// Whether the first prompt has been sent.
    pub has_history: bool,
}

/// The references that a prompt makes to files.
pub open spec fn references(files: Seq<Seq<char>>) -> Seq<char>
    decreases files.len(),
{
    if files.len() == 0 {
        Seq::empty()
    } else {
        references(files.drop_last()) + "@{"@ + files.last() + "}\n"@
    }
}

/// The whole prompt: the system prompt before the first one, and the files after it.
pub open spec fn full_prompt(
    system_prompt: Option<Seq<char>>,
    has_history: bool,
    prompt: Seq<char>,
    files: Seq<Seq<char>>,
) -> Seq<char> {
    let text = match system_prompt {
        Some(sp) if !has_history => "[System instruction]: "@ + sp + "\n\n"@ + prompt,
        _ => prompt,
    };
    if files.len() == 0 {
        text
    } else {
        text + "\n\n"@ + references(files)
    }
}

impl Session {
    /// A session in which nothing has been asked yet.
    pub fn new(session_id: String, yolo: bool, system_prompt: Option<String>) -> (r: Self)
        ensures
            r.session_id@ == session_id@,
            r.yolo == yolo,
            text::text_of(r.system_prompt) == text::text_of(system_prompt),
            !r.has_history,
    {
        Session { session_id, yolo, system_prompt, has_history: false }
    }

    /// The mode that is set when the session begins, if any.
    pub fn initial_mode(&self) -> (r: Option<String>)
        ensures
            text::text_of(r) == (if self.yolo {
                Some("yolo"@)
            } else {
                None
            }),
    {
        if self.yolo {
            Some("yolo".to_owned())
        } else {
            None
        }
    }

    /// The prompt that is sent for a question.
    pub fn query(&self, prompt: &str) -> (r: String)
        ensures
            r@ == full_prompt(
                text::text_of(self.system_prompt),
                self.has_history,
                prompt@,
                Seq::empty(),
            ),
    {
        let files: Vec<String> = Vec::new();
        assert(text::strings(files@) =~= Seq::empty());
        self.query_with_files(prompt, files.as_slice())
    }

    /// The prompt that is sent for a question about files.
    ///
    /// Files are referenced using gemini-cli's `@{path}` syntax in the prompt text.
    pub fn query_with_files(&self, prompt: &str, file_paths: &[String]) -> (r: String)
        ensures
            r@ == full_prompt(
                text::text_of(self.system_prompt),
                self.has_history,
                prompt@,
                text::strings(file_paths@),
            ),
    {
        let mut full = String::new();
        if !self.has_history {
            if let Some(sp) = &self.system_prompt {
                full.append("[System instruction]: ");
                full.append(sp.as_str());
                full.append("\n\n");
            }
        }
        full.append(prompt);
        let ghost body = full@;
        proof {
            assert(body =~= full_prompt(
                text::text_of(self.system_prompt),
                self.has_history,
                prompt@,
                Seq::empty(),
            ));
        }
        let n: usize = file_paths.len();
        if n > 0 {
            full.append("\n\n");
            let ghost start = full@;
            let ghost files = text::strings(file_paths@);
            let mut i: usize = 0;
            assert(start + references(files.take(0)) =~= start);
            while i < n
                invariant
                    i <= n,
                    n == file_paths@.len(),
                    files == text::strings(file_paths@),
                    full@ == start + references(files.take(i as int)),
                decreases n - i,
            {
                full.append("@{");
                full.append(file_paths[i].as_str());
                full.append("}\n");
                proof {
                    let next = files.take(i + 1);
                    assert(next.drop_last() =~= files.take(i as int));
                    assert(next.last() == file_paths@[i as int]@);
                    assert(full@ =~= start + references(next));
                }
                i += 1;
            }
            assert(files.take(n as int) =~= files);
            assert(full@ =~= body + "\n\n"@ + references(files));
        }
        full
    }

    /// The query is over: the next one has a history.
    pub fn finish_query(&mut self)
        ensures
            *final(self) == (Session { has_history: true, ..*old(self) }),
    {
        self.has_history = true;
    }
}

/// What happens while the agent answers.
#[derive(Debug)]
pub enum QueryEvent {
    /// The agent answered the prompt, or failed to.
    Finished(Result<Json, String>),
    /// The agent told of an event.
    Agent(AcpEvent),
    /// No more events will come.
    Closed,
    /// The user wants to stop.
    Cancel,
}

/// What to do after an event.
#[derive(Debug, Clone, Copy, PartialEq, Eq, Structural)]
pub enum QueryNext {
    /// Wait for the next event.
    Wait,
    /// Tell the agent to stop, then wait for the next event.
    SendCancel,
    /// Forward the events that have come already, then stop.
    Drain,
    /// Stop.
    Stop,
}

/// A query that is under way.
#[derive(Debug, Clone, Copy, PartialEq, Eq, Structural)]
pub struct Query {
    /// Whether the query has been cancelled; if so, no wish to stop is waited for.
    pub cancelled: bool,
}

/// Whether the query is cancelled after an event.
pub open spec fn cancelled_after(cancelled: bool, event: QueryEvent) -> bool {
    match event {
        QueryEvent::Finished(Ok(result)) => cancelled || acp::stop_reason_of(result@)
            == "cancelled"@,
        QueryEvent::Cancel => true,
        _ => cancelled,
    }
}

/// What to do after an event.
pub open spec fn next_after(cancelled: bool, event: QueryEvent) -> QueryNext {
    match event {
        QueryEvent::Finished(_) => QueryNext::Drain,
        QueryEvent::Agent(_) => QueryNext::Wait,
        QueryEvent::Closed => QueryNext::Stop,
        QueryEvent::Cancel => if cancelled {
            QueryNext::Wait
        } else {
            QueryNext::SendCancel
        },
    }
}

/// The lines that an event puts on the text channel.
pub open spec fn lines_after(event: QueryEvent) -> Seq<Seq<char>> {
    match event {
        QueryEvent::Finished(Err(e)) => seq!["\n⚠️ ACP error: "@ + e@],
        QueryEvent::Agent(e) => forwarded(e@),
        _ => Seq::empty(),
    }
}

impl Query {
    /// A query that has just been sent.
    pub fn new() -> (r: Self)
        ensures
            r == (Query { cancelled: false }),
    {
        Query { cancelled: false }
    }

    /// Take note of what has happened: the lines to put on the text channel, and what
    /// to do next.
    pub fn step(&mut self, event: QueryEvent) -> (r: (Vec<String>, QueryNext))
        ensures
            final(self).cancelled == cancelled_after(old(self).cancelled, event),
            text::strings(r.0@) == lines_after(event),
            r.1 == next_after(old(self).cancelled, event),
    {
        let mut lines: Vec<String> = Vec::new();
        assert(text::strings(lines@) =~= Seq::empty());
        match event {
            QueryEvent::Finished(Ok(result)) => {
                let reason = acp::stop_reason(&result);
                if text::same_text(reason.as_str(), "cancelled") {
                    self.cancelled = true;
                }
                (lines, QueryNext::Drain)
            },
            QueryEvent::Finished(Err(e)) => {
                let mut line = "\n⚠️ ACP error: ".to_owned();
                line.append(e.as_str());
                lines.push(line);
                assert(text::strings(lines@) =~= seq!["\n⚠️ ACP error: "@ + e@]);
                (lines, QueryNext::Drain)
            },
            QueryEvent::Agent(event) => (forward_event(event), QueryNext::Wait),
            QueryEvent::Closed => (lines, QueryNext::Stop),
            QueryEvent::Cancel => {
                let next = if self.cancelled { QueryNext::Wait } else { QueryNext::SendCancel };
                self.cancelled = true;
                (lines, next)
            },
        }
    }
}

/// A stream event.
pub open spec fn event_tree(
    kind: Seq<char>,
    status: Option<Seq<char>>,
    text: Option<Seq<char>>,
) -> JsonTree {
    JsonTree::Object(
        seq![
            ("kind"@, JsonTree::Str(kind)),
            ("status"@, json::optional_tree(status)),
            ("text"@, json::optional_tree(text)),
        ],
    )
}

/// The line that carries a stream event.
pub open spec fn event_line(
    kind: Seq<char>,
    status: Option<Seq<char>>,
    text: Option<Seq<char>>,
) -> Seq<char> {
    STREAM_EVENT_PREFIX@ + json::written(event_tree(kind, status, text))
}

/// The lines that carry the entries of a plan.
pub open spec fn plan_lines(entries: Seq<(Seq<char>, Seq<char>)>) -> Seq<Seq<char>> {
    Seq::new(
        entries.len(),
        |i: int| event_line("plan"@, Some(entries[i].1), Some(entries[i].0)),
    )
}

/// An optional number, or 0.
pub open spec fn count_or_zero(n: Option<nat>) -> nat {
    match n {
        Some(n) => n,
        None => 0,
    }
}

/// The lines that an event of the agent becomes on the text channel.
pub open spec fn forwarded(event: Event) -> Seq<Seq<char>> {
    match event {
        Event::TextChunk(t) => seq![t],
        Event::ToolCall { title, status } => if status == "pending"@ {
            seq![event_line("tool"@, Some("pending"@), Some(title))]
        } else {
            Seq::empty()
        },
        Event::ToolCallUpdate { status, content } => if status == "completed"@ {
            let text = match content {
                Some(t) => chunks::shortened(t, MAX_TOOL_TEXT as int),
                None => "completed"@,
            };
            seq![event_line("tool"@, Some("completed"@), Some(text))]
        } else {
            Seq::empty()
        },
        Event::Plan(entries) => plan_lines(entries),
        Event::Usage { input_tokens, output_tokens } => seq![
            event_line(
                "usage"@,
                None,
                Some(
                    "input="@ + text::decimal(count_or_zero(input_tokens)) + " output="@
                        + text::decimal(count_or_zero(output_tokens)),
                ),
            ),
        ],
        Event::Error(e) => seq![event_line("error"@, None, Some(e))],
    }
}

/// The line that carries a stream event.
pub fn emit_stream_event(kind: &str, status: Option<&str>, text: Option<&str>) -> (r: String)
    ensures
        r@ == event_line(
            kind@,
            text::optional(status),
            text::optional(text),
        ),
{
    let event = json::with(json::empty_object(), "kind", json::string(kind));
    let event = json::with(event, "status", json::optional(status));
    let event = json::with(event, "text", json::optional(text));
    assert(event@->Object_0 =~= event_tree(
        kind@,
        text::optional(status),
        text::optional(text),
    )->Object_0);
    let payload = json::to_text(&event);
    let mut line = STREAM_EVENT_PREFIX.to_owned();
    line.append(payload.as_str());
    line
}

/// The payload of a line that carries a stream event; nothing of any other line.
pub fn stream_event_payload(line: &str) -> (r: Option<String>)
    ensures
        text::text_of(r) == text::after_prefix(line@, STREAM_EVENT_PREFIX@),
{
    text::strip_prefix(line, STREAM_EVENT_PREFIX)
}

/// What a line of the text channel is.
#[derive(Debug)]
pub enum StreamLine {
    /// It carries no event.
    Text,
    /// It carries this event.
    Event(StreamEventPayload),
    /// It has the prefix of an event and this after it, which `emit_stream_event` did not
    /// write.
    Foreign(String),
}

/// The text of an optional JSON value.
fn text_in(j: Option<&Json>) -> (r: Option<String>)
    ensures
        text::text_of(r) == json::str_of(json::tree_at(j)),
{
    match json::as_str(j) {
        Some(s) => Some(s.to_owned()),
        None => None,
    }
}

/// The event in a JSON value; nothing where it does not say of what kind it is.
fn event_in(j: &Json) -> (r: Option<StreamEventPayload>)
    ensures
        r is Some == json::str_of(json::field_of(Some(j@), "kind"@)) is Some,
        r matches Some(e) ==> Some(e.kind@) == json::str_of(
            json::field_of(Some(j@), "kind"@),
        ) && text::text_of(e.status) == json::str_of(json::field_of(Some(j@), "status"@))
            && text::text_of(e.text) == json::str_of(json::field_of(Some(j@), "text"@)),
{
    match text_in(json::field(Some(j), "kind")) {
        Some(kind) => Some(
            StreamEventPayload {
                kind,
                status: text_in(json::field(Some(j), "status")),
                text: text_in(json::field(Some(j), "text")),
            },
        ),
        None => None,
    }
}

proof fn lemma_event_fields(kind: Seq<char>, status: Option<Seq<char>>, text: Option<Seq<char>>)
    ensures
        json::is_flat(event_tree(kind, status, text)),
        json::str_of(json::field_of(Some(event_tree(kind, status, text)), "kind"@)) == Some(kind),
        json::str_of(json::field_of(Some(event_tree(kind, status, text)), "status"@)) == status,
        json::str_of(json::field_of(Some(event_tree(kind, status, text)), "text"@)) == text,
{
    reveal_strlit("kind");
    reveal_strlit("status");
    reveal_strlit("text");
    assert("kind"@[0] == 'k');
    assert("status"@[0] == 's');
    assert("text"@[0] == 't');
    reveal_with_fuel(json::lookup, 3);
    let fields = event_tree(kind, status, text)->Object_0;
    assert(fields.skip(1)[0] == fields[1]);
    assert(fields.skip(1).skip(1)[0] == fields[2]);
}

/// What a line of the text channel is. A line that `emit_stream_event` made carries the
/// event that it was made of, and a line without the prefix carries none.
pub fn parse_stream_event(line: &str) -> (r: StreamLine)
    ensures
        r is Text == text::after_prefix(line@, STREAM_EVENT_PREFIX@) is None,
        r matches StreamLine::Event(e) ==> line@ == event_line(
            e.kind@,
            text::text_of(e.status),
            text::text_of(e.text),
        ),
        r matches StreamLine::Foreign(payload) ==> line@ == STREAM_EVENT_PREFIX@ + payload@,
        forall|kind: Seq<char>, status: Option<Seq<char>>, text: Option<Seq<char>>|
            line@ == #[trigger] event_line(kind, status, text) ==> r is Event && r->Event_0.kind@
                == kind && text::text_of(r->Event_0.status) == status && text::text_of(
                r->Event_0.text,
            ) == text,
{
    let payload = match stream_event_payload(line) {
        Some(payload) => payload,
        None => {
            proof {
                assert forall|kind: Seq<char>, status: Option<Seq<char>>, text: Option<Seq<char>>|
                    line@ != #[trigger] event_line(kind, status, text) by {
                    law_event_lines_are_recognised(kind, status, text);
                }
            }
            return StreamLine::Text;
        },
    };
    let ghost p = payload@;
    let read = json::from_text(payload.as_str());
    let event = match &read {
        Some(j) => event_in(j),
        None => None,
    };
    proof {
        assert(line@ =~= STREAM_EVENT_PREFIX@ + p);
        assert forall|kind: Seq<char>, status: Option<Seq<char>>, text: Option<Seq<char>>|
            line@ == #[trigger] event_line(kind, status, text) implies event is Some
            && event.unwrap().kind@ == kind && text::text_of(event.unwrap().status) == status
            && text::text_of(event.unwrap().text) == text by {
            let t = event_tree(kind, status, text);
            lemma_event_fields(kind, status, text);
            assert(p =~= event_line(kind, status, text).skip(STREAM_EVENT_PREFIX@.len() as int));
            assert(p =~= json::written(t));
            assert(json::same_fields(read.unwrap()@, t));
        }
    }
    match event {
        Some(event) => {
            let same = emit_stream_event(
                event.kind.as_str(),
                config::as_text(&event.status),
                config::as_text(&event.text),
            );
            if text::same_text(same.as_str(), line) {
                StreamLine::Event(event)
            } else {
                StreamLine::Foreign(payload)
            }
        },
        None => StreamLine::Foreign(payload),
    }
}

/// Forward an event of the agent: the lines that it becomes on the text channel.
pub fn forward_event(event: AcpEvent) -> (r: Vec<String>)
    ensures
        text::strings(r@) == forwarded(event@),
{
    let ghost want = forwarded(event@);
    let mut lines: Vec<String> = Vec::new();
    assert(text::strings(lines@) =~= Seq::empty());
    match event {
        AcpEvent::TextChunk(t) => {
            lines.push(t);
        },
        AcpEvent::ToolCall { title, status } => {
            if text::same_text(status.as_str(), "pending") {
                lines.push(emit_stream_event("tool", Some("pending"), Some(title.as_str())));
            }
        },
        AcpEvent::ToolCallUpdate { status, content } => {
            if text::same_text(status.as_str(), "completed") {
                let t = match &content {
                    Some(t) => chunks::truncate(t.as_str(), MAX_TOOL_TEXT),
                    None => "completed".to_owned(),
                };
                lines.push(emit_stream_event("tool", Some("completed"), Some(t.as_str())));
            }
        },
        AcpEvent::Plan(entries) => {
            let n: usize = entries.len();
            let ghost plan = acp::plan_of(entries@);
            let mut i: usize = 0;
            while i < n
                invariant
                    i <= n,
                    n == entries@.len(),
                    plan == acp::plan_of(entries@),
                    lines@.len() == i,
                    text::strings(lines@) == plan_lines(plan).take(i as int),
                decreases n - i,
            {
                let ghost before = text::strings(lines@);
                lines.push(
                    emit_stream_event(
                        "plan",
                        Some(entries[i].status.as_str()),
                        Some(entries[i].content.as_str()),
                    ),
                );
                assert(text::strings(lines@) =~= before.push(plan_lines(plan)[i as int]));
                assert(plan_lines(plan).take(i + 1) =~= before.push(plan_lines(plan)[i as int]));
                i += 1;
            }
            assert(plan_lines(plan).take(n as int) =~= plan_lines(plan));
        },
        AcpEvent::Usage { input_tokens, output_tokens } => {
            let mut t = "input=".to_owned();
            let input: u64 = match input_tokens {
                Some(n) => n,
                None => 0,
            };
            let output: u64 = match output_tokens {
                Some(n) => n,
                None => 0,
            };
            text::push_decimal(&mut t, input as u128);
            t.append(" output=");
            text::push_decimal(&mut t, output as u128);
            lines.push(emit_stream_event("usage", None, Some(t.as_str())));
        },
        AcpEvent::Error(e) => {
            lines.push(emit_stream_event("error", None, Some(e.as_str())));
        },
    }
    assert(text::strings(lines@) =~= want);
    lines
}

/// A letter of the Latin alphabet.
pub open spec fn is_letter(c: char) -> bool {
    'a' <= c <= 'z' || 'A' <= c <= 'Z'
}

/// What follows an escape sequence: it ends with a letter.
pub open spec fn after_escape(s: Seq<char>) -> Seq<char>
    decreases s.len(),
{
    if s.len() == 0 {
        s
    } else if is_letter(s[0]) {
        s.skip(1)
    } else {
        after_escape(s.skip(1))
    }
}

/// What follows an escape sequence is no longer than what holds it.
pub proof fn lemma_after_escape(s: Seq<char>)
    ensures
        after_escape(s).len() <= s.len(),
    decreases s.len(),
{
    if s.len() > 0 && !is_letter(s[0]) {
        lemma_after_escape(s.skip(1));
    }
}

/// A text without its escape sequences.
pub open spec fn without_escapes(s: Seq<char>) -> Seq<char>
    decreases s.len(),
{
    if s.len() == 0 {
        Seq::empty()
    } else if s[0] == '\u{1b}' {
        proof {
            lemma_after_escape(s.skip(1));
        }
        without_escapes(after_escape(s.skip(1)))
    } else {
        seq![s[0]] + without_escapes(s.skip(1))
    }
}

/// Strip ANSI escape sequences from a string.
pub fn strip_ansi(s: &str) -> (r: String)
    ensures
        r@ == without_escapes(s@),
{
    let v = text::chars_of(s);
    let n: usize = v.len();
    let mut result = String::new();
    let mut i: usize = 0;
    assert(v@.skip(0) =~= v@);
    assert(result@ + without_escapes(v@) =~= without_escapes(v@));
    while i < n
        invariant
            i <= n,
            n == v@.len(),
            v@ == s@,
            result@ + without_escapes(v@.skip(i as int)) == without_escapes(s@),
        decreases n - i,
    {
        let ghost rest = v@.skip(i as int);
        assert(rest[0] == v@[i as int]);
        assert(rest.skip(1) =~= v@.skip(i + 1));
        if v[i] == '\u{1b}' {
            i += 1;
            let ghost begin = i;
            let ghost after = after_escape(v@.skip(i as int));
            let mut ended = false;
            while i < n && !ended
                invariant
                    begin <= i <= n,
                    n == v@.len(),
                    ended ==> after == v@.skip(i as int),
                    !ended ==> after == after_escape(v@.skip(i as int)),
                decreases n - i,
            {
                let c = v[i];
                assert(v@.skip(i as int)[0] == c);
                assert(v@.skip(i as int).skip(1) =~= v@.skip(i + 1));
                ended = ('a' <= c && c <= 'z') || ('A' <= c && c <= 'Z');
                i += 1;
            }
            assert(after =~= v@.skip(i as int));
        } else {
            let ghost before = result@;
            result.push(v[i]);
            assert(before + (seq![v@[i as int]] + without_escapes(rest.skip(1)))
                =~= result@ + without_escapes(rest.skip(1)));
            i += 1;
        }
    }
    assert(v@.skip(n as int) =~= Seq::empty());
    assert(result@ + without_escapes(Seq::empty()) =~= result@);
    result
}

/// What to do after an attempt to create a session has failed.
#[derive(Debug)]
pub enum RetryStep {
    /// Try again after this many milliseconds.
    Wait(u64),
    /// Give up, with this error.
    GiveUp(String),
}

/// How often the creation of a session is attempted.
pub const MAX_ATTEMPTS: usize = 3;

/// How long is waited after the first failure, in milliseconds.
pub const BASE_RETRY_DELAY_MS: u64 = 600;

/// What to do after the attempt with this number has failed; the first has the
/// number 1.
pub fn after_failed_attempt(attempt: usize) -> (r: RetryStep)
    ensures
        if attempt < MAX_ATTEMPTS {
            r == RetryStep::Wait((BASE_RETRY_DELAY_MS * attempt) as u64)
        } else {
            r matches RetryStep::GiveUp(e) && e@
                == "Failed to create ACP session for gemini-cli after 3 attempts"@
        },
{
    if attempt < MAX_ATTEMPTS {
        RetryStep::Wait(BASE_RETRY_DELAY_MS * attempt as u64)
    } else {
        RetryStep::GiveUp(
            "Failed to create ACP session for gemini-cli after 3 attempts".to_owned(),
        )
    }
}

/// The system prompt goes before the first prompt, and before no other.
pub proof fn law_system_prompt_is_sent_once(
    session: Session,
    prompt: Seq<char>,
    other: Option<Seq<char>>,
)
    ensures
        session.has_history ==> full_prompt(
            text::text_of(session.system_prompt),
            session.has_history,
            prompt,
            Seq::empty(),
        ) == prompt,
        !session.has_history && session.system_prompt is Some ==> full_prompt(
            text::text_of(session.system_prompt),
            session.has_history,
            prompt,
            Seq::empty(),
        ) == "[System instruction]: "@ + session.system_prompt->0@ + "\n\n"@ + prompt,
        full_prompt(other, true, prompt, Seq::empty()) == full_prompt(
            None,
            true,
            prompt,
            Seq::empty(),
        ),
{
}

/// Every event line is told apart from text by its prefix, and what follows the
/// prefix is the event's JSON text.
pub proof fn law_event_lines_are_recognised(
    kind: Seq<char>,
    status: Option<Seq<char>>,
    text: Option<Seq<char>>,
)
    ensures
        text::after_prefix(event_line(kind, status, text), STREAM_EVENT_PREFIX@) == Some(
            json::written(event_tree(kind, status, text)),
        ),
{
    let p = STREAM_EVENT_PREFIX@;
    let line = event_line(kind, status, text);
    let payload = json::written(event_tree(kind, status, text));
    assert(line.subrange(0, p.len() as int) =~= p);
    assert(line.skip(p.len() as int) =~= payload);
}

/// A wish to stop reaches the agent once, however often it is voiced.
pub proof fn law_cancel_is_sent_once(event: QueryEvent, cancelled: bool)
    ensures
        next_after(cancelled, event) == QueryNext::SendCancel ==> !cancelled
            && cancelled_after(cancelled, event),
        cancelled ==> cancelled_after(cancelled, event) && next_after(cancelled, event)
            != QueryNext::SendCancel,
{
}

/// A text without escape characters is left as it is, and no escape character is left
/// in any text.
pub proof fn law_escapes_are_gone(s: Seq<char>)
    ensures
        !without_escapes(s).contains('\u{1b}'),
        !s.contains('\u{1b}') ==> without_escapes(s) == s,
    decreases s.len(),
{
    if s.len() > 0 {
        if s[0] == '\u{1b}' {
            lemma_after_escape(s.skip(1));
            law_escapes_are_gone(after_escape(s.skip(1)));
            assert(s.contains('\u{1b}'));
        } else {
            law_escapes_are_gone(s.skip(1));
            assert(s =~= seq![s[0]] + s.skip(1));
            assert forall|i: int| 0 <= i < without_escapes(s).len() implies without_escapes(s)[i]
                != '\u{1b}' by {
                if i > 0 {
                    assert(without_escapes(s)[i] == without_escapes(s.skip(1))[i - 1]);
                    assert(!without_escapes(s.skip(1)).contains('\u{1b}'));
                }
            }
            if !s.contains('\u{1b}') {
                assert forall|i: int| 0 <= i < s.skip(1).len() implies s.skip(1)[i]
                    != '\u{1b}' by {
                    assert(s[i + 1] != '\u{1b}');
                }
            }
        }
    }
}

proof fn lemma_references(files: Seq<Seq<char>>)
    ensures
        references(files) == Seq::new(
            files.len(),
            |i: int| "@{"@ + files[i] + "}\n"@,
        ).flatten_alt(),
    decreases files.len(),
{
    let all = Seq::new(files.len(), |i: int| "@{"@ + files[i] + "}\n"@);
    if files.len() > 0 {
        let front = files.drop_last();
        lemma_references(front);
        assert(all.drop_last() =~= Seq::new(front.len(), |i: int| "@{"@ + front[i] + "}\n"@));
        assert(references(files) =~= references(front) + ("@{"@ + files.last() + "}\n"@));
    }
}

/// A question about files is the question itself, an empty line, and a reference to every
/// file, in order, each on a line of its own. So it is in every query of a session.
pub proof fn law_every_file_is_referenced_behind_the_prompt(
    session: &Session,
    prompt: &str,
    files: &[String],
    plain: String,
    r: String,
)
    requires
        call_ensures(Session::query, (session, prompt), plain),
        call_ensures(Session::query_with_files, (session, prompt, files), r),
    ensures
        files@.len() == 0 ==> r@ == plain@,
        files@.len() > 0 ==> r@ == plain@ + "\n\n"@ + Seq::new(
            files@.len(),
            |i: int| "@{"@ + files@[i]@ + "}\n"@,
        ).flatten(),
{
    let texts = text::strings(files@);
    lemma_references(texts);
    let all = Seq::new(files@.len(), |i: int| "@{"@ + files@[i]@ + "}\n"@);
    assert(all =~= Seq::new(texts.len(), |i: int| "@{"@ + texts[i] + "}\n"@));
    all.lemma_flatten_and_flatten_alt_are_equivalent();
}

/// A question is sent as it is, but for the first one of a session with a system prompt,
/// which goes before it.
pub proof fn law_question_is_sent_as_it_is(session: &Session, prompt: &str, r: String)
    requires
        call_ensures(Session::query, (session, prompt), r),
    ensures
        session.has_history ==> r@ == prompt@,
        session.system_prompt is None ==> r@ == prompt@,
        !session.has_history && session.system_prompt is Some ==> r@ == "[System instruction]: "@
            + session.system_prompt->0@ + "\n\n"@ + prompt@,
{
}

/// Text from the agent goes on the text channel as it is, in one piece.
pub proof fn law_text_is_forwarded_as_it_is(event: AcpEvent, r: Vec<String>)
    requires
        call_ensures(forward_event, (event,), r),
        event is TextChunk,
    ensures
        r@.len() == 1,
        r@[0]@ == event->TextChunk_0@,
{
    assert(text::strings(r@).len() == forwarded(event@).len());
    assert(text::strings(r@)[0] == r@[0]@);
}

/// Whether a line reads as an event.
pub open spec fn reads_as(
    line: StreamLine,
    kind: Seq<char>,
    status: Option<Seq<char>>,
    text: Option<Seq<char>>,
) -> bool {
    &&& line is Event
    &&& line->Event_0.kind@ == kind
    &&& text::text_of(line->Event_0.status) == status
    &&& text::text_of(line->Event_0.text) == text
}

/// A line without the prefix of an event is text.
pub proof fn law_line_without_the_prefix_is_text(line: &str, r: StreamLine)
    requires
        call_ensures(parse_stream_event, (line,), r),
    ensures
        r is Text <==> !text::begins_with(line@, "__TOODLES_EVT__:"@),
{
}

/// A tool that begins is told of with its title, and one that is done with what it
/// produced, cut at 200 characters. Of other states of a tool nothing is told.
pub proof fn law_tools_are_told_of(
    event: AcpEvent,
    lines: Vec<String>,
    line: &str,
    read: StreamLine,
)
    requires
        call_ensures(forward_event, (event,), lines),
        call_ensures(parse_stream_event, (line,), read),
        lines@.len() > 0 ==> line@ == lines@[0]@,
    ensures
        event is ToolCall && event->ToolCall_status@ == "pending"@ ==> lines@.len() == 1
            && reads_as(read, "tool"@, Some("pending"@), Some(event->title@)),
        event is ToolCall && event->ToolCall_status@ != "pending"@ ==> lines@.len() == 0,
        event is ToolCallUpdate && event->ToolCallUpdate_status@ != "completed"@ ==> lines@.len()
            == 0,
        event is ToolCallUpdate && event->ToolCallUpdate_status@ == "completed"@ ==> {
            let content = event->content;
            &&& lines@.len() == 1
            &&& content is None ==> reads_as(
                read,
                "tool"@,
                Some("completed"@),
                Some("completed"@),
            )
            &&& content is Some && content->0@.len() <= 200 ==> reads_as(
                read,
                "tool"@,
                Some("completed"@),
                Some(content->0@),
            )
            &&& content is Some && content->0@.len() > 200 ==> reads_as(
                read,
                "tool"@,
                Some("completed"@),
                Some(content->0@.take(199) + seq!['…']),
            )
        },
{
    let want = forwarded(event@);
    if lines@.len() > 0 {
        assert(text::strings(lines@)[0] == lines@[0]@);
    }
    assert(lines@.len() == want.len());
    if event is ToolCallUpdate && event->content is Some && event->content->0@.len() > 200 {
        let t = event->content->0@;
        assert(t.take(199).push('…') =~= t.take(199) + seq!['…']);
    }
}

/// A plan is told of entry by entry, in order.
pub proof fn law_plan_is_forwarded_entry_by_entry(
    event: AcpEvent,
    lines: Vec<String>,
    i: int,
    line: &str,
    read: StreamLine,
)
    requires
        call_ensures(forward_event, (event,), lines),
        call_ensures(parse_stream_event, (line,), read),
        event is Plan,
        0 <= i < event->Plan_0@.len(),
        i < lines@.len() ==> line@ == lines@[i]@,
    ensures
        lines@.len() == event->Plan_0@.len(),
        reads_as(
            read,
            "plan"@,
            Some(event->Plan_0@[i].status@),
            Some(event->Plan_0@[i].content@),
        ),
{
    let plan = acp::plan_of(event->Plan_0@);
    assert(text::strings(lines@) == plan_lines(plan));
    assert(lines@.len() == plan_lines(plan).len());
    assert(text::strings(lines@)[i] == lines@[i]@);
    assert(plan[i] == (event->Plan_0@[i].content@, event->Plan_0@[i].status@));
    assert(line@ == event_line("plan"@, Some(plan[i].1), Some(plan[i].0)));
}

/// The use of tokens is told of in decimal digits, with 0 for what is not known, and an
/// error as it is.
pub proof fn law_usage_and_errors_are_forwarded(
    event: AcpEvent,
    lines: Vec<String>,
    line: &str,
    read: StreamLine,
)
    requires
        call_ensures(forward_event, (event,), lines),
        call_ensures(parse_stream_event, (line,), read),
        event is Usage || event is Error,
        lines@.len() > 0 ==> line@ == lines@[0]@,
    ensures
        lines@.len() == 1,
        event is Error ==> reads_as(read, "error"@, None, Some(event->Error_0@)),
        event is Usage ==> {
            let a = if event->input_tokens is Some { event->input_tokens->0 as nat } else { 0 };
            let b = if event->output_tokens is Some { event->output_tokens->0 as nat } else { 0 };
            reads_as(
                read,
                "usage"@,
                None,
                Some("input="@ + text::decimal(a) + " output="@ + text::decimal(b)),
            )
        },
{
    assert(lines@.len() == forwarded(event@).len());
    assert(text::strings(lines@)[0] == lines@[0]@);
}

/// While the agent answers, its events are forwarded and waited for; a failure is told of
/// in words; and the query ends with the answer, or when no more events can come.
pub proof fn law_query_goes_on_until_it_is_answered(event: QueryEvent, cancelled: bool)
    ensures
        event is Agent ==> lines_after(event) == forwarded(event->Agent_0@) && next_after(
            cancelled,
            event,
        ) == QueryNext::Wait && cancelled_after(cancelled, event) == cancelled,
        event is Finished ==> next_after(cancelled, event) == QueryNext::Drain,
        event is Finished && event->Finished_0 is Err ==> lines_after(event)
            == seq!["\n⚠️ ACP error: "@ + event->Finished_0->Err_0@] && cancelled_after(
            cancelled,
            event,
        ) == cancelled,
        event is Finished && event->Finished_0 is Ok ==> lines_after(event).len() == 0
            && cancelled_after(cancelled, event) == (cancelled || json::field_of(
            Some(event->Finished_0->Ok_0@),
            "stopReason"@,
        ) == Some(JsonTree::Str("cancelled"@))),
        event is Closed ==> next_after(cancelled, event) == QueryNext::Stop && lines_after(
            event,
        ).len() == 0 && cancelled_after(cancelled, event) == cancelled,
        event is Cancel ==> cancelled_after(cancelled, event) && lines_after(event).len() == 0,
        event is Cancel && !cancelled ==> next_after(cancelled, event) == QueryNext::SendCancel,
        event is Cancel && cancelled ==> next_after(cancelled, event) == QueryNext::Wait,
{
    reveal_strlit("cancelled");
    reveal_strlit("unknown");
    assert("cancelled"@[0] == 'c');
    assert("unknown"@[0] == 'u');
}

proof fn lemma_escape_ends(b: Seq<char>, rest: Seq<char>)
    requires
        forall|i: int| 0 <= i < b.len() ==> !is_letter(#[trigger] b[i]),
    ensures
        after_escape(b).len() == 0,
        rest.len() > 0 && is_letter(rest[0]) ==> after_escape(b + rest) == rest.skip(1),
    decreases b.len(),
{
    if b.len() > 0 {
        let t = b.skip(1);
        assert forall|i: int| 0 <= i < t.len() implies !is_letter(#[trigger] t[i]) by {
            assert(t[i] == b[i + 1]);
        }
        lemma_escape_ends(t, rest);
        assert((b + rest).skip(1) =~= t + rest);
        assert(!is_letter((b + rest)[0]));
    } else {
        assert(b + rest =~= rest);
    }
}

proof fn lemma_text_before_an_escape(a: Seq<char>, rest: Seq<char>)
    requires
        !a.contains('\u{1b}'),
    ensures
        without_escapes(a + rest) == a + without_escapes(rest),
    decreases a.len(),
{
    if a.len() > 0 {
        let t = a.skip(1);
        assert forall|i: int| 0 <= i < t.len() implies t[i] != '\u{1b}' by {
            assert(t[i] == a[i + 1]);
        }
        lemma_text_before_an_escape(t, rest);
        assert((a + rest).skip(1) =~= t + rest);
        assert(a[0] != '\u{1b}');
        assert(seq![a[0]] + (t + without_escapes(rest)) =~= a + without_escapes(rest));
    } else {
        assert(a + rest =~= rest);
        assert(a + without_escapes(rest) =~= without_escapes(rest));
    }
}

/// Of a text with an escape sequence, what stands before the sequence and what follows
/// the first letter in it is kept; a sequence that does not end takes the rest with it.
pub proof fn law_escape_sequence_ends_with_a_letter(
    s: &str,
    r: String,
    a: Seq<char>,
    b: Seq<char>,
    c: char,
    behind: &str,
    kept: String,
)
    requires
        call_ensures(strip_ansi, (s,), r),
        call_ensures(strip_ansi, (behind,), kept),
        !a.contains('\u{1b}'),
        forall|i: int|
            0 <= i < b.len() ==> !('a' <= #[trigger] b[i] <= 'z' || 'A' <= b[i] <= 'Z'),
        'a' <= c <= 'z' || 'A' <= c <= 'Z',
    ensures
        s@ == a ==> r@ == a,
        s@ == a + seq!['\u{1b}'] + b ==> r@ == a,
        s@ == a + seq!['\u{1b}'] + b + seq![c] + behind@ ==> r@ == a + kept@,
{
    let e = seq!['\u{1b}'];
    let rest = seq![c] + behind@;
    assert(rest.skip(1) =~= behind@);
    lemma_escape_ends(b, rest);
    law_escapes_are_gone(a);
    lemma_text_before_an_escape(a, e + b);
    assert((e + b).skip(1) =~= b);
    assert(after_escape(b) =~= Seq::empty());
    assert(without_escapes(Seq::empty()) =~= Seq::empty());
    assert(without_escapes(e + b) =~= Seq::empty());
    assert(a + Seq::<char>::empty() =~= a);
    assert(a + e + b =~= a + (e + b));
    lemma_text_before_an_escape(a, e + (b + rest));
    assert((e + (b + rest)).skip(1) =~= b + rest);
    assert(a + e + b + seq![c] + behind@ =~= a + (e + (b + rest)));
}

/// A session is asked for three times; after the first failure 600 milliseconds are
/// waited, after the second twice as many.
pub proof fn law_session_is_asked_for_three_times(attempt: usize, r: RetryStep)
    requires
        call_ensures(after_failed_attempt, (attempt,), r),
    ensures
        attempt < 3 ==> r is Wait && r->Wait_0 == 600 * attempt,
        attempt >= 3 ==> r is GiveUp,
{
}

/// A session that approves everything begins in the mode for that, and no other does.
pub proof fn law_session_begins_in_its_mode(session: &Session, r: Option<String>)
    requires
        call_ensures(Session::initial_mode, (session,), r),
    ensures
        r is Some <==> session.yolo,
        r is Some ==> r->0@ == "yolo"@,
{
}

/// What is put into an event line is read from it.
pub proof fn law_event_is_read_as_it_was_written(
    kind: &str,
    status: Option<&str>,
    words: Option<&str>,
    written: String,
    line: &str,
    read: StreamLine,
)
    requires
        call_ensures(emit_stream_event, (kind, status, words), written),
        call_ensures(parse_stream_event, (line,), read),
        line@ == written@,
    ensures
        read is Event,
        read->Event_0.kind@ == kind@,
        status is Some ==> text::text_of(read->Event_0.status) == Some(status->0@),
        status is None ==> read->Event_0.status is None,
        words is Some ==> text::text_of(read->Event_0.text) == Some(words->0@),
        words is None ==> read->Event_0.text is None,
{
    assert(line@ == event_line(kind@, text::optional(status), text::optional(words)));
}

/// While a query is under way, text goes out as it came, a failure is told of, and the
/// query goes on until it is answered; the first wish to stop reaches the agent.
pub proof fn law_step_of_a_query(
    query: &mut Query,
    event: QueryEvent,
    r: (Vec<String>, QueryNext),
)
    requires
        call_ensures(Query::step, (query, event), r),
    ensures
        event is Agent && event->Agent_0 is TextChunk ==> r.0@.len() == 1 && r.0@[0]@
            == event->Agent_0->TextChunk_0@ && r.1 == QueryNext::Wait && final(query).cancelled
            == old(query).cancelled,
        event is Finished && event->Finished_0 is Err ==> r.0@.len() == 1 && r.0@[0]@
            == "\n⚠️ ACP error: "@ + event->Finished_0->Err_0@ && r.1 == QueryNext::Drain,
        event is Finished && event->Finished_0 is Ok ==> r.0@.len() == 0 && r.1
            == QueryNext::Drain,
        event is Closed ==> r.0@.len() == 0 && r.1 == QueryNext::Stop && final(query).cancelled
            == old(query).cancelled,
        event is Cancel ==> final(query).cancelled && r.0@.len() == 0,
        event is Cancel && !old(query).cancelled ==> r.1 == QueryNext::SendCancel,
        event is Cancel && old(query).cancelled ==> r.1 == QueryNext::Wait,
{
    assert(text::strings(r.0@).len() == r.0@.len());
    if r.0@.len() > 0 {
        assert(text::strings(r.0@)[0] == r.0@[0]@);
    }
}

/// After a query the session has a history, and is otherwise what it was.
pub proof fn law_query_leaves_a_history(session: &mut Session)
    requires
        call_ensures(Session::finish_query, (session,), ()),
    ensures
        final(session).has_history,
        final(session).session_id == old(session).session_id,
        final(session).yolo == old(session).yolo,
        final(session).system_prompt == old(session).system_prompt,
{
}

} // verus!
