//! The Agent Client Protocol: JSON-RPC messages to and from `gemini --acp`.
use std::collections::HashMap;
use vstd::prelude::*;
use vstd::string::*;

use crate::json;
use crate::json::{Json, JsonTree};
use crate::text;
use crate::text::CharClass;

verus! {

broadcast use vstd::std_specs::hash::group_hash_axioms;

/// Events sent from the agent via `session/update` notifications.
#[derive(Debug, Clone)]
pub enum AcpEvent {
    /// Streaming text chunk from the agent's response.
    TextChunk(String),
    /// A tool call has been initiated.
    ToolCall { title: String, status: String },
    /// Progress update for an ongoing tool call.
    ToolCallUpdate { status: String, content: Option<String> },
    /// Agent's plan for the task.
    Plan(Vec<PlanEntry>),
    /// Usage statistics update.
    Usage { input_tokens: Option<u64>, output_tokens: Option<u64> },
    /// An error occurred.
    Error(String),
}

/// A single entry in the agent's plan.
#[derive(Debug, Clone)]
pub struct PlanEntry {
    pub content: String,
    pub status: String,
}

/// An event as plain values; a plan is the contents and the states of its entries.
pub enum Event {
    TextChunk(Seq<char>),
    ToolCall { title: Seq<char>, status: Seq<char> },
    ToolCallUpdate { status: Seq<char>, content: Option<Seq<char>> },
    Plan(Seq<(Seq<char>, Seq<char>)>),
    Usage { input_tokens: Option<nat>, output_tokens: Option<nat> },
    Error(Seq<char>),
}

/// The contents and the states of the entries of a plan.
pub open spec fn plan_of(entries: Seq<PlanEntry>) -> Seq<(Seq<char>, Seq<char>)> {
    Seq::new(entries.len(), |i: int| (entries[i].content@, entries[i].status@))
}

/// An optional number.
pub open spec fn number_of(n: Option<u64>) -> Option<nat> {
    match n {
        Some(n) => Some(n as nat),
        None => None,
    }
}

impl View for AcpEvent {
    type V = Event;

    open spec fn view(&self) -> Event {
        match *self {
            AcpEvent::TextChunk(t) => Event::TextChunk(t@),
            AcpEvent::ToolCall { title, status } => Event::ToolCall {
                title: title@,
                status: status@,
            },
            AcpEvent::ToolCallUpdate { status, content } => Event::ToolCallUpdate {
                status: status@,
                content: text::text_of(content),
            },
            AcpEvent::Plan(entries) => Event::Plan(plan_of(entries@)),
            AcpEvent::Usage { input_tokens, output_tokens } => Event::Usage {
                input_tokens: number_of(input_tokens),
                output_tokens: number_of(output_tokens),
            },
            AcpEvent::Error(e) => Event::Error(e@),
        }
    }
}

/// An optional event as plain values.
pub open spec fn event_in(e: Option<AcpEvent>) -> Option<Event> {
    match e {
        Some(e) => Some(e@),
        None => None,
    }
}

/// Content block in a prompt message.
#[derive(Debug)]
pub enum ContentBlock {
    Text(String),
}

/// A text block as it stands in a prompt.
pub open spec fn block_tree(b: ContentBlock) -> JsonTree {
    match b {
        ContentBlock::Text(t) => JsonTree::Object(
            seq![("type"@, JsonTree::Str("text"@)), ("text"@, JsonTree::Str(t@))],
        ),
    }
}

impl ContentBlock {
    /// The block as it stands in a prompt.
    pub fn to_json(self) -> (r: Json)
        ensures
            r@ == block_tree(self),
    {
        match self {
            ContentBlock::Text(t) => {
                let r = json::with(json::empty_object(), "type", json::string("text"));
                let r = json::with(r, "text", Json::Str(t));
                assert(r@->Object_0 =~= block_tree(self)->Object_0);
                r
            },
        }
    }
}

/// A request to the agent.
#[derive(Debug)]
pub struct JsonRpcRequest {
    pub id: u64,
    pub method: String,
    pub params: Json,
    /// How long to wait for the response.
    pub timeout_secs: u64,
}

/// A notification to the agent: no response is expected.
#[derive(Debug)]
pub struct JsonRpcNotification {
    pub method: String,
    pub params: Json,
}

/// An error that the agent answers with.
#[derive(Debug)]
pub struct JsonRpcError {
    pub code: i64,
    pub message: String,
}

/// A message from the agent: a response, a notification, or a request.
#[derive(Debug)]
pub struct JsonRpcMessage {
    pub id: Option<Json>,
    pub method: Option<String>,
    pub params: Option<Json>,
    pub result: Option<Json>,
    pub error: Option<JsonRpcError>,
}

/// The command that replaces the shell by the agent, on a terminal that answers no
/// queries and shows no colors.
pub fn wrapped_command(agent_cmd: &str) -> (r: String)
    ensures
        r@ == "exec env TERM=dumb NO_COLOR=1 "@ + agent_cmd@,
{
    let mut r = "exec env TERM=dumb NO_COLOR=1 ".to_owned();
    r.append(agent_cmd);
    r
}

/// What is said of a command that cannot be started.
pub fn spawn_failure(agent_cmd: &str) -> (r: String)
    ensures
        r@ == "Failed to spawn '"@ + agent_cmd@ + "'"@,
{
    let mut r = "Failed to spawn '".to_owned();
    r.append(agent_cmd);
    r.append("'");
    r
}

/// The JSON text in a line of output: what stands from the first brace on, as the
/// agent may write terminal queries before it.
pub open spec fn payload_of(line: Seq<char>) -> Option<Seq<char>> {
    let t = text::trimmed(line);
    match text::first_index(t, seq!['{']) {
        Some(i) => Some(t.skip(i)),
        None => None,
    }
}

/// The JSON text in a line of the agent's output, if there is any.
pub fn json_payload(line: &str) -> (r: Option<String>)
    ensures
        text::text_of(r) == payload_of(line@),
{
    let v = text::chars_of(line);
    let t = text::trim_chars(v.as_slice());
    proof {
        reveal_strlit("{");
        assert("{"@ =~= seq!['{']);
    }
    match text::find(t.as_slice(), "{") {
        Some(i) => {
            let n: usize = t.len();
            let rest = text::sub_chars(t.as_slice(), i, n);
            assert(rest@ =~= t@.skip(i as int));
            Some(text::string_of(rest.as_slice()))
        },
        None => None,
    }
}

/// A message as it goes over the wire: its JSON text on a line of its own.
pub fn message_line(json_text: &str) -> (r: String)
    ensures
        r@ == json_text@.push('\n'),
{
    let mut r = json_text.to_owned();
    r.push('\n');
    r
}

/// The end of a message: what is asked, and the parameters.
pub open spec fn call_text(method: Seq<char>, params: JsonTree) -> Seq<char> {
    "\"method\":"@ + json::written(JsonTree::Str(method)) + ",\"params\":"@ + json::written(params)
        + "}\n"@
}

/// A request as it goes over the wire: a JSON object on a line of its own, its fields in
/// this order.
pub open spec fn request_text(request: JsonRpcRequest) -> Seq<char> {
    "{\"jsonrpc\":\"2.0\",\"id\":"@ + text::decimal(request.id as nat) + ","@ + call_text(
        request.method@,
        request.params@,
    )
}

/// A notification as it goes over the wire: a request without an `id`.
pub open spec fn notification_text(notification: JsonRpcNotification) -> Seq<char> {
    "{\"jsonrpc\":\"2.0\","@ + call_text(notification.method@, notification.params@)
}

/// The end of a message.
fn append_call(line: &mut String, method: &str, params: &Json)
    ensures
        final(line)@ == old(line)@ + call_text(method@, params@),
{
    line.append("\"method\":");
    line.append(json::to_text(&json::string(method)).as_str());
    line.append(",\"params\":");
    line.append(json::to_text(params).as_str());
    line.append("}\n");
    assert(line@ =~= old(line)@ + call_text(method@, params@));
}

/// A request as it goes over the wire.
pub fn request_line(request: &JsonRpcRequest) -> (r: String)
    ensures
        r@ == request_text(*request),
{
    let mut line = "{\"jsonrpc\":\"2.0\",\"id\":".to_owned();
    text::push_decimal(&mut line, request.id as u128);
    line.append(",");
    append_call(&mut line, request.method.as_str(), &request.params);
    line
}

/// A notification as it goes over the wire.
pub fn notification_line(notification: &JsonRpcNotification) -> (r: String)
    ensures
        r@ == notification_text(*notification),
{
    let mut line = "{\"jsonrpc\":\"2.0\",".to_owned();
    append_call(&mut line, notification.method.as_str(), &notification.params);
    line
}

/// The event that ends a connection.
pub fn connection_closed() -> (r: AcpEvent)
    ensures
        r@ == Event::Error("ACP connection closed"@),
{
    AcpEvent::Error("ACP connection closed".to_owned())
}

/// What is said of a request that no response came to in time.
pub fn timeout_error(timeout_secs: u64, method: &str) -> (r: String)
    ensures
        r@ == "ACP request timed out after "@ + text::decimal(timeout_secs as nat) + "s: "@
            + method@,
{
    let mut r = "ACP request timed out after ".to_owned();
    text::push_decimal(&mut r, timeout_secs as u128);
    r.append("s: ");
    r.append(method);
    r
}

/// The parameters of `initialize`.
pub open spec fn initialize_tree(version: Seq<char>) -> JsonTree {
    JsonTree::Object(
        seq![
            ("protocolVersion"@, JsonTree::UInt(1)),
            ("clientCapabilities"@, JsonTree::Object(Seq::empty())),
            (
                "clientInfo"@,
                JsonTree::Object(
                    seq![
                        ("name"@, JsonTree::Str("toodles"@)),
                        ("title"@, JsonTree::Str("Toodles Bot"@)),
                        ("version"@, JsonTree::Str(version)),
                    ],
                ),
            ),
        ],
    )
}

fn initialize_params(version: &str) -> (r: Json)
    ensures
        r@ == initialize_tree(version@),
{
    let info = json::with(json::empty_object(), "name", json::string("toodles"));
    let info = json::with(info, "title", json::string("Toodles Bot"));
    let info = json::with(info, "version", json::string(version));
    let ghost inner = info@;
    let r = json::with(json::empty_object(), "protocolVersion", Json::UInt(1));
    let r = json::with(r, "clientCapabilities", json::empty_object());
    let r = json::with(r, "clientInfo", info);
    assert(inner->Object_0 =~= initialize_tree(version@)->Object_0[2].1->Object_0);
    assert(r@->Object_0 =~= initialize_tree(version@)->Object_0);
    r
}

/// The parameters of `session/new`.
pub open spec fn new_session_tree(cwd: Seq<char>) -> JsonTree {
    JsonTree::Object(
        seq![("cwd"@, JsonTree::Str(cwd)), ("mcpServers"@, JsonTree::Array(Seq::empty()))],
    )
}

/// The parameters of `session/prompt`.
pub open spec fn prompt_tree(session_id: Seq<char>, content: Seq<ContentBlock>) -> JsonTree {
    JsonTree::Object(
        seq![
            ("sessionId"@, JsonTree::Str(session_id)),
            (
                "prompt"@,
                JsonTree::Array(Seq::new(content.len(), |i: int| block_tree(content[i]))),
            ),
        ],
    )
}

fn prompt_params(session_id: &str, content: Vec<ContentBlock>) -> (r: Json)
    ensures
        r@ == prompt_tree(session_id@, content@),
{
    let ghost all = content@;
    let n: usize = content.len();
    let mut items: Vec<Json> = Vec::new();
    let mut i: usize = 0;
    while i < n
        invariant
            i <= n,
            n == content@.len(),
            all == content@,
            items@.len() == i,
            forall|k: int| 0 <= k < i ==> #[trigger] items@[k]@ == block_tree(all[k]),
        decreases n - i,
    {
        match &content[i] {
            ContentBlock::Text(t) => {
                let block = ContentBlock::Text(t.clone());
                items.push(block.to_json());
            },
        }
        i += 1;
    }
    assert(json::trees(items@) =~= Seq::new(all.len(), |i: int| block_tree(all[i])));
    let r = json::with(json::empty_object(), "sessionId", json::string(session_id));
    let r = json::with(r, "prompt", json::array(items));
    assert(r@->Object_0 =~= prompt_tree(session_id@, all)->Object_0);
    r
}

/// The parameters of `session/cancel`.
pub open spec fn cancel_tree(session_id: Seq<char>) -> JsonTree {
    JsonTree::Object(seq![("sessionId"@, JsonTree::Str(session_id))])
}

/// The parameters of `session/set-mode`.
pub open spec fn mode_tree(session_id: Seq<char>, mode_id: Seq<char>) -> JsonTree {
    JsonTree::Object(
        seq![("sessionId"@, JsonTree::Str(session_id)), ("modeId"@, JsonTree::Str(mode_id))],
    )
}

/// Whether a request is for a method, with parameters and a time to wait.
pub open spec fn asks(
    r: JsonRpcRequest,
    method: Seq<char>,
    params: JsonTree,
    timeout_secs: u64,
) -> bool {
    r.method@ == method && r.params@ == params && r.timeout_secs == timeout_secs
}

/// The number of the request after the one with the number `id`.
pub open spec fn next_id_after(id: u64) -> u64 {
    if id == u64::MAX {
        0
    } else {
        (id + 1) as u64
    }
}

/// The protocol's side of a connection to the agent: which requests are under way,
/// and who waits for the response to each. A `T` stands for the one who waits.
pub struct AcpConnection<T> {
    next_id: u64,
    pending: HashMap<u64, T>,
}

/// What is to be done about a message from the agent.
pub enum Incoming<T> {
    /// Someone waits for this response.
    Response { waiter: T, outcome: Result<Json, String> },
    /// The agent asked for something: this is the line that answers it.
    Answer(String),
    /// The agent told of an event.
    Event(AcpEvent),
    /// Nothing.
    Ignored,
}

impl<T> AcpConnection<T> {
    /// The number of the next request.
    pub closed spec fn upcoming(&self) -> u64 {
        self.next_id
    }

    /// Who waits for the responses to the requests that are under way.
    pub closed spec fn waiting(&self) -> Map<u64, T> {
        self.pending@
    }

    /// A connection on which nothing has been sent.
    pub fn new() -> (r: Self)
        ensures
            r.upcoming() == 1,
            r.waiting() == (Map::<u64, T>::empty()),
    {
        AcpConnection { next_id: 1, pending: HashMap::new() }
    }

    /// Number a request and remember who waits for its response.
    fn request_with_timeout(
        &mut self,
        method: &str,
        params: Json,
        timeout_secs: u64,
        waiter: T,
    ) -> (r: JsonRpcRequest)
        ensures
            r.id == old(self).upcoming(),
            asks(r, method@, params@, timeout_secs),
            final(self).upcoming() == next_id_after(r.id),
            final(self).waiting() == old(self).waiting().insert(r.id, waiter),
    {
        let id: u64 = self.next_id;
        self.next_id = if id == u64::MAX { 0 } else { id + 1 };
        let _replaced = self.pending.insert(id, waiter);
        JsonRpcRequest { id, method: method.to_owned(), params, timeout_secs }
    }

    /// Number a request that is waited for a minute for.
    fn request(&mut self, method: &str, params: Json, waiter: T) -> (r: JsonRpcRequest)
        ensures
            r.id == old(self).upcoming(),
            asks(r, method@, params@, 60),
            final(self).upcoming() == next_id_after(r.id),
            final(self).waiting() == old(self).waiting().insert(r.id, waiter),
    {
        self.request_with_timeout(method, params, 60, waiter)
    }

    /// Initialize the ACP connection.
    pub fn initialize(&mut self, version: &str, waiter: T) -> (r: JsonRpcRequest)
        ensures
            r.id == old(self).upcoming(),
            asks(r, "initialize"@, initialize_tree(version@), 180),
            final(self).upcoming() == next_id_after(r.id),
            final(self).waiting() == old(self).waiting().insert(r.id, waiter),
    {
        self.request_with_timeout("initialize", initialize_params(version), 180, waiter)
    }

    /// Create a new ACP session.
    pub fn new_session(&mut self, cwd: &str, waiter: T) -> (r: JsonRpcRequest)
        ensures
            r.id == old(self).upcoming(),
            asks(r, "session/new"@, new_session_tree(cwd@), 120),
            final(self).upcoming() == next_id_after(r.id),
            final(self).waiting() == old(self).waiting().insert(r.id, waiter),
    {
        let params = json::with(json::empty_object(), "cwd", json::string(cwd));
        let servers: Vec<Json> = Vec::new();
        assert(json::trees(servers@) =~= Seq::empty());
        let params = json::with(params, "mcpServers", json::array(servers));
        assert(params@->Object_0 =~= new_session_tree(cwd@)->Object_0);
        self.request_with_timeout("session/new", params, 120, waiter)
    }

    /// Send a prompt to the agent. The response comes after all streaming
    /// events have been sent via `session/update` notifications.
    pub fn prompt(&mut self, session_id: &str, content: Vec<ContentBlock>, waiter: T) -> (r:
        JsonRpcRequest)
        ensures
            r.id == old(self).upcoming(),
            asks(r, "session/prompt"@, prompt_tree(session_id@, content@), 1800),
            final(self).upcoming() == next_id_after(r.id),
            final(self).waiting() == old(self).waiting().insert(r.id, waiter),
    {
        self.request_with_timeout(
            "session/prompt",
            prompt_params(session_id, content),
            1800,
            waiter,
        )
    }

    /// Cancel an ongoing prompt.
    pub fn cancel(&self, session_id: &str) -> (r: JsonRpcNotification)
        ensures
            r.method@ == "session/cancel"@,
            r.params@ == cancel_tree(session_id@),
    {
        let params = json::with(json::empty_object(), "sessionId", json::string(session_id));
        assert(params@->Object_0 =~= cancel_tree(session_id@)->Object_0);
        JsonRpcNotification { method: "session/cancel".to_owned(), params }
    }

    /// Set session mode (e.g., auto-approve for yolo mode).
    pub fn set_session_mode(&mut self, session_id: &str, mode_id: &str, waiter: T) -> (r:
        JsonRpcRequest)
        ensures
            r.id == old(self).upcoming(),
            asks(r, "session/set-mode"@, mode_tree(session_id@, mode_id@), 60),
            final(self).upcoming() == next_id_after(r.id),
            final(self).waiting() == old(self).waiting().insert(r.id, waiter),
    {
        let params = json::with(json::empty_object(), "sessionId", json::string(session_id));
        let params = json::with(params, "modeId", json::string(mode_id));
        assert(params@->Object_0 =~= mode_tree(session_id@, mode_id@)->Object_0);
        self.request("session/set-mode", params, waiter)
    }

    /// Give up waiting for the response to a request; what came of it is ignored
    /// from then on.
    pub fn give_up(&mut self, id: u64)
        ensures
            final(self).upcoming() == old(self).upcoming(),
            final(self).waiting() == old(self).waiting().remove(id),
    {
        let _waiter = self.pending.remove(&id);
    }

    /// Route an incoming JSON-RPC message.
    pub fn handle_incoming_message(&mut self, msg: JsonRpcMessage) -> (r: Incoming<T>)
        ensures
            final(self).upcoming() == old(self).upcoming(),
            final(self).waiting() == waiting_after(old(self).waiting(), msg),
            routed(r, old(self).waiting(), msg),
    {
        match msg.id {
            Some(id) => {
                let id: u64 = match id {
                    Json::UInt(n) => n,
                    Json::NegInt(_) => 0,
                    Json::OtherNumber(_) => 0,
                    _ => {
                        return Incoming::Ignored;
                    },
                };
                match msg.method {
                    Some(method) => {
                        let answer = handle_agent_request(
                            id,
                            method.as_str(),
                            msg.params.as_ref(),
                        );
                        Incoming::Answer(message_line(json::to_text(&answer).as_str()))
                    },
                    None => {
                        let ghost before = self.pending@;
                        match self.pending.remove(&id) {
                            Some(waiter) => {
                                let outcome = match msg.error {
                                    Some(error) => {
                                        let mut text = "ACP error: ".to_owned();
                                        text.append(error.message.as_str());
                                        Err(text)
                                    },
                                    None => Ok(
                                        match msg.result {
                                            Some(result) => result,
                                            None => Json::Null,
                                        },
                                    ),
                                };
                                Incoming::Response { waiter, outcome }
                            },
                            None => {
                                assert(before.remove(id) =~= before);
                                Incoming::Ignored
                            },
                        }
                    },
                }
            },
            None => match msg.method {
                Some(method) => match handle_notification(method.as_str(), msg.params.as_ref()) {
                    Some(event) => Incoming::Event(event),
                    None => Incoming::Ignored,
                },
                None => Incoming::Ignored,
            },
        }
    }
}

/// The number in the `id` of a message: 0 for a number that no request has, and
/// nothing where it is no number.
pub open spec fn id_number(id: JsonTree) -> Option<u64> {
    match id {
        JsonTree::UInt(n) => Some(n as u64),
        JsonTree::NegInt(_) => Some(0),
        JsonTree::OtherNumber(_) => Some(0),
        _ => None,
    }
}

/// The number of the request that a message is the response to.
pub open spec fn response_id(msg: JsonRpcMessage) -> Option<u64> {
    match (msg.id, msg.method) {
        (Some(id), None) => id_number(id@),
        _ => None,
    }
}

/// Who still waits after a message.
pub open spec fn waiting_after<T>(waiting: Map<u64, T>, msg: JsonRpcMessage) -> Map<u64, T> {
    match response_id(msg) {
        Some(id) => waiting.remove(id),
        None => waiting,
    }
}

/// What a response says: the agent's error, or the result.
pub open spec fn outcome_is(outcome: Result<Json, String>, msg: JsonRpcMessage) -> bool {
    match msg.error {
        Some(e) => outcome matches Err(t) && t@ == "ACP error: "@ + e.message@,
        None => outcome matches Ok(j) && j@ == (match msg.result {
            Some(result) => result@,
            None => JsonTree::Null,
        }),
    }
}

/// Whether `r` is what is to be done about a message.
pub open spec fn routed<T>(r: Incoming<T>, waiting: Map<u64, T>, msg: JsonRpcMessage) -> bool {
    match (msg.id, msg.method) {
        (Some(id), None) => match id_number(id@) {
            Some(n) => if waiting.contains_key(n) {
                r matches Incoming::Response { waiter, outcome } && waiter == waiting[n]
                    && outcome_is(outcome, msg)
            } else {
                r is Ignored
            },
            None => r is Ignored,
        },
        (Some(id), Some(method)) => match id_number(id@) {
            Some(n) => r matches Incoming::Answer(line) && line@ == json::written(
                answer_tree(n, method@, json::tree_in(msg.params)),
            ).push('\n'),
            None => r is Ignored,
        },
        (None, Some(method)) => match notified(method@, json::tree_in(msg.params)) {
            Some(event) => r matches Incoming::Event(e) && e@ == event,
            None => r is Ignored,
        },
        (None, None) => r is Ignored,
    }
}

/// Whether an option of a permission request allows what is asked for.
pub open spec fn allows(option: JsonTree) -> bool {
    let kind = json::str_of(json::field_of(Some(option), "kind"@));
    kind == Some("allowAlways"@) || kind == Some("allowOnce"@)
}

/// The first option from `i` on that allows what is asked for.
pub open spec fn allowing_from(options: Seq<JsonTree>, i: int) -> Option<JsonTree>
    decreases options.len() - i,
{
    if i < 0 || i >= options.len() {
        None
    } else if allows(options[i]) {
        Some(options[i])
    } else {
        allowing_from(options, i + 1)
    }
}

/// The option that is chosen: the first that allows what is asked for, or the first.
pub open spec fn chosen_option(params: Option<JsonTree>) -> Option<JsonTree> {
    match json::items_of(json::field_of(params, "options"@)) {
        Some(options) => match allowing_from(options, 0) {
            Some(option) => Some(option),
            None => if options.len() > 0 {
                Some(options[0])
            } else {
                None
            },
        },
        None => None,
    }
}

/// The name of the option that is chosen.
pub open spec fn chosen_id(params: Option<JsonTree>) -> Seq<char> {
    json::text_or(
        json::str_of(json::field_of(chosen_option(params), "optionId"@)),
        "allow_always"@,
    )
}

/// The answer to a request of the agent.
pub open spec fn answer_tree(id: u64, method: Seq<char>, params: Option<JsonTree>) -> JsonTree {
    let (key, value) = if method == "session/request_permission"@ {
        (
            "result"@,
            JsonTree::Object(
                seq![
                    (
                        "outcome"@,
                        JsonTree::Object(
                            seq![
                                ("type"@, JsonTree::Str("selected"@)),
                                ("optionId"@, JsonTree::Str(chosen_id(params))),
                            ],
                        ),
                    ),
                ],
            ),
        )
    } else {
        (
            "error"@,
            JsonTree::Object(
                seq![
                    ("code"@, JsonTree::NegInt(-32601)),
                    ("message"@, JsonTree::Str("Method not supported: "@ + method)),
                ],
            ),
        )
    };
    JsonTree::Object(
        seq![
            ("jsonrpc"@, JsonTree::Str("2.0"@)),
            ("id"@, JsonTree::UInt(id as nat)),
            (key, value),
        ],
    )
}

/// The option of a permission request that is chosen.
fn choose_option<'a>(params: Option<&'a Json>) -> (r: Option<&'a Json>)
    ensures
        json::tree_at(r) == chosen_option(json::tree_at(params)),
{
    match json::as_array(json::field(params, "options")) {
        Some(options) => {
            let n: usize = options.len();
            let ghost all = json::trees(options@);
            let mut i: usize = 0;
            while i < n
                invariant
                    i <= n,
                    n == options@.len(),
                    all == json::trees(options@),
                    json::items_of(json::field_of(json::tree_at(params), "options"@)) == Some(all),
                    allowing_from(all, 0) == allowing_from(all, i as int),
                decreases n - i,
            {
                let option = Some(&options[i]);
                assert(json::tree_at(option) == Some(all[i as int]));
                let allow = match json::as_str(json::field(option, "kind")) {
                    Some(kind) => text::same_text(kind, "allowAlways") || text::same_text(
                        kind,
                        "allowOnce",
                    ),
                    None => false,
                };
                if allow {
                    return option;
                }
                i += 1;
            }
            if n > 0 {
                Some(&options[0])
            } else {
                None
            }
        },
        None => None,
    }
}

/// Handle a request from the agent: permissions are granted, and nothing else is
/// supported.
pub fn handle_agent_request(id: u64, method: &str, params: Option<&Json>) -> (r: Json)
    ensures
        r@ == answer_tree(id, method@, json::tree_at(params)),
{
    let ghost want = answer_tree(id, method@, json::tree_at(params));
    let r = json::with(json::empty_object(), "jsonrpc", json::string("2.0"));
    let r = json::with(r, "id", Json::UInt(id));
    if text::same_text(method, "session/request_permission") {
        let name = json::str_or(json::field(choose_option(params), "optionId"), "allow_always");
        let outcome = json::with(json::empty_object(), "type", json::string("selected"));
        let outcome = json::with(outcome, "optionId", Json::Str(name));
        assert(outcome@->Object_0
            =~= want->Object_0[2].1->Object_0[0].1->Object_0);
        let result = json::with(json::empty_object(), "outcome", outcome);
        assert(result@->Object_0 =~= want->Object_0[2].1->Object_0);
        let r = json::with(r, "result", result);
        assert(r@->Object_0 =~= want->Object_0);
        r
    } else {
        let mut message = "Method not supported: ".to_owned();
        message.append(method);
        let error = json::with(json::empty_object(), "code", Json::NegInt(-32601));
        let error = json::with(error, "message", Json::Str(message));
        assert(error@->Object_0 =~= want->Object_0[2].1->Object_0);
        let r = json::with(r, "error", error);
        assert(r@->Object_0 =~= want->Object_0);
        r
    }
}

/// The first of two optional texts that is there.
pub open spec fn either(a: Option<Seq<char>>, b: Option<Seq<char>>) -> Option<Seq<char>> {
    if a is Some {
        a
    } else {
        b
    }
}

/// The text of a message chunk; its place varies.
pub open spec fn chunk_text(update: Option<JsonTree>) -> Option<Seq<char>> {
    let content = json::field_of(update, "content"@);
    either(
        json::str_of(json::field_of(content, "text"@)),
        either(json::str_of(json::field_of(update, "text"@)), json::str_of(content)),
    )
}

/// The text that a tool call produced: that of the first piece of its content.
pub open spec fn tool_text(update: Option<JsonTree>) -> Option<Seq<char>> {
    match json::items_of(json::field_of(update, "content"@)) {
        Some(items) => if items.len() > 0 {
            json::str_of(
                json::field_of(json::field_of(Some(items[0]), "content"@), "text"@),
            )
        } else {
            None
        },
        None => None,
    }
}

/// An entry of a plan: its content and its state.
pub open spec fn plan_entry(entry: JsonTree) -> (Seq<char>, Seq<char>) {
    (
        json::text_or(json::str_of(json::field_of(Some(entry), "content"@)), ""@),
        json::text_or(json::str_of(json::field_of(Some(entry), "status"@)), "pending"@),
    )
}

/// The entries of a plan.
pub open spec fn plan_entries(update: Option<JsonTree>) -> Seq<(Seq<char>, Seq<char>)> {
    match json::items_of(json::field_of(update, "entries"@)) {
        Some(items) => Seq::new(items.len(), |i: int| plan_entry(items[i])),
        None => Seq::empty(),
    }
}

/// The event that an update tells of.
pub open spec fn update_event(update: Option<JsonTree>) -> Option<Event> {
    let kind = json::text_or(json::str_of(json::field_of(update, "sessionUpdate"@)), ""@);
    if kind == "agent_message_chunk"@ || kind == "agent_thought_chunk"@ {
        match chunk_text(update) {
            Some(t) => Some(Event::TextChunk(t)),
            None => None,
        }
    } else if kind == "tool_call"@ {
        Some(
            Event::ToolCall {
                title: json::text_or(json::str_of(json::field_of(update, "title"@)), "unknown"@),
                status: json::text_or(
                    json::str_of(json::field_of(update, "status"@)),
                    "pending"@,
                ),
            },
        )
    } else if kind == "tool_call_update"@ {
        Some(
            Event::ToolCallUpdate {
                status: json::text_or(json::str_of(json::field_of(update, "status"@)), ""@),
                content: tool_text(update),
            },
        )
    } else if kind == "plan"@ {
        Some(Event::Plan(plan_entries(update)))
    } else if kind == "usage_update"@ {
        Some(
            Event::Usage {
                input_tokens: json::uint_of(json::field_of(update, "inputTokens"@)),
                output_tokens: json::uint_of(json::field_of(update, "outputTokens"@)),
            },
        )
    } else {
        None
    }
}

/// The event that a notification tells of.
pub open spec fn notified(method: Seq<char>, params: Option<JsonTree>) -> Option<Event> {
    if method == "session/update"@ && params is Some {
        update_event(json::field_of(params, "update"@))
    } else {
        None
    }
}

/// The text of a message chunk.
fn text_in_chunk(update: Option<&Json>) -> (r: Option<String>)
    ensures
        text::text_of(r) == chunk_text(json::tree_at(update)),
{
    let content = json::field(update, "content");
    if let Some(s) = json::as_str(json::field(content, "text")) {
        return Some(s.to_owned());
    }
    if let Some(s) = json::as_str(json::field(update, "text")) {
        return Some(s.to_owned());
    }
    text::owned(json::as_str(content))
}

/// The text that a tool call produced.
fn text_of_tool(update: Option<&Json>) -> (r: Option<String>)
    ensures
        text::text_of(r) == tool_text(json::tree_at(update)),
{
    match json::as_array(json::field(update, "content")) {
        Some(items) => {
            if items.len() > 0 {
                let first = Some(&items[0]);
                assert(json::tree_at(first) == Some(json::trees(items@)[0]));
                text::owned(json::as_str(json::field(json::field(first, "content"), "text")))
            } else {
                None
            }
        },
        None => None,
    }
}

/// The entries of a plan.
fn entries_of_plan(update: Option<&Json>) -> (r: Vec<PlanEntry>)
    ensures
        plan_of(r@) == plan_entries(json::tree_at(update)),
{
    let mut entries: Vec<PlanEntry> = Vec::new();
    match json::as_array(json::field(update, "entries")) {
        Some(items) => {
            let n: usize = items.len();
            let ghost all = json::trees(items@);
            let mut i: usize = 0;
            while i < n
                invariant
                    i <= n,
                    n == items@.len(),
                    all == json::trees(items@),
                    entries@.len() == i,
                    forall|k: int|
                        0 <= k < i ==> plan_of(entries@)[k] == #[trigger] plan_entry(all[k]),
                decreases n - i,
            {
                let entry = Some(&items[i]);
                assert(json::tree_at(entry) == Some(all[i as int]));
                let content = json::str_or(json::field(entry, "content"), "");
                let status = json::str_or(json::field(entry, "status"), "pending");
                let ghost before = plan_of(entries@);
                entries.push(PlanEntry { content, status });
                assert(forall|k: int| 0 <= k < i ==> plan_of(entries@)[k] == before[k]);
                i += 1;
            }
            assert(plan_of(entries@) =~= plan_entries(json::tree_at(update)));
        },
        None => {
            assert(plan_of(entries@) =~= plan_entries(json::tree_at(update)));
        },
    }
    entries
}

/// Handle a notification from the agent: the event that it tells of, if any.
pub fn handle_notification(method: &str, params: Option<&Json>) -> (r: Option<AcpEvent>)
    ensures
        event_in(r) == notified(method@, json::tree_at(params)),
{
    if !text::same_text(method, "session/update") || params.is_none() {
        return None;
    }
    let update = json::field(params, "update");
    let kind = json::str_or(json::field(update, "sessionUpdate"), "");
    let kind = kind.as_str();
    if text::same_text(kind, "agent_message_chunk") || text::same_text(
        kind,
        "agent_thought_chunk",
    ) {
        match text_in_chunk(update) {
            Some(t) => Some(AcpEvent::TextChunk(t)),
            None => None,
        }
    } else if text::same_text(kind, "tool_call") {
        let title = json::str_or(json::field(update, "title"), "unknown");
        let status = json::str_or(json::field(update, "status"), "pending");
        Some(AcpEvent::ToolCall { title, status })
    } else if text::same_text(kind, "tool_call_update") {
        let status = json::str_or(json::field(update, "status"), "");
        let content = text_of_tool(update);
        Some(AcpEvent::ToolCallUpdate { status, content })
    } else if text::same_text(kind, "plan") {
        Some(AcpEvent::Plan(entries_of_plan(update)))
    } else if text::same_text(kind, "usage_update") {
        let input_tokens = json::as_u64(json::field(update, "inputTokens"));
        let output_tokens = json::as_u64(json::field(update, "outputTokens"));
        Some(AcpEvent::Usage { input_tokens, output_tokens })
    } else {
        None
    }
}

/// The name of a new session in the response to `session/new`.
pub fn session_id_of(result: &Json) -> (r: Result<String, String>)
    ensures
        match json::str_of(json::field_of(Some(result@), "sessionId"@)) {
            Some(id) => r matches Ok(s) && s@ == id,
            None => r matches Err(e) && e@ == "Missing sessionId in session/new response"@,
        },
{
    match json::as_str(json::field(Some(result), "sessionId")) {
        Some(id) => Ok(id.to_owned()),
        None => Err("Missing sessionId in session/new response".to_owned()),
    }
}

/// Why the agent stopped, in the response to `session/prompt`.
pub open spec fn stop_reason_of(result: JsonTree) -> Seq<char> {
    json::text_or(json::str_of(json::field_of(Some(result), "stopReason"@)), "unknown"@)
}

/// Why the agent stopped, in the response to `session/prompt`.
pub fn stop_reason(result: &Json) -> (r: String)
    ensures
        r@ == stop_reason_of(result@),
{
    json::str_or(json::field(Some(result), "stopReason"), "unknown")
}

/// Whether the requests under way were numbered before the number `upcoming`.
pub open spec fn numbered_before<T>(waiting: Map<u64, T>, upcoming: u64) -> bool {
    forall|id: u64| #[trigger] waiting.contains_key(id) ==> id < upcoming
}

/// As long as the numbers last, a new request has a number under which nobody waits.
pub proof fn law_requests_have_numbers_of_their_own<T>(
    waiting: Map<u64, T>,
    upcoming: u64,
    waiter: T,
)
    requires
        numbered_before(waiting, upcoming),
        upcoming < u64::MAX,
    ensures
        !waiting.contains_key(upcoming),
        numbered_before(waiting.insert(upcoming, waiter), next_id_after(upcoming)),
{
}

/// A response goes to the one who waits for it, once: from then on nobody waits for
/// it, and everybody else waits as before.
pub proof fn law_response_goes_to_its_waiter<T>(
    waiting: Map<u64, T>,
    msg: JsonRpcMessage,
    id: u64,
    other: u64,
    r: Incoming<T>,
)
    requires
        response_id(msg) == Some(id),
        waiting.contains_key(id),
        routed(r, waiting, msg),
        other != id,
    ensures
        r matches Incoming::Response { waiter, .. } && waiter == waiting[id],
        !waiting_after(waiting, msg).contains_key(id),
        waiting_after(waiting, msg).contains_key(other) == waiting.contains_key(other),
        waiting.contains_key(other) ==> waiting_after(waiting, msg)[other] == waiting[other],
{
}

/// A message that is no response to a request under way changes nothing for those
/// who wait.
pub proof fn law_other_messages_reach_no_waiter<T>(
    waiting: Map<u64, T>,
    msg: JsonRpcMessage,
    r: Incoming<T>,
)
    requires
        response_id(msg) is None || !waiting.contains_key(response_id(msg).unwrap()),
        routed(r, waiting, msg),
    ensures
        r !is Response,
        waiting_after(waiting, msg) == waiting,
{
    assert(waiting_after(waiting, msg) =~= waiting);
}

/// Every request of the agent that has a number is answered with one line, and the
/// answer bears that number.
pub proof fn law_agent_requests_are_answered<T>(
    waiting: Map<u64, T>,
    msg: JsonRpcMessage,
    id: u64,
    r: Incoming<T>,
)
    requires
        msg.id matches Some(j) && j@ == JsonTree::UInt(id as nat),
        msg.method is Some,
        routed(r, waiting, msg),
    ensures
        ({
            let answer = answer_tree(id, msg.method->0@, json::tree_in(msg.params));
            &&& r matches Incoming::Answer(line) && line@ == json::written(answer).push('\n')
            &&& json::field_of(Some(answer), "id"@) == Some(JsonTree::UInt(id as nat))
        }),
{
    let t = answer_tree(id, msg.method->0@, json::tree_in(msg.params))->Object_0;
    reveal_strlit("jsonrpc");
    reveal_strlit("id");
    assert("jsonrpc"@.len() != "id"@.len());
    assert(json::lookup(t, "id"@) == json::lookup(t.skip(1), "id"@));
    assert(t.skip(1)[0] == t[1]);
}

/// Permissions are always granted where an option grants them: no option that does
/// not is chosen.
pub proof fn law_permission_is_granted(options: Seq<JsonTree>, params: Option<JsonTree>, k: int)
    requires
        json::items_of(json::field_of(params, "options"@)) == Some(options),
        0 <= k < options.len(),
        allows(options[k]),
    ensures
        chosen_option(params) matches Some(option) && allows(option),
{
    lemma_allowing_from(options, 0, k);
}

proof fn lemma_allowing_from(options: Seq<JsonTree>, i: int, k: int)
    requires
        0 <= i <= k < options.len(),
        allows(options[k]),
    ensures
        allowing_from(options, i) matches Some(option) && allows(option),
    decreases k - i,
{
    if !allows(options[i]) {
        lemma_allowing_from(options, i + 1, k);
    }
}

/// The update that a notification tells of, where its parameters have one.
pub open spec fn update_in(params: Option<&Json>) -> Option<JsonTree> {
    json::field_of(json::tree_at(params), "update"@)
}

/// Whether an update is of a kind.
pub open spec fn is_kind(update: Option<JsonTree>, kind: Seq<char>) -> bool {
    json::field_of(update, "sessionUpdate"@) == Some(JsonTree::Str(kind))
}

proof fn lemma_kinds()
    ensures
        "tool_call"@.len() == 9,
        "agent_message_chunk"@[0] == 'a',
        "agent_thought_chunk"@[0] == 'a',
        "tool_call"@[0] == 't',
        "tool_call_update"@[0] == 't',
        "tool_call_update"@.len() == 16,
        "plan"@[0] == 'p',
        "usage_update"@[0] == 'u',
        ""@.len() == 0,
        "plan"@.len() == 4,
        "usage_update"@.len() == 12,
        "agent_message_chunk"@.len() == 19,
        "agent_thought_chunk"@.len() == 19,
{
    reveal_strlit("agent_message_chunk");
    reveal_strlit("agent_thought_chunk");
    reveal_strlit("tool_call");
    reveal_strlit("tool_call_update");
    reveal_strlit("plan");
    reveal_strlit("usage_update");
    reveal_strlit("");
}

/// A chunk of the agent's answer is passed on character by character: the text of its
/// content, or else its own text, or else the content where that is a text itself.
pub proof fn law_chunks_are_passed_on_as_they_are(
    method: &str,
    params: Option<&Json>,
    r: Option<AcpEvent>,
    t: Seq<char>,
)
    requires
        call_ensures(handle_notification, (method, params), r),
        method@ == "session/update"@,
        is_kind(update_in(params), "agent_message_chunk"@) || is_kind(
            update_in(params),
            "agent_thought_chunk"@,
        ),
    ensures
        ({
            let update = update_in(params);
            let content = json::field_of(update, "content"@);
            let text = Some(JsonTree::Str(t));
            let passed = r is Some && r->0 is TextChunk && r->0->TextChunk_0@ == t;
            &&& json::field_of(content, "text"@) == text ==> passed
            &&& json::field_of(content, "text"@) is None && json::field_of(update, "text"@) == text
                ==> passed
            &&& content == text && json::field_of(update, "text"@) is None ==> passed
            &&& content is None && json::field_of(update, "text"@) is None ==> r is None
        }),
{
    lemma_kinds();
    assert(params is Some);
    assert(event_in(r) == update_event(update_in(params)));
}

/// A tool call is told of with its title and its state, and what it produced with its
/// state and the text of the first piece of its content.
pub proof fn law_tool_calls_are_told_of(
    method: &str,
    params: Option<&Json>,
    r: Option<AcpEvent>,
    a: Seq<char>,
    b: Seq<char>,
    items: Seq<JsonTree>,
)
    requires
        call_ensures(handle_notification, (method, params), r),
        method@ == "session/update"@,
    ensures
        ({
            let update = update_in(params);
            let title = json::field_of(update, "title"@);
            let status = json::field_of(update, "status"@);
            let content = json::field_of(update, "content"@);
            let begun = is_kind(update, "tool_call"@);
            let gone_on = is_kind(update, "tool_call_update"@);
            &&& begun ==> r is Some && r->0 is ToolCall
            &&& begun && title == Some(JsonTree::Str(a)) ==> r->0->title@ == a
            &&& begun && title is None ==> r->0->title@ == "unknown"@
            &&& begun && status == Some(JsonTree::Str(b)) ==> r->0->ToolCall_status@ == b
            &&& begun && status is None ==> r->0->ToolCall_status@ == "pending"@
            &&& gone_on ==> r is Some && r->0 is ToolCallUpdate
            &&& gone_on && status == Some(JsonTree::Str(b)) ==> r->0->ToolCallUpdate_status@ == b
            &&& gone_on && status is None ==> r->0->ToolCallUpdate_status@.len() == 0
            &&& gone_on && content is None ==> r->0->content is None
            &&& gone_on && content == Some(JsonTree::Array(items)) && items.len() > 0
                && json::field_of(json::field_of(Some(items[0]), "content"@), "text"@) == Some(
                JsonTree::Str(a),
            ) ==> text::text_of(r->0->content) == Some(a)
            &&& gone_on && content == Some(JsonTree::Array(items)) && items.len() == 0
                ==> r->0->content is None
        }),
{
    lemma_kinds();
    let update = update_in(params);
    if is_kind(update, "tool_call"@) || is_kind(update, "tool_call_update"@) {
        assert(params is Some);
        assert(event_in(r) == update_event(update));
        assert(r is Some);
    }
}

/// A plan is told of entry by entry, in order, each with its content and its state.
pub proof fn law_plan_is_told_of_entry_by_entry(
    method: &str,
    params: Option<&Json>,
    r: Option<AcpEvent>,
    items: Seq<JsonTree>,
)
    requires
        call_ensures(handle_notification, (method, params), r),
        method@ == "session/update"@,
        is_kind(update_in(params), "plan"@),
        json::field_of(update_in(params), "entries"@) == Some(JsonTree::Array(items)),
    ensures
        r is Some && r->0 is Plan,
        ({
            let entries = r->0->Plan_0@;
            &&& entries.len() == items.len()
            &&& forall|i: int|
                0 <= i < items.len() && json::field_of(Some(items[i]), "content"@) is Some
                    && json::field_of(Some(items[i]), "content"@)->0 is Str ==> (
                #[trigger] entries[i]).content@ == json::field_of(Some(items[i]), "content"@)->0->Str_0
            &&& forall|i: int|
                0 <= i < items.len() && json::field_of(Some(items[i]), "status"@) is Some
                    && json::field_of(Some(items[i]), "status"@)->0 is Str ==> (
                #[trigger] entries[i]).status@ == json::field_of(Some(items[i]), "status"@)->0->Str_0
            &&& forall|i: int|
                0 <= i < items.len() && json::field_of(Some(items[i]), "status"@) is None ==> (
                #[trigger] entries[i]).status@ == "pending"@
            &&& forall|i: int|
                0 <= i < items.len() && json::field_of(Some(items[i]), "content"@) is None ==> (
                #[trigger] entries[i]).content@.len() == 0
        }),
{
    lemma_kinds();
    let update = update_in(params);
    assert(params is Some);
    assert(event_in(r) == update_event(update));
    assert(update_event(update) == Some(Event::Plan(plan_entries(update))));
    let entries = r->0->Plan_0@;
    let plan = plan_of(entries);
    assert(plan == plan_entries(update));
    assert(plan.len() == entries.len());
    assert forall|i: int| 0 <= i < entries.len() implies (#[trigger] entries[i]).content@
        == plan_entry(items[i]).0 && entries[i].status@ == plan_entry(items[i]).1 by {
        assert(plan[i] == plan_entry(items[i]));
    }
}

/// The use of tokens is told of in numbers.
pub proof fn law_usage_is_told_of(
    method: &str,
    params: Option<&Json>,
    r: Option<AcpEvent>,
    a: u64,
    b: u64,
)
    requires
        call_ensures(handle_notification, (method, params), r),
        method@ == "session/update"@,
        is_kind(update_in(params), "usage_update"@),
    ensures
        r is Some && r->0 is Usage,
        json::field_of(update_in(params), "inputTokens"@) == Some(JsonTree::UInt(a as nat))
            ==> r->0->input_tokens == Some(a),
        json::field_of(update_in(params), "inputTokens"@) is None ==> r->0->input_tokens is None,
        json::field_of(update_in(params), "outputTokens"@) == Some(JsonTree::UInt(b as nat))
            ==> r->0->output_tokens == Some(b),
        json::field_of(update_in(params), "outputTokens"@) is None ==> r->0->output_tokens is None,
{
    lemma_kinds();
    assert(params is Some);
    assert(event_in(r) == update_event(update_in(params)));
}

/// Nothing is told of other notifications: those for other methods, without parameters,
/// or of another kind.
pub proof fn law_other_notifications_tell_nothing(
    method: &str,
    params: Option<&Json>,
    r: Option<AcpEvent>,
    kind: Seq<char>,
)
    requires
        call_ensures(handle_notification, (method, params), r),
        ({
            ||| method@ != "session/update"@
            ||| params is None
            ||| json::field_of(update_in(params), "sessionUpdate"@) is None
            ||| is_kind(update_in(params), kind) && kind != "agent_message_chunk"@ && kind
                != "agent_thought_chunk"@ && kind != "tool_call"@ && kind != "tool_call_update"@
                && kind != "plan"@ && kind != "usage_update"@
        }),
    ensures
        r is None,
{
    lemma_kinds();
    assert(event_in(r) == notified(method@, json::tree_at(params)));
}

/// What stands under a key of an answer.
proof fn lemma_answer_fields(id: u64, method: Seq<char>, params: Option<JsonTree>)
    ensures
        ({
            let a = Some(answer_tree(id, method, params));
            let fields = answer_tree(id, method, params)->Object_0;
            &&& json::field_of(a, "jsonrpc"@) == Some(JsonTree::Str("2.0"@))
            &&& json::field_of(a, "id"@) == Some(JsonTree::UInt(id as nat))
            &&& method == "session/request_permission"@ ==> json::field_of(a, "result"@) == Some(
                fields[2].1,
            ) && json::field_of(a, "error"@) is None
            &&& method != "session/request_permission"@ ==> json::field_of(a, "error"@) == Some(
                fields[2].1,
            ) && json::field_of(a, "result"@) is None
        }),
{
    reveal_strlit("jsonrpc");
    reveal_strlit("id");
    reveal_strlit("result");
    reveal_strlit("error");
    let fields = answer_tree(id, method, params)->Object_0;
    assert("jsonrpc"@[0] == 'j' && "id"@[0] == 'i' && "result"@[0] == 'r' && "error"@[0] == 'e');
    json::law_first_field_with_the_key_counts(fields, "jsonrpc"@, 0);
    json::law_first_field_with_the_key_counts(fields, "id"@, 1);
    if method == "session/request_permission"@ {
        json::law_first_field_with_the_key_counts(fields, "result"@, 2);
        json::law_first_field_with_the_key_counts(fields, "error"@, 3);
    } else {
        json::law_first_field_with_the_key_counts(fields, "error"@, 2);
        json::law_first_field_with_the_key_counts(fields, "result"@, 3);
    }
}

/// The outcome that an answer to a permission request selects.
pub open spec fn selected_in(answer: JsonTree) -> Option<JsonTree> {
    let outcome = json::field_of(json::field_of(Some(answer), "result"@), "outcome"@);
    if json::field_of(outcome, "type"@) == Some(JsonTree::Str("selected"@)) {
        json::field_of(outcome, "optionId"@)
    } else {
        None
    }
}

proof fn lemma_selected(id: u64, method: Seq<char>, params: Option<JsonTree>)
    requires
        method == "session/request_permission"@,
    ensures
        selected_in(answer_tree(id, method, params)) == Some(JsonTree::Str(chosen_id(params))),
{
    lemma_answer_fields(id, method, params);
    reveal_strlit("outcome");
    reveal_strlit("type");
    reveal_strlit("optionId");
    assert("type"@[0] == 't' && "optionId"@[0] == 'o');
    let result = answer_tree(id, method, params)->Object_0[2].1;
    json::law_first_field_with_the_key_counts(result->Object_0, "outcome"@, 0);
    let outcome = result->Object_0[0].1;
    json::law_first_field_with_the_key_counts(outcome->Object_0, "type"@, 0);
    json::law_first_field_with_the_key_counts(outcome->Object_0, "optionId"@, 1);
}

/// A request for permission is answered under its number with the first option that
/// allows what is asked for, once or always.
pub proof fn law_permission_is_answered_with_the_first_option_that_allows(
    id: u64,
    method: &str,
    params: Option<&Json>,
    r: Json,
    options: Seq<JsonTree>,
    k: int,
    name: Seq<char>,
)
    requires
        call_ensures(handle_agent_request, (id, method, params), r),
        method@ == "session/request_permission"@,
        json::field_of(json::tree_at(params), "options"@) == Some(JsonTree::Array(options)),
        0 <= k < options.len(),
        json::field_of(Some(options[k]), "kind"@) == Some(JsonTree::Str("allowAlways"@))
            || json::field_of(Some(options[k]), "kind"@) == Some(JsonTree::Str("allowOnce"@)),
        forall|j: int|
            0 <= j < k ==> {
                let kind = json::field_of(Some(#[trigger] options[j]), "kind"@);
                kind != Some(JsonTree::Str("allowAlways"@)) && kind != Some(
                    JsonTree::Str("allowOnce"@),
                )
            },
        json::field_of(Some(options[k]), "optionId"@) == Some(JsonTree::Str(name)),
    ensures
        selected_in(r@) == Some(JsonTree::Str(name)),
        json::field_of(Some(r@), "id"@) == Some(JsonTree::UInt(id as nat)),
        json::field_of(Some(r@), "jsonrpc"@) == Some(JsonTree::Str("2.0"@)),
        json::field_of(Some(r@), "error"@) is None,
{
    let p = json::tree_at(params);
    lemma_answer_fields(id, method@, p);
    lemma_selected(id, method@, p);
    lemma_first_allowing(options, 0, k);
}

proof fn lemma_first_allowing(options: Seq<JsonTree>, i: int, k: int)
    requires
        0 <= i <= k < options.len(),
        allows(options[k]),
        forall|j: int|
            0 <= j < k ==> {
                let kind = json::field_of(Some(#[trigger] options[j]), "kind"@);
                kind != Some(JsonTree::Str("allowAlways"@)) && kind != Some(
                    JsonTree::Str("allowOnce"@),
                )
            },
    ensures
        allowing_from(options, i) == Some(options[k]),
    decreases k - i,
{
    if i < k {
        assert(!allows(options[i]));
        lemma_first_allowing(options, i + 1, k);
    }
}

proof fn lemma_none_allowing(options: Seq<JsonTree>, i: int)
    requires
        0 <= i <= options.len(),
        forall|j: int| 0 <= j < options.len() ==> !allows(#[trigger] options[j]),
    ensures
        allowing_from(options, i) is None,
    decreases options.len() - i,
{
    if i < options.len() {
        assert(!allows(options[i]));
        lemma_none_allowing(options, i + 1);
    }
}

/// Where no option allows, the first one is selected, and where there is none, one that
/// always allows.
pub proof fn law_permission_is_answered_in_any_case(
    id: u64,
    method: &str,
    params: Option<&Json>,
    r: Json,
    options: Seq<JsonTree>,
    name: Seq<char>,
)
    requires
        call_ensures(handle_agent_request, (id, method, params), r),
        method@ == "session/request_permission"@,
    ensures
        json::field_of(json::tree_at(params), "options"@) is None ==> selected_in(r@) == Some(
            JsonTree::Str("allow_always"@),
        ),
        json::field_of(json::tree_at(params), "options"@) == Some(JsonTree::Array(options))
            && options.len() > 0 && (forall|j: int|
            0 <= j < options.len() ==> json::field_of(Some(#[trigger] options[j]), "kind"@)
                is None) && json::field_of(Some(options[0]), "optionId"@) == Some(
            JsonTree::Str(name),
        ) ==> selected_in(r@) == Some(JsonTree::Str(name)),
{
    let p = json::tree_at(params);
    lemma_selected(id, method@, p);
    if json::field_of(p, "options"@) == Some(JsonTree::Array(options)) && options.len() > 0 && (
    forall|j: int|
        0 <= j < options.len() ==> json::field_of(Some(#[trigger] options[j]), "kind"@) is None) {
        lemma_none_allowing(options, 0);
    }
}

/// Any other request is answered under its number with an error that names the method.
pub proof fn law_other_requests_are_answered_with_an_error(
    id: u64,
    method: &str,
    params: Option<&Json>,
    r: Json,
)
    requires
        call_ensures(handle_agent_request, (id, method, params), r),
        method@ != "session/request_permission"@,
    ensures
        ({
            let error = json::field_of(Some(r@), "error"@);
            &&& json::field_of(error, "code"@) == Some(JsonTree::NegInt(-32601))
            &&& json::field_of(error, "message"@) == Some(
                JsonTree::Str("Method not supported: "@ + method@),
            )
            &&& json::field_of(Some(r@), "id"@) == Some(JsonTree::UInt(id as nat))
            &&& json::field_of(Some(r@), "jsonrpc"@) == Some(JsonTree::Str("2.0"@))
            &&& json::field_of(Some(r@), "result"@) is None
        }),
{
    let p = json::tree_at(params);
    lemma_answer_fields(id, method@, p);
    reveal_strlit("code");
    reveal_strlit("message");
    assert("code"@[0] == 'c' && "message"@[0] == 'm');
    let error = answer_tree(id, method@, p)->Object_0[2].1;
    json::law_first_field_with_the_key_counts(error->Object_0, "code"@, 0);
    json::law_first_field_with_the_key_counts(error->Object_0, "message"@, 1);
}

/// What the agent is told when a session is made, asked, stopped or set to a mode.
pub proof fn law_parameters_say_what_is_asked(
    version: Seq<char>,
    cwd: Seq<char>,
    session: Seq<char>,
    mode: Seq<char>,
)
    ensures
        json::field_of(Some(initialize_tree(version)), "protocolVersion"@) == Some(
            JsonTree::UInt(1),
        ),
        json::field_of(
            json::field_of(Some(initialize_tree(version)), "clientInfo"@),
            "version"@,
        ) == Some(JsonTree::Str(version)),
        json::field_of(json::field_of(Some(initialize_tree(version)), "clientInfo"@), "name"@)
            == Some(JsonTree::Str("toodles"@)),
        json::field_of(Some(new_session_tree(cwd)), "cwd"@) == Some(JsonTree::Str(cwd)),
        json::field_of(Some(new_session_tree(cwd)), "mcpServers"@) == Some(
            JsonTree::Array(Seq::empty()),
        ),
        json::field_of(Some(cancel_tree(session)), "sessionId"@) == Some(JsonTree::Str(session)),
        json::field_of(Some(mode_tree(session, mode)), "sessionId"@) == Some(
            JsonTree::Str(session),
        ),
        json::field_of(Some(mode_tree(session, mode)), "modeId"@) == Some(JsonTree::Str(mode)),
{
    reveal_strlit("protocolVersion");
    reveal_strlit("clientCapabilities");
    reveal_strlit("clientInfo");
    reveal_strlit("name");
    reveal_strlit("title");
    reveal_strlit("version");
    reveal_strlit("cwd");
    reveal_strlit("mcpServers");
    reveal_strlit("sessionId");
    reveal_strlit("modeId");
    assert("protocolVersion"@.len() == 15 && "clientCapabilities"@.len() == 18
        && "clientInfo"@.len() == 10);
    assert("name"@[0] == 'n' && "title"@[0] == 't' && "version"@[0] == 'v');
    assert("cwd"@[0] == 'c' && "mcpServers"@[0] == 'm');
    assert("sessionId"@[0] == 's' && "modeId"@[0] == 'm');
    let i = initialize_tree(version)->Object_0;
    json::law_first_field_with_the_key_counts(i, "protocolVersion"@, 0);
    json::law_first_field_with_the_key_counts(i, "clientInfo"@, 2);
    json::law_first_field_with_the_key_counts(i[2].1->Object_0, "name"@, 0);
    json::law_first_field_with_the_key_counts(i[2].1->Object_0, "version"@, 2);
    json::law_first_field_with_the_key_counts(new_session_tree(cwd)->Object_0, "cwd"@, 0);
    json::law_first_field_with_the_key_counts(new_session_tree(cwd)->Object_0, "mcpServers"@, 1);
    json::law_first_field_with_the_key_counts(cancel_tree(session)->Object_0, "sessionId"@, 0);
    json::law_first_field_with_the_key_counts(mode_tree(session, mode)->Object_0, "sessionId"@, 0);
    json::law_first_field_with_the_key_counts(mode_tree(session, mode)->Object_0, "modeId"@, 1);
}

/// A prompt names its session and holds every block of its content, in order, as it is.
pub proof fn law_prompt_holds_every_block(
    session: Seq<char>,
    content: Seq<ContentBlock>,
    i: int,
    t: String,
)
    requires
        0 <= i < content.len(),
        content[i] == ContentBlock::Text(t),
    ensures
        ({
            let tree = Some(prompt_tree(session, content));
            let blocks = json::items_of(json::field_of(tree, "prompt"@));
            &&& json::field_of(tree, "sessionId"@) == Some(JsonTree::Str(session))
            &&& blocks is Some && blocks->0.len() == content.len()
            &&& json::field_of(Some(blocks->0[i]), "type"@) == Some(JsonTree::Str("text"@))
            &&& json::field_of(Some(blocks->0[i]), "text"@) == Some(JsonTree::Str(t@))
        }),
{
    reveal_strlit("sessionId");
    reveal_strlit("prompt");
    reveal_strlit("type");
    reveal_strlit("text");
    assert("sessionId"@[0] == 's' && "prompt"@[0] == 'p');
    assert("type"@[1] == 'y' && "text"@[1] == 'e');
    let fields = prompt_tree(session, content)->Object_0;
    json::law_first_field_with_the_key_counts(fields, "sessionId"@, 0);
    json::law_first_field_with_the_key_counts(fields, "prompt"@, 1);
    let block = block_tree(content[i])->Object_0;
    json::law_first_field_with_the_key_counts(block, "type"@, 0);
    json::law_first_field_with_the_key_counts(block, "text"@, 1);
}

/// What comes of a request is what its response says: the result as it is, or the error
/// in words.
pub proof fn law_response_says_what_came_of_the_request<T>(
    waiting: Map<u64, T>,
    msg: JsonRpcMessage,
    id: u64,
    r: Incoming<T>,
)
    requires
        routed(r, waiting, msg),
        msg.id is Some,
        msg.id->0@ == JsonTree::UInt(id as nat),
        msg.method is None,
        waiting.contains_key(id),
    ensures
        r is Response,
        r->waiter == waiting[id],
        msg.error is Some ==> r->outcome is Err && r->outcome->Err_0@ == "ACP error: "@
            + msg.error->0.message@,
        msg.error is None && msg.result is Some ==> r->outcome is Ok && r->outcome->Ok_0@
            == msg.result->0@,
        msg.error is None && msg.result is None ==> r->outcome is Ok && r->outcome->Ok_0@
            == JsonTree::Null,
        !waiting_after(waiting, msg).contains_key(id),
        forall|other: u64|
            other != id ==> #[trigger] waiting_after(waiting, msg).get(other) == waiting.get(other),
{
}

/// A notification, which has no number, becomes the event that it tells of.
pub proof fn law_notification_becomes_its_event<T>(
    waiting: Map<u64, T>,
    msg: JsonRpcMessage,
    r: Incoming<T>,
)
    requires
        routed(r, waiting, msg),
        msg.id is None,
        msg.method is Some,
    ensures
        r is Event <==> notified(msg.method->0@, json::tree_in(msg.params)) is Some,
        r is Event || r is Ignored,
        r is Event ==> Some(r->Event_0@) == notified(msg.method->0@, json::tree_in(msg.params)),
        waiting_after(waiting, msg) == waiting,
{
}

proof fn lemma_no_brace(l: Seq<char>)
    requires
        !l.contains('{'),
    ensures
        !text::holds(text::trimmed(l), seq!['{']),
{
    let k = CharClass::Space;
    let lead = text::strip_leading(l, k);
    let t = text::trimmed(l);
    text::lemma_strip_leading(l, k);
    text::lemma_strip_trailing(lead, k);
    let d = l.len() - lead.len();
    if text::holds(t, seq!['{']) {
        let i = choose|i: int| text::occurs_at(t, seq!['{'], i);
        assert(t.subrange(i, i + 1)[0] == t[i]);
        assert(t[i] == lead[i]);
        assert(lead[i] == l[i + d]);
    }
}

proof fn lemma_first_brace(front: Seq<char>, rest: Seq<char>, gap: Seq<char>, core: Seq<char>)
    requires
        !front.contains('{'),
        text::is_blank(gap),
        gap.len() <= front.len(),
        front + seq!['{'] + rest == gap + core,
    ensures
        text::first_index(core, seq!['{']) == Some(front.len() - gap.len()),
        text::holds(core, seq!['{']),
        core.skip(front.len() - gap.len()) == seq!['{'] + rest,
{
    let brace = seq!['{'];
    let whole = front + brace + rest;
    let skipped = gap.len() as int;
    let at = front.len() - skipped;
    assert(whole.len() == (gap + core).len());
    assert(core.len() == at + 1 + rest.len());
    assert(forall|j: int| 0 <= j < core.len() ==> core[j] == #[trigger] (gap + core)[j + skipped]);
    assert(core[at] == (gap + core)[at + skipped]);
    assert(whole[front.len() as int] == '{');
    assert(core.subrange(at, at + 1) =~= brace);
    assert(text::occurs_at(core, brace, at));
    assert forall|j: int| 0 <= j < at implies !text::occurs_at(core, brace, j) by {
        if text::occurs_at(core, brace, j) {
            assert(core.subrange(j, j + 1)[0] == core[j]);
            assert(core[j] == (gap + core)[j + skipped]);
            assert(whole[j + skipped] == front[j + skipped]);
        }
    }
    text::lemma_first_index(core, brace, at);
    assert forall|j: int| 0 <= j < core.skip(at).len() implies core.skip(at)[j] == (brace + rest)[j]
        by {
        assert(core[j + at] == (gap + core)[j + at + skipped]);
        assert(whole[j + front.len()] == (brace + rest)[j]);
    }
    assert(core.skip(at) =~= brace + rest);
}

/// The JSON text of a line begins at its first brace and ends before the white space at
/// its end; a line without a brace holds none.
pub proof fn law_json_begins_at_the_first_brace(
    line: &str,
    r: Option<String>,
    front: Seq<char>,
    rest: Seq<char>,
    back: Seq<char>,
)
    requires
        call_ensures(json_payload, (line,), r),
    ensures
        !line@.contains('{') ==> r is None,
        line@ == front + seq!['{'] + rest + back && !front.contains('{') && text::is_blank(back) && (
        rest.len() == 0 || !text::is_space(rest.last())) ==> text::text_of(r) == Some(
            seq!['{'] + rest,
        ),
{
    let k = CharClass::Space;
    let l = line@;
    if !l.contains('{') {
        lemma_no_brace(l);
    }
    if l == front + seq!['{'] + rest + back && !front.contains('{') && text::is_blank(back) && (
    rest.len() == 0 || !text::is_space(rest.last())) {
        let whole = front + seq!['{'] + rest;
        let core = text::strip_leading(whole, k);
        text::lemma_strip_leading(whole, k);
        let gap = whole.take(whole.len() - core.len());
        assert(whole[front.len() as int] == '{');
        assert(!k.has('{'));
        assert(gap.len() <= front.len());
        assert(whole =~= gap + core);
        assert(core.last() == whole.last());
        assert(l =~= gap + core + back);
        text::law_trimming_takes_white_space_alone(gap, core, back);
        lemma_first_brace(front, rest, gap, core);
    }
}

/// A request is one JSON object on a line of its own, with the version, its number, its
/// method and its parameters.
pub proof fn law_request_is_a_json_line(request: &JsonRpcRequest, r: String)
    requires
        call_ensures(request_line, (request,), r),
    ensures
        r@ == "{\"jsonrpc\":\"2.0\",\"id\":"@ + text::decimal(request.id as nat)
            + ",\"method\":"@ + json::written(JsonTree::Str(request.method@)) + ",\"params\":"@
            + json::written(request.params@) + "}\n"@,
{
    reveal_strlit(",");
    reveal_strlit("\"method\":");
    reveal_strlit(",\"method\":");
    assert(",\"method\":"@ =~= ","@ + "\"method\":"@);
    assert(r@ =~= "{\"jsonrpc\":\"2.0\",\"id\":"@ + text::decimal(request.id as nat)
        + ",\"method\":"@ + json::written(JsonTree::Str(request.method@)) + ",\"params\":"@
        + json::written(request.params@) + "}\n"@);
}

/// A notification is a request without a number.
pub proof fn law_notification_is_a_json_line(notification: &JsonRpcNotification, r: String)
    requires
        call_ensures(notification_line, (notification,), r),
    ensures
        r@ == "{\"jsonrpc\":\"2.0\",\"method\":"@ + json::written(
            JsonTree::Str(notification.method@),
        ) + ",\"params\":"@ + json::written(notification.params@) + "}\n"@,
{
    reveal_strlit("{\"jsonrpc\":\"2.0\",");
    reveal_strlit("\"method\":");
    reveal_strlit("{\"jsonrpc\":\"2.0\",\"method\":");
    assert("{\"jsonrpc\":\"2.0\",\"method\":"@ =~= "{\"jsonrpc\":\"2.0\","@ + "\"method\":"@);
    assert(r@ =~= "{\"jsonrpc\":\"2.0\",\"method\":"@ + json::written(
        JsonTree::Str(notification.method@),
    ) + ",\"params\":"@ + json::written(notification.params@) + "}\n"@);
}

/// Why the agent stopped is what its response says, where it says so.
pub proof fn law_stop_reason_is_what_the_agent_says(result: &Json, r: String, why: Seq<char>)
    requires
        call_ensures(stop_reason, (result,), r),
    ensures
        json::field_of(Some(result@), "stopReason"@) == Some(JsonTree::Str(why)) ==> r@ == why,
        json::field_of(Some(result@), "stopReason"@) is None ==> r@ == "unknown"@,
{
}

/// A request of the agent is answered on a line of its own, and nobody who waits is
/// disturbed by it.
pub proof fn law_request_of_the_agent_is_answered<T>(
    waiting: Map<u64, T>,
    msg: JsonRpcMessage,
    r: Incoming<T>,
    id: u64,
    method: &str,
    params: Option<&Json>,
    answer: Json,
)
    requires
        routed(r, waiting, msg),
        msg.id is Some,
        msg.id->0@ == JsonTree::UInt(id as nat),
        msg.method is Some,
        msg.method->0@ == method@,
        json::tree_in(msg.params) == json::tree_at(params),
        call_ensures(handle_agent_request, (id, method, params), answer),
    ensures
        r is Answer,
        r->Answer_0@ == json::written(answer@) + "\n"@,
        waiting_after(waiting, msg) == waiting,
{
    reveal_strlit("\n");
    assert(json::written(answer@).push('\n') =~= json::written(answer@) + "\n"@);
}

/// A message that answers nobody is ignored, and changes nothing: a response under a number
/// that no request under way has, one under something that is no number, and one without a
/// number and a method. A number that no request can have counts as 0.
pub proof fn law_response_to_nobody_is_ignored<T>(
    waiting: Map<u64, T>,
    msg: JsonRpcMessage,
    r: Incoming<T>,
    id: u64,
)
    requires
        routed(r, waiting, msg),
        msg.method is None,
        ({
            ||| msg.id is None
            ||| msg.id->0@ is Str
            ||| msg.id->0@ is Null
            ||| msg.id->0@ == JsonTree::UInt(id as nat) && !waiting.contains_key(id)
            ||| msg.id->0@ is NegInt && !waiting.contains_key(0)
            ||| msg.id->0@ is OtherNumber && !waiting.contains_key(0)
        }),
    ensures
        r is Ignored,
        waiting_after(waiting, msg) == waiting,
{
    assert(waiting_after(waiting, msg) =~= waiting);
}

/// Requests are numbered one after the other.
pub proof fn law_requests_are_numbered_in_order(id: u64)
    ensures
        id < u64::MAX ==> next_id_after(id) == id + 1,
        id == u64::MAX ==> next_id_after(id) == 0,
{
}

/// A request carries its method, its parameters and the time that is waited for it.
pub proof fn law_request_carries_what_is_asked(
    r: JsonRpcRequest,
    method: Seq<char>,
    params: JsonTree,
    secs: u64,
)
    requires
        asks(r, method, params, secs),
    ensures
        r.method@ == method,
        r.params@ == params,
        r.timeout_secs == secs,
{
}

/// The command of the agent is run as it is, without colors; and what cannot be started, or
/// is not answered in time, is told of by name.
pub proof fn law_command_and_method_are_told(
    command: &str,
    wrapped: String,
    failure: String,
    secs: u64,
    method: &str,
    timeout: String,
)
    requires
        call_ensures(wrapped_command, (command,), wrapped),
        call_ensures(spawn_failure, (command,), failure),
        call_ensures(timeout_error, (secs, method), timeout),
    ensures
        wrapped@ == "exec env TERM=dumb NO_COLOR=1 "@ + command@,
        failure@ == "Failed to spawn '"@ + command@ + "'"@,
        timeout@ == "ACP request timed out after "@ + text::decimal(secs as nat) + "s: "@
            + method@,
{
}

/// A session is known by the text that the agent gives as its name, and without one there
/// is no session.
pub proof fn law_session_is_known_by_its_name(
    result: &Json,
    r: Result<String, String>,
    name: Seq<char>,
)
    requires
        call_ensures(session_id_of, (result,), r),
    ensures
        json::field_of(Some(result@), "sessionId"@) == Some(JsonTree::Str(name)) ==> r is Ok
            && r->Ok_0@ == name,
        json::field_of(Some(result@), "sessionId"@) is None ==> r is Err && r->Err_0@
            == "Missing sessionId in session/new response"@,
{
}

/// A block of a prompt says that it is text, and holds the text as it is.
pub proof fn law_block_holds_its_text(block: ContentBlock, r: Json)
    requires
        call_ensures(ContentBlock::to_json, (block,), r),
    ensures
        json::field_of(Some(r@), "type"@) == Some(JsonTree::Str("text"@)),
        json::field_of(Some(r@), "text"@) == Some(JsonTree::Str(block->Text_0@)),
{
    reveal_strlit("type");
    reveal_strlit("text");
    assert("type"@[1] == 'y' && "text"@[1] == 'e');
    let fields = block_tree(block)->Object_0;
    json::law_first_field_with_the_key_counts(fields, "type"@, 0);
    json::law_first_field_with_the_key_counts(fields, "text"@, 1);
}

/// A wish to stop names its session, and expects no answer.
pub proof fn law_cancel_names_its_session<T>(
    connection: &AcpConnection<T>,
    session: &str,
    r: JsonRpcNotification,
)
    requires
        call_ensures(AcpConnection::<T>::cancel, (connection, session), r),
    ensures
        r.method@ == "session/cancel"@,
        json::field_of(Some(r.params@), "sessionId"@) == Some(JsonTree::Str(session@)),
{
    law_parameters_say_what_is_asked(session@, session@, session@, session@);
}

/// A prompt goes out under the next number, names its session, holds every block of its
/// content in order, and is waited for half an hour.
pub proof fn law_prompt_is_sent_whole<T>(
    connection: &mut AcpConnection<T>,
    session: &str,
    content: Vec<ContentBlock>,
    waiter: T,
    r: JsonRpcRequest,
    i: int,
    t: String,
)
    requires
        call_ensures(
            AcpConnection::<T>::prompt,
            (connection, session, content, waiter),
            r,
        ),
        0 <= i < content@.len(),
        content@[i] == ContentBlock::Text(t),
    ensures
        ({
            let blocks = json::items_of(json::field_of(Some(r.params@), "prompt"@));
            &&& r.id == old(connection).upcoming()
            &&& r.method@ == "session/prompt"@
            &&& r.timeout_secs == 1800
            &&& json::field_of(Some(r.params@), "sessionId"@) == Some(JsonTree::Str(session@))
            &&& blocks is Some && blocks->0.len() == content@.len()
            &&& json::field_of(Some(blocks->0[i]), "text"@) == Some(JsonTree::Str(t@))
            &&& final(connection).waiting().contains_key(r.id)
            &&& final(connection).waiting()[r.id] == waiter
        }),
{
    law_prompt_holds_every_block(session@, content@, i, t);
}

/// A session is asked for with its working directory, and waited for two minutes.
pub proof fn law_session_is_asked_for<T>(
    connection: &mut AcpConnection<T>,
    cwd: &str,
    waiter: T,
    r: JsonRpcRequest,
)
    requires
        call_ensures(AcpConnection::<T>::new_session, (connection, cwd, waiter), r),
    ensures
        r.id == old(connection).upcoming(),
        r.method@ == "session/new"@,
        r.timeout_secs == 120,
        json::field_of(Some(r.params@), "cwd"@) == Some(JsonTree::Str(cwd@)),
        final(connection).waiting().contains_key(r.id),
        final(connection).waiting()[r.id] == waiter,
{
    law_parameters_say_what_is_asked(cwd@, cwd@, cwd@, cwd@);
}

/// The agent is greeted first, with the version of the protocol and of the bot.
pub proof fn law_agent_is_greeted<T>(
    connection: &mut AcpConnection<T>,
    version: &str,
    waiter: T,
    r: JsonRpcRequest,
)
    requires
        call_ensures(AcpConnection::<T>::initialize, (connection, version, waiter), r),
    ensures
        r.id == old(connection).upcoming(),
        r.method@ == "initialize"@,
        r.timeout_secs == 180,
        json::field_of(Some(r.params@), "protocolVersion"@) == Some(JsonTree::UInt(1)),
        json::field_of(json::field_of(Some(r.params@), "clientInfo"@), "version"@) == Some(
            JsonTree::Str(version@),
        ),
        final(connection).waiting().contains_key(r.id),
        final(connection).waiting()[r.id] == waiter,
{
    law_parameters_say_what_is_asked(version@, version@, version@, version@);
}

/// A mode is set for the session that is named.
pub proof fn law_mode_is_set<T>(
    connection: &mut AcpConnection<T>,
    session: &str,
    mode: &str,
    waiter: T,
    r: JsonRpcRequest,
)
    requires
        call_ensures(AcpConnection::<T>::set_session_mode, (connection, session, mode, waiter), r),
    ensures
        r.id == old(connection).upcoming(),
        r.method@ == "session/set-mode"@,
        r.timeout_secs == 60,
        json::field_of(Some(r.params@), "sessionId"@) == Some(JsonTree::Str(session@)),
        json::field_of(Some(r.params@), "modeId"@) == Some(JsonTree::Str(mode@)),
        final(connection).waiting().contains_key(r.id),
        final(connection).waiting()[r.id] == waiter,
{
    law_parameters_say_what_is_asked(session@, session@, session@, mode@);
}

/// A response reaches the one who waits for it, with the result or the error, and nobody
/// else; a notification reaches nobody who waits.
pub proof fn law_message_reaches_the_one_it_is_for<T>(
    connection: &mut AcpConnection<T>,
    msg: JsonRpcMessage,
    r: Incoming<T>,
    id: u64,
    method: &str,
    params: Option<&Json>,
    event: Option<AcpEvent>,
    other: u64,
)
    requires
        call_ensures(AcpConnection::<T>::handle_incoming_message, (connection, msg), r),
        call_ensures(handle_notification, (method, params), event),
        json::tree_at(params) == json::tree_in(msg.params),
    ensures
        ({
            let before = old(connection).waiting();
            let after = final(connection).waiting();
            let response = msg.id is Some && msg.id->0@ == JsonTree::UInt(id as nat) && msg.method
                is None && before.contains_key(id);
            let told = msg.id is None && msg.method is Some && msg.method->0@ == method@;
            &&& response ==> r is Response && r->waiter == before[id] && !after.contains_key(id)
            &&& response && msg.error is Some ==> r->outcome is Err && r->outcome->Err_0@
                == "ACP error: "@ + msg.error->0.message@
            &&& response && msg.error is None && msg.result is Some ==> r->outcome is Ok
                && r->outcome->Ok_0@ == msg.result->0@
            &&& response && other != id ==> after.get(other) == before.get(other)
            &&& told ==> after == before && (r is Event <==> event is Some)
            &&& told && event is Some ==> r->Event_0@ == event->0@
        }),
{
}

/// Who gives up waiting is forgotten, and nobody else.
pub proof fn law_who_gives_up_is_forgotten<T>(
    connection: &mut AcpConnection<T>,
    id: u64,
    other: u64,
)
    requires
        call_ensures(AcpConnection::<T>::give_up, (connection, id), ()),
    ensures
        !final(connection).waiting().contains_key(id),
        other != id ==> final(connection).waiting().get(other) == old(connection).waiting().get(
            other,
        ),
{
}

} // verus!
