use serde_json::Value;
use toodles::acp::{
    connection_closed, handle_agent_request, handle_notification, json_payload, message_line,
    notification_line, request_line, session_id_of, spawn_failure, stop_reason, timeout_error, wrapped_command, AcpConnection,
    AcpEvent, ContentBlock, Incoming, JsonRpcError, JsonRpcMessage,
};
use toodles::json::{from_text, to_text, Json};

fn json_of(value: Value) -> Json {
    match value {
        Value::Null => Json::Null,
        Value::Bool(b) => Json::Bool(b),
        Value::Number(n) => match (n.as_u64(), n.as_i64()) {
            (Some(n), _) => Json::UInt(n),
            (None, Some(n)) => Json::NegInt(n),
            (None, None) => Json::OtherNumber(n),
        },
        Value::String(s) => Json::Str(s),
        Value::Array(items) => Json::Array(items.into_iter().map(json_of).collect()),
        Value::Object(fields) => {
            Json::Object(fields.into_iter().map(|(k, v)| (k, json_of(v))).collect())
        }
    }
}

fn value_of(json: &Json) -> Value {
    match json {
        Json::Null => Value::Null,
        Json::OtherNumber(n) => Value::Number(n.clone()),
        Json::Bool(b) => Value::from(*b),
        Json::UInt(n) => Value::from(*n),
        Json::NegInt(n) => Value::from(*n),
        Json::Str(s) => Value::from(s.as_str()),
        Json::Array(items) => Value::Array(items.iter().map(value_of).collect()),
        Json::Object(fields) => Value::Object(
            fields
                .iter()
                .map(|(k, v)| (k.clone(), value_of(v)))
                .collect(),
        ),
    }
}

fn parse(text: &str) -> Json {
    json_of(serde_json::from_str(text).expect("valid JSON"))
}

fn same(json: &Json, text: &str) {
    let want: Value = serde_json::from_str(text).expect("valid JSON");
    assert_eq!(value_of(json), want);
}

fn message(id: Option<&str>, method: Option<&str>, params: Option<&str>) -> JsonRpcMessage {
    JsonRpcMessage {
        id: id.map(parse),
        method: method.map(|m| m.to_string()),
        params: params.map(parse),
        result: None,
        error: None,
    }
}

fn event(update: &str) -> Option<AcpEvent> {
    let params = parse(&format!("{{\"sessionId\":\"s\",\"update\":{update}}}"));
    handle_notification("session/update", Some(&params))
}

#[test]
fn command_is_wrapped() {
    assert_eq!(
        wrapped_command("gemini --acp"),
        "exec env TERM=dumb NO_COLOR=1 gemini --acp"
    );
    assert_eq!(spawn_failure("x y"), "Failed to spawn 'x y'");
}

#[test]
fn payload_begins_at_the_first_brace() {
    assert_eq!(
        json_payload("  \u{1b}]11;?\u{1b}\\ {\"a\":{}} \n").as_deref(),
        Some("{\"a\":{}}")
    );
    assert_eq!(json_payload("{}").as_deref(), Some("{}"));
    assert_eq!(json_payload("no json here"), None);
    assert_eq!(json_payload("   \n"), None);
    assert_eq!(json_payload(""), None);
    assert_eq!(message_line("{}"), "{}\n");
}

#[test]
fn requests_are_numbered_and_told_what_to_do() {
    let mut connection: AcpConnection<u8> = AcpConnection::new();
    let r = connection.initialize("9.8.7", 10);
    assert_eq!((r.id, r.method.as_str(), r.timeout_secs), (1, "initialize", 180));
    same(
        &r.params,
        r#"{"protocolVersion":1,"clientCapabilities":{},
            "clientInfo":{"name":"toodles","title":"Toodles Bot","version":"9.8.7"}}"#,
    );
    let r = connection.new_session("/work", 11);
    assert_eq!((r.id, r.method.as_str(), r.timeout_secs), (2, "session/new", 120));
    same(&r.params, r#"{"cwd":"/work","mcpServers":[]}"#);
    let blocks = vec![
        ContentBlock::Text("one".to_string()),
        ContentBlock::Text("two".to_string()),
    ];
    let r = connection.prompt("s-1", blocks, 12);
    assert_eq!((r.id, r.method.as_str(), r.timeout_secs), (3, "session/prompt", 1800));
    same(
        &r.params,
        r#"{"sessionId":"s-1","prompt":[{"type":"text","text":"one"},{"type":"text","text":"two"}]}"#,
    );
    let r = connection.set_session_mode("s-1", "yolo", 13);
    assert_eq!((r.id, r.method.as_str(), r.timeout_secs), (4, "session/set-mode", 60));
    same(&r.params, r#"{"sessionId":"s-1","modeId":"yolo"}"#);
    let n = connection.cancel("s-1");
    assert_eq!(n.method, "session/cancel");
    same(&n.params, r#"{"sessionId":"s-1"}"#);
    assert_eq!(
        timeout_error(180, "initialize"),
        "ACP request timed out after 180s: initialize"
    );
}

#[test]
fn responses_reach_those_who_wait_once() {
    let mut connection: AcpConnection<u8> = AcpConnection::new();
    connection.new_session("/a", 21);
    connection.new_session("/b", 22);
    let mut response = message(Some("2"), None, None);
    response.result = Some(parse(r#"{"sessionId":"x"}"#));
    match connection.handle_incoming_message(response) {
        Incoming::Response { waiter, outcome } => {
            assert_eq!(waiter, 22);
            assert_eq!(session_id_of(&outcome.expect("a result")).as_deref(), Ok("x"));
        }
        _ => panic!("no response"),
    }
    assert!(matches!(
        connection.handle_incoming_message(message(Some("2"), None, None)),
        Incoming::Ignored
    ));
    let mut failure = message(Some("1"), None, None);
    failure.error = Some(JsonRpcError {
        code: -1,
        message: "bad".to_string(),
    });
    match connection.handle_incoming_message(failure) {
        Incoming::Response { waiter, outcome } => {
            assert_eq!(waiter, 21);
            assert_eq!(outcome.err().as_deref(), Some("ACP error: bad"));
        }
        _ => panic!("no response"),
    }
}

#[test]
fn response_without_result_is_null() {
    let mut connection: AcpConnection<u8> = AcpConnection::new();
    connection.new_session("/a", 1);
    match connection.handle_incoming_message(message(Some("1"), None, None)) {
        Incoming::Response { outcome, .. } => assert!(matches!(outcome, Ok(Json::Null))),
        _ => panic!("no response"),
    }
}

#[test]
fn given_up_request_gets_no_response() {
    let mut connection: AcpConnection<u8> = AcpConnection::new();
    let id = connection.new_session("/a", 1).id;
    connection.give_up(id);
    assert!(matches!(
        connection.handle_incoming_message(message(Some("1"), None, None)),
        Incoming::Ignored
    ));
}

#[test]
fn odd_numbers_count_as_zero_and_other_ids_are_ignored() {
    let mut connection: AcpConnection<u8> = AcpConnection::new();
    for id in ["\"1\"", "true", "[1]"] {
        assert!(matches!(
            connection.handle_incoming_message(message(Some(id), None, None)),
            Incoming::Ignored
        ));
        assert!(matches!(
            connection.handle_incoming_message(message(Some(id), Some("x"), None)),
            Incoming::Ignored
        ));
    }
    for id in ["-5", "1.5"] {
        match connection.handle_incoming_message(message(Some(id), Some("x"), None)) {
            Incoming::Answer(line) => assert_eq!(
                line,
                "{\"error\":{\"code\":-32601,\"message\":\"Method not supported: x\"},\"id\":0,\"jsonrpc\":\"2.0\"}\n"
            ),
            _ => panic!("no answer"),
        }
    }
    assert!(matches!(
        connection.handle_incoming_message(message(None, None, None)),
        Incoming::Ignored
    ));
}

#[test]
fn permission_goes_to_the_first_option_that_allows() {
    let params = parse(
        r#"{"options":[{"kind":"rejectOnce","optionId":"no"},
            {"kind":"allowOnce","optionId":"once"},{"kind":"allowAlways","optionId":"always"}]}"#,
    );
    same(
        &handle_agent_request(7, "session/request_permission", Some(&params)),
        r#"{"jsonrpc":"2.0","id":7,"result":{"outcome":{"type":"selected","optionId":"once"}}}"#,
    );
}

#[test]
fn permission_without_an_allowing_option() {
    let first = parse(r#"{"options":[{"optionId":"a"},{"optionId":"b"}]}"#);
    let nameless = parse(r#"{"options":[{"kind":"allowOnce"}]}"#);
    let empty = parse(r#"{"options":[]}"#);
    for (params, name) in [
        (Some(&first), "a"),
        (Some(&nameless), "allow_always"),
        (Some(&empty), "allow_always"),
        (None, "allow_always"),
    ] {
        same(
            &handle_agent_request(1, "session/request_permission", params),
            &format!(
                "{{\"jsonrpc\":\"2.0\",\"id\":1,\"result\":{{\"outcome\":{{\"type\":\"selected\",\"optionId\":\"{name}\"}}}}}}"
            ),
        );
    }
}

#[test]
fn chunks_are_found_in_three_places() {
    for update in [
        r#"{"sessionUpdate":"agent_message_chunk","content":{"text":"hi"}}"#,
        r#"{"sessionUpdate":"agent_thought_chunk","text":"hi"}"#,
        r#"{"sessionUpdate":"agent_message_chunk","content":"hi"}"#,
        r#"{"sessionUpdate":"agent_message_chunk","content":{"text":"hi"},"text":"no"}"#,
    ] {
        match event(update) {
            Some(AcpEvent::TextChunk(t)) => assert_eq!(t, "hi"),
            other => panic!("{other:?}"),
        }
    }
    assert!(event(r#"{"sessionUpdate":"agent_message_chunk","content":{"text":1}}"#).is_none());
}

#[test]
fn tool_calls_have_titles_and_states() {
    match event(r#"{"sessionUpdate":"tool_call","title":"ls","status":"running"}"#) {
        Some(AcpEvent::ToolCall { title, status }) => {
            assert_eq!((title.as_str(), status.as_str()), ("ls", "running"))
        }
        other => panic!("{other:?}"),
    }
    match event(r#"{"sessionUpdate":"tool_call"}"#) {
        Some(AcpEvent::ToolCall { title, status }) => {
            assert_eq!((title.as_str(), status.as_str()), ("unknown", "pending"))
        }
        other => panic!("{other:?}"),
    }
    match event(
        r#"{"sessionUpdate":"tool_call_update","status":"completed",
            "content":[{"content":{"text":"out"}},{"content":{"text":"more"}}]}"#,
    ) {
        Some(AcpEvent::ToolCallUpdate { status, content }) => {
            assert_eq!(status, "completed");
            assert_eq!(content.as_deref(), Some("out"));
        }
        other => panic!("{other:?}"),
    }
    match event(r#"{"sessionUpdate":"tool_call_update","content":[]}"#) {
        Some(AcpEvent::ToolCallUpdate { status, content }) => {
            assert_eq!(status, "");
            assert_eq!(content, None);
        }
        other => panic!("{other:?}"),
    }
}

#[test]
fn plans_and_usage_are_read() {
    match event(
        r#"{"sessionUpdate":"plan","entries":[{"content":"a","status":"completed"},{}]}"#,
    ) {
        Some(AcpEvent::Plan(entries)) => {
            assert_eq!(entries.len(), 2);
            assert_eq!(entries[0].content, "a");
            assert_eq!(entries[0].status, "completed");
            assert_eq!(entries[1].content, "");
            assert_eq!(entries[1].status, "pending");
        }
        other => panic!("{other:?}"),
    }
    assert!(matches!(
        event(r#"{"sessionUpdate":"plan"}"#),
        Some(AcpEvent::Plan(entries)) if entries.is_empty()
    ));
    assert!(matches!(
        event(r#"{"sessionUpdate":"usage_update","inputTokens":5,"outputTokens":-1}"#),
        Some(AcpEvent::Usage {
            input_tokens: Some(5),
            output_tokens: None
        })
    ));
}

#[test]
fn other_notifications_are_ignored() {
    assert!(event(r#"{"sessionUpdate":"mode_update"}"#).is_none());
    assert!(event(r#"{}"#).is_none());
    assert!(handle_notification("session/update", None).is_none());
    let params = parse(r#"{"update":{"sessionUpdate":"plan"}}"#);
    assert!(handle_notification("session/other", Some(&params)).is_none());
    let mut connection: AcpConnection<u8> = AcpConnection::new();
    assert!(matches!(
        connection.handle_incoming_message(message(
            None,
            Some("session/update"),
            Some(r#"{"update":{"sessionUpdate":"plan"}}"#)
        )),
        Incoming::Event(AcpEvent::Plan(_))
    ));
}

#[test]
fn results_are_read() {
    assert_eq!(session_id_of(&parse(r#"{"sessionId":"q"}"#)).as_deref(), Ok("q"));
    assert_eq!(
        session_id_of(&parse(r#"{"sessionId":5}"#)).err().as_deref(),
        Some("Missing sessionId in session/new response")
    );
    assert_eq!(stop_reason(&parse(r#"{"stopReason":"cancelled"}"#)), "cancelled");
    assert_eq!(stop_reason(&Json::Null), "unknown");
    assert!(matches!(connection_closed(), AcpEvent::Error(e) if e == "ACP connection closed"));
}

#[test]
fn json_is_written_as_text() {
    for text in [
        "null",
        "true",
        "[1,-2,1.5,\"a\\\"b\\n\"]",
        "{\"a\":{},\"b\":[]}",
    ] {
        assert_eq!(to_text(&parse(text)), text);
    }
}

#[test]
fn requests_and_notifications_are_written_in_order() {
    let mut connection: AcpConnection<u8> = AcpConnection::new();
    let mut request = connection.new_session("/wo\nrk", 1);
    assert_eq!(
        request_line(&request),
        concat_lines(&[
            "{\"jsonrpc\":\"2.0\",\"id\":1,\"method\":\"session/new\",",
            "\"params\":{\"cwd\":\"/wo\\nrk\",\"mcpServers\":[]}}\n",
        ])
    );
    request.id = u64::MAX;
    request.method = "a\"b".to_string();
    request.params = Json::Null;
    assert_eq!(
        request_line(&request),
        concat_lines(&[
            "{\"jsonrpc\":\"2.0\",\"id\":18446744073709551615,",
            "\"method\":\"a\\\"b\",\"params\":null}\n",
        ])
    );
    let notification = connection.cancel("s1");
    assert_eq!(
        notification_line(&notification),
        concat_lines(&[
            "{\"jsonrpc\":\"2.0\",\"method\":\"session/cancel\",",
            "\"params\":{\"sessionId\":\"s1\"}}\n",
        ])
    );
}

fn concat_lines(parts: &[&str]) -> String {
    let line = parts.concat();
    serde_json::from_str::<Value>(&line).expect("valid JSON");
    line
}

#[test]
fn json_is_read_as_it_is() {
    let text = r#"{"a":[null,true,18446744073709551615,-3,1.5,"x"],"b":{}}"#;
    let json = from_text(text).expect("valid JSON");
    same(&json, text);
    match &json {
        Json::Object(fields) => match &fields[0].1 {
            Json::Array(items) => {
                assert!(matches!(items[0], Json::Null));
                assert!(matches!(items[1], Json::Bool(true)));
                assert!(matches!(items[2], Json::UInt(u64::MAX)));
                assert!(matches!(items[3], Json::NegInt(-3)));
                assert!(matches!(items[4], Json::OtherNumber(_)));
                assert!(matches!(&items[5], Json::Str(s) if s == "x"));
            }
            other => panic!("{other:?}"),
        },
        other => panic!("{other:?}"),
    }
    assert!(from_text("{").is_none());
    assert!(from_text("{} {}").is_none());
    assert!(from_text("").is_none());
}
