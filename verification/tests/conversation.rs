use serde_json::Value;
use toodles::acp::{AcpEvent, PlanEntry};
use toodles::json::Json;
use toodles::session::{
    after_failed_attempt, emit_stream_event, forward_event, parse_stream_event,
    stream_event_payload, Query, QueryEvent, QueryNext, RetryStep, Session, StreamLine,
    STREAM_EVENT_PREFIX,
};

fn session(system_prompt: Option<&str>) -> Session {
    Session::new("id".to_string(), true, system_prompt.map(|s| s.to_string()))
}

fn payload(line: &str) -> Value {
    let text = stream_event_payload(line).expect("an event");
    serde_json::from_str(&text).expect("valid JSON")
}

fn carries(line: &str, kind: &str, status: Option<&str>, text: Option<&str>) {
    let value = payload(line);
    assert_eq!(value["kind"].as_str(), Some(kind));
    assert_eq!(value["status"].as_str(), status);
    assert_eq!(value["text"].as_str(), text);
    assert_eq!(value.as_object().map(|o| o.len()), Some(3));
}

#[test]
fn first_prompt_carries_the_system_prompt() {
    let mut s = session(Some("Be kind."));
    assert_eq!(s.query("hi"), "[System instruction]: Be kind.\n\nhi");
    s.finish_query();
    assert_eq!(s.query("hi"), "hi");
    assert_eq!(session(None).query("hi"), "hi");
}

#[test]
fn files_are_referenced_after_the_prompt() {
    let s = session(None);
    let files = vec!["/a b".to_string(), "/c".to_string()];
    assert_eq!(s.query_with_files("see", &files), "see\n\n@{/a b}\n@{/c}\n");
    let s = session(Some("S"));
    assert_eq!(
        s.query_with_files("see", &files[1..]),
        "[System instruction]: S\n\nsee\n\n@{/c}\n"
    );
}

#[test]
fn yolo_sets_the_mode() {
    assert_eq!(session(None).initial_mode().as_deref(), Some("yolo"));
    let careful = Session::new("id".to_string(), false, None);
    assert_eq!(careful.initial_mode(), None);
}

#[test]
fn events_travel_as_json() {
    let line = emit_stream_event("tool", Some("pending"), Some("say \"hi\"\n"));
    assert!(line.starts_with(STREAM_EVENT_PREFIX));
    carries(&line, "tool", Some("pending"), Some("say \"hi\"\n"));
    let line = emit_stream_event("usage", None, None);
    assert_eq!(
        line,
        "__TOODLES_EVT__:{\"kind\":\"usage\",\"status\":null,\"text\":null}"
    );
    carries(&line, "usage", None, None);
}

#[test]
fn other_lines_are_no_events() {
    assert_eq!(stream_event_payload("hello"), None);
    assert_eq!(stream_event_payload(" __TOODLES_EVT__:{}"), None);
    assert_eq!(stream_event_payload("__TOODLES_EVT__:").as_deref(), Some(""));
}

fn comes_back(kind: &str, status: Option<&str>, text: Option<&str>) {
    match parse_stream_event(&emit_stream_event(kind, status, text)) {
        StreamLine::Event(event) => {
            assert_eq!(event.kind, kind);
            assert_eq!(event.status.as_deref(), status);
            assert_eq!(event.text.as_deref(), text);
        }
        other => panic!("{other:?}"),
    }
}

#[test]
fn emitted_events_are_read_back() {
    comes_back("tool", Some("pending"), Some("say \"hi\"\n\t\\ \u{0}\u{7f} 😀 жук"));
    comes_back("usage", None, None);
    comes_back("", Some(""), None);
    comes_back("error", None, Some(STREAM_EVENT_PREFIX));
    for line in forward_event(AcpEvent::Error("{\"kind\":1}".to_string())) {
        assert!(matches!(parse_stream_event(&line), StreamLine::Event(_)));
    }
}

#[test]
fn lines_of_another_making_are_told_apart() {
    assert!(matches!(parse_stream_event("hello"), StreamLine::Text));
    assert!(matches!(parse_stream_event(""), StreamLine::Text));
    assert!(matches!(
        parse_stream_event(" __TOODLES_EVT__:{}"),
        StreamLine::Text
    ));
    for payload in [
        "",
        "{}",
        "[]",
        "{\"kind\":\"tool\"}",
        "{\"kind\":\"a\",\"kind\":\"b\",\"status\":null,\"text\":null}",
        "{\"kind\":\"a\",\"status\":1,\"text\":null}",
        "{ \"kind\":\"a\",\"status\":null,\"text\":null}",
        "{\"kind\":\"a\",\"status\":null,\"text\":null} ",
    ] {
        match parse_stream_event(&format!("{STREAM_EVENT_PREFIX}{payload}")) {
            StreamLine::Foreign(rest) => assert_eq!(rest, payload),
            other => panic!("{other:?}"),
        }
    }
}

#[test]
fn text_is_forwarded_as_it_is() {
    assert_eq!(forward_event(AcpEvent::TextChunk("a\n".to_string())), vec!["a\n"]);
}

#[test]
fn tool_calls_are_forwarded_when_they_begin_and_end() {
    let call = |status: &str| AcpEvent::ToolCall {
        title: "ls".to_string(),
        status: status.to_string(),
    };
    let lines = forward_event(call("pending"));
    assert_eq!(lines.len(), 1);
    carries(&lines[0], "tool", Some("pending"), Some("ls"));
    assert!(forward_event(call("in_progress")).is_empty());

    let update = |status: &str, content: Option<&str>| AcpEvent::ToolCallUpdate {
        status: status.to_string(),
        content: content.map(|c| c.to_string()),
    };
    carries(
        &forward_event(update("completed", None))[0],
        "tool",
        Some("completed"),
        Some("completed"),
    );
    let long = "x".repeat(300);
    let short = format!("{}…", "x".repeat(199));
    carries(
        &forward_event(update("completed", Some(&long)))[0],
        "tool",
        Some("completed"),
        Some(&short),
    );
    assert!(forward_event(update("failed", Some("x"))).is_empty());
}

#[test]
fn plans_usage_and_errors_are_forwarded() {
    let plan = AcpEvent::Plan(vec![
        PlanEntry {
            content: "a".to_string(),
            status: "completed".to_string(),
        },
        PlanEntry {
            content: "b".to_string(),
            status: "pending".to_string(),
        },
    ]);
    let lines = forward_event(plan);
    assert_eq!(lines.len(), 2);
    carries(&lines[0], "plan", Some("completed"), Some("a"));
    carries(&lines[1], "plan", Some("pending"), Some("b"));
    let usage = AcpEvent::Usage {
        input_tokens: Some(12),
        output_tokens: None,
    };
    carries(&forward_event(usage)[0], "usage", None, Some("input=12 output=0"));
    carries(
        &forward_event(AcpEvent::Error("oops".to_string()))[0],
        "error",
        None,
        Some("oops"),
    );
}

#[test]
fn query_ends_when_the_prompt_is_answered() {
    let mut query = Query::new();
    let (lines, next) = query.step(QueryEvent::Agent(AcpEvent::TextChunk("t".to_string())));
    assert_eq!(lines, vec!["t"]);
    assert_eq!(next, QueryNext::Wait);
    let (lines, next) = query.step(QueryEvent::Finished(Ok(Json::Null)));
    assert!(lines.is_empty());
    assert_eq!(next, QueryNext::Drain);
    assert!(!query.cancelled);
}

#[test]
fn query_tells_of_a_failed_prompt() {
    let mut query = Query::new();
    let (lines, next) = query.step(QueryEvent::Finished(Err("no luck".to_string())));
    assert_eq!(lines, vec!["\n⚠️ ACP error: no luck"]);
    assert_eq!(next, QueryNext::Drain);
    let (lines, next) = query.step(QueryEvent::Closed);
    assert!(lines.is_empty());
    assert_eq!(next, QueryNext::Stop);
}

#[test]
fn cancel_reaches_the_agent_once() {
    let mut query = Query::new();
    assert_eq!(query.step(QueryEvent::Cancel).1, QueryNext::SendCancel);
    assert!(query.cancelled);
    assert_eq!(query.step(QueryEvent::Cancel).1, QueryNext::Wait);
    let mut query = Query::new();
    let result = Json::Object(vec![(
        "stopReason".to_string(),
        Json::Str("cancelled".to_string()),
    )]);
    query.step(QueryEvent::Finished(Ok(result)));
    assert!(query.cancelled);
}

#[test]
fn attempts_are_spaced_and_limited() {
    assert!(matches!(after_failed_attempt(1), RetryStep::Wait(600)));
    assert!(matches!(after_failed_attempt(2), RetryStep::Wait(1200)));
    match after_failed_attempt(3) {
        RetryStep::GiveUp(e) => assert_eq!(
            e,
            "Failed to create ACP session for gemini-cli after 3 attempts"
        ),
        other => panic!("{other:?}"),
    }
}
