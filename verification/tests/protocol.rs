use codex_administrator::protocol::{
    parse_session_id, parse_session_update, parse_thread_id, parse_turn_id, validate_absolute_cwd, ApprovalDecision,
    ClientInfo, ProtocolError,
};
use serde_json::Value;

fn object(entries: Vec<(&str, Value)>) -> Value {
    let mut map = serde_json::Map::new();
    for (key, value) in entries {
        map.insert(key.to_string(), value);
    }
    Value::Object(map)
}

fn text(value: &str) -> Value {
    Value::String(value.into())
}

#[test]
fn app_server_responses_report_thread_and_turn_ids() {
    let response = object(vec![(
        "result",
        object(vec![("thread", object(vec![("id", text("t-1"))])), ("turn", object(vec![("id", text("u-2"))]))]),
    )]);
    assert_eq!(parse_thread_id(&response).as_deref(), Some("t-1"));
    assert_eq!(parse_turn_id(&response).as_deref(), Some("u-2"));
    assert_eq!(parse_thread_id(&object(vec![("result", text("x"))])), None);
    assert_eq!(parse_turn_id(&object(vec![("result", object(vec![("turn", object(vec![("id", Value::Bool(true))]))]))])), None);
}

#[test]
fn grok_messages_report_sessions_and_updates() {
    let response = object(vec![("result", object(vec![("sessionId", text("s-9"))]))]);
    assert_eq!(parse_session_id(&response).as_deref(), Some("s-9"));
    let update = object(vec![("sessionUpdate", text("agent_message_chunk")), ("content", text("hi"))]);
    let message = object(vec![
        ("method", text("session/update")),
        ("params", object(vec![("sessionId", text("s-9")), ("update", update.clone())])),
    ]);
    let parsed = parse_session_update(&message).unwrap();
    assert_eq!(parsed.session_id, "s-9");
    assert_eq!(parsed.kind, "agent_message_chunk");
    assert_eq!(parsed.payload, update);
    let other = object(vec![("method", text("session/prompt")), ("params", object(vec![]))]);
    assert!(parse_session_update(&other).is_none());
}

#[test]
fn decisions_have_wire_names_and_cwds_must_be_absolute() {
    assert_eq!(ApprovalDecision::Accept.as_str(), "accept");
    assert_eq!(ApprovalDecision::AcceptForSession.as_str(), "acceptForSession");
    assert_eq!(ApprovalDecision::Decline.as_str(), "decline");
    assert_eq!(ApprovalDecision::Cancel.as_str(), "cancel");
    let client = ClientInfo { name: "codex_administrator", title: "Codex Administrator", version: "0.1.0" };
    assert_eq!(client.name, "codex_administrator");
    assert_eq!(validate_absolute_cwd(r"C:\work"), Ok(()));
    assert_eq!(validate_absolute_cwd("work"), Err(ProtocolError::RelativeCwd));
}
