use codex_administrator::control::{
    parse_control_requests, ControlError, ControlOperation, ControlResponse, RawControlRequest, CONTROL_VERSION,
};
use serde_json::Value;

const NONCE: &str = "0123456789abcdef0123456789abcdef0123456789abcdef0123456789ABCDEF";

fn raw(id: &str, operation: &str) -> RawControlRequest {
    RawControlRequest {
        version: CONTROL_VERSION,
        id: id.into(),
        nonce: NONCE.into(),
        operation: operation.into(),
        payload: Value::String("payload".into()),
        payload_bytes: Some(9),
    }
}

#[test]
fn drained_requests_keep_their_order_and_payloads() {
    let accepted = parse_control_requests(Some(vec![Some(raw("a-1", "state.read")), Some(raw("b_2", "config.apply"))]), NONCE)
        .unwrap();
    assert_eq!(accepted.len(), 2);
    assert_eq!(accepted[0].id(), "a-1");
    assert_eq!(accepted[0].operation(), ControlOperation::StateRead);
    let (id, operation, payload) = accepted.into_iter().nth(1).unwrap().into_parts();
    assert_eq!(id, "b_2");
    assert_eq!(operation, ControlOperation::ConfigApply);
    assert_eq!(payload, Value::String("payload".into()));
    assert!(parse_control_requests(Some(vec![]), NONCE).unwrap().is_empty());
}

#[test]
fn drains_are_refused_at_their_first_fault() {
    assert_eq!(parse_control_requests(Some(vec![]), "abc").err(), Some(ControlError::InvalidNonce));
    assert_eq!(parse_control_requests(None, NONCE).err(), Some(ControlError::NotAnArray));
    let many = (0..33).map(|i| Some(raw(&format!("r{i}"), "state.read"))).collect();
    assert_eq!(parse_control_requests(Some(many), NONCE).err(), Some(ControlError::TooManyRequests));
    assert_eq!(parse_control_requests(Some(vec![None]), NONCE).err(), Some(ControlError::InvalidShape));
    let mut old = raw("a", "state.read");
    old.version = 2;
    assert_eq!(parse_control_requests(Some(vec![Some(old)]), NONCE).err(), Some(ControlError::UnsupportedVersion));
    let mut other = raw("a", "state.read");
    other.nonce = NONCE.to_lowercase();
    assert_eq!(parse_control_requests(Some(vec![Some(other)]), NONCE).err(), Some(ControlError::NonceMismatch));
    assert_eq!(parse_control_requests(Some(vec![Some(raw("a b", "state.read"))]), NONCE).err(), Some(ControlError::InvalidId));
    let mut large = raw("a", "state.read");
    large.payload_bytes = Some(65_537);
    assert_eq!(parse_control_requests(Some(vec![Some(large)]), NONCE).err(), Some(ControlError::PayloadTooLarge));
    let mut unserializable = raw("a", "state.read");
    unserializable.payload_bytes = None;
    assert_eq!(
        parse_control_requests(Some(vec![Some(unserializable)]), NONCE).err(),
        Some(ControlError::PayloadUnserializable)
    );
    assert_eq!(
        parse_control_requests(Some(vec![Some(raw("a", "state.write"))]), NONCE).err(),
        Some(ControlError::UnsupportedOperation)
    );
}

#[test]
fn operations_are_named_exactly() {
    assert_eq!(ControlOperation::parse("models.discover"), Ok(ControlOperation::ModelsDiscover));
    assert_eq!(ControlOperation::parse("credential.clear"), Ok(ControlOperation::CredentialClear));
    assert_eq!(ControlOperation::parse("Models.discover"), Err(ControlError::UnsupportedOperation));
}

#[test]
fn error_responses_are_cleaned_for_display() {
    let response = ControlResponse::error("a".into(), NONCE.into(), "bad\nthing");
    assert!(!response.ok);
    assert_eq!(response.error.as_deref(), Some("bad thing"));
    let response = ControlResponse::error("a".into(), NONCE.into(), " \t ");
    assert_eq!(response.error.as_deref(), Some("secure broker request failed"));
    let long = "x".repeat(600);
    let response = ControlResponse::error("a".into(), NONCE.into(), &long);
    assert_eq!(response.error.unwrap().len(), 512);
    let response = ControlResponse::success("a".into(), NONCE.into(), Value::Bool(true));
    assert!(response.ok);
    assert_eq!(response.result, Some(Value::Bool(true)));
    assert_eq!(response.error, None);
}
