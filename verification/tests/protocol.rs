use lau_a2a_protocol::{
    deserialize_binary, serialize_binary, A2AError, A2AMessage, A2AMessageType, A2APayload,
    A2ARouter, A2ASession, AgentCard, AgentEndpoint, AuthScheme, SessionState,
};
use std::collections::HashMap;

/// JSON text of `A2AMessageType::Query { intent: "hello" }` as the wire format writes it.
const QUERY_HELLO_JSON: &str = r#"{"type":"Query","data":{"intent":"hello"}}"#;
/// JSON text of `A2APayload::Text("hi")`.
const TEXT_HI_JSON: &str = r#"{"type":"Text","data":"hi"}"#;
/// JSON text of `A2APayload::Text("tampered")`.
const TEXT_TAMPERED_JSON: &str = r#"{"type":"Text","data":"tampered"}"#;

fn sample_card(id: &str, name: &str) -> AgentCard {
    AgentCard {
        id: id.to_string(),
        name: name.to_string(),
        version: "1.0.0".to_string(),
        description: format!("Agent {name}"),
        capabilities: vec!["chat".to_string()],
        protocols: vec!["https".to_string()],
        endpoints: vec![AgentEndpoint {
            url: format!("https://{id}.example.com"),
            protocol: "https".to_string(),
            description: "main".to_string(),
        }],
        authentication: None,
        metadata: HashMap::new(),
    }
}

fn sample_message(from: &str, to: &str) -> A2AMessage {
    A2AMessage {
        id: "msg-1".to_string(),
        from: from.to_string(),
        to: to.to_string(),
        message_type: A2AMessageType::Query {
            intent: "hello".to_string(),
        },
        payload: A2APayload::Text("hi".to_string()),
        metadata: HashMap::new(),
        timestamp: 1000,
        ttl: Some(60),
        signature: None,
    }
}

// ---- A2APayload ----

#[test]
fn payload_text() {
    let p = A2APayload::Text("hello".to_string());
    assert_eq!(p.as_text(), Some("hello"));
}

#[test]
fn payload_as_text_non_text_returns_none() {
    let p = A2APayload::Binary(vec![]);
    assert!(p.as_text().is_none());
}

#[test]
fn payload_as_json_invalid_returns_none() {
    let p = A2APayload::Json("not valid json!!!".to_string());
    let result: Option<serde_json::Value> =
        p.json_text().and_then(|s| serde_json::from_str(s).ok());
    assert!(result.is_none());
}

#[test]
fn payload_as_json_non_json_returns_none() {
    let p = A2APayload::Text("{}".to_string());
    let result: Option<serde_json::Value> =
        p.json_text().and_then(|s| serde_json::from_str(s).ok());
    assert!(result.is_none());
}

#[test]
fn payload_json_text_of_json_payload() {
    let p = A2APayload::Json(r#"{"x":42}"#.to_string());
    assert_eq!(p.json_text(), Some(r#"{"x":42}"#));
    assert_eq!(p.as_text(), None);
    let parsed: Option<serde_json::Value> =
        p.json_text().and_then(|s| serde_json::from_str(s).ok());
    assert_eq!(parsed.unwrap()["x"], 42);
}

#[test]
fn payload_multipart_clone_is_equal() {
    let mp = A2APayload::MultiPart(vec![
        A2APayload::Text("a".to_string()),
        A2APayload::Binary(vec![1, 2, 3]),
        A2APayload::MultiPart(vec![A2APayload::Json("{}".to_string())]),
    ]);
    assert_eq!(mp.clone(), mp);
}

// ---- binary payload transport form ----

#[test]
fn binary_serializes_as_lowercase_hex() {
    assert_eq!(serialize_binary(&[0xDE, 0xAD, 0xBE, 0xEF]), "deadbeef");
    assert_eq!(serialize_binary(&[]), "");
    assert_eq!(serialize_binary(&[0x00, 0x0f, 0xa0]), "000fa0");
}

#[test]
fn binary_round_trip() {
    let data = vec![0xDE, 0xAD, 0xBE, 0xEF];
    assert_eq!(deserialize_binary(&serialize_binary(&data)), Ok(data));
    let multi = vec![1u8, 2, 3];
    assert_eq!(deserialize_binary(&serialize_binary(&multi)), Ok(multi));
}

#[test]
fn binary_decode_accepts_either_case() {
    assert_eq!(deserialize_binary("DEADbeef"), Ok(vec![0xDE, 0xAD, 0xBE, 0xEF]));
}

#[test]
fn binary_decode_rejects_bad_hex() {
    assert!(matches!(deserialize_binary("abc"), Err(A2AError::InvalidPayload(_))));
    assert!(matches!(deserialize_binary("zz"), Err(A2AError::InvalidPayload(_))));
    assert!(matches!(deserialize_binary("é0"), Err(A2AError::InvalidPayload(_))));
}

// ---- A2AMessage signing ----

#[test]
fn sign_and_verify_message() {
    let key = b"super-secret-key";
    let mut msg = sample_message("a1", "a2");
    assert!(!msg.verify(key, QUERY_HELLO_JSON, TEXT_HI_JSON));
    msg.sign(key, QUERY_HELLO_JSON, TEXT_HI_JSON);
    assert!(msg.verify(key, QUERY_HELLO_JSON, TEXT_HI_JSON));
}

#[test]
fn verify_fails_with_wrong_key() {
    let key = b"correct-key";
    let wrong_key = b"wrong-key";
    let mut msg = sample_message("a1", "a2");
    msg.sign(key, QUERY_HELLO_JSON, TEXT_HI_JSON);
    assert!(!msg.verify(wrong_key, QUERY_HELLO_JSON, TEXT_HI_JSON));
}

#[test]
fn verify_fails_unsigned() {
    let msg = sample_message("a1", "a2");
    assert!(!msg.verify(b"any-key", QUERY_HELLO_JSON, TEXT_HI_JSON));
}

#[test]
fn sign_twice_overwrites() {
    let key = b"key";
    let mut msg = sample_message("a1", "a2");
    msg.sign(key, QUERY_HELLO_JSON, TEXT_HI_JSON);
    let sig1 = msg.signature.clone();
    msg.sign(key, QUERY_HELLO_JSON, TEXT_HI_JSON);
    // Same content → same signature
    assert_eq!(sig1, msg.signature);
}

#[test]
fn tampered_message_fails_verify() {
    let key = b"key";
    let mut msg = sample_message("a1", "a2");
    msg.sign(key, QUERY_HELLO_JSON, TEXT_HI_JSON);
    msg.payload = A2APayload::Text("tampered".to_string());
    assert!(!msg.verify(key, QUERY_HELLO_JSON, TEXT_TAMPERED_JSON));
}

#[test]
fn signature_is_hex_hmac_of_canonical_text() {
    let mut msg = sample_message("a1", "a2");
    msg.sign(b"super-secret-key", QUERY_HELLO_JSON, TEXT_HI_JSON);
    assert_eq!(
        msg.signature.as_deref(),
        Some("a4a1f32569f906f1c5e9611f0e53dba6023dc56ccf40ecd04ad44f160a5ce4f3")
    );
}

#[test]
fn signature_covers_timestamp_digits() {
    let mut msg = A2AMessage {
        id: "m".to_string(),
        from: "a".to_string(),
        to: "b".to_string(),
        timestamp: 0,
        ..sample_message("a", "b")
    };
    msg.sign(b"", "{}", "{}");
    assert_eq!(
        msg.signature.as_deref(),
        Some("0232a21260f330b07364b3736c471e7d6a30cee3d00809f9dcdfd524b5e6ebbe")
    );
    msg.timestamp = u64::MAX;
    msg.sign(b"k", "x", "y");
    assert_eq!(
        msg.signature.as_deref(),
        Some("93e9b452cf6efaf7916385a039bf0dd5277c10785e98d476a1928106e15e2b4d")
    );
}

#[test]
fn signing_keeps_other_fields() {
    let mut msg = sample_message("a1", "a2");
    let before = msg.clone();
    msg.sign(b"key", QUERY_HELLO_JSON, TEXT_HI_JSON);
    msg.signature = None;
    assert_eq!(msg, before);
}

#[test]
fn verify_rejects_garbled_signature() {
    let mut msg = sample_message("a1", "a2");
    msg.sign(b"key", QUERY_HELLO_JSON, TEXT_HI_JSON);
    msg.signature = Some("not hex".to_string());
    assert!(!msg.verify(b"key", QUERY_HELLO_JSON, TEXT_HI_JSON));
    msg.signature = Some(String::new());
    assert!(!msg.verify(b"key", QUERY_HELLO_JSON, TEXT_HI_JSON));
}

#[test]
fn verify_accepts_uppercase_signature() {
    let mut msg = sample_message("a1", "a2");
    msg.sign(b"key", QUERY_HELLO_JSON, TEXT_HI_JSON);
    let upper = msg.signature.clone().unwrap().to_uppercase();
    msg.signature = Some(upper);
    assert!(msg.verify(b"key", QUERY_HELLO_JSON, TEXT_HI_JSON));
}

#[test]
fn ttl_and_metadata_are_not_signed() {
    let mut msg = sample_message("a1", "a2");
    msg.sign(b"key", QUERY_HELLO_JSON, TEXT_HI_JSON);
    msg.ttl = None;
    msg.metadata.insert("trace_id".to_string(), "abc-123".to_string());
    assert!(msg.verify(b"key", QUERY_HELLO_JSON, TEXT_HI_JSON));
}

#[test]
fn delegate_message_sign_verify_flow() {
    let key = b"test-hmac-key-123";
    let mut msg = A2AMessage {
        id: "msg-full".to_string(),
        from: "agent-a".to_string(),
        to: "agent-b".to_string(),
        message_type: A2AMessageType::Delegate {
            task: "compute primes".to_string(),
            target: "math-agent".to_string(),
        },
        payload: A2APayload::Json(r#"{"n":1000}"#.to_string()),
        metadata: {
            let mut m = HashMap::new();
            m.insert("priority".to_string(), "high".to_string());
            m
        },
        timestamp: 9999,
        ttl: Some(120),
        signature: None,
    };
    let type_json = r#"{"type":"Delegate","data":{"task":"compute primes","target":"math-agent"}}"#;
    let payload_json = r#"{"type":"Json","data":"{\"n\":1000}"}"#;
    msg.sign(key, type_json, payload_json);
    assert!(msg.verify(key, type_json, payload_json));
}

// ---- A2ASession ----

#[test]
fn session_new_is_active() {
    let s = A2ASession::new("s1".to_string(), vec!["a1".to_string(), "a2".to_string()]);
    assert!(s.is_active());
    assert_eq!(s.history().len(), 0);
}

#[test]
fn session_add_message() {
    let mut s = A2ASession::new("s1".to_string(), vec!["a1".to_string()]);
    s.add_message(sample_message("a1", "a2"));
    assert_eq!(s.history().len(), 1);
}

#[test]
fn session_close() {
    let mut s = A2ASession::new("s1".to_string(), vec!["a1".to_string()]);
    s.close();
    assert!(!s.is_active());
    assert_eq!(s.state, SessionState::Closed);
}

#[test]
fn session_idle_reactivates_on_message() {
    let mut s = A2ASession::new("s1".to_string(), vec!["a1".to_string()]);
    s.state = SessionState::Idle;
    assert!(s.is_active());
    s.add_message(sample_message("a1", "a2"));
    assert_eq!(s.state, SessionState::Active);
}

#[test]
fn session_closed_stays_closed_on_message() {
    let mut s = A2ASession::new("s1".to_string(), vec!["a1".to_string()]);
    s.close();
    s.add_message(sample_message("a1", "a2"));
    // state remains Closed (add_message only changes Idle→Active)
    assert_eq!(s.state, SessionState::Closed);
}

#[test]
fn session_error_state_not_active() {
    let mut s = A2ASession::new("s1".to_string(), vec!["a1".to_string()]);
    s.state = SessionState::Error("crashed".to_string());
    assert!(!s.is_active());
}

#[test]
fn session_error_state_survives_message() {
    let mut s = A2ASession::new("s1".to_string(), vec!["a1".to_string()]);
    s.state = SessionState::Error("crashed".to_string());
    s.add_message(sample_message("a1", "a2"));
    assert_eq!(s.state, SessionState::Error("crashed".to_string()));
    assert_eq!(s.history().len(), 1);
}

#[test]
fn session_history_keeps_order() {
    let mut s = A2ASession::new("s1".to_string(), vec!["a1".to_string()]);
    s.add_message(sample_message("a1", "a2"));
    s.add_message(sample_message("a2", "a1"));
    let history = s.history();
    assert_eq!(history[0].from, "a1");
    assert_eq!(history[1].from, "a2");
    assert_eq!(s.session_id, "s1");
    assert_eq!(s.participants, vec!["a1".to_string()]);
}

#[test]
fn multi_agent_session() {
    let mut session = A2ASession::new(
        "room-1".to_string(),
        vec!["a1".to_string(), "a2".to_string(), "a3".to_string()],
    );
    session.add_message(sample_message("a1", "a2"));
    session.add_message(sample_message("a2", "a1"));
    session.add_message(sample_message("a3", "a1"));
    assert_eq!(session.history().len(), 3);
}

// ---- A2AError display ----

#[test]
fn error_display() {
    assert_eq!(
        A2AError::AgentNotFound("x".to_string()).to_string(),
        "agent not found: x"
    );
    assert_eq!(A2AError::Timeout.to_string(), "timeout");
    assert_eq!(
        A2AError::Serialization("bad".to_string()).to_string(),
        "serialization error: bad"
    );
}

#[test]
fn error_display_other_variants() {
    assert_eq!(A2AError::NoRoute("m".to_string()).to_string(), "no route: m");
    assert_eq!(A2AError::InvalidPayload("p".to_string()).to_string(), "invalid payload: p");
    assert_eq!(A2AError::AuthFailed("k".to_string()).to_string(), "auth failed: k");
}

// ---- AgentCard ----

#[test]
fn agent_card_carries_auth_scheme() {
    let mut card = sample_card("a1", "Alpha");
    card.authentication = Some(AuthScheme::ApiKey {
        header: "X-API-Key".to_string(),
    });
    let copy = card.clone();
    assert_eq!(copy, card);
    assert_ne!(copy.authentication, Some(AuthScheme::NoAuth));
}

#[test]
fn signature_has_64_lowercase_hex_digits() {
    let mut msg = sample_message("a1", "a2");
    msg.signature = Some("stale".to_string());
    msg.sign(b"", QUERY_HELLO_JSON, TEXT_HI_JSON);
    let sig = msg.signature.unwrap();
    assert_eq!(sig.len(), 64);
    assert!(sig.chars().all(|c| c.is_ascii_digit() || ('a'..='f').contains(&c)));
}

#[test]
fn signing_payload_is_canonical_text() {
    let mut msg = sample_message("a1", "a2");
    assert_eq!(
        msg.signing_payload(QUERY_HELLO_JSON, TEXT_HI_JSON),
        r#"msg-1|a1|a2|{"type":"Query","data":{"intent":"hello"}}|{"type":"Text","data":"hi"}|1000"#
    );
    msg.ttl = None;
    msg.signature = Some("x".to_string());
    assert_eq!(
        msg.signing_payload(QUERY_HELLO_JSON, TEXT_HI_JSON),
        r#"msg-1|a1|a2|{"type":"Query","data":{"intent":"hello"}}|{"type":"Text","data":"hi"}|1000"#
    );
}

#[test]
fn verify_rejects_short_valid_hex_signature() {
    let mut msg = sample_message("a1", "a2");
    msg.signature = Some("abcd".to_string());
    assert!(!msg.verify(b"key", QUERY_HELLO_JSON, TEXT_HI_JSON));
}
