use chat_relay::payload::MessagePayload;

fn payload(sender: &str, content: &str) -> MessagePayload {
    MessagePayload { sender: sender.to_string(), content: content.to_string() }
}

#[test]
fn test_message_payload_serialization_roundtrip() {
    let original = MessagePayload {
        sender: "alice".to_string(),
        content: "Hello, world!".to_string(),
    };
    let serialized = original.serialize();
    let deserialized = MessagePayload::deserialize(&serialized).unwrap();
    assert_eq!(original, deserialized);
}

#[test]
fn serialize_writes_the_record() {
    let p = payload("alice", "Hello, world!");
    assert_eq!(p.serialize(), "{\"sender\":\"alice\",\"content\":\"Hello, world!\"}");
}

#[test]
fn serialize_escapes_quotes_backslashes_and_controls() {
    let p = payload("a\"b", "x\\y\nz\u{1}\t");
    assert_eq!(
        p.serialize(),
        "{\"sender\":\"a\\\"b\",\"content\":\"x\\\\y\\nz\\u0001\\t\"}"
    );
}

#[test]
fn round_trip_of_awkward_texts() {
    let texts = ["", " ", "\"", "\\", "\\\"", "\u{0}\u{1f}\u{7f}", "é→😀", "}{\",\"content\":\""];
    for s in texts.iter() {
        for c in texts.iter() {
            let p = payload(s, c);
            assert_eq!(MessagePayload::deserialize(&p.serialize()), Some(p));
        }
    }
}

#[test]
fn deserialize_reads_escapes() {
    let p = MessagePayload::deserialize("{\"sender\":\"a\\u0041\\/\",\"content\":\"x\\\"y\"}").unwrap();
    assert_eq!(p, payload("aA/", "x\"y"));
}

#[test]
fn deserialize_drops_malformed_text() {
    assert_eq!(MessagePayload::deserialize(""), None);
    assert_eq!(MessagePayload::deserialize("hello"), None);
    assert_eq!(MessagePayload::deserialize("{\"sender\":\"a\"}"), None);
    assert_eq!(MessagePayload::deserialize("{\"sender\":\"a\",\"content\":\"b\"} "), None);
    assert_eq!(MessagePayload::deserialize("{\"sender\":\"a\",\"content\":\"b\\q\"}"), None);
    assert_eq!(MessagePayload::deserialize("{\"sender\":\"a\",\"content\":\"b"), None);
    assert_eq!(MessagePayload::deserialize("{\"content\":\"b\",\"sender\":\"a\"}"), None);
}

#[test]
fn blank_content_is_recognised() {
    assert!(payload("a", "").has_blank_content());
    assert!(payload("a", " \t\n\u{3000}").has_blank_content());
    assert!(!payload("a", "  x ").has_blank_content());
}
