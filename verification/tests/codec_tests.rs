use yewchat::codec::{decode_envelope, decode_message_data, decode_typing_status, encode_envelope,
    encode_typing_status};
use yewchat::wire::{MsgTypes, TypingStatus, WebSocketMessage, WireError};

fn users_envelope(names: &[&str]) -> WebSocketMessage {
    WebSocketMessage {
        message_type: MsgTypes::Users,
        data_array: Some(names.iter().map(|n| n.to_string()).collect()),
        data: None,
    }
}

fn data_envelope(kind: MsgTypes, data: &str) -> WebSocketMessage {
    WebSocketMessage { message_type: kind, data_array: None, data: Some(data.to_string()) }
}

#[test]
fn encode_register_exact_text() {
    let e = data_envelope(MsgTypes::Register, "alice");
    assert_eq!(
        encode_envelope(&e),
        "{\"messageType\":\"register\",\"dataArray\":null,\"data\":\"alice\"}"
    );
}

#[test]
fn encode_users_exact_text() {
    let e = users_envelope(&["alice", "bob"]);
    assert_eq!(
        encode_envelope(&e),
        "{\"messageType\":\"users\",\"dataArray\":[\"alice\",\"bob\"],\"data\":null}"
    );
}

#[test]
fn encode_empty_users_list() {
    let e = users_envelope(&[]);
    assert_eq!(encode_envelope(&e), "{\"messageType\":\"users\",\"dataArray\":[],\"data\":null}");
}

#[test]
fn encode_escapes_quotes_backslashes_and_controls() {
    let e = data_envelope(MsgTypes::Message, "a\"b\\c\nd\u{1}e");
    assert_eq!(
        encode_envelope(&e),
        "{\"messageType\":\"message\",\"dataArray\":null,\"data\":\"a\\\"b\\\\c\\nd\\u0001e\"}"
    );
}

#[test]
fn decode_then_encode_is_identity_on_valid_text() {
    let texts = [
        "{\"messageType\":\"register\",\"dataArray\":null,\"data\":\"alice\"}",
        "{\"messageType\":\"users\",\"dataArray\":[\"a\",\"b\",\"c\"],\"data\":null}",
        "{\"messageType\":\"users\",\"dataArray\":[],\"data\":null}",
        "{\"messageType\":\"message\",\"dataArray\":null,\"data\":\"h\\ni\\u0002\\\"\\\\\"}",
        "{\"messageType\":\"typing\",\"dataArray\":null,\"data\":\"x\"}",
    ];
    for t in texts.iter() {
        let e = decode_envelope(t).unwrap();
        assert_eq!(encode_envelope(&e), *t);
    }
}

#[test]
fn encode_then_decode_is_identity_on_envelopes() {
    let e = users_envelope(&["a", "b"]);
    let d = decode_envelope(&encode_envelope(&e)).unwrap();
    assert!(matches!(d.message_type, MsgTypes::Users));
    assert_eq!(d.data_array, Some(vec!["a".to_string(), "b".to_string()]));
    assert_eq!(d.data, None);

    let e = data_envelope(MsgTypes::Message, "tab\there \"and\" \\slash\u{3}");
    let d = decode_envelope(&encode_envelope(&e)).unwrap();
    assert!(matches!(d.message_type, MsgTypes::Message));
    assert_eq!(d.data_array, None);
    assert_eq!(d.data, Some("tab\there \"and\" \\slash\u{3}".to_string()));
}

#[test]
fn decode_rejects_unknown_kind() {
    let r = decode_envelope("{\"messageType\":\"ping\",\"dataArray\":null,\"data\":\"x\"}");
    assert_eq!(r.unwrap_err(), WireError::MalformedEnvelope);
}

#[test]
fn decode_rejects_wrong_shape() {
    for t in [
        "",
        "{}",
        "not json",
        "{\"messageType\":\"users\",\"dataArray\":null,\"data\":null}",
        "{\"messageType\":\"register\",\"dataArray\":null,\"data\":null}",
        "{\"messageType\":\"register\",\"dataArray\":[\"a\"],\"data\":\"x\"}",
        "{\"messageType\":\"users\",\"dataArray\":[\"a\"],\"data\":null} ",
        "{\"messageType\":\"users\",\"dataArray\":[\"a\",],\"data\":null}",
        "{\"messageType\":\"users\",\"dataArray\":[\"a\"],\"data\":null}x",
    ]
    .iter()
    {
        assert_eq!(decode_envelope(t).unwrap_err(), WireError::MalformedEnvelope);
    }
}

#[test]
fn decode_rejects_non_canonical_texts() {
    for t in [
        // whitespace between tokens
        "{\"messageType\": \"users\",\"dataArray\":[\"a\"],\"data\":null}",
        // an escape that canonical encoding never produces
        "{\"messageType\":\"message\",\"dataArray\":null,\"data\":\"\\u0041\"}",
        // upper-case hex digits
        "{\"messageType\":\"message\",\"dataArray\":null,\"data\":\"\\u000B\"}",
        // a control character that has a short escape, written long
        "{\"messageType\":\"message\",\"dataArray\":null,\"data\":\"\\u000a\"}",
        // a raw control character inside a string
        "{\"messageType\":\"message\",\"dataArray\":null,\"data\":\"a\u{1}b\"}",
    ]
    .iter()
    {
        assert_eq!(decode_envelope(t).unwrap_err(), WireError::MalformedEnvelope);
    }
}

#[test]
fn control_and_unicode_round_trip() {
    let e = data_envelope(MsgTypes::Message, "héllo wörld \u{b}\u{1f}\u{7f}");
    let d = decode_envelope(&encode_envelope(&e)).unwrap();
    assert_eq!(d.data, Some("héllo wörld \u{b}\u{1f}\u{7f}".to_string()));
}

#[test]
fn decode_message_payload() {
    let d = decode_message_data("{\"from\":\"bob\",\"message\":\"hi\",\"timestamp\":null}")
        .unwrap();
    assert_eq!(d.from, "bob");
    assert_eq!(d.message, "hi");
    assert_eq!(d.timestamp, None);

    let d = decode_message_data(
        "{\"from\":\"bob\",\"message\":\"hi\",\"timestamp\":\"12:30\"}",
    )
    .unwrap();
    assert_eq!(d.timestamp, Some("12:30".to_string()));
}

#[test]
fn decode_message_payload_rejects_malformed() {
    for t in ["", "{\"from\":\"bob\"}", "{\"from\":\"bob\",\"message\":3,\"timestamp\":null}"]
        .iter()
    {
        assert_eq!(decode_message_data(t).unwrap_err(), WireError::MalformedPayload);
    }
}

#[test]
fn typing_status_round_trip() {
    let t = TypingStatus { username: "carol \"c\"".to_string(), is_typing: true };
    let text = encode_typing_status(&t);
    assert_eq!(text, "{\"username\":\"carol \\\"c\\\"\",\"isTyping\":true}");
    let d = decode_typing_status(&text).unwrap();
    assert_eq!(d.username, "carol \"c\"");
    assert!(d.is_typing);
}

#[test]
fn decode_typing_rejects_malformed() {
    for t in ["", "{\"username\":\"x\",\"isTyping\":maybe}", "{\"username\":\"x\"}"].iter() {
        assert_eq!(decode_typing_status(t).unwrap_err(), WireError::MalformedPayload);
    }
}
