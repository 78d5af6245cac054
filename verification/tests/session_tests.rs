use yewchat::codec::encode_envelope;
use yewchat::session::{derive_avatar, is_image_body, Chat, KeyEvent, Msg};
use yewchat::wire::{MsgTypes, WebSocketMessage, WireError};

fn frame(kind: MsgTypes, data_array: Option<&[&str]>, data: Option<&str>) -> String {
    let e = WebSocketMessage {
        message_type: kind,
        data_array: data_array.map(|a| a.iter().map(|s| s.to_string()).collect()),
        data: data.map(|s| s.to_string()),
    };
    encode_envelope(&e)
}

fn typing_payload(user: &str, is_typing: bool) -> String {
    format!(
        "{{\"username\":\"{}\",\"isTyping\":{}}}",
        user,
        if is_typing { "true" } else { "false" }
    )
}

fn new_chat() -> Chat {
    Chat::create("me".to_string()).0
}

#[test]
fn create_sends_register_frame() {
    let (chat, register) = Chat::create("alice".to_string());
    assert_eq!(register, "{\"messageType\":\"register\",\"dataArray\":null,\"data\":\"alice\"}");
    assert!(chat.users.is_empty());
    assert!(chat.messages.is_empty());
    assert!(chat.typing_users.is_empty());
    assert!(!chat.show_emoji_picker);
}

#[test]
fn roster_follows_latest_users_frame() {
    let mut chat = new_chat();
    let u1 = chat.update(Msg::HandleMsg(frame(MsgTypes::Users, Some(&["a", "b"]), None)));
    assert!(u1.rerender);
    let u2 = chat.update(Msg::HandleMsg(frame(MsgTypes::Users, Some(&["c"]), None)));
    assert!(u2.rerender);
    assert_eq!(chat.users.len(), 1);
    assert_eq!(chat.users[0].name, "c");
    assert_eq!(chat.users[0].avatar, "https://avatars.dicebear.com/api/adventurer-neutral/c.svg");
}

#[test]
fn empty_users_frame_clears_roster() {
    let mut chat = new_chat();
    chat.update(Msg::HandleMsg(frame(MsgTypes::Users, Some(&["a"]), None)));
    chat.update(Msg::HandleMsg(frame(MsgTypes::Users, Some(&[]), None)));
    assert!(chat.users.is_empty());
}

#[test]
fn message_frame_appends_to_transcript_in_order() {
    let mut chat = new_chat();
    let m1 = frame(
        MsgTypes::Message,
        None,
        Some("{\"from\":\"bob\",\"message\":\"hi\",\"timestamp\":null}"),
    );
    let m2 = frame(
        MsgTypes::Message,
        None,
        Some("{\"from\":\"eve\",\"message\":\"yo\",\"timestamp\":\"12:30\"}"),
    );
    chat.update(Msg::HandleMsg(m1));
    chat.update(Msg::HandleMsg(m2));
    assert_eq!(chat.messages.len(), 2);
    assert_eq!(chat.messages[0].from, "bob");
    assert_eq!(chat.messages[0].message, "hi");
    assert_eq!(chat.messages[0].timestamp, None);
    assert_eq!(chat.messages[1].from, "eve");
    assert_eq!(chat.messages[1].timestamp, Some("12:30".to_string()));
}

#[test]
fn typing_true_adds_without_duplicates() {
    let mut chat = new_chat();
    let f = frame(MsgTypes::Typing, None, Some(&typing_payload("a", true)));
    chat.update(Msg::HandleMsg(f.clone()));
    chat.update(Msg::HandleMsg(f));
    chat.update(Msg::HandleMsg(frame(MsgTypes::Typing, None, Some(&typing_payload("b", true)))));
    assert_eq!(chat.typing_users, vec!["a".to_string(), "b".to_string()]);
}

#[test]
fn typing_false_removes_and_absent_is_noop() {
    let mut chat = new_chat();
    chat.update(Msg::HandleMsg(frame(MsgTypes::Typing, None, Some(&typing_payload("a", true)))));
    chat.update(Msg::HandleMsg(frame(MsgTypes::Typing, None, Some(&typing_payload("b", true)))));
    let u = chat.update(
        Msg::HandleMsg(frame(MsgTypes::Typing, None, Some(&typing_payload("ghost", false)))),
    );
    assert!(u.rerender);
    assert_eq!(chat.typing_users, vec!["a".to_string(), "b".to_string()]);
    chat.update(Msg::HandleMsg(frame(MsgTypes::Typing, None, Some(&typing_payload("a", false)))));
    assert_eq!(chat.typing_users, vec!["b".to_string()]);
}

#[test]
fn typing_indicator_text_by_count() {
    let mut chat = new_chat();
    assert_eq!(chat.typing_indicator(), "");
    chat.update(Msg::HandleMsg(frame(MsgTypes::Typing, None, Some(&typing_payload("a", true)))));
    assert_eq!(chat.typing_indicator(), "a is typing...");
    chat.update(Msg::HandleMsg(frame(MsgTypes::Typing, None, Some(&typing_payload("b", true)))));
    assert_eq!(chat.typing_indicator(), "a and b are typing...");
    chat.update(Msg::HandleMsg(frame(MsgTypes::Typing, None, Some(&typing_payload("c", true)))));
    assert_eq!(chat.typing_indicator(), "Several people are typing...");
}

#[test]
fn submit_text_sends_message_then_stop_typing() {
    let mut chat = new_chat();
    chat.update(Msg::HandleMsg(frame(
        MsgTypes::Message,
        None,
        Some("{\"from\":\"bob\",\"message\":\"hi\",\"timestamp\":null}"),
    )));
    chat.update(Msg::ToggleEmojiPicker);
    assert!(chat.show_emoji_picker);
    let u = chat.update(Msg::SubmitMessage("hello".to_string()));
    assert!(u.rerender);
    assert!(u.clear_input);
    assert_eq!(u.outbound.len(), 2);
    assert_eq!(
        u.outbound[0],
        "{\"messageType\":\"message\",\"dataArray\":null,\"data\":\"hello\"}"
    );
    assert_eq!(
        u.outbound[1],
        "{\"messageType\":\"typing\",\"dataArray\":null,\"data\":\"{\\\"username\\\":\\\"me\\\",\\\"isTyping\\\":false}\"}"
    );
    assert!(!chat.show_emoji_picker);
    assert_eq!(chat.messages.len(), 1);
}

#[test]
fn submit_blank_sends_nothing_but_closes_picker() {
    let mut chat = new_chat();
    chat.update(Msg::ToggleEmojiPicker);
    assert!(chat.show_emoji_picker);
    let u = chat.update(Msg::SubmitMessage("   ".to_string()));
    assert!(u.rerender);
    assert!(!u.clear_input);
    assert!(u.outbound.is_empty());
    assert!(!chat.show_emoji_picker);
}

#[test]
fn submit_unicode_whitespace_is_blank() {
    let mut chat = new_chat();
    let u = chat.update(Msg::SubmitMessage("\t\u{a0}\u{3000} ".to_string()));
    assert!(u.outbound.is_empty());
    assert!(!u.clear_input);
}

#[test]
fn keystroke_sends_typing_signal() {
    let mut chat = new_chat();
    let u = chat.update(Msg::InputChanged);
    assert!(!u.rerender);
    assert_eq!(u.outbound.len(), 1);
    assert_eq!(
        u.outbound[0],
        "{\"messageType\":\"typing\",\"dataArray\":null,\"data\":\"{\\\"username\\\":\\\"me\\\",\\\"isTyping\\\":true}\"}"
    );
}

#[test]
fn enter_without_shift_submits() {
    let mut chat = new_chat();
    let u = chat.update(Msg::HandleKeyDown(
        KeyEvent { key: "Enter".to_string(), shift_key: false },
        "hey".to_string(),
    ));
    assert!(u.rerender);
    assert_eq!(u.outbound.len(), 2);
    assert!(u.clear_input);
}

#[test]
fn enter_with_shift_or_other_key_does_nothing() {
    let mut chat = new_chat();
    let u = chat.update(Msg::HandleKeyDown(
        KeyEvent { key: "Enter".to_string(), shift_key: true },
        "hey".to_string(),
    ));
    assert!(!u.rerender);
    assert!(u.outbound.is_empty());
    let u = chat.update(Msg::HandleKeyDown(
        KeyEvent { key: "a".to_string(), shift_key: false },
        "hey".to_string(),
    ));
    assert!(!u.rerender);
    assert!(u.outbound.is_empty());
}

#[test]
fn emoji_toggle_and_pick() {
    let mut chat = new_chat();
    let u = chat.update(Msg::ToggleEmojiPicker);
    assert!(u.rerender);
    assert!(chat.show_emoji_picker);
    let u = chat.update(Msg::SelectEmoji("🎉".to_string()));
    assert!(!u.rerender);
    assert_eq!(u.append_input, Some("🎉".to_string()));
    assert!(chat.show_emoji_picker);
}

#[test]
fn malformed_frame_changes_nothing() {
    let mut chat = new_chat();
    chat.update(Msg::HandleMsg(frame(MsgTypes::Users, Some(&["a"]), None)));
    chat.update(Msg::HandleMsg(frame(MsgTypes::Typing, None, Some(&typing_payload("a", true)))));
    let users_before = chat.users.len();
    let msgs_before = chat.messages.len();
    let typing_before = chat.typing_users.clone();
    let u = chat.update(Msg::HandleMsg("{\"oops\": true}".to_string()));
    assert!(!u.rerender);
    assert_eq!(u.error, Some(WireError::MalformedEnvelope));
    assert_eq!(chat.users.len(), users_before);
    assert_eq!(chat.messages.len(), msgs_before);
    assert_eq!(chat.typing_users, typing_before);
}

#[test]
fn malformed_inner_payload_changes_nothing() {
    let mut chat = new_chat();
    let u = chat.update(Msg::HandleMsg(frame(MsgTypes::Message, None, Some("not a payload"))));
    assert!(!u.rerender);
    assert_eq!(u.error, Some(WireError::MalformedPayload));
    assert!(chat.messages.is_empty());
}

#[test]
fn inbound_register_frame_is_ignored() {
    let mut chat = new_chat();
    let u = chat.update(Msg::HandleMsg(frame(MsgTypes::Register, None, Some("zoe"))));
    assert!(!u.rerender);
    assert_eq!(u.error, None);
    assert!(chat.users.is_empty());
}

#[test]
fn own_typing_frame_loops_back_into_the_typing_set() {
    let mut chat = new_chat();
    let f = chat.send_typing_status(true);
    let u = chat.update(Msg::HandleMsg(f));
    assert!(u.rerender);
    assert_eq!(chat.typing_users, vec!["me".to_string()]);
    let f = chat.send_typing_status(false);
    chat.update(Msg::HandleMsg(f));
    assert!(chat.typing_users.is_empty());
}

#[test]
fn gif_body_is_image_payload() {
    assert!(is_image_body("http://x/y.gif"));
    assert!(!is_image_body("http://x/y.png"));
    assert!(!is_image_body("gif"));
}

#[test]
fn avatar_is_derived_from_name() {
    assert_eq!(
        derive_avatar("bob"),
        "https://avatars.dicebear.com/api/adventurer-neutral/bob.svg"
    );
}

#[test]
fn sender_profile_prefers_roster_then_falls_back() {
    let mut chat = new_chat();
    chat.update(Msg::HandleMsg(frame(MsgTypes::Users, Some(&["bob"]), None)));
    let p = chat.profile_for_sender(&"bob".to_string());
    assert_eq!(p.name, "bob");
    assert_eq!(p.avatar, "https://avatars.dicebear.com/api/adventurer-neutral/bob.svg");
    let p = chat.profile_for_sender(&"zoe".to_string());
    assert_eq!(p.name, "zoe");
    assert_eq!(p.avatar, "https://avatars.dicebear.com/api/adventurer-neutral/zoe.svg");
    assert_eq!(chat.users.len(), 1);
}
