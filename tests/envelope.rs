use chat_relay::message::{ChatMessage, DecodeError};

fn user(name: Option<&str>, content: &str) -> ChatMessage {
    ChatMessage::UserMessage { username: name.map(|n| n.to_string()), content: content.to_string() }
}

#[test]
fn encodes_user_message_exactly() {
    let m = user(Some("alice"), "hi");
    assert_eq!(m.to_json_str(), r#"{"UserMessage":{"username":"alice","content":"hi"}}"#);
}

#[test]
fn encodes_absent_username_as_null() {
    let m = user(None, "hi");
    assert_eq!(m.to_json_str(), r#"{"UserMessage":{"username":null,"content":"hi"}}"#);
}

#[test]
fn encodes_presence_and_bot_messages() {
    assert_eq!(ChatMessage::new_user_online("bob").to_json_str(), r#"{"UserOnline":{"username":"bob"}}"#);
    assert_eq!(ChatMessage::new_user_offline("bob").to_json_str(), r#"{"UserOffline":{"username":"bob"}}"#);
    assert_eq!(ChatMessage::new_bot_msg("yo").to_json_str(), r#"{"BotMessage":{"content":"yo"}}"#);
}

#[test]
fn escapes_special_characters() {
    let m = ChatMessage::new_bot_msg("a\"b\\c\nd\te\u{1}f\u{8}");
    assert_eq!(m.to_json_str(), r#"{"BotMessage":{"content":"a\"b\\c\nd\te\u0001f\b"}}"#);
}

#[test]
fn round_trips_every_variant() {
    let all = vec![
        user(Some("alice"), "hello \"world\""),
        user(None, ""),
        user(Some(""), "line\r\nnext\u{1f}\u{c}"),
        ChatMessage::new_user_online("bob"),
        ChatMessage::new_user_offline("b\\ob"),
        ChatMessage::new_bot_msg("héllo ✓"),
    ];
    for m in all {
        let text = m.to_json_str();
        assert_eq!(ChatMessage::from_json_str(&text), Ok(m));
    }
}

#[test]
fn decodes_client_text() {
    let m = ChatMessage::from_json_str(r#"{"UserMessage":{"username":null,"content":"hi"}}"#);
    assert_eq!(m, Ok(user(None, "hi")));
}

#[test]
fn rejects_malformed_text() {
    let bad = [
        "",
        "not json",
        r#"{"Unknown":{"content":"x"}}"#,
        r#"{"BotMessage":{"content":"x"}"#,
        r#"{"BotMessage":{"content":"x"}}extra"#,
        r#"{"UserMessage":{"username":"a"}}"#,
        r#"{"UserOnline":{"username":"a\q"}}"#,
        r#"{"UserOnline":{"username":"a","username":"b"}}"#,
        r#"{"UserOnline":{"name":"a"}}"#,
        r#"{"UserOnline":{"username":null}}"#,
        r#"{"BotMessage":{"content":"x","extra":"y"}}"#,
        r#"{"UserMessage":{"username":"a","username":"b"}}"#,
        r#"{"BotMessage":{"content":"\ud83d"}}"#,
        r#"{"BotMessage":{"content":"\ude00x"}}"#,
        r#"{"BotMessage":{"content":"\u00g1"}}"#,
    ];
    for t in bad {
        assert_eq!(ChatMessage::from_json_str(t), Err(DecodeError::Malformed), "{}", t);
    }
}

#[test]
fn decodes_missing_username_key() {
    let m = ChatMessage::from_json_str(r#"{"UserMessage":{"content":"hi"}}"#);
    assert_eq!(m, Ok(user(None, "hi")));
}

#[test]
fn decodes_whitespace_and_either_key_order() {
    let text = " {\n  \"UserMessage\" : { \"content\" : \"hi\" ,\t\"username\" : \"alice\" }\r\n} ";
    assert_eq!(ChatMessage::from_json_str(text), Ok(user(Some("alice"), "hi")));
    let online = "{ \"UserOnline\": {\"username\": \"bob\"} }";
    assert_eq!(ChatMessage::from_json_str(online), Ok(ChatMessage::new_user_online("bob")));
}

#[test]
fn decodes_every_json_escape() {
    let text = r#"{"BotMessage":{"content":"a\/b\u0041\u00e9\u00E9\u4e2d\ud83d\ude00\u000a\u0008"}}"#;
    assert_eq!(ChatMessage::from_json_str(text), Ok(ChatMessage::new_bot_msg("a/bA\u{e9}\u{e9}\u{4e2d}\u{1f600}\n\u{8}")));
}
