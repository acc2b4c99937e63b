use chat_relay::bot::{batch_frames, join_tokens, prompt_of, BotSession, BATCH_CAP};
use chat_relay::relay::Frame;
use chat_relay::message::ChatMessage;

#[test]
fn fifty_tokens_make_two_frames() {
    let tokens: Vec<String> = (0..50).map(|i| ((b'a' + (i % 26) as u8) as char).to_string()).collect();
    let frames = batch_frames(&tokens);
    assert_eq!(frames.len(), 2);
    let first: String = tokens[..32].concat();
    let second: String = tokens[32..].concat();
    assert_eq!(second.len(), 18);
    assert_eq!(frames[0], ChatMessage::new_bot_msg(&first).to_json_str());
    assert_eq!(frames[1], ChatMessage::new_bot_msg(&second).to_json_str());
}

#[test]
fn no_tokens_make_no_frames() {
    assert!(batch_frames(&Vec::new()).is_empty());
}

#[test]
fn exact_multiple_of_cap() {
    let tokens: Vec<String> = (0..64).map(|_| "x".to_string()).collect();
    assert_eq!(batch_frames(&tokens).len(), 2);
    assert_eq!(BATCH_CAP, 32);
}

#[test]
fn join_concatenates() {
    let tokens = vec!["Hel".to_string(), "lo".to_string(), "".to_string(), "!".to_string()];
    assert_eq!(join_tokens(&tokens), "Hello!");
}

#[test]
fn drain_and_flush() {
    let ready: Vec<String> = (0..40).map(|i| i.to_string()).collect();
    let mut s = BotSession::new();
    let end = s.drain(&ready, 0);
    assert_eq!(end, 32);
    let frame = s.flush();
    assert_eq!(frame, ChatMessage::new_bot_msg(&ready[..32].concat()).to_json_str());
    let end2 = s.drain(&ready, end);
    assert_eq!(end2, 40);
    let _ = s.flush();
    assert_eq!(s.drain(&ready, end2), 40);
}

#[test]
fn next_frame_stops_on_empty_drain() {
    let mut s = BotSession::new();
    assert_eq!(s.next_frame(&Vec::new()), None);
    let ready = vec!["a".to_string(), "b".to_string()];
    assert_eq!(s.next_frame(&ready), Some(ChatMessage::new_bot_msg("ab").to_json_str()));
    let many: Vec<String> = (0..40).map(|_| "z".to_string()).collect();
    assert_eq!(s.next_frame(&many), Some(ChatMessage::new_bot_msg(&"z".repeat(32)).to_json_str()));
}

#[test]
fn only_text_frames_prompt_the_bot() {
    assert_eq!(prompt_of(Frame::Text("hi".to_string())), Some("hi".to_string()));
    assert_eq!(prompt_of(Frame::Close), None);
    assert_eq!(prompt_of(Frame::Other), None);
}
