use chat_relay::message::ChatMessage;
use chat_relay::relay::{fill_username, forward_event, forward_events, BrokerOp, inbound_trace, Frame, Phase, RelaySession, Step, GLOBAL_ROOM};

fn text(m: &ChatMessage) -> Frame {
    Frame::Text(m.to_json_str())
}

#[test]
fn channel_is_global_room() {
    assert_eq!(GLOBAL_ROOM, "global room");
}

#[test]
fn backfills_absent_username() {
    let mut s = RelaySession::new("alice");
    let _ = s.start();
    let sent = ChatMessage::UserMessage { username: None, content: "hi".to_string() };
    let step = s.on_frame(&text(&sent));
    let expected = ChatMessage::UserMessage { username: Some("alice".to_string()), content: "hi".to_string() };
    assert_eq!(step, Step::Publish(expected.to_json_str()));
}

#[test]
fn keeps_explicit_username() {
    let mut s = RelaySession::new("alice");
    let _ = s.start();
    let sent = ChatMessage::UserMessage { username: Some("carol".to_string()), content: "hi".to_string() };
    assert_eq!(s.on_frame(&text(&sent)), Step::Publish(sent.to_json_str()));
}

#[test]
fn fill_username_leaves_other_variants() {
    let m = ChatMessage::new_user_online("x");
    assert_eq!(fill_username(m.clone(), "alice"), m);
}

#[test]
fn presence_brackets_the_session() {
    let frames = vec![
        text(&ChatMessage::UserMessage { username: None, content: "one".to_string() }),
        Frame::Other,
        Frame::Close,
        text(&ChatMessage::UserMessage { username: None, content: "late".to_string() }),
    ];
    let trace = inbound_trace("bob", &frames);
    assert_eq!(trace.len(), 3);
    assert_eq!(trace[0], ChatMessage::new_user_online("bob").to_json_str());
    assert_eq!(trace[2], ChatMessage::new_user_offline("bob").to_json_str());
}

#[test]
fn start_publishes_join_and_activates() {
    let mut s = RelaySession::new("bob");
    assert_eq!(s.phase(), Phase::Starting);
    assert_eq!(s.start(), r#"{"UserOnline":{"username":"bob"}}"#);
    assert_eq!(s.phase(), Phase::Active);
    assert_eq!(s.identity(), "bob");
}

#[test]
fn close_frame_moves_to_closing() {
    let mut s = RelaySession::new("bob");
    let _ = s.start();
    assert_eq!(s.on_frame(&Frame::Close), Step::Finish(r#"{"UserOffline":{"username":"bob"}}"#.to_string()));
    assert_eq!(s.phase(), Phase::Closing);
    assert!(!s.is_active());
    s.on_unwound();
    assert_eq!(s.phase(), Phase::Closed);
}

#[test]
fn task_end_closes_the_session() {
    let mut s = RelaySession::new("bob");
    let _ = s.start();
    s.on_task_end();
    assert_eq!(s.phase(), Phase::Closing);
    assert!(!s.is_active());
}

#[test]
fn malformed_frame_is_isolated() {
    let mut a = RelaySession::new("a");
    let mut b = RelaySession::new("b");
    let _ = a.start();
    let _ = b.start();
    assert_eq!(a.on_frame(&Frame::Text("{oops".to_string())), Step::Skip);
    assert!(a.is_active());
    let hi = ChatMessage::UserMessage { username: None, content: "hi".to_string() };
    assert!(matches!(b.on_frame(&text(&hi)), Step::Publish(_)));
    assert!(matches!(a.on_frame(&text(&hi)), Step::Publish(_)));
}

#[test]
fn broker_events_fan_out_in_order() {
    let published = vec![Some("hi".to_string()), None, Some("there".to_string())];
    for _session in ["a", "b"] {
        let forwarded: Vec<String> = published.iter().filter_map(|p| forward_event(p.clone())).collect();
        assert_eq!(forwarded, vec!["hi".to_string(), "there".to_string()]);
    }
}

#[test]
fn forward_events_keeps_publish_order() {
    let events = vec![Some("p1".to_string()), None, Some("p2".to_string()), Some("p1".to_string())];
    assert_eq!(forward_events(&events), vec!["p1".to_string(), "p2".to_string(), "p1".to_string()]);
}

#[test]
fn broker_failures_follow_the_policy() {
    let mut s = RelaySession::new("bob");
    let _ = s.start();
    assert!(s.on_broker_result(BrokerOp::PublishContent, true));
    assert!(s.on_broker_result(BrokerOp::PublishPresence, false));
    assert_eq!(s.phase(), Phase::Active);
    assert!(!s.on_broker_result(BrokerOp::PublishContent, false));
    assert_eq!(s.phase(), Phase::Closing);
    let mut t = RelaySession::new("carol");
    assert!(!t.on_broker_result(BrokerOp::Subscribe, false));
    assert_eq!(t.phase(), Phase::Closing);
}
