use slack_channel::socket::{
    receive, Envelope, Received, SocketEvent, SocketFrame, SocketSession, SocketStep,
};
use slack_channel::socket_loop::{SocketAction, SocketLoop, SocketReport};
use slack_channel::{PendingMessage, SlackChannel};

fn channel(scope: Option<&str>, users: &[&str]) -> SlackChannel {
    SlackChannel::new(
        "xoxb-fake".into(),
        Some("xapp-fake".into()),
        scope.map(str::to_string),
        users.iter().map(|u| u.to_string()).collect(),
    )
}

fn event(user: &str, text: &str, ts: &str, thread: Option<&str>) -> SocketEvent {
    SocketEvent {
        kind: "message".to_string(),
        has_subtype: false,
        user: Some(user.to_string()),
        text: text.to_string(),
        ts: ts.to_string(),
        channel: "C1".to_string(),
        thread_ts: thread.map(str::to_string),
        is_threaded: thread.is_some(),
    }
}

fn delivered(step: SocketStep) -> PendingMessage {
    match step {
        SocketStep::Deliver(message) => message,
        _ => panic!("nothing delivered"),
    }
}

fn envelope(text: &str) -> Envelope {
    match receive(&SocketFrame::Text(text.to_string())) {
        Received::Envelope(envelope) => envelope,
        _ => panic!("no envelope"),
    }
}

#[test]
fn frames_are_sorted() {
    assert!(matches!(receive(&SocketFrame::Closed), Received::Stop));
    assert!(matches!(receive(&SocketFrame::Failed), Received::Stop));
    assert!(matches!(receive(&SocketFrame::Other), Received::Ignore));
    assert!(matches!(receive(&SocketFrame::Text("hello".to_string())), Received::Ignore));
    assert!(matches!(receive(&SocketFrame::Text("{}".to_string())), Received::Envelope(_)));
}

#[test]
fn envelopes_are_acknowledged_by_their_id() {
    assert_eq!(
        envelope(r#"{"envelope_id":"a\"b","type":"hello"}"#).acknowledgement().as_deref(),
        Some(r#"{"envelope_id":"a\"b"}"#)
    );
    assert_eq!(envelope(r#"{"type":"hello"}"#).acknowledgement(), None);
    assert_eq!(envelope(r#"{"envelope_id":1}"#).acknowledgement(), None);
}

#[test]
fn envelopes_are_read_whole() {
    let read = envelope(
        r#"{"envelope_id":"E1","type":"events_api","payload":{"event":{"type":"message",
            "user":"U1","text":"hi","ts":"1.2","channel":"C1","thread_ts":null}}}"#,
    );
    assert_eq!(read.kind, "events_api");
    let event = read.event.unwrap();
    assert_eq!(event.kind, "message");
    assert_eq!(event.user.as_deref(), Some("U1"));
    assert_eq!(event.text, "hi");
    assert_eq!(event.ts, "1.2");
    assert_eq!(event.channel, "C1");
    assert_eq!(event.thread_ts, None);
    assert!(event.is_threaded);
    assert!(!event.has_subtype);
    assert!(envelope(r#"{"type":"events_api","payload":{}}"#).event.is_none());
}

#[test]
fn disconnect_stops_the_session() {
    let ch = channel(None, &["*"]);
    let mut session = SocketSession::new(&ch, Some("UBOT".to_string()));
    assert!(matches!(
        session.dispatch(&ch, &envelope(r#"{"type":"disconnect"}"#)),
        SocketStep::Stop
    ));
    assert!(matches!(
        session.dispatch(&ch, &envelope(r#"{"type":"hello"}"#)),
        SocketStep::Wait
    ));
    assert!(matches!(
        session.dispatch(&ch, &envelope(r#"{"type":"events_api"}"#)),
        SocketStep::Wait
    ));
}

#[test]
fn mention_in_the_channel_is_delivered() {
    let ch = channel(None, &["U1"]);
    let mut session = SocketSession::new(&ch, Some("UBOT".to_string()));
    let step = session.dispatch(
        &ch,
        &envelope(
            r#"{"type":"events_api","payload":{"event":{"type":"message","user":"U1",
                "text":"<@UBOT> help","ts":"1.2","channel":"C1"}}}"#,
        ),
    );
    let message = delivered(step);
    assert_eq!(message.id, "slack_C1_1.2");
    assert_eq!(message.sender, "U1");
    assert_eq!(message.reply_target, "C1");
    assert_eq!(message.content, "help");
    assert_eq!(message.channel, "slack");
    assert_eq!(message.thread_ts.as_deref(), Some("1.2"));
}

#[test]
fn mention_in_a_thread_brings_its_context() {
    let ch = channel(None, &["*"]);
    let mut session = SocketSession::new(&ch, Some("UBOT".to_string()));
    assert!(matches!(
        session.on_event(&ch, &event("U1", "option A", "1.0", None)),
        SocketStep::Wait
    ));
    assert!(matches!(
        session.on_event(&ch, &event("U2", "option B", "1.1", Some("1.0"))),
        SocketStep::Wait
    ));
    let message = delivered(session.on_event(&ch, &event("U3", "<@UBOT> which?", "1.2", Some("1.0"))));
    assert_eq!(
        message.content,
        "[Thread context — recent messages in this thread]\nU1: option A\nU2: option B\n\n[Message directed at bot]\nwhich?"
    );
    assert_eq!(message.thread_ts.as_deref(), Some("1.0"));
    let first = delivered(session.on_event(&ch, &event("U3", "<@UBOT> hm", "9.2", Some("9.0"))));
    assert_eq!(first.content, "hm");
}

#[test]
fn context_is_the_last_twenty_messages() {
    let ch = channel(None, &["*"]);
    let mut session = SocketSession::new(&ch, Some("UBOT".to_string()));
    for n in 0..30 {
        session.on_event(&ch, &event("U1", &format!("m{n}"), &format!("2.{n}"), Some("1.0")));
    }
    let message = delivered(session.on_event(&ch, &event("U2", "<@UBOT>?", "3.0", Some("1.0"))));
    let lines: String = (11..30).map(|n| format!("U1: m{n}\n")).collect();
    assert_eq!(
        message.content,
        format!("[Thread context — recent messages in this thread]\n{lines}\n[Message directed at bot]\n?")
    );
}

#[test]
fn unheeded_events_leave_no_context() {
    let ch = channel(Some("C1"), &["U1", "UBOT"]);
    let mut session = SocketSession::new(&ch, Some("UBOT".to_string()));
    let mut elsewhere = event("U1", "<@UBOT> x", "1.1", Some("1.0"));
    elsewhere.channel = "C2".to_string();
    let mut edited = event("U1", "<@UBOT> x", "1.1", Some("1.0"));
    edited.has_subtype = true;
    let mut reaction = event("U1", "<@UBOT> x", "1.1", Some("1.0"));
    reaction.kind = "reaction_added".to_string();
    let mut nobody = event("U1", "<@UBOT> x", "1.1", Some("1.0"));
    nobody.user = None;
    for unheeded in [
        event("UBOT", "<@UBOT> x", "1.1", Some("1.0")),
        event("U9", "<@UBOT> x", "1.1", Some("1.0")),
        event("U1", "", "1.1", Some("1.0")),
        event("U1", "<@UBOT> x", "", Some("1.0")),
        elsewhere,
        edited,
        reaction,
        nobody,
    ] {
        assert!(matches!(session.on_event(&ch, &unheeded), SocketStep::Wait));
    }
    let message = delivered(session.on_event(&ch, &event("U1", "<@UBOT> y", "1.2", Some("1.0"))));
    assert_eq!(message.content, "y");
}

#[test]
fn nameless_bot_gets_nothing() {
    let ch = channel(None, &["*"]);
    let mut session = SocketSession::new(&ch, None);
    assert!(matches!(
        session.on_event(&ch, &event("U1", "<@> hi", "1.1", None)),
        SocketStep::Wait
    ));
}

fn frame(text: &str) -> SocketReport {
    SocketReport::Frame(SocketFrame::Text(text.to_string()))
}

fn mention(id: &str) -> String {
    format!(
        r#"{{{id}"type":"events_api","payload":{{"event":{{"type":"message","user":"U1",
        "text":"<@UBOT> hi","ts":"1.0","channel":"C1"}}}}}}"#
    )
}

#[test]
fn the_acknowledgement_comes_first() {
    let ch = channel(None, &["*"]);
    let mut socket = SocketLoop::new(&ch, Some("UBOT".to_string()));
    assert!(socket.awaits(&frame("")));
    let action = socket.step(&ch, frame(&mention(r#""envelope_id":"e1","#)));
    assert!(matches!(action, SocketAction::Write(text) if text == r#"{"envelope_id":"e1"}"#));
    assert!(!socket.awaits(&frame("")));
    assert!(!socket.awaits(&SocketReport::Delivered(true)));
    let action = socket.step(&ch, SocketReport::Written(true));
    assert!(matches!(action, SocketAction::Deliver(message) if message.content == "hi"));
    assert!(!socket.awaits(&frame("")));
    assert!(matches!(socket.step(&ch, SocketReport::Delivered(true)), SocketAction::Read));
}

#[test]
fn envelopes_of_any_kind_are_acknowledged() {
    let ch = channel(None, &["*"]);
    let mut socket = SocketLoop::new(&ch, Some("UBOT".to_string()));
    let action = socket.step(&ch, frame(r#"{"envelope_id":"e1","type":"hello"}"#));
    assert!(matches!(action, SocketAction::Write(text) if text == r#"{"envelope_id":"e1"}"#));
    assert!(matches!(socket.step(&ch, SocketReport::Written(true)), SocketAction::Read));
    assert!(matches!(socket.step(&ch, frame(r#"{"envelope_id":1}"#)), SocketAction::Read));
    assert!(matches!(socket.step(&ch, frame("?")), SocketAction::Read));
    let other = SocketReport::Frame(SocketFrame::Other);
    assert!(matches!(socket.step(&ch, other), SocketAction::Read));
    assert!(matches!(socket.step(&ch, frame(&mention(""))), SocketAction::Deliver(_)));
    assert!(matches!(socket.step(&ch, SocketReport::Delivered(true)), SocketAction::Read));
    let action = socket.step(&ch, frame(r#"{"envelope_id":"e2","type":"disconnect"}"#));
    assert!(matches!(action, SocketAction::Write(text) if text == r#"{"envelope_id":"e2"}"#));
    assert!(matches!(socket.step(&ch, SocketReport::Written(true)), SocketAction::Stop));
    assert!(!socket.awaits(&frame("")));
}

#[test]
fn failures_end_the_socket() {
    let ch = channel(None, &["*"]);
    let mut socket = SocketLoop::new(&ch, Some("UBOT".to_string()));
    socket.step(&ch, frame(&mention(r#""envelope_id":"e1","#)));
    assert!(matches!(socket.step(&ch, SocketReport::Written(false)), SocketAction::Stop));
    assert!(!socket.awaits(&SocketReport::Written(true)));

    let mut socket = SocketLoop::new(&ch, Some("UBOT".to_string()));
    socket.step(&ch, frame(&mention("")));
    assert!(matches!(socket.step(&ch, SocketReport::Delivered(false)), SocketAction::Stop));
    assert!(!socket.awaits(&frame("")));

    for end in [SocketFrame::Closed, SocketFrame::Failed] {
        let mut socket = SocketLoop::new(&ch, None);
        assert!(matches!(socket.step(&ch, SocketReport::Frame(end)), SocketAction::Stop));
    }
}
