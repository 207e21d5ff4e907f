use slack_channel::poller::{PollAction, PollEvent, Poller};
use slack_channel::polling::{
    history_page_in, read_history_page, read_replies_page, replies_page_in, Marks, PolledMessage,
};
use slack_channel::{PendingMessage, SlackChannel};

const SECOND: u128 = 1_000_000_000;

fn channel(scope: Option<&str>, users: &[&str]) -> SlackChannel {
    SlackChannel::new(
        "xoxb-fake".into(),
        None,
        scope.map(str::to_string),
        users.iter().map(|u| u.to_string()).collect(),
    )
}

fn polled(ts: &str, user: &str, text: &str) -> PolledMessage {
    PolledMessage {
        ts: ts.to_string(),
        user: user.to_string(),
        text: text.to_string(),
        thread_ts: None,
    }
}

fn pairs(items: &[(&str, &str)]) -> Vec<(String, String)> {
    items.iter().map(|(a, b)| (a.to_string(), b.to_string())).collect()
}

fn texts(messages: &[PendingMessage]) -> Vec<&str> {
    messages.iter().map(|m| m.content.as_str()).collect()
}

fn history(action: PollAction) -> Vec<(String, String)> {
    match action {
        PollAction::FetchHistory(params) => params,
        _ => panic!("no request for a history"),
    }
}

fn replies(action: PollAction) -> Vec<(String, String)> {
    match action {
        PollAction::FetchReplies(params) => params,
        _ => panic!("no request for replies"),
    }
}

/// Hands on what `action` and the ones after it ask for, up to the first other action.
fn deliver(
    poller: &mut Poller,
    ch: &SlackChannel,
    mut action: PollAction,
    now_ts: &str,
) -> (Vec<PendingMessage>, PollAction) {
    let mut out = Vec::new();
    while let PollAction::Deliver(message) = action {
        out.push(message);
        action = poller.step(ch, PollEvent::Delivered(true), now_ts);
    }
    (out, action)
}

#[test]
fn history_pages_are_read() {
    let page = read_history_page(
        br#"{"ok":true,"messages":[{"ts":"2","user":"U1","text":"b","thread_ts":"1"},{}]}"#,
    )
    .unwrap();
    assert_eq!(page.len(), 2);
    assert_eq!(page[0].ts, "2");
    assert_eq!(page[0].user, "U1");
    assert_eq!(page[0].text, "b");
    assert_eq!(page[0].thread_ts.as_deref(), Some("1"));
    assert_eq!(page[1].ts, "");
    assert_eq!(page[1].user, "unknown");
    assert_eq!(page[1].text, "");
    assert_eq!(page[1].thread_ts, None);
    assert!(read_history_page(br#"{"ok":false,"messages":[]}"#).is_none());
    assert!(read_history_page(b"?").is_none());
    assert_eq!(read_history_page(b"{}").unwrap().len(), 0);
    let value = serde_json::from_str(r#"{"messages":[{}]}"#).unwrap();
    assert_eq!(history_page_in(&value).unwrap().len(), 1);
}

#[test]
fn replies_pages_need_a_confirmation() {
    assert_eq!(read_replies_page(br#"{"ok":true,"messages":[{}]}"#).unwrap().len(), 1);
    assert!(read_replies_page(br#"{"messages":[{}]}"#).is_none());
    assert!(read_replies_page(br#"{"ok":false}"#).is_none());
    assert!(read_replies_page(b"").is_none());
    let value = serde_json::from_str(r#"{"ok":1}"#).unwrap();
    assert!(replies_page_in(&value).is_none());
}

#[test]
fn history_is_taken_from_the_oldest_message() {
    let ch = channel(None, &["U1", "UBOT", "unknown"]);
    let mut marks = Marks::new();
    assert_eq!(marks.start("C1", "100.5"), "100.5");
    let page = vec![
        polled("104", "U1", "d"),
        polled("103", "UBOT", "own"),
        polled("102", "U9", "stranger"),
        polled("101", "U1", ""),
        polled("101", "U1", "c"),
        polled("100.5", "U1", "b"),
        polled("099", "U1", "a"),
    ];
    let out = marks.take_history(&ch, "UBOT", "C1", &page);
    assert_eq!(texts(&out), vec!["c", "d"]);
    assert_eq!(out[0].id, "slack_C1_101");
    assert_eq!(out[0].thread_ts.as_deref(), Some("101"));
    assert_eq!(marks.start("C1", "999"), "104");
    assert_eq!(marks.threads_of("C1"), vec!["101", "104"]);
    assert_eq!(marks.threads_of("C2"), Vec::<String>::new());
    assert_eq!(marks.take_history(&ch, "UBOT", "C1", &page).len(), 0);
    assert_eq!(marks.start("C1", "999"), "104");
}

#[test]
fn replies_are_measured_against_the_mark_before() {
    let ch = channel(None, &["U1"]);
    let mut marks = Marks::new();
    let thread = ("C1".to_string(), "100".to_string());
    let mut root = polled("100", "U1", "root");
    root.thread_ts = Some("100".to_string());
    marks.take_history(&ch, "UBOT", "C1", &vec![root]);
    assert_eq!(marks.mark(&thread), "100");
    let page = vec![
        polled("100", "U1", "root"),
        polled("102", "U1", "late"),
        polled("101", "U1", "early"),
        polled("103", "UBOT", "own"),
        polled("104", "U9", "stranger"),
    ];
    let out = marks.take_replies(&ch, "UBOT", &thread, &page);
    assert_eq!(texts(&out), vec!["late", "early"]);
    assert_eq!(out[1].thread_ts.as_deref(), Some("100"));
    assert_eq!(out[1].reply_target, "C1");
    assert_eq!(marks.mark(&thread), "101");
    let again = marks.take_replies(&ch, "UBOT", &thread, &page);
    assert_eq!(texts(&again), vec!["late"]);
    assert_eq!(marks.mark(&thread), "102");
    assert_eq!(marks.take_replies(&ch, "UBOT", &thread, &page).len(), 0);
}

#[test]
fn scoped_round() {
    let ch = channel(Some(" C1 "), &["*"]);
    let mut poller = Poller::new(&ch, Some("UBOT".to_string()));
    assert!(poller.awaits(&PollEvent::Tick(0)));
    assert!(!poller.awaits(&PollEvent::Delivered(true)));
    let params = history(poller.step(&ch, PollEvent::Tick(0), "50"));
    assert_eq!(params, pairs(&[("channel", "C1"), ("limit", "10"), ("oldest", "50")]));
    let page = vec![polled("60", "U1", "new"), polled("40", "U1", "old")];
    let action = poller.step(&ch, PollEvent::History(Some(page)), "61");
    let (out, action) = deliver(&mut poller, &ch, action, "61");
    assert_eq!(texts(&out), vec!["new"]);
    assert_eq!(out[0].reply_target, "C1");
    assert_eq!(
        replies(action),
        pairs(&[("channel", "C1"), ("ts", "60"), ("oldest", "60"), ("limit", "10")])
    );
    let page = vec![polled("60", "U1", "new"), polled("65", "U2", "reply")];
    let action = poller.step(&ch, PollEvent::Replies(Some(page)), "66");
    let (out, action) = deliver(&mut poller, &ch, action, "66");
    assert_eq!(texts(&out), vec!["reply"]);
    assert_eq!(out[0].thread_ts.as_deref(), Some("60"));
    assert_eq!(out[0].reply_target, "C1");
    assert!(matches!(action, PollAction::Sleep));
    let params = history(poller.step(&ch, PollEvent::Tick(9 * SECOND), "70"));
    assert_eq!(params, pairs(&[("channel", "C1"), ("limit", "10"), ("oldest", "60")]));
    assert!(matches!(poller.step(&ch, PollEvent::History(None), "70"), PollAction::Sleep));
}

#[test]
fn unscoped_rounds_follow_the_list() {
    let ch = channel(None, &["*"]);
    let mut poller = Poller::new(&ch, None);
    assert!(matches!(poller.step(&ch, PollEvent::Tick(0), "1"), PollAction::Discover));
    assert!(matches!(poller.step(&ch, PollEvent::Listed(SECOND, None), "1"), PollAction::Sleep));
    assert!(matches!(poller.step(&ch, PollEvent::Tick(3 * SECOND), "2"), PollAction::Discover));
    let list = vec!["C1".to_string(), "C2".to_string()];
    let params = history(poller.step(&ch, PollEvent::Listed(4 * SECOND, Some(list)), "2"));
    assert_eq!(params[0].1, "C1");
    let params = history(poller.step(&ch, PollEvent::History(None), "3"));
    assert_eq!(params, pairs(&[("channel", "C2"), ("limit", "10"), ("oldest", "3")]));
    let action = poller.step(&ch, PollEvent::History(Some(vec![])), "4");
    assert!(matches!(action, PollAction::Sleep));
    let params = history(poller.step(&ch, PollEvent::Tick(64 * SECOND - 1), "5"));
    assert_eq!(params[2].1, "2");
    history(poller.step(&ch, PollEvent::History(None), "5"));
    assert!(matches!(poller.step(&ch, PollEvent::History(None), "5"), PollAction::Sleep));
    assert!(matches!(poller.step(&ch, PollEvent::Tick(64 * SECOND), "6"), PollAction::Discover));
    let params = history(poller.step(&ch, PollEvent::Listed(65 * SECOND, None), "6"));
    assert_eq!(params[0].1, "C1");
    history(poller.step(&ch, PollEvent::History(None), "6"));
    assert!(matches!(poller.step(&ch, PollEvent::History(None), "6"), PollAction::Sleep));
    assert!(!poller.is_discovery_due(0));
    assert!(!poller.is_discovery_due(68 * SECOND));
    history(poller.step(&ch, PollEvent::Tick(68 * SECOND), "7"));
    history(poller.step(&ch, PollEvent::History(None), "7"));
    assert!(matches!(poller.step(&ch, PollEvent::History(None), "7"), PollAction::Sleep));
    assert!(matches!(poller.step(&ch, PollEvent::Tick(125 * SECOND), "8"), PollAction::Discover));
}

#[test]
fn the_loop_ends_at_the_first_message_that_nobody_takes() {
    let ch = channel(Some("C1"), &["*"]);
    let mut poller = Poller::new(&ch, Some("UBOT".to_string()));
    history(poller.step(&ch, PollEvent::Tick(0), "1"));
    let page = vec![polled("4", "U1", "c"), polled("3", "U1", "b"), polled("2", "U1", "a")];
    let action = poller.step(&ch, PollEvent::History(Some(page)), "5");
    assert!(matches!(action, PollAction::Deliver(message) if message.content == "a"));
    let action = poller.step(&ch, PollEvent::Delivered(true), "5");
    assert!(matches!(action, PollAction::Deliver(message) if message.content == "b"));
    assert!(matches!(poller.step(&ch, PollEvent::Delivered(false), "5"), PollAction::Stop));
    let events = vec![
        PollEvent::Tick(0),
        PollEvent::Listed(0, None),
        PollEvent::History(None),
        PollEvent::Delivered(true),
        PollEvent::Delivered(false),
        PollEvent::Replies(None),
    ];
    assert!(events.iter().all(|event| !poller.awaits(event)));
}

#[test]
fn requests_start_at_the_last_message_handed_on() {
    let ch = channel(Some("C1"), &["U1"]);
    let mut poller = Poller::new(&ch, Some("UBOT".to_string()));
    let mut handed = Vec::new();
    let pages = vec![
        (vec![polled("3", "U1", "b"), polled("1", "U1", "old")], "2"),
        (vec![polled("4", "U9", "stranger"), polled("3", "U1", "b")], "3"),
        (vec![polled("6", "U1", "d"), polled("5", "U1", "c"), polled("3", "U1", "b")], "3"),
        (vec![], "6"),
    ];
    for (page, oldest) in pages {
        let params = history(poller.step(&ch, PollEvent::Tick(0), "2"));
        assert_eq!(params[2], ("oldest".to_string(), oldest.to_string()));
        let action = poller.step(&ch, PollEvent::History(Some(page)), "7");
        let (out, mut action) = deliver(&mut poller, &ch, action, "7");
        handed.extend(out);
        while let PollAction::FetchReplies(_) = action {
            action = poller.step(&ch, PollEvent::Replies(None), "7");
        }
        assert!(matches!(action, PollAction::Sleep));
    }
    assert_eq!(texts(&handed), vec!["b", "c", "d"]);
}

#[test]
fn failed_replies_lead_to_the_next_thread() {
    let ch = channel(Some("C1"), &["*"]);
    let mut poller = Poller::new(&ch, Some("UBOT".to_string()));
    history(poller.step(&ch, PollEvent::Tick(0), "1"));
    let page = vec![polled("3", "U1", "b"), polled("2", "U1", "a")];
    let action = poller.step(&ch, PollEvent::History(Some(page)), "4");
    let (out, action) = deliver(&mut poller, &ch, action, "4");
    assert_eq!(texts(&out), vec!["a", "b"]);
    assert_eq!(replies(action)[1].1, "2");
    let second = replies(poller.step(&ch, PollEvent::Replies(None), "4"));
    assert_eq!(second[1].1, "3");
    assert!(matches!(poller.step(&ch, PollEvent::Replies(None), "4"), PollAction::Sleep));
}
