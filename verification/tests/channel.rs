use serde_json::Value;
use slack_channel::channel::{ListenMode, SlackChannel};
use slack_channel::message::message_id;
use slack_channel::table::Table;

fn json(text: &str) -> Value {
    serde_json::from_str(text).unwrap()
}

fn lines(items: &[(&str, &str)]) -> Vec<(String, String)> {
    items.iter().map(|(a, b)| (a.to_string(), b.to_string())).collect()
}

#[test]
fn slack_channel_name() {
    let ch = SlackChannel::new("xoxb-fake".into(), None, None, vec![]);
    assert_eq!(ch.name(), "slack");
}

#[test]
fn slack_channel_with_channel_id() {
    let ch = SlackChannel::new("xoxb-fake".into(), None, Some("C12345".into()), vec![]);
    assert_eq!(ch.channel_id, Some("C12345".to_string()));
}

#[test]
fn normalized_channel_id_respects_wildcard_and_blank() {
    assert_eq!(SlackChannel::normalized_channel_id(None), None);
    assert_eq!(SlackChannel::normalized_channel_id(Some("")), None);
    assert_eq!(SlackChannel::normalized_channel_id(Some("   ")), None);
    assert_eq!(SlackChannel::normalized_channel_id(Some("*")), None);
    assert_eq!(SlackChannel::normalized_channel_id(Some(" * ")), None);
    assert_eq!(
        SlackChannel::normalized_channel_id(Some(" C12345 ")),
        Some("C12345".to_string())
    );
}

#[test]
fn extract_channel_ids_filters_archived_and_non_member_entries() {
    let payload = json(
        r#"{
            "channels": [
                {"id": "C1", "is_archived": false, "is_member": true},
                {"id": "C2", "is_archived": true, "is_member": true},
                {"id": "C3", "is_archived": false, "is_member": false},
                {"id": "C1", "is_archived": false, "is_member": true},
                {"id": "C4"}
            ]
        }"#,
    );
    let ids = SlackChannel::extract_channel_ids(&payload);
    assert_eq!(ids, vec!["C1".to_string(), "C4".to_string()]);
}

#[test]
fn empty_allowlist_denies_everyone() {
    let ch = SlackChannel::new("xoxb-fake".into(), None, None, vec![]);
    assert!(!ch.is_user_allowed("U12345"));
    assert!(!ch.is_user_allowed("anyone"));
}

#[test]
fn wildcard_allows_everyone() {
    let ch = SlackChannel::new("xoxb-fake".into(), None, None, vec!["*".into()]);
    assert!(ch.is_user_allowed("U12345"));
}

#[test]
fn specific_allowlist_filters() {
    let ch = SlackChannel::new(
        "xoxb-fake".into(),
        None,
        None,
        vec!["U111".into(), "U222".into()],
    );
    assert!(ch.is_user_allowed("U111"));
    assert!(ch.is_user_allowed("U222"));
    assert!(!ch.is_user_allowed("U333"));
}

#[test]
fn allowlist_exact_match_not_substring() {
    let ch = SlackChannel::new("xoxb-fake".into(), None, None, vec!["U111".into()]);
    assert!(!ch.is_user_allowed("U1111"));
    assert!(!ch.is_user_allowed("U11"));
}

#[test]
fn allowlist_empty_user_id() {
    let ch = SlackChannel::new("xoxb-fake".into(), None, None, vec!["U111".into()]);
    assert!(!ch.is_user_allowed(""));
}

#[test]
fn allowlist_case_sensitive() {
    let ch = SlackChannel::new("xoxb-fake".into(), None, None, vec!["U111".into()]);
    assert!(ch.is_user_allowed("U111"));
    assert!(!ch.is_user_allowed("u111"));
}

#[test]
fn allowlist_wildcard_and_specific() {
    let ch = SlackChannel::new(
        "xoxb-fake".into(),
        None,
        None,
        vec!["U111".into(), "*".into()],
    );
    assert!(ch.is_user_allowed("U111"));
    assert!(ch.is_user_allowed("anyone"));
}

#[test]
fn slack_message_id_format_includes_channel_and_ts() {
    let ts = "1234567890.123456";
    let channel_id = "C12345";
    let expected_id = message_id(channel_id, ts);
    assert_eq!(expected_id, "slack_C12345_1234567890.123456");
}

#[test]
fn slack_message_id_is_deterministic() {
    let ts = "1234567890.123456";
    let channel_id = "C12345";
    let id1 = message_id(channel_id, ts);
    let id2 = message_id(channel_id, ts);
    assert_eq!(id1, id2);
}

#[test]
fn slack_message_id_different_ts_different_id() {
    let channel_id = "C12345";
    let id1 = message_id(channel_id, "1234567890.123456");
    let id2 = message_id(channel_id, "1234567890.123457");
    assert_ne!(id1, id2);
}

#[test]
fn slack_message_id_different_channel_different_id() {
    let ts = "1234567890.123456";
    let id1 = message_id("C12345", ts);
    let id2 = message_id("C67890", ts);
    assert_ne!(id1, id2);
}

#[test]
fn slack_message_id_no_uuid_randomness() {
    let ts = "1234567890.123456";
    let channel_id = "C12345";
    let id = message_id(channel_id, ts);
    assert!(!id.contains('-'));
    assert!(id.starts_with("slack_"));
}

#[test]
fn inbound_thread_ts_prefers_explicit_thread_ts() {
    let msg = json(r#"{"ts": "123.002", "thread_ts": "123.001"}"#);

    let thread_ts = SlackChannel::inbound_thread_ts(&msg, "123.002");
    assert_eq!(thread_ts.as_deref(), Some("123.001"));
}

#[test]
fn inbound_thread_ts_falls_back_to_ts() {
    let msg = json(r#"{"ts": "123.001"}"#);

    let thread_ts = SlackChannel::inbound_thread_ts(&msg, "123.001");
    assert_eq!(thread_ts.as_deref(), Some("123.001"));
}

#[test]
fn inbound_thread_ts_none_when_ts_missing() {
    let msg = json("{}");

    let thread_ts = SlackChannel::inbound_thread_ts(&msg, "");
    assert_eq!(thread_ts, None);
}

#[test]
fn inbound_thread_ts_ignores_what_is_no_text() {
    let msg = json(r#"{"thread_ts": 5}"#);
    assert_eq!(SlackChannel::inbound_thread_ts(&msg, "7.1").as_deref(), Some("7.1"));
    assert_eq!(SlackChannel::inbound_thread_ts(&json("[1]"), ""), None);
}

#[test]
fn ensure_poll_cursor_bootstraps_new_channel() {
    let mut cursors: Table<String, String> = Table::new();
    let now_ts = "1700000000.123456";

    let cursor = SlackChannel::ensure_poll_cursor(&mut cursors, "C123", now_ts);
    assert_eq!(cursor, now_ts);
    assert_eq!(cursors.get("C123").map(String::as_str), Some(now_ts));
}

#[test]
fn ensure_poll_cursor_keeps_existing_cursor() {
    let mut cursors: Table<String, String> = Table::new();
    cursors.insert("C123".to_string(), "1700000000.000001".to_string());
    let cursor = SlackChannel::ensure_poll_cursor(&mut cursors, "C123", "9999999999.999999");

    assert_eq!(cursor, "1700000000.000001");
    assert_eq!(
        cursors.get("C123").map(String::as_str),
        Some("1700000000.000001")
    );
}

#[test]
fn ensure_poll_cursor_leaves_other_channels_alone() {
    let mut cursors: Table<String, String> = Table::new();
    SlackChannel::ensure_poll_cursor(&mut cursors, "C1", "1.0");
    SlackChannel::ensure_poll_cursor(&mut cursors, "C2", "2.0");
    assert_eq!(SlackChannel::ensure_poll_cursor(&mut cursors, "C1", "3.0"), "1.0");
    assert_eq!(cursors.get("C2").map(String::as_str), Some("2.0"));
    assert_eq!(cursors.get("C3"), None);
    assert_eq!(cursors.len(), 2);
}

#[test]
fn contains_bot_mention_detects_slack_format() {
    assert!(SlackChannel::contains_bot_mention(
        "hey <@U12345> what do you think?",
        "U12345"
    ));
}

#[test]
fn contains_bot_mention_rejects_partial_match() {
    assert!(!SlackChannel::contains_bot_mention("U12345", "U12345"));
    assert!(!SlackChannel::contains_bot_mention("<@U1234>", "U12345"));
    assert!(!SlackChannel::contains_bot_mention("<@U123456>", "U12345"));
}

#[test]
fn contains_bot_mention_empty_bot_id_returns_false() {
    assert!(!SlackChannel::contains_bot_mention("<@>", ""));
    assert!(!SlackChannel::contains_bot_mention("hello", ""));
}

#[test]
fn contains_bot_mention_no_mention_returns_false() {
    assert!(!SlackChannel::contains_bot_mention(
        "just a regular message",
        "U12345"
    ));
}

#[test]
fn contains_bot_mention_at_the_edges() {
    assert!(SlackChannel::contains_bot_mention("<@U1>", "U1"));
    assert!(SlackChannel::contains_bot_mention("größe <<@U1>", "U1"));
    assert!(!SlackChannel::contains_bot_mention("", "U1"));
    assert!(!SlackChannel::contains_bot_mention("<@U1", "U1"));
}

#[test]
fn strip_bot_mention_removes_tag_and_trims() {
    assert_eq!(
        SlackChannel::strip_bot_mention("<@U12345> what do you think?", "U12345"),
        "what do you think?"
    );
}

#[test]
fn strip_bot_mention_handles_multiple_mentions() {
    assert_eq!(
        SlackChannel::strip_bot_mention("<@U12345> hey <@U12345>", "U12345"),
        "hey"
    );
}

#[test]
fn strip_bot_mention_handles_empty_after_strip() {
    assert_eq!(SlackChannel::strip_bot_mention("<@U12345>", "U12345"), "");
}

#[test]
fn strip_bot_mention_empty_bot_id_returns_original() {
    assert_eq!(
        SlackChannel::strip_bot_mention("hello <@U12345>", ""),
        "hello <@U12345>"
    );
}

#[test]
fn strip_bot_mention_without_mention_only_trims() {
    assert_eq!(SlackChannel::strip_bot_mention("\u{3000} a <@U2> b\n", "U1"), "a <@U2> b");
}

#[test]
fn strip_bot_mention_agrees_with_replace_and_trim() {
    for text in [
        "<@U1><@U1>x<@U1>",
        "<@<@U1>U1>",
        "  a<@U1> b <@U1",
        "é<@U1>é",
        "nothing",
        "",
    ] {
        assert_eq!(
            SlackChannel::strip_bot_mention(text, "U1"),
            text.replace("<@U1>", "").trim()
        );
    }
}

#[test]
fn format_thread_context_empty_returns_empty() {
    assert_eq!(SlackChannel::format_thread_context(&[]), "");
}

#[test]
fn format_thread_context_formats_with_header() {
    let msgs = lines(&[("U111", "option A is better"), ("U222", "I disagree")]);
    let ctx = SlackChannel::format_thread_context(&msgs);
    assert!(ctx.starts_with("[Thread context"));
    assert!(ctx.contains("U111: option A is better"));
    assert!(ctx.contains("U222: I disagree"));
    assert!(ctx.ends_with("\n\n"));
}

#[test]
fn format_thread_context_single_message() {
    let msgs = lines(&[("U111", "hello")]);
    let ctx = SlackChannel::format_thread_context(&msgs);
    assert!(ctx.contains("U111: hello"));
}

#[test]
fn format_thread_context_whole_text() {
    let msgs = lines(&[("U1", "a"), ("U2", "b")]);
    assert_eq!(
        SlackChannel::format_thread_context(&msgs),
        "[Thread context — recent messages in this thread]\nU1: a\nU2: b\n\n"
    );
}

#[test]
fn configured_channel_id_is_normalized() {
    let ch = SlackChannel::new("t".into(), None, Some(" C1\n".into()), vec![]);
    assert_eq!(ch.configured_channel_id(), Some("C1".to_string()));
    let all = SlackChannel::new("t".into(), None, Some("*".into()), vec![]);
    assert_eq!(all.configured_channel_id(), None);
    let none = SlackChannel::new("t".into(), None, None, vec![]);
    assert_eq!(none.configured_channel_id(), None);
}

#[test]
fn normalizing_twice_is_normalizing_once() {
    let once = SlackChannel::normalized_channel_id(Some("\t C 1 \r")).unwrap();
    assert_eq!(once, "C 1");
    assert_eq!(SlackChannel::normalized_channel_id(Some(&once)), Some(once.clone()));
}

#[test]
fn white_space_is_the_unicode_property() {
    let spaces: Vec<u32> = (0x09..=0x0D)
        .chain([0x20, 0x85, 0xA0, 0x1680])
        .chain(0x2000..=0x200A)
        .chain([0x2028, 0x2029, 0x202F, 0x205F, 0x3000])
        .collect();
    for n in 0..=0x10FFFFu32 {
        if let Some(c) = char::from_u32(n) {
            let text = format!("{c}x{c}");
            let expected = if spaces.contains(&n) { "x" } else { text.as_str() };
            assert_eq!(
                SlackChannel::normalized_channel_id(Some(&text)).as_deref(),
                Some(expected)
            );
        }
    }
}

#[test]
fn app_token_selects_the_socket() {
    let ch = SlackChannel::new("t".into(), Some("xapp".into()), None, vec![]);
    assert!(matches!(ch.listen_mode(), ListenMode::Socket(token) if token == "xapp"));
    let ch = SlackChannel::new("t".into(), None, None, vec![]);
    assert!(matches!(ch.listen_mode(), ListenMode::Polling));
}

#[test]
fn extract_channel_ids_sorts_and_skips_what_is_no_channel() {
    let payload = json(
        r#"{"channels": [{"id": "D9"}, {"id": "C2", "is_member": "no"}, {"name": "x"}, 7,
            {"id": "C10"}, {"id": 4}, {"id": "C2"}]}"#,
    );
    assert_eq!(SlackChannel::extract_channel_ids(&payload), vec!["C10", "C2", "D9"]);
    assert_eq!(SlackChannel::extract_channel_ids(&json("{}")), Vec::<String>::new());
    assert_eq!(
        SlackChannel::extract_channel_ids(&json(r#"{"channels": {}}"#)),
        Vec::<String>::new()
    );
}

#[test]
fn ids_with_underscores_in_the_channel_differ() {
    assert_ne!(message_id("a_b", "1.2"), message_id("a", "1.2"));
    assert_ne!(message_id("a_b", "1.2"), message_id("b", "1.2"));
    assert_eq!(message_id("a_b", "c"), message_id("a", "b_c"));
}
