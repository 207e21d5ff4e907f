use serde_json::Value;
use slack_channel::json::{get_array, get_bool, get_text, get_text_or, has_member};
use slack_channel::listing::ChannelListing;
use slack_channel::message::{inbound_message, post_message_body};
use slack_channel::reply::{
    bot_user_id_in, is_refused, is_success, judge_reply, read_bot_user_id, read_next_cursor,
    read_post_reply, read_reply, read_socket_url, socket_url_in,
};
use slack_channel::{SendMessage, SlackError};

fn json(text: &str) -> Value {
    serde_json::from_str(text).unwrap()
}

fn message(thread_ts: Option<&str>, content: &str) -> SendMessage {
    SendMessage {
        recipient: "C1".to_string(),
        content: content.to_string(),
        thread_ts: thread_ts.map(str::to_string),
    }
}

#[test]
fn post_body_names_channel_and_text() {
    assert_eq!(
        post_message_body(&message(None, "hello")),
        r#"{"channel":"C1","text":"hello"}"#
    );
}

#[test]
fn post_body_names_the_thread() {
    assert_eq!(
        post_message_body(&message(Some("1.2"), "")),
        r#"{"channel":"C1","text":"","thread_ts":"1.2"}"#
    );
}

#[test]
fn post_body_escapes_like_json() {
    let content = "\"\\/\n\r\t\u{8}\u{c}\u{0}\u{1}\u{1f}\u{7f}é\u{1F600}";
    let body = post_message_body(&message(None, content));
    assert_eq!(
        body,
        "{\"channel\":\"C1\",\"text\":\"\\\"\\\\/\\n\\r\\t\\b\\f\\u0000\\u0001\\u001f\u{7f}é\u{1F600}\"}"
    );
    assert_eq!(json(&body).get("text").and_then(Value::as_str), Some(content));
}

#[test]
fn post_body_reads_back() {
    for n in 0..0x200u32 {
        if let Some(c) = char::from_u32(n) {
            let content = format!("a{c}b");
            let value = json(&post_message_body(&message(Some(&content), &content)));
            assert_eq!(value.get("text").and_then(Value::as_str), Some(content.as_str()));
            assert_eq!(value.get("thread_ts").and_then(Value::as_str), Some(content.as_str()));
            assert_eq!(value.as_object().unwrap().len(), 3);
        }
    }
}

#[test]
fn stamping_adds_the_time_only() {
    let pending = inbound_message("C1", "1.2", "U1", "hi".to_string(), Some("1.1".to_string()));
    let stamped = pending.stamped(77);
    assert_eq!(stamped.id, "slack_C1_1.2");
    assert_eq!(stamped.sender, "U1");
    assert_eq!(stamped.reply_target, "C1");
    assert_eq!(stamped.content, "hi");
    assert_eq!(stamped.channel, "slack");
    assert_eq!(stamped.timestamp, 77);
    assert_eq!(stamped.thread_ts.as_deref(), Some("1.1"));
}

#[test]
fn stamping_takes_the_seconds_of_a_reading() {
    let pending = inbound_message("C1", "1.2", "U1", "hi".to_string(), None);
    assert_eq!(pending.clone().stamped_at(Some((77, 999_999))).timestamp, 77);
    assert_eq!(pending.clone().stamped_at(None).timestamp, 0);
    assert_eq!(pending.stamped_at(None).id, "slack_C1_1.2");
}

#[test]
fn stamping_now_reads_the_clock() {
    let pending = inbound_message("C1", "1.2", "U1", "hi".to_string(), None);
    let stamped = pending.stamped_now();
    assert!(stamped.timestamp > 1_600_000_000);
    assert_eq!(stamped.content, "hi");
    assert_eq!(stamped.thread_ts, None);
}

#[test]
fn members_are_read_by_type() {
    let value = json(r#"{"t": "x", "b": true, "n": 1, "a": [1, 2], "z": null}"#);
    assert_eq!(get_text(&value, "t").as_deref(), Some("x"));
    assert_eq!(get_text(&value, "b"), None);
    assert_eq!(get_text(&value, "missing"), None);
    assert_eq!(get_text_or(&value, "n", "d"), "d");
    assert_eq!(get_bool(&value, "b"), Some(true));
    assert_eq!(get_bool(&value, "t"), None);
    assert_eq!(get_array(&value, "a").map(Vec::len), Some(2));
    assert!(get_array(&value, "t").is_none());
    assert!(has_member(&value, "z"));
    assert!(!has_member(&value, "y"));
    assert!(!has_member(&json("[1]"), "0"));
}

#[test]
fn success_is_two_hundred_to_two_hundred_ninety_nine() {
    assert!(!is_success(199));
    assert!(is_success(200));
    assert!(is_success(299));
    assert!(!is_success(300));
    assert!(!is_success(404));
}

#[test]
fn status_error_reads_like_the_reply() {
    let error = read_post_reply(404, "404 Not Found", "gone").unwrap_err();
    assert!(matches!(error, SlackError::Status { .. }));
    assert_eq!(error.message(), "Slack chat.postMessage failed (404 Not Found): gone");
}

#[test]
fn refusal_comes_with_a_success_status() {
    let error = read_post_reply(200, "200 OK", r#"{"ok":false,"error":"not_in_channel"}"#).unwrap_err();
    assert!(matches!(error, SlackError::Refused { .. }));
    assert_eq!(error.message(), "Slack chat.postMessage failed: not_in_channel");
    let error = read_post_reply(200, "200 OK", r#"{"ok":false}"#).unwrap_err();
    assert_eq!(error.message(), "Slack chat.postMessage failed: unknown");
}

#[test]
fn posting_succeeds_unless_refused() {
    assert!(read_post_reply(200, "200 OK", r#"{"ok":true}"#).is_ok());
    assert!(read_post_reply(200, "200 OK", "no json").is_ok());
    assert!(read_post_reply(204, "204 No Content", "").is_ok());
    assert!(read_post_reply(200, "200 OK", r#"{"ok":"false"}"#).is_ok());
}

#[test]
fn replies_hand_out_their_document() {
    let document = read_reply("e", 200, "200 OK", r#"{"a":"b"}"#).unwrap().unwrap();
    assert_eq!(get_text(&document, "a").as_deref(), Some("b"));
    assert!(matches!(read_reply("e", 200, "200 OK", "{"), Ok(None)));
    let value = json(r#"{"ok":false,"error":"x"}"#);
    assert!(is_refused(&value));
    assert!(!is_refused(&json(r#"{"ok":true}"#)));
    assert!(!is_refused(&json("{}")));
    assert_eq!(
        judge_reply("e", 200, "200 OK", "body", Some(&value)).unwrap_err().message(),
        "Slack e failed: x"
    );
    assert!(judge_reply("e", 200, "200 OK", "body", None).is_ok());
}

#[test]
fn bot_user_id_is_read_from_the_body() {
    assert_eq!(read_bot_user_id(br#"{"user_id":"UBOT"}"#).as_deref(), Some("UBOT"));
    assert_eq!(read_bot_user_id(br#"{"user_id":7}"#), None);
    assert_eq!(read_bot_user_id(b"oops"), None);
    assert_eq!(read_bot_user_id(b"\"\xff\""), None);
    assert_eq!(bot_user_id_in(&json(r#"{"user_id":"U"}"#)).as_deref(), Some("U"));
}

#[test]
fn socket_url_needs_a_confirmation() {
    assert_eq!(read_socket_url(br#"{"ok":true,"url":"wss://x"}"#).unwrap(), "wss://x");
    assert_eq!(
        read_socket_url(br#"{"ok":true}"#).unwrap_err().message(),
        "Slack apps.connections.open: missing url in response"
    );
    assert_eq!(
        read_socket_url(br#"{"url":"wss://x"}"#).unwrap_err().message(),
        "Slack apps.connections.open failed: unknown"
    );
    assert_eq!(
        read_socket_url(br#"{"ok":false,"error":"invalid_auth"}"#).unwrap_err().message(),
        "Slack apps.connections.open failed: invalid_auth"
    );
    let malformed = read_socket_url(b"<html>").unwrap_err();
    assert!(matches!(malformed, SlackError::Malformed));
    assert_eq!(malformed.message(), "error decoding response body");
    assert!(matches!(socket_url_in(&json(r#"{"ok":true,"url":1}"#)), Err(SlackError::MissingUrl)));
}

#[test]
fn next_cursor_is_trimmed() {
    let cursor = |text: &str| read_next_cursor(&json(text));
    assert_eq!(
        cursor(r#"{"response_metadata":{"next_cursor":" dXNlcg== "}}"#).as_deref(),
        Some("dXNlcg==")
    );
    assert_eq!(cursor(r#"{"response_metadata":{"next_cursor":"  "}}"#), None);
    assert_eq!(cursor(r#"{"response_metadata":{}}"#), None);
    assert_eq!(cursor("{}"), None);
}

#[test]
fn listing_goes_through_the_pages() {
    let mut listing = ChannelListing::new();
    let pair = |a: &str, b: &str| (a.to_string(), b.to_string());
    let first = vec![
        pair("exclude_archived", "true"),
        pair("limit", "200"),
        pair("types", "public_channel,private_channel,mpim,im"),
    ];
    assert_eq!(listing.query(), first);
    let more = listing.accept(
        200,
        "200 OK",
        r#"{"ok":true,"channels":[{"id":"C3"},{"id":"C1"}],"response_metadata":{"next_cursor":"p2"}}"#,
    );
    assert!(matches!(more, Ok(true)));
    let mut second = first.clone();
    second.push(pair("cursor", "p2"));
    assert_eq!(listing.query(), second);
    let refused = listing.accept(200, "200 OK", r#"{"ok":false,"error":"ratelimited"}"#);
    assert_eq!(
        refused.unwrap_err().message(),
        "Slack conversations.list failed: ratelimited"
    );
    assert_eq!(listing.query(), second);
    let more = listing.accept(
        200,
        "200 OK",
        r#"{"ok":true,"channels":[{"id":"C2"},{"id":"C1"},{"id":"C4","is_archived":true}]}"#,
    );
    assert!(matches!(more, Ok(false)));
    assert_eq!(listing.finish(), vec!["C1", "C2", "C3"]);
}

#[test]
fn listing_takes_an_unreadable_page_as_empty() {
    let mut listing = ChannelListing::new();
    assert!(matches!(listing.accept(200, "200 OK", "not json"), Ok(false)));
    assert_eq!(listing.finish(), Vec::<String>::new());
    let mut listing = ChannelListing::new();
    assert_eq!(
        listing.accept(500, "500 Internal Server Error", "x").unwrap_err().message(),
        "Slack conversations.list failed (500 Internal Server Error): x"
    );
}
