use slack_channel::clock::{slack_ts, time_of, ts_at};
use slack_channel::text::{at_most, contains, remove_all, sorted_without_repeats, trim};
use slack_channel::SlackChannel;

#[test]
fn order_is_that_of_strings() {
    let samples = ["", "1", "1.2", "10", "2", "a", "A", "é", "z", "\u{FFFF}", "\u{10000}", "aé"];
    for a in samples {
        for b in samples {
            assert_eq!(at_most(a, b), a <= b, "{a} {b}");
        }
    }
}

#[test]
fn sorting_drops_repeats() {
    let items = ["b", "a", "b", "", "é", "a"].map(String::from).to_vec();
    assert_eq!(sorted_without_repeats(items), vec!["", "a", "b", "é"]);
    assert_eq!(sorted_without_repeats(vec![]), Vec::<String>::new());
}

#[test]
fn removal_goes_from_left_to_right() {
    assert_eq!(remove_all("aaa", "aa"), "a");
    assert_eq!(remove_all("aabb", "ab"), "ab");
    assert!(contains("aabb", "abb"));
    assert!(contains("", ""));
    assert!(!contains("ab", "abc"));
}

#[test]
fn trimming_is_that_of_strings() {
    for c in '\0'..=char::MAX {
        let text = format!("{c}a{c}b{c}");
        assert_eq!(trim(&text), text.trim(), "{c:?}");
    }
    assert_eq!(trim(" \t\n"), "");
    assert_eq!(trim(""), "");
}

#[test]
fn a_clock_before_the_epoch_stands_at_it() {
    assert_eq!(time_of(None), (0, 0));
    assert_eq!(time_of(Some((7, 8))), (7, 8));
    assert_eq!(ts_at(None), "0.000000");
    assert_eq!(ts_at(Some((7, 8))), "7.000008");
}

#[test]
fn timestamps_have_six_digits_after_the_point() {
    assert_eq!(slack_ts(1700000000, 123456), "1700000000.123456");
    assert_eq!(slack_ts(1700000000, 42), "1700000000.000042");
    assert_eq!(slack_ts(0, 0), "0.000000");
    assert_eq!(slack_ts(u64::MAX, 999999), "18446744073709551615.999999");
}

#[test]
fn later_timestamps_come_later() {
    assert!(at_most(&slack_ts(1700000000, 9), &slack_ts(1700000000, 10)));
    assert!(!at_most(&slack_ts(1700000001, 0), &slack_ts(1700000000, 999999)));
}

#[test]
fn now_is_a_timestamp() {
    let ts = SlackChannel::slack_now_ts();
    let (secs, micros) = ts.split_once('.').unwrap();
    assert!(secs.parse::<u64>().unwrap() > 1_600_000_000);
    assert_eq!(micros.len(), 6);
    assert!(micros.parse::<u32>().is_ok());
}
