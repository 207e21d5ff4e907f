//! Polling: conversations and their threads are asked for new messages in turn.

use crate::channel::{cursor_or, thread_of, user_allowed, SlackChannel};
use crate::json::{
    array_member, bool_member, get_array, get_bool, get_text, get_text_or, json_of, jsons_of,
    parse_bytes, parsed_bytes, text_member, Json,
};
use crate::message::{
    id_text, ids_differ_where_timestamps_differ, ids_hold_their_timestamps, inbound,
    inbound_message, pending_views, ts_in, PendingMessage, PendingView,
};
use crate::reply::{is_refused, refused};
use crate::socket::ThreadId;
use crate::table::Table;
use crate::text::{
    at_most, lemma_lt_not_le, lemma_lt_trans, lemma_not_le, opt_text, text_le, text_lt, text_or,
    text_order_is_reflexive, text_order_is_transitive, texts,
};
use vstd::prelude::*;

verus! {

/// The seconds between two rounds.
pub const POLL_INTERVAL_SECS: u64 = 3;

/// The nanoseconds after which the list of conversations is asked for again: a minute.
pub const DISCOVERY_INTERVAL_NANOS: u128 = 60_000_000_000;

/// A message of a conversation or a thread, as far as it is read.
#[derive(Debug, Clone)]
pub struct PolledMessage {
    pub ts: String,
    pub user: String,
    pub text: String,
    pub thread_ts: Option<String>,
}

/// What a [`PolledMessage`] holds.
pub struct PolledView {
    pub ts: Seq<char>,
    pub user: Seq<char>,
    pub text: Seq<char>,
    pub thread_ts: Option<Seq<char>>,
}

impl View for PolledMessage {
    type V = PolledView;

    open spec fn view(&self) -> PolledView {
        PolledView {
            ts: self.ts@,
            user: self.user@,
            text: self.text@,
            thread_ts: opt_text(self.thread_ts),
        }
    }
}

/// What each of `messages` holds.
pub open spec fn polled_views(messages: Seq<PolledMessage>) -> Seq<PolledView> {
    messages.map_values(|m: PolledMessage| m@)
}

/// What the messages of a page hold, where there is a page.
pub open spec fn page_view(page: Option<Vec<PolledMessage>>) -> Option<Seq<PolledView>> {
    match page {
        Some(messages) => Some(polled_views(messages@)),
        None => None,
    }
}

/// A message, read from its document.
pub open spec fn polled_message(json: Json) -> PolledView {
    PolledView {
        ts: text_or(text_member(json, "ts"@), ""@),
        user: text_or(text_member(json, "user"@), "unknown"@),
        text: text_or(text_member(json, "text"@), ""@),
        thread_ts: text_member(json, "thread_ts"@),
    }
}

/// The messages of a reply, read from its document.
pub open spec fn polled_messages(json: Json) -> Seq<PolledView> {
    match array_member(json, "messages"@) {
        Some(items) => items.map_values(|j: Json| polled_message(j)),
        None => Seq::empty(),
    }
}

/// The page in a reply to a request for the history of a conversation. There is none in
/// a reply that is no document or that says that the request was refused.
pub open spec fn history_page(reply: Option<Json>) -> Option<Seq<PolledView>> {
    match reply {
        Some(json) => if refused(json) {
            None
        } else {
            Some(polled_messages(json))
        },
        None => None,
    }
}

/// The page in a reply to a request for the replies in a thread. There is one only in a
/// reply that says that the request was granted.
pub open spec fn replies_page(reply: Option<Json>) -> Option<Seq<PolledView>> {
    match reply {
        Some(json) => if bool_member(json, "ok"@) == Some(true) {
            Some(polled_messages(json))
        } else {
            None
        },
        None => None,
    }
}

/// Reads a message from its document.
pub fn read_message(message: &serde_json::Value) -> (r: PolledMessage)
    ensures
        r@ == polled_message(json_of(*message)),
        r.ts@ == text_or(text_member(json_of(*message), "ts"@), ""@),
        r.user@ == text_or(text_member(json_of(*message), "user"@), "unknown"@),
        r.text@ == text_or(text_member(json_of(*message), "text"@), ""@),
        opt_text(r.thread_ts) == text_member(json_of(*message), "thread_ts"@),
{
    PolledMessage {
        ts: get_text_or(message, "ts", ""),
        user: get_text_or(message, "user", "unknown"),
        text: get_text_or(message, "text", ""),
        thread_ts: get_text(message, "thread_ts"),
    }
}

/// Reads the messages of a reply from its document.
pub fn read_messages(reply: &serde_json::Value) -> (r: Vec<PolledMessage>)
    ensures
        polled_views(r@) == polled_messages(json_of(*reply)),
{
    let mut messages: Vec<PolledMessage> = Vec::new();
    let ghost all = polled_messages(json_of(*reply));
    match get_array(reply, "messages") {
        Some(items) => {
            let mut i: usize = 0;
            while i < items.len()
                invariant
                    i <= items.len(),
                    all == jsons_of(items@).map_values(|j: Json| polled_message(j)),
                    polled_views(messages@) == all.take(i as int),
                decreases items.len() - i,
            {
                messages.push(read_message(&items[i]));
                assert(all.take(i + 1) == all.take(i as int).push(all[i as int]));
                assert(polled_views(messages@) == all.take(i + 1));
                i += 1;
            }
            assert(all.take(i as int) == all);
        },
        None => {},
    }
    assert(polled_views(messages@) == all);
    messages
}

/// The page in the document of a reply to a request for a history.
pub fn history_page_in(reply: &serde_json::Value) -> (r: Option<Vec<PolledMessage>>)
    ensures
        page_view(r) == history_page(Some(json_of(*reply))),
{
    if is_refused(reply) {
        None
    } else {
        Some(read_messages(reply))
    }
}

/// The page in the body of a reply to a request for a history.
pub fn read_history_page(body: &[u8]) -> (r: Option<Vec<PolledMessage>>)
    ensures
        page_view(r) == history_page(parsed_bytes(body@)),
{
    match parse_bytes(body) {
        Ok(reply) => history_page_in(&reply),
        Err(_) => None,
    }
}

/// The page in the document of a reply to a request for the replies in a thread.
pub fn replies_page_in(reply: &serde_json::Value) -> (r: Option<Vec<PolledMessage>>)
    ensures
        page_view(r) == replies_page(Some(json_of(*reply))),
{
    let granted = match get_bool(reply, "ok") {
        Some(ok) => ok,
        None => false,
    };
    if granted {
        Some(read_messages(reply))
    } else {
        None
    }
}

/// The page in the body of a reply to a request for the replies in a thread.
pub fn read_replies_page(body: &[u8]) -> (r: Option<Vec<PolledMessage>>)
    ensures
        page_view(r) == replies_page(parsed_bytes(body@)),
{
    match parse_bytes(body) {
        Ok(reply) => replies_page_in(&reply),
        Err(_) => None,
    }
}

/// How far polling has come: the timestamp seen last in each conversation and in each
/// thread, and the threads in the order in which they came up.
pub struct MarksView {
    pub cursors: Map<Seq<char>, Seq<char>>,
    pub threads: Map<ThreadId, Seq<char>>,
    pub order: Seq<ThreadId>,
}

/// The timestamp seen last in a conversation; the empty text where none was.
pub open spec fn cursor_of(marks: MarksView, channel: Seq<char>) -> Seq<char> {
    cursor_or(marks.cursors, channel, ""@)
}

/// The timestamp seen last in a thread; the empty text where none was.
pub open spec fn mark_of(marks: MarksView, thread: ThreadId) -> Seq<char> {
    if marks.threads.contains_key(thread) {
        marks.threads[thread]
    } else {
        ""@
    }
}

/// The marks once `ts` is the timestamp seen last in a thread.
pub open spec fn with_thread(marks: MarksView, thread: ThreadId, ts: Seq<char>) -> MarksView {
    MarksView {
        threads: marks.threads.insert(thread, ts),
        order: if marks.threads.contains_key(thread) {
            marks.order
        } else {
            marks.order.push(thread)
        },
        ..marks
    }
}

/// The marks once a thread is known, which starts at `ts` where it was not known before.
pub open spec fn tracking(marks: MarksView, thread: ThreadId, ts: Seq<char>) -> MarksView {
    if marks.threads.contains_key(thread) {
        marks
    } else {
        with_thread(marks, thread, ts)
    }
}

/// Whether a message is news: it has a text, an allowed sender who is not the bot, and a
/// timestamp after `last`.
pub open spec fn news(
    bot: Seq<char>,
    allowed: Seq<Seq<char>>,
    last: Seq<char>,
    message: PolledView,
) -> bool {
    &&& message.user != bot
    &&& user_allowed(allowed, message.user)
    &&& message.text.len() > 0
    &&& text_lt(last, message.ts)
}

/// The marks after a message that is news in a conversation.
pub open spec fn noted(marks: MarksView, channel: Seq<char>, message: PolledView) -> MarksView {
    let seen = MarksView { cursors: marks.cursors.insert(channel, message.ts), ..marks };
    match thread_of(message.thread_ts, message.ts) {
        Some(thread) => tracking(seen, (channel, thread), message.ts),
        None => seen,
    }
}

/// The message that a message of a conversation becomes.
pub open spec fn handed_on(channel: Seq<char>, message: PolledView) -> PendingView {
    inbound(
        channel,
        message.ts,
        message.user,
        message.text,
        thread_of(message.thread_ts, message.ts),
    )
}

/// What a run through the messages of a conversation, from the oldest to the newest,
/// leads to: the marks, and the messages that are handed on.
pub open spec fn history_run(
    marks: MarksView,
    bot: Seq<char>,
    allowed: Seq<Seq<char>>,
    channel: Seq<char>,
    messages: Seq<PolledView>,
) -> (MarksView, Seq<PendingView>)
    decreases messages.len(),
{
    if messages.len() == 0 {
        (marks, Seq::empty())
    } else {
        let (before, out) = history_run(marks, bot, allowed, channel, messages.drop_last());
        let message = messages.last();
        if news(bot, allowed, cursor_of(before, channel), message) {
            (noted(before, channel, message), out.push(handed_on(channel, message)))
        } else {
            (before, out)
        }
    }
}

/// The replies of a page that are news in a thread whose timestamp seen last is `last`.
pub open spec fn new_replies(
    bot: Seq<char>,
    allowed: Seq<Seq<char>>,
    last: Seq<char>,
    replies: Seq<PolledView>,
) -> Seq<PolledView> {
    replies.filter(|m: PolledView| news(bot, allowed, last, m))
}

/// The message that a reply in a thread becomes.
pub open spec fn reply_handed_on(thread: ThreadId, reply: PolledView) -> PendingView {
    inbound(thread.0, reply.ts, reply.user, reply.text, Some(thread.1))
}

/// What the replies of a page lead to: the marks, and the messages that are handed on.
pub open spec fn replies_run(
    marks: MarksView,
    bot: Seq<char>,
    allowed: Seq<Seq<char>>,
    thread: ThreadId,
    replies: Seq<PolledView>,
) -> (MarksView, Seq<PendingView>) {
    let fresh = new_replies(bot, allowed, mark_of(marks, thread), replies);
    (
        if fresh.len() == 0 {
            marks
        } else {
            with_thread(marks, thread, fresh.last().ts)
        },
        fresh.map_values(|m: PolledView| reply_handed_on(thread, m)),
    )
}

/// Whether a thread is in a given conversation.
pub open spec fn in_channel(channel: Seq<char>) -> spec_fn(ThreadId) -> bool {
    |t: ThreadId| t.0 == channel
}

/// The threads of a conversation, in the order in which they came up.
pub open spec fn threads_in(order: Seq<ThreadId>, channel: Seq<char>) -> Seq<Seq<char>> {
    order.filter(in_channel(channel)).map_values(|t: ThreadId| t.1)
}

/// How far polling has come.
pub struct Marks {
    cursors: Table<String, String>,
    threads: Table<(String, String), String>,
}

impl View for Marks {
    type V = MarksView;

    closed spec fn view(&self) -> MarksView {
        MarksView { cursors: self.cursors@, threads: self.threads@, order: self.threads.keys() }
    }
}

/// Whether a message is news.
fn is_news(
    channel: &SlackChannel,
    bot_user_id: &str,
    last: &str,
    message: &PolledMessage,
) -> (r: bool)
    ensures
        r == news(bot_user_id@, channel.allowlist(), last@, message@),
{
    if message.user.as_str().eq(bot_user_id) || !channel.is_user_allowed(message.user.as_str()) {
        return false;
    }
    if message.text.as_str().is_empty() {
        return false;
    }
    let seen = at_most(message.ts.as_str(), last);
    proof {
        if seen {
            if text_lt(last@, message.ts@) {
                lemma_lt_not_le(last@, message.ts@);
            }
        } else {
            lemma_not_le(message.ts@, last@);
        }
    }
    !seen
}

fn copied(text: &Option<String>) -> (r: Option<String>)
    ensures
        opt_text(r) == opt_text(*text),
{
    match text {
        Some(t) => Some(t.clone()),
        None => None,
    }
}

impl Marks {
    /// Nothing seen yet.
    pub fn new() -> (marks: Self)
        ensures
            marks@ == (MarksView {
                cursors: Map::empty(),
                threads: Map::empty(),
                order: Seq::empty(),
            }),
    {
        Marks { cursors: Table::new(), threads: Table::new() }
    }

    /// The cursor from which a conversation is polled: `now_ts` where it is new.
    pub fn start(&mut self, channel_id: &str, now_ts: &str) -> (cursor: String)
        ensures
            cursor@ == cursor_or(old(self)@.cursors, channel_id@, now_ts@),
            final(self)@ == (MarksView {
                cursors: old(self)@.cursors.insert(channel_id@, cursor@),
                ..old(self)@
            }),
    {
        SlackChannel::ensure_poll_cursor(&mut self.cursors, channel_id, now_ts)
    }

    /// The timestamp seen last in a thread; the empty text where none was.
    pub fn mark(&self, thread: &(String, String)) -> (r: String)
        ensures
            r@ == mark_of(self@, (thread.0@, thread.1@)),
    {
        match self.threads.find(thread) {
            Some(ts) => ts.clone(),
            None => "".to_owned(),
        }
    }

    /// The threads of a conversation.
    pub fn threads_of(&self, channel_id: &str) -> (r: Vec<String>)
        ensures
            texts(r@) == threads_in(self@.order, channel_id@),
    {
        let ghost order = self.threads.keys();
        let ghost of_channel = in_channel(channel_id@);
        let ghost second = |t: ThreadId| t.1;
        let n = self.threads.len();
        let mut found: Vec<String> = Vec::new();
        let mut i: usize = 0;
        proof {
            reveal(Seq::filter);
            assert(order.take(0).filter(of_channel).len() == 0);
        }
        while i < n
            invariant
                n == order.len(),
                order == self.threads.keys(),
                of_channel == in_channel(channel_id@),
                second == (|t: ThreadId| t.1),
                i <= n,
                texts(found@) == order.take(i as int).filter(of_channel).map_values(second),
            decreases n - i,
        {
            let key = self.threads.key(i);
            let ghost before = texts(found@);
            if key.0.as_str().eq(channel_id) {
                found.push(key.1.clone());
                assert(texts(found@) == before.push(order[i as int].1));
            }
            proof {
                reveal(Seq::filter);
                assert(order.take(i + 1).drop_last() == order.take(i as int));
                assert(order.take(i + 1).last() == order[i as int]);
                let was = order.take(i as int).filter(of_channel);
                if of_channel(order[i as int]) {
                    assert(was.push(order[i as int]).map_values(second) == was.map_values(
                        second,
                    ).push(order[i as int].1));
                }
            }
            i += 1;
        }
        assert(order.take(n as int) == order);
        found
    }

    /// Notes a message that is news in a conversation.
    fn note(&mut self, channel_id: &str, message: &PolledMessage)
        ensures
            final(self)@ == noted(old(self)@, channel_id@, message@),
    {
        self.cursors.insert(channel_id.to_owned(), message.ts.clone());
        match SlackChannel::resolve_thread_ts(copied(&message.thread_ts), message.ts.as_str()) {
            Some(thread_ts) => {
                let thread = (channel_id.to_owned(), thread_ts);
                if self.threads.find(&thread).is_none() {
                    self.threads.insert(thread, message.ts.clone());
                }
            },
            None => {},
        }
    }

    /// Runs through a page of a conversation, which starts with the newest message, from
    /// the oldest message to the newest, and returns the messages to be handed on.
    pub fn take_history(
        &mut self,
        channel: &SlackChannel,
        bot_user_id: &str,
        channel_id: &str,
        page: &Vec<PolledMessage>,
    ) -> (out: Vec<PendingMessage>)
        ensures
            (final(self)@, pending_views(out@)) == history_run(
                old(self)@,
                bot_user_id@,
                channel.allowlist(),
                channel_id@,
                polled_views(page@).reverse(),
            ),
    {
        let ghost start = self@;
        let ghost allowed = channel.allowlist();
        let ghost all = polled_views(page@).reverse();
        let mut out: Vec<PendingMessage> = Vec::new();
        let mut left: usize = page.len();
        assert(pending_views(out@) == Seq::<PendingView>::empty());
        assert(all.take(0).len() == 0);
        while left > 0
            invariant
                left <= page.len(),
                allowed == channel.allowlist(),
                all == polled_views(page@).reverse(),
                (self@, pending_views(out@)) == history_run(
                    start,
                    bot_user_id@,
                    allowed,
                    channel_id@,
                    all.take(page.len() - left),
                ),
            decreases left,
        {
            let message = &page[left - 1];
            proof {
                let done = page.len() - left;
                assert(all.take(done + 1).drop_last() == all.take(done as int));
                assert(all.take(done + 1).last() == message@);
            }
            let last = match self.cursors.get(channel_id) {
                Some(ts) => ts.clone(),
                None => "".to_owned(),
            };
            let ghost before = pending_views(out@);
            if is_news(channel, bot_user_id, last.as_str(), message) {
                self.note(channel_id, message);
                let thread_ts = SlackChannel::resolve_thread_ts(
                    copied(&message.thread_ts),
                    message.ts.as_str(),
                );
                out.push(
                    inbound_message(
                        channel_id,
                        message.ts.as_str(),
                        message.user.as_str(),
                        message.text.clone(),
                        thread_ts,
                    ),
                );
                assert(pending_views(out@) == before.push(handed_on(channel_id@, message@)));
            }
            left -= 1;
        }
        assert(all.take(page.len() as int) == all);
        out
    }

    /// Runs through the replies of a thread and returns the messages to be handed on.
    pub fn take_replies(
        &mut self,
        channel: &SlackChannel,
        bot_user_id: &str,
        thread: &(String, String),
        page: &Vec<PolledMessage>,
    ) -> (out: Vec<PendingMessage>)
        ensures
            (final(self)@, pending_views(out@)) == replies_run(
                old(self)@,
                bot_user_id@,
                channel.allowlist(),
                (thread.0@, thread.1@),
                polled_views(page@),
            ),
    {
        let ghost start = self@;
        let ghost allowed = channel.allowlist();
        let ghost all = polled_views(page@);
        let ghost id = (thread.0@, thread.1@);
        let last = self.mark(thread);
        let ghost fresh = |m: PolledView| news(bot_user_id@, allowed, last@, m);
        let ghost hand = |m: PolledView| reply_handed_on(id, m);
        let mut out: Vec<PendingMessage> = Vec::new();
        let mut i: usize = 0;
        proof {
            reveal(Seq::filter);
            assert(all.take(0).filter(fresh).len() == 0);
        }
        while i < page.len()
            invariant
                i <= page.len(),
                allowed == channel.allowlist(),
                all == polled_views(page@),
                id == (thread.0@, thread.1@),
                fresh == (|m: PolledView| news(bot_user_id@, allowed, last@, m)),
                hand == (|m: PolledView| reply_handed_on(id, m)),
                pending_views(out@) == all.take(i as int).filter(fresh).map_values(hand),
                self@ == (if all.take(i as int).filter(fresh).len() == 0 {
                    start
                } else {
                    with_thread(start, id, all.take(i as int).filter(fresh).last().ts)
                }),
            decreases page.len() - i,
        {
            let message = &page[i];
            let ghost before = pending_views(out@);
            let ghost was = all.take(i as int).filter(fresh);
            proof {
                reveal(Seq::filter);
                assert(all.take(i + 1).drop_last() == all.take(i as int));
                assert(all.take(i + 1).last() == message@);
            }
            if is_news(channel, bot_user_id, last.as_str(), message) {
                let key = (thread.0.clone(), thread.1.clone());
                self.threads.insert(key, message.ts.clone());
                out.push(
                    inbound_message(
                        thread.0.as_str(),
                        message.ts.as_str(),
                        message.user.as_str(),
                        message.text.clone(),
                        Some(thread.1.clone()),
                    ),
                );
                assert(pending_views(out@) == before.push(reply_handed_on(id, message@)));
                assert(was.push(message@).map_values(hand) == was.map_values(hand).push(
                    reply_handed_on(id, message@),
                ));
                assert(self@.threads =~= start.threads.insert(id, message.ts@));
            }
            i += 1;
        }
        assert(all.take(page.len() as int) == all);
        out
    }
}

/// What a run through a history does to the cursors: that of the conversation does not go
/// back, and those of the others stay.
pub proof fn cursors_never_go_back(
    marks: MarksView,
    bot: Seq<char>,
    allowed: Seq<Seq<char>>,
    channel: Seq<char>,
    messages: Seq<PolledView>,
    other: Seq<char>,
)
    ensures
        ({
            let next = history_run(marks, bot, allowed, channel, messages).0;
            &&& text_le(cursor_of(marks, channel), cursor_of(next, channel))
            &&& other != channel ==> next.cursors.contains_key(other) == marks.cursors.contains_key(
                other,
            ) && cursor_of(next, other) == cursor_of(marks, other)
        }),
    decreases messages.len(),
{
    if messages.len() == 0 {
        text_order_is_reflexive(cursor_of(marks, channel));
    } else {
        let (before, out) = history_run(marks, bot, allowed, channel, messages.drop_last());
        cursors_never_go_back(marks, bot, allowed, channel, messages.drop_last(), other);
        if news(bot, allowed, cursor_of(before, channel), messages.last()) {
            text_order_is_transitive(
                cursor_of(marks, channel),
                cursor_of(before, channel),
                messages.last().ts,
            );
        }
    }
}

/// The cursor after a run is the one before it, or the timestamp of one of the messages.
proof fn lemma_cursor_is_a_timestamp(
    marks: MarksView,
    bot: Seq<char>,
    allowed: Seq<Seq<char>>,
    channel: Seq<char>,
    messages: Seq<PolledView>,
)
    ensures
        ({
            let cursor = cursor_of(
                history_run(marks, bot, allowed, channel, messages).0,
                channel,
            );
            ||| cursor == cursor_of(marks, channel)
            ||| exists|j: int| 0 <= j < messages.len() && cursor == (#[trigger] messages[j]).ts
        }),
    decreases messages.len(),
{
    if messages.len() > 0 {
        let head = messages.drop_last();
        lemma_cursor_is_a_timestamp(marks, bot, allowed, channel, head);
        let before = history_run(marks, bot, allowed, channel, head).0;
        if news(bot, allowed, cursor_of(before, channel), messages.last()) {
            assert(messages[messages.len() - 1].ts == messages.last().ts);
        } else if cursor_of(before, channel) != cursor_of(marks, channel) {
            let j = choose|j: int|
                0 <= j < head.len() && cursor_of(before, channel) == (#[trigger] head[j]).ts;
            assert(messages[j] == head[j]);
        }
    }
}

/// Only news is handed on: each message that a run hands on is a message of the page with
/// a text, of an allowed sender who is not the bot, and later than the cursor. So what
/// came up to the cursor is never handed on.
pub proof fn only_news_is_handed_on(
    marks: MarksView,
    bot: Seq<char>,
    allowed: Seq<Seq<char>>,
    channel: Seq<char>,
    messages: Seq<PolledView>,
    i: int,
)
    requires
        0 <= i < history_run(marks, bot, allowed, channel, messages).1.len(),
    ensures
        exists|j: int|
            0 <= j < messages.len() && news(
                bot,
                allowed,
                cursor_of(marks, channel),
                #[trigger] messages[j],
            ) && history_run(marks, bot, allowed, channel, messages).1[i] == handed_on(
                channel,
                messages[j],
            ),
    decreases messages.len(),
{
    let head = messages.drop_last();
    let (before, out) = history_run(marks, bot, allowed, channel, head);
    let message = messages.last();
    if i < out.len() {
        only_news_is_handed_on(marks, bot, allowed, channel, head, i);
        let j = choose|j: int|
            0 <= j < head.len() && news(
                bot,
                allowed,
                cursor_of(marks, channel),
                #[trigger] head[j],
            ) && out[i] == handed_on(channel, head[j]);
        assert(messages[j] == head[j]);
    } else {
        cursors_never_go_back(marks, bot, allowed, channel, head, channel);
        lemma_lt_trans(cursor_of(marks, channel), cursor_of(before, channel), message.ts);
        assert(messages[messages.len() - 1] == message);
    }
}

/// Whether the timestamps of `messages` ascend strictly.
pub open spec fn in_order(messages: Seq<PolledView>) -> bool {
    forall|i: int, j: int|
        0 <= i < j < messages.len() ==> text_lt(
            (#[trigger] messages[i]).ts,
            (#[trigger] messages[j]).ts,
        )
}

/// No news is lost: where the messages of a page come in the order of their timestamps,
/// each one that is news is handed on, in that order.
pub proof fn all_news_is_handed_on(
    marks: MarksView,
    bot: Seq<char>,
    allowed: Seq<Seq<char>>,
    channel: Seq<char>,
    messages: Seq<PolledView>,
)
    requires
        in_order(messages),
    ensures
        history_run(marks, bot, allowed, channel, messages).1 == messages.filter(
            |m: PolledView| news(bot, allowed, cursor_of(marks, channel), m),
        ).map_values(|m: PolledView| handed_on(channel, m)),
    decreases messages.len(),
{
    reveal(Seq::filter);
    let fresh = |m: PolledView| news(bot, allowed, cursor_of(marks, channel), m);
    let hand = |m: PolledView| handed_on(channel, m);
    if messages.len() == 0 {
        assert(messages.filter(fresh).map_values(hand) =~= Seq::empty());
    } else {
        let head = messages.drop_last();
        let message = messages.last();
        assert(in_order(head)) by {
            assert forall|i: int, j: int| 0 <= i < j < head.len() implies text_lt(
                (#[trigger] head[i]).ts,
                (#[trigger] head[j]).ts,
            ) by {
                assert(text_lt(messages[i].ts, messages[j].ts));
            }
        }
        all_news_is_handed_on(marks, bot, allowed, channel, head);
        let (before, out) = history_run(marks, bot, allowed, channel, head);
        let c0 = cursor_of(marks, channel);
        let c = cursor_of(before, channel);
        cursors_never_go_back(marks, bot, allowed, channel, head, channel);
        lemma_cursor_is_a_timestamp(marks, bot, allowed, channel, head);
        if text_lt(c, message.ts) {
            lemma_lt_trans(c0, c, message.ts);
        }
        if text_lt(c0, message.ts) && c != c0 {
            let j = choose|j: int| 0 <= j < head.len() && c == (#[trigger] head[j]).ts;
            assert(text_lt(messages[j].ts, messages[messages.len() - 1].ts));
        }
        let was = head.filter(fresh);
        if fresh(message) {
            assert(was.push(message).map_values(hand) =~= was.map_values(hand).push(
                handed_on(channel, message),
            ));
        }
    }
}

/// Where no message is news, a run changes nothing and hands nothing on.
proof fn lemma_no_news(
    marks: MarksView,
    bot: Seq<char>,
    allowed: Seq<Seq<char>>,
    channel: Seq<char>,
    messages: Seq<PolledView>,
)
    requires
        forall|j: int|
            0 <= j < messages.len() ==> !news(
                bot,
                allowed,
                cursor_of(marks, channel),
                #[trigger] messages[j],
            ),
    ensures
        history_run(marks, bot, allowed, channel, messages) == (marks, Seq::<PendingView>::empty()),
    decreases messages.len(),
{
    if messages.len() > 0 {
        let head = messages.drop_last();
        assert forall|j: int| 0 <= j < head.len() implies !news(
            bot,
            allowed,
            cursor_of(marks, channel),
            #[trigger] head[j],
        ) by {
            assert(head[j] == messages[j]);
        }
        lemma_no_news(marks, bot, allowed, channel, head);
        assert(!news(bot, allowed, cursor_of(marks, channel), messages[messages.len() - 1]));
    }
}

/// After a run, none of the messages is news at the cursor reached or at a later one.
proof fn lemma_seen(
    marks: MarksView,
    bot: Seq<char>,
    allowed: Seq<Seq<char>>,
    channel: Seq<char>,
    messages: Seq<PolledView>,
    later: Seq<char>,
)
    requires
        text_le(
            cursor_of(history_run(marks, bot, allowed, channel, messages).0, channel),
            later,
        ),
    ensures
        forall|j: int|
            0 <= j < messages.len() ==> !news(bot, allowed, later, #[trigger] messages[j]),
    decreases messages.len(),
{
    if messages.len() > 0 {
        let head = messages.drop_last();
        let message = messages.last();
        let before = history_run(marks, bot, allowed, channel, head).0;
        let c = cursor_of(before, channel);
        if news(bot, allowed, c, message) {
            text_order_is_transitive(c, message.ts, later);
            if text_lt(later, message.ts) {
                lemma_lt_not_le(later, message.ts);
            }
        } else if text_lt(later, message.ts) {
            lemma_lt_trans(c, later, message.ts);
        }
        lemma_seen(marks, bot, allowed, channel, head, later);
        assert forall|j: int| 0 <= j < messages.len() implies !news(
            bot,
            allowed,
            later,
            #[trigger] messages[j],
        ) by {
            if j < head.len() {
                assert(messages[j] == head[j]);
            }
        }
    }
}

/// Nothing is handed on twice: a page that comes again, at once or after other pages of
/// the conversation, changes nothing, and nothing of it is handed on.
pub proof fn pages_that_come_again_are_passed_over(
    marks: MarksView,
    bot: Seq<char>,
    allowed: Seq<Seq<char>>,
    channel: Seq<char>,
    messages: Seq<PolledView>,
    more: Seq<PolledView>,
)
    ensures
        ({
            let first = history_run(marks, bot, allowed, channel, messages).0;
            let next = history_run(first, bot, allowed, channel, more).0;
            history_run(next, bot, allowed, channel, messages) == (
                next,
                Seq::<PendingView>::empty(),
            )
        }),
{
    let first = history_run(marks, bot, allowed, channel, messages).0;
    let next = history_run(first, bot, allowed, channel, more).0;
    cursors_never_go_back(first, bot, allowed, channel, more, channel);
    lemma_seen(marks, bot, allowed, channel, messages, cursor_of(next, channel));
    lemma_no_news(next, bot, allowed, channel, messages);
}

/// What is handed on from a conversation or from one of its threads is to be answered in
/// that conversation.
pub proof fn answers_go_to_the_conversation(
    marks: MarksView,
    bot: Seq<char>,
    allowed: Seq<Seq<char>>,
    thread: ThreadId,
    messages: Seq<PolledView>,
)
    ensures
        forall|i: int|
            0 <= i < history_run(marks, bot, allowed, thread.0, messages).1.len() ==> (
            #[trigger] history_run(marks, bot, allowed, thread.0, messages).1[i]).reply_target
                == thread.0,
        forall|i: int|
            0 <= i < replies_run(marks, bot, allowed, thread, messages).1.len() ==> (
            #[trigger] replies_run(marks, bot, allowed, thread, messages).1[i]).reply_target
                == thread.0,
    decreases messages.len(),
{
    if messages.len() > 0 {
        let head = messages.drop_last();
        answers_go_to_the_conversation(marks, bot, allowed, thread, head);
        let out = history_run(marks, bot, allowed, thread.0, head).1;
        let all = history_run(marks, bot, allowed, thread.0, messages).1;
        assert forall|i: int| 0 <= i < all.len() implies (#[trigger] all[i]).reply_target
            == thread.0 by {
            if i < out.len() {
                assert(all[i] == out[i]);
            }
        }
    }
}

/// The timestamp seen last in a conversation that stood at `start` before `out` was handed
/// on: that of the last message of `out`, where there is one.
pub open spec fn reached(channel: Seq<char>, start: Seq<char>, out: Seq<PendingView>) -> Seq<char> {
    if out.len() == 0 {
        start
    } else {
        ts_in(channel, out.last().id)
    }
}

/// Whether the timestamps of the messages of a conversation ascend strictly, all of them
/// later than `start`.
pub open spec fn ascending_after(
    channel: Seq<char>,
    start: Seq<char>,
    out: Seq<PendingView>,
) -> bool {
    &&& forall|i: int|
        0 <= i < out.len() ==> text_lt(start, ts_in(channel, (#[trigger] out[i]).id))
    &&& forall|i: int, j: int|
        0 <= i < j < out.len() ==> text_lt(
            ts_in(channel, (#[trigger] out[i]).id),
            ts_in(channel, (#[trigger] out[j]).id),
        )
}

/// One message more, later than the timestamp seen last, keeps the messages in order.
pub(crate) proof fn lemma_ascending_push(
    channel: Seq<char>,
    start: Seq<char>,
    out: Seq<PendingView>,
    message: PendingView,
)
    requires
        ascending_after(channel, start, out),
        text_lt(reached(channel, start, out), ts_in(channel, message.id)),
    ensures
        ascending_after(channel, start, out.push(message)),
{
    let all = out.push(message);
    let ts = ts_in(channel, message.id);
    let last = reached(channel, start, out);
    if out.len() > 0 {
        assert(text_lt(start, ts_in(channel, out[out.len() - 1].id)));
        lemma_lt_trans(start, last, ts);
    }
    assert forall|i: int| 0 <= i < out.len() implies text_lt(
        ts_in(channel, (#[trigger] out[i]).id),
        ts,
    ) by {
        if i < out.len() - 1 {
            assert(text_lt(ts_in(channel, out[i].id), ts_in(channel, out[out.len() - 1].id)));
            lemma_lt_trans(ts_in(channel, out[i].id), last, ts);
        }
    }
    assert forall|i: int| 0 <= i < all.len() implies text_lt(
        start,
        ts_in(channel, (#[trigger] all[i]).id),
    ) by {
        if i < out.len() {
            assert(all[i] == out[i]);
        }
    }
    assert forall|i: int, j: int| 0 <= i < j < all.len() implies text_lt(
        ts_in(channel, (#[trigger] all[i]).id),
        ts_in(channel, (#[trigger] all[j]).id),
    ) by {
        assert(all[i] == out[i]);
        if j < out.len() {
            assert(all[j] == out[j]);
        }
    }
}

/// A run hands its messages on in the strict order of their timestamps, all of them later
/// than the cursor, and the cursor moves to the last of them.
pub proof fn runs_hand_on_in_order(
    marks: MarksView,
    bot: Seq<char>,
    allowed: Seq<Seq<char>>,
    channel: Seq<char>,
    messages: Seq<PolledView>,
)
    ensures
        ({
            let (next, out) = history_run(marks, bot, allowed, channel, messages);
            let start = cursor_of(marks, channel);
            &&& ascending_after(channel, start, out)
            &&& cursor_of(next, channel) == reached(channel, start, out)
            &&& next.cursors.contains_key(channel) <==> marks.cursors.contains_key(channel)
                || out.len() > 0
        }),
    decreases messages.len(),
{
    if messages.len() > 0 {
        let head = messages.drop_last();
        let message = messages.last();
        runs_hand_on_in_order(marks, bot, allowed, channel, head);
        let (before, out) = history_run(marks, bot, allowed, channel, head);
        if news(bot, allowed, cursor_of(before, channel), message) {
            let handed = handed_on(channel, message);
            ids_hold_their_timestamps(channel, message.ts);
            lemma_ascending_push(channel, cursor_of(marks, channel), out, handed);
            assert(out.push(handed).last() == handed);
        }
    }
}

/// The ids of the messages that a run hands on are all different.
pub proof fn ids_are_handed_on_once(
    marks: MarksView,
    bot: Seq<char>,
    allowed: Seq<Seq<char>>,
    channel: Seq<char>,
    messages: Seq<PolledView>,
    i: int,
    j: int,
)
    requires
        0 <= i < j < history_run(marks, bot, allowed, channel, messages).1.len(),
    ensures
        history_run(marks, bot, allowed, channel, messages).1[i].id != history_run(
            marks,
            bot,
            allowed,
            channel,
            messages,
        ).1[j].id,
    decreases messages.len(),
{
    let head = messages.drop_last();
    let (before, out) = history_run(marks, bot, allowed, channel, head);
    if j < out.len() {
        ids_are_handed_on_once(marks, bot, allowed, channel, head, i, j);
    } else {
        lemma_id_up_to_cursor(marks, bot, allowed, channel, head, i);
        let ts = choose|ts: Seq<char>|
            out[i].id == #[trigger] id_text(channel, ts) && text_le(ts, cursor_of(before, channel));
        lemma_lt_trans(ts, cursor_of(before, channel), messages.last().ts);
        ids_differ_where_timestamps_differ(channel, ts, messages.last().ts);
    }
}

proof fn lemma_id_up_to_cursor(
    marks: MarksView,
    bot: Seq<char>,
    allowed: Seq<Seq<char>>,
    channel: Seq<char>,
    messages: Seq<PolledView>,
    i: int,
)
    requires
        0 <= i < history_run(marks, bot, allowed, channel, messages).1.len(),
    ensures
        exists|ts: Seq<char>|
            history_run(marks, bot, allowed, channel, messages).1[i].id == #[trigger] id_text(
                channel,
                ts,
            ) && text_le(
                ts,
                cursor_of(history_run(marks, bot, allowed, channel, messages).0, channel),
            ),
    decreases messages.len(),
{
    let head = messages.drop_last();
    let (before, out) = history_run(marks, bot, allowed, channel, head);
    let message = messages.last();
    if i < out.len() {
        lemma_id_up_to_cursor(marks, bot, allowed, channel, head, i);
        let ts = choose|ts: Seq<char>|
            out[i].id == #[trigger] id_text(channel, ts) && text_le(ts, cursor_of(before, channel));
        if news(bot, allowed, cursor_of(before, channel), message) {
            text_order_is_transitive(ts, cursor_of(before, channel), message.ts);
        }
        assert(out[i].id == id_text(channel, ts));
    } else {
        text_order_is_reflexive(message.ts);
        assert(handed_on(channel, message).id == id_text(channel, message.ts));
    }
}

/// A message that is news keeps the marks of all the threads that were known before, and
/// makes its own thread known.
proof fn lemma_noted_threads(marks: MarksView, channel: Seq<char>, message: PolledView)
    requires
        text_lt(cursor_of(marks, channel), message.ts),
    ensures
        handed_on(channel, message).thread_ts is Some,
        noted(marks, channel, message).threads.contains_key(
            (channel, handed_on(channel, message).thread_ts->0),
        ),
        forall|thread: ThreadId|
            marks.threads.contains_key(thread) ==> #[trigger] noted(
                marks,
                channel,
                message,
            ).threads.contains_key(thread) && noted(marks, channel, message).threads[thread]
                == marks.threads[thread],
{
    if message.ts.len() == 0 {
        assert(text_le(message.ts, cursor_of(marks, channel)));
        lemma_lt_not_le(cursor_of(marks, channel), message.ts);
    }
    let next = noted(marks, channel, message);
    let own = thread_of(message.thread_ts, message.ts)->0;
    let seen = MarksView { cursors: marks.cursors.insert(channel, message.ts), ..marks };
    assert(thread_of(message.thread_ts, message.ts) == Some(own));
    assert(next == tracking(seen, (channel, own), message.ts));
    assert(next.threads.contains_key((channel, own)));
}

/// Whether the thread of each of the messages `out` of a conversation has a mark in `next`,
/// and the threads that had a mark in `marks` have the same one there.
pub open spec fn threads_known(
    marks: MarksView,
    next: MarksView,
    channel: Seq<char>,
    out: Seq<PendingView>,
) -> bool {
    &&& forall|i: int|
        0 <= i < out.len() ==> (#[trigger] out[i]).thread_ts is Some && next.threads.contains_key(
            (channel, out[i].thread_ts->0),
        )
    &&& forall|thread: ThreadId|
        marks.threads.contains_key(thread) ==> #[trigger] next.threads.contains_key(thread)
            && next.threads[thread] == marks.threads[thread]
}

/// One message more that is news keeps the threads tracked.
proof fn lemma_threads_known_push(
    marks: MarksView,
    before: MarksView,
    channel: Seq<char>,
    out: Seq<PendingView>,
    message: PolledView,
)
    requires
        threads_known(marks, before, channel, out),
        text_lt(cursor_of(before, channel), message.ts),
    ensures
        threads_known(
            marks,
            noted(before, channel, message),
            channel,
            out.push(handed_on(channel, message)),
        ),
{
    let next = noted(before, channel, message);
    let all = out.push(handed_on(channel, message));
    lemma_noted_threads(before, channel, message);
    assert forall|i: int| 0 <= i < all.len() implies (#[trigger] all[i]).thread_ts is Some
        && next.threads.contains_key((channel, all[i].thread_ts->0)) by {
        if i < out.len() {
            assert(all[i] == out[i]);
            assert(before.threads.contains_key((channel, out[i].thread_ts->0)));
        } else {
            assert(all[i] == handed_on(channel, message));
        }
    }
    assert forall|thread: ThreadId| marks.threads.contains_key(thread) implies #[trigger]
        next.threads.contains_key(thread) && next.threads[thread] == marks.threads[thread] by {
        assert(before.threads.contains_key(thread));
    }
}

/// The thread of each message that a run hands on is known afterwards, so that it will be
/// polled; threads that were known before keep their marks.
pub proof fn threads_of_news_are_tracked(
    marks: MarksView,
    bot: Seq<char>,
    allowed: Seq<Seq<char>>,
    channel: Seq<char>,
    messages: Seq<PolledView>,
)
    ensures
        threads_known(
            marks,
            history_run(marks, bot, allowed, channel, messages).0,
            channel,
            history_run(marks, bot, allowed, channel, messages).1,
        ),
    decreases messages.len(),
{
    let run = history_run(marks, bot, allowed, channel, messages);
    if messages.len() == 0 {
        assert(run == (marks, Seq::<PendingView>::empty()));
        assert(threads_known(marks, marks, channel, Seq::empty()));
    } else {
        let head = messages.drop_last();
        let message = messages.last();
        let (before, out) = history_run(marks, bot, allowed, channel, head);
        threads_of_news_are_tracked(marks, bot, allowed, channel, head);
        assert(threads_known(marks, before, channel, out));
        if news(bot, allowed, cursor_of(before, channel), message) {
            lemma_threads_known_push(marks, before, channel, out, message);
            assert(run == (noted(before, channel, message), out.push(handed_on(channel, message))));
        } else {
            assert(run == (before, out));
        }
    }
}

/// Whether the threads that are listed are those that have a mark, each listed once.
pub open spec fn consistent(marks: MarksView) -> bool {
    &&& marks.order.no_duplicates()
    &&& forall|thread: ThreadId| #[trigger]
        marks.order.contains(thread) == marks.threads.contains_key(thread)
}

proof fn lemma_with_thread_consistent(marks: MarksView, thread: ThreadId, ts: Seq<char>)
    requires
        consistent(marks),
    ensures
        consistent(with_thread(marks, thread, ts)),
{
    let next = with_thread(marks, thread, ts);
    if !marks.threads.contains_key(thread) {
        assert(!marks.order.contains(thread));
        assert forall|t: ThreadId| #[trigger]
            next.order.contains(t) == next.threads.contains_key(t) by {
            if marks.order.contains(t) {
                let k = choose|k: int| 0 <= k < marks.order.len() && marks.order[k] == t;
                assert(next.order[k] == t);
            }
            assert(next.order[marks.order.len() as int] == thread);
            if next.order.contains(t) && t != thread {
                let k = choose|k: int| 0 <= k < next.order.len() && next.order[k] == t;
                assert(marks.order[k] == t);
            }
        }
    } else {
        assert forall|t: ThreadId| #[trigger]
            next.order.contains(t) == next.threads.contains_key(t) by {
            assert(marks.order.contains(t) == marks.threads.contains_key(t));
        }
    }
}

/// Runs through pages keep the list of the threads consistent with their marks.
pub proof fn runs_keep_marks_consistent(
    marks: MarksView,
    bot: Seq<char>,
    allowed: Seq<Seq<char>>,
    thread: ThreadId,
    messages: Seq<PolledView>,
)
    requires
        consistent(marks),
    ensures
        consistent(history_run(marks, bot, allowed, thread.0, messages).0),
        consistent(replies_run(marks, bot, allowed, thread, messages).0),
    decreases messages.len(),
{
    if messages.len() > 0 {
        let head = messages.drop_last();
        runs_keep_marks_consistent(marks, bot, allowed, thread, head);
        let before = history_run(marks, bot, allowed, thread.0, head).0;
        let message = messages.last();
        let seen = MarksView { cursors: before.cursors.insert(thread.0, message.ts), ..before };
        assert(consistent(seen)) by {
            assert forall|t: ThreadId| #[trigger]
                seen.order.contains(t) == seen.threads.contains_key(t) by {
                assert(before.order.contains(t) == before.threads.contains_key(t));
            }
        }
        match thread_of(message.thread_ts, message.ts) {
            Some(t) => {
                lemma_with_thread_consistent(seen, (thread.0, t), message.ts);
            },
            None => {},
        }
    }
    let fresh = new_replies(bot, allowed, mark_of(marks, thread), messages);
    if fresh.len() > 0 {
        lemma_with_thread_consistent(marks, thread, fresh.last().ts);
    }
}

/// The threads of a conversation that are polled are those of its threads that have a mark.
pub proof fn known_threads_are_polled(marks: MarksView, channel: Seq<char>, thread: Seq<char>)
    requires
        consistent(marks),
    ensures
        threads_in(marks.order, channel).contains(thread) <==> marks.threads.contains_key(
            (channel, thread),
        ),
{
    let of_channel = in_channel(channel);
    let second = |t: ThreadId| t.1;
    let own = marks.order.filter(of_channel);
    let id = (channel, thread);
    assert(marks.order.contains(id) == marks.threads.contains_key(id));
    lemma_filter_contains(marks.order, of_channel);
    if marks.order.contains(id) {
        assert(own.contains(id));
        let k = choose|k: int| 0 <= k < own.len() && own[k] == id;
        assert(own.map_values(second)[k] == thread);
    }
    let polled = own.map_values(second);
    if polled.contains(thread) {
        let k = choose|k: int| 0 <= k < polled.len() && polled[k] == thread;
        assert(own.contains(own[k]));
        assert(own[k] == id);
    }
}

proof fn lemma_filter_contains(s: Seq<ThreadId>, p: spec_fn(ThreadId) -> bool)
    ensures
        forall|t: ThreadId| #[trigger] s.filter(p).contains(t) <==> s.contains(t) && p(t),
    decreases s.len(),
{
    reveal(Seq::filter);
    if s.len() > 0 {
        let head = s.drop_last();
        lemma_filter_contains(head, p);
        assert forall|t: ThreadId| #[trigger]
            s.filter(p).contains(t) <==> s.contains(t) && p(t) by {
            let f = head.filter(p);
            assert(f.contains(t) <==> head.contains(t) && p(t));
            if head.contains(t) {
                let k = choose|k: int| 0 <= k < head.len() && head[k] == t;
                assert(s[k] == t);
            }
            if s.contains(t) {
                let k = choose|k: int| 0 <= k < s.len() && s[k] == t;
                if k < head.len() {
                    assert(head[k] == t);
                }
            }
            assert(s[s.len() - 1] == s.last());
            if p(s.last()) {
                let g = f.push(s.last());
                assert(g[f.len() as int] == s.last());
                if f.contains(t) {
                    let k = choose|k: int| 0 <= k < f.len() && f[k] == t;
                    assert(g[k] == t);
                }
                if g.contains(t) {
                    let k = choose|k: int| 0 <= k < g.len() && g[k] == t;
                    if k < f.len() {
                        assert(f[k] == t);
                    }
                }
            }
        }
    }
}

/// Replies that come again are passed over, where the last of the new ones was the latest
/// of them: nothing changes, and nothing is handed on.
pub proof fn replies_that_come_again_are_passed_over(
    marks: MarksView,
    bot: Seq<char>,
    allowed: Seq<Seq<char>>,
    thread: ThreadId,
    replies: Seq<PolledView>,
)
    requires
        forall|i: int|
            #![trigger new_replies(bot, allowed, mark_of(marks, thread), replies)[i]]
            0 <= i < new_replies(bot, allowed, mark_of(marks, thread), replies).len() ==> text_le(
                new_replies(bot, allowed, mark_of(marks, thread), replies)[i].ts,
                new_replies(bot, allowed, mark_of(marks, thread), replies).last().ts,
            ),
    ensures
        ({
            let next = replies_run(marks, bot, allowed, thread, replies).0;
            replies_run(next, bot, allowed, thread, replies) == (next, Seq::<PendingView>::empty())
        }),
{
    let last = mark_of(marks, thread);
    let fresh = new_replies(bot, allowed, last, replies);
    let next = replies_run(marks, bot, allowed, thread, replies).0;
    let mark = mark_of(next, thread);
    assert forall|i: int| 0 <= i < replies.len() implies !news(
        bot,
        allowed,
        mark,
        #[trigger] replies[i],
    ) by {
        let m = replies[i];
        if news(bot, allowed, mark, m) {
            if fresh.len() > 0 {
                lemma_fresh_contains(replies, bot, allowed, last, fresh.len() - 1);
                lemma_lt_trans(last, mark, m.ts);
            }
            lemma_news_is_fresh(replies, bot, allowed, last, i);
            let k = choose|k: int| 0 <= k < fresh.len() && fresh[k] == m;
            assert(fresh[k].ts == m.ts);
            lemma_lt_not_le(mark, m.ts);
        }
    }
    lemma_nothing_fresh(replies, bot, allowed, mark);
    let none = new_replies(bot, allowed, mark, replies);
    assert(none.map_values(|m: PolledView| reply_handed_on(thread, m)) =~= Seq::<
        PendingView,
    >::empty());
}

/// What is among the new replies is a reply, and news.
proof fn lemma_fresh_contains(
    replies: Seq<PolledView>,
    bot: Seq<char>,
    allowed: Seq<Seq<char>>,
    last: Seq<char>,
    k: int,
)
    requires
        0 <= k < new_replies(bot, allowed, last, replies).len(),
    ensures
        news(bot, allowed, last, new_replies(bot, allowed, last, replies)[k]),
        replies.contains(new_replies(bot, allowed, last, replies)[k]),
    decreases replies.len(),
{
    reveal(Seq::filter);
    if replies.len() > 0 {
        let head = replies.drop_last();
        let fresh = new_replies(bot, allowed, last, head);
        if k < fresh.len() {
            lemma_fresh_contains(head, bot, allowed, last, k);
            let j = choose|j: int| 0 <= j < head.len() && head[j] == fresh[k];
            assert(replies[j] == fresh[k]);
        } else {
            assert(replies[replies.len() - 1] == replies.last());
        }
    }
}

/// A reply that is news is among the new replies.
proof fn lemma_news_is_fresh(
    replies: Seq<PolledView>,
    bot: Seq<char>,
    allowed: Seq<Seq<char>>,
    last: Seq<char>,
    i: int,
)
    requires
        0 <= i < replies.len(),
        news(bot, allowed, last, replies[i]),
    ensures
        new_replies(bot, allowed, last, replies).contains(replies[i]),
    decreases replies.len(),
{
    reveal(Seq::filter);
    let head = replies.drop_last();
    let was = new_replies(bot, allowed, last, head);
    let now = new_replies(bot, allowed, last, replies);
    if i < head.len() {
        lemma_news_is_fresh(head, bot, allowed, last, i);
        let k = choose|k: int| 0 <= k < was.len() && was[k] == replies[i];
        assert(now[k] == replies[i]);
    } else {
        assert(now == was.push(replies[i]));
        assert(now[was.len() as int] == replies[i]);
    }
}

proof fn lemma_nothing_fresh(
    replies: Seq<PolledView>,
    bot: Seq<char>,
    allowed: Seq<Seq<char>>,
    last: Seq<char>,
)
    requires
        forall|i: int| 0 <= i < replies.len() ==> !news(bot, allowed, last, #[trigger] replies[i]),
    ensures
        new_replies(bot, allowed, last, replies).len() == 0,
    decreases replies.len(),
{
    reveal(Seq::filter);
    if replies.len() > 0 {
        let head = replies.drop_last();
        assert forall|i: int| 0 <= i < head.len() implies !news(
            bot,
            allowed,
            last,
            #[trigger] head[i],
        ) by {
            assert(head[i] == replies[i]);
        }
        lemma_nothing_fresh(head, bot, allowed, last);
        assert(!news(bot, allowed, last, replies[replies.len() - 1]));
    }
}

/// Only news is handed on from a thread: each message is a reply of the page with a text, of
/// an allowed sender who is not the bot, and later than the mark of the thread. It is handed
/// on as a message of that thread.
pub proof fn only_new_replies_are_handed_on(
    marks: MarksView,
    bot: Seq<char>,
    allowed: Seq<Seq<char>>,
    thread: ThreadId,
    replies: Seq<PolledView>,
    i: int,
)
    requires
        0 <= i < replies_run(marks, bot, allowed, thread, replies).1.len(),
    ensures
        exists|m: PolledView|
            replies.contains(m) && news(bot, allowed, mark_of(marks, thread), m) && replies_run(
                marks,
                bot,
                allowed,
                thread,
                replies,
            ).1[i] == #[trigger] reply_handed_on(thread, m),
        replies_run(marks, bot, allowed, thread, replies).1[i].thread_ts == Some(thread.1),
{
    let last = mark_of(marks, thread);
    let m = new_replies(bot, allowed, last, replies)[i];
    lemma_fresh_contains(replies, bot, allowed, last, i);
    assert(replies_run(marks, bot, allowed, thread, replies).1[i] == reply_handed_on(thread, m));
}

/// A thread starts behind the message that made it known: neither that message nor an
/// earlier one is handed on once more when the replies in the thread are asked for.
pub proof fn threads_start_behind_their_first_message(
    marks: MarksView,
    bot: Seq<char>,
    allowed: Seq<Seq<char>>,
    channel: Seq<char>,
    message: PolledView,
    reply: PolledView,
)
    requires
        thread_of(message.thread_ts, message.ts) matches Some(thread)
            && !marks.threads.contains_key((channel, thread)),
        text_le(reply.ts, message.ts),
    ensures
        ({
            let thread = (channel, thread_of(message.thread_ts, message.ts)->0);
            !news(bot, allowed, mark_of(noted(marks, channel, message), thread), reply)
        }),
{
    if text_lt(message.ts, reply.ts) {
        lemma_lt_not_le(message.ts, reply.ts);
    }
}

/// What a page of replies does to the marks: that of the thread does not go back, and those
/// of the other threads and all the cursors stay.
pub proof fn thread_marks_never_go_back(
    marks: MarksView,
    bot: Seq<char>,
    allowed: Seq<Seq<char>>,
    thread: ThreadId,
    replies: Seq<PolledView>,
    other: ThreadId,
)
    ensures
        ({
            let next = replies_run(marks, bot, allowed, thread, replies).0;
            &&& text_le(mark_of(marks, thread), mark_of(next, thread))
            &&& next.cursors == marks.cursors
            &&& other != thread ==> next.threads.contains_key(other) == marks.threads.contains_key(
                other,
            ) && mark_of(next, other) == mark_of(marks, other)
        }),
{
    let last = mark_of(marks, thread);
    let fresh = new_replies(bot, allowed, last, replies);
    if fresh.len() == 0 {
        text_order_is_reflexive(last);
    } else {
        lemma_fresh_contains(replies, bot, allowed, last, fresh.len() - 1);
    }
}

/// A message is read from the members that bear its parts, whatever its other members are: its
/// text is the whole text under `text`, of a message of any kind.
pub proof fn messages_are_read_member_by_member(json: Json)
    ensures
        polled_message(json).ts == match text_member(json, "ts"@) {
            Some(ts) => ts,
            None => ""@,
        },
        polled_message(json).user == match text_member(json, "user"@) {
            Some(user) => user,
            None => "unknown"@,
        },
        polled_message(json).text == match text_member(json, "text"@) {
            Some(text) => text,
            None => ""@,
        },
        polled_message(json).thread_ts == text_member(json, "thread_ts"@),
{
}

/// Each item of the array under `messages` is read, in its place.
pub proof fn pages_are_read_item_by_item(json: Json, items: Seq<Json>, i: int)
    ensures
        array_member(json, "messages"@) is None ==> polled_messages(json).len() == 0,
        array_member(json, "messages"@) == Some(items) ==> polled_messages(json).len()
            == items.len() && (0 <= i < items.len() ==> polled_messages(json)[i] == polled_message(
            items[i],
        )),
{
}

/// A history is had unless it is said to be refused; replies are had only where they are said
/// to be granted. What is had is the whole page.
pub proof fn pages_are_had_where_granted(json: Json)
    ensures
        bool_member(json, "ok"@) == Some(false) ==> history_page(Some(json)) is None,
        bool_member(json, "ok"@) != Some(false) ==> history_page(Some(json)) == Some(
            polled_messages(json),
        ),
        bool_member(json, "ok"@) == Some(true) ==> replies_page(Some(json)) == Some(
            polled_messages(json),
        ),
        bool_member(json, "ok"@) != Some(true) ==> replies_page(Some(json)) is None,
        history_page(None) is None,
        replies_page(None) is None,
{
}

/// Four things make a message news, and nothing else plays a part: its sender is not the bot,
/// its sender is allowed, it has a text, and it is later than what was seen last.
pub proof fn four_things_make_news(
    bot: Seq<char>,
    allowed: Seq<Seq<char>>,
    last: Seq<char>,
    message: PolledView,
)
    ensures
        news(bot, allowed, last, message) <==> message.user != bot && (allowed.contains("*"@)
            || allowed.contains(message.user)) && message.text.len() > 0 && text_lt(
            last,
            message.ts,
        ),
{
}

/// The text seen last in a conversation or a thread is its mark, or the empty text.
pub proof fn marks_are_what_was_seen_last(
    marks: MarksView,
    channel: Seq<char>,
    thread: ThreadId,
    ts: Seq<char>,
)
    ensures
        cursor_of(
            MarksView { cursors: marks.cursors.insert(channel, ts), ..marks },
            channel,
        ) == ts,
        cursor_of(
            MarksView { cursors: marks.cursors.remove(channel), ..marks },
            channel,
        ) == ""@,
        mark_of(MarksView { threads: marks.threads.insert(thread, ts), ..marks }, thread) == ts,
        mark_of(MarksView { threads: marks.threads.remove(thread), ..marks }, thread) == ""@,
{
}

/// How one message more changes a run through a history, whatever came before it: one of an
/// allowed sender other than the bot, with a text, and later than the cursor reached, is handed
/// on behind the others, whole; the cursor moves to it, and its thread becomes known, from this
/// message on where it was not known before. Any other message changes nothing.
pub proof fn runs_go_message_by_message(
    marks: MarksView,
    bot: Seq<char>,
    allowed: Seq<Seq<char>>,
    channel: Seq<char>,
    messages: Seq<PolledView>,
    message: PolledView,
)
    ensures
        history_run(marks, bot, allowed, channel, Seq::empty()) == (
            marks,
            Seq::<PendingView>::empty(),
        ),
        ({
            let (before, out) = history_run(marks, bot, allowed, channel, messages);
            let after = history_run(marks, bot, allowed, channel, messages.push(message));
            let cursor = if before.cursors.contains_key(channel) {
                before.cursors[channel]
            } else {
                ""@
            };
            let thread = match message.thread_ts {
                Some(ts) => ts,
                None => message.ts,
            };
            if message.user != bot && (allowed.contains("*"@) || allowed.contains(message.user))
                && message.text.len() > 0 && text_lt(cursor, message.ts) {
                &&& after.1 == out.push(
                    PendingView {
                        id: "slack_"@ + channel + "_"@ + message.ts,
                        sender: message.user,
                        reply_target: channel,
                        content: message.text,
                        channel: "slack"@,
                        thread_ts: Some(thread),
                    },
                )
                &&& after.0.cursors == before.cursors.insert(channel, message.ts)
                &&& before.threads.contains_key((channel, thread)) ==> after.0.threads
                    == before.threads && after.0.order == before.order
                &&& !before.threads.contains_key((channel, thread)) ==> after.0.threads
                    == before.threads.insert((channel, thread), message.ts) && after.0.order
                    == before.order.push((channel, thread))
            } else {
                after == (before, out)
            }
        }),
{
    let (before, out) = history_run(marks, bot, allowed, channel, messages);
    let all = messages.push(message);
    assert(all.drop_last() =~= messages);
    assert(all.last() == message);
    if text_lt(cursor_of(before, channel), message.ts) && message.ts.len() == 0 {
        assert(text_le(message.ts, cursor_of(before, channel)));
        lemma_lt_not_le(cursor_of(before, channel), message.ts);
    }
}

/// No news of a conversation is lost: a message of an allowed sender other than the bot, with a
/// text, and later than the cursor, is handed on, whole, unless one that is not earlier was
/// handed on before it.
pub proof fn no_news_is_lost(
    marks: MarksView,
    bot: Seq<char>,
    allowed: Seq<Seq<char>>,
    channel: Seq<char>,
    messages: Seq<PolledView>,
    j: int,
)
    requires
        0 <= j < messages.len(),
        messages[j].user != bot,
        allowed.contains("*"@) || allowed.contains(messages[j].user),
        messages[j].text.len() > 0,
        text_lt(
            if marks.cursors.contains_key(channel) {
                marks.cursors[channel]
            } else {
                ""@
            },
            messages[j].ts,
        ),
    ensures
        history_run(marks, bot, allowed, channel, messages).1.contains(
            PendingView {
                id: "slack_"@ + channel + "_"@ + messages[j].ts,
                sender: messages[j].user,
                reply_target: channel,
                content: messages[j].text,
                channel: "slack"@,
                thread_ts: Some(
                    match messages[j].thread_ts {
                        Some(ts) => ts,
                        None => messages[j].ts,
                    },
                ),
            },
        ) || exists|i: int|
            0 <= i < j && text_le(messages[j].ts, (#[trigger] messages[i]).ts) && history_run(
                marks,
                bot,
                allowed,
                channel,
                messages,
            ).1.contains(handed_on(channel, messages[i])),
    decreases messages.len(),
{
    let head = messages.drop_last();
    let message = messages.last();
    let (before, out) = history_run(marks, bot, allowed, channel, head);
    let all = history_run(marks, bot, allowed, channel, messages).1;
    let m = messages[j];
    assert(messages =~= head.push(message));
    runs_go_message_by_message(marks, bot, allowed, channel, head, message);
    assert forall|p: PendingView| out.contains(p) implies #[trigger] all.contains(p) by {
        let k = choose|k: int| 0 <= k < out.len() && out[k] == p;
        assert(all[k] == p);
    }
    if j < head.len() {
        assert(head[j] == m);
        no_news_is_lost(marks, bot, allowed, channel, head, j);
        let own = PendingView {
            id: "slack_"@ + channel + "_"@ + m.ts,
            sender: m.user,
            reply_target: channel,
            content: m.text,
            channel: "slack"@,
            thread_ts: Some(
                match m.thread_ts {
                    Some(ts) => ts,
                    None => m.ts,
                },
            ),
        };
        if !out.contains(own) {
            let i = choose|i: int|
                0 <= i < j && text_le(head[j].ts, (#[trigger] head[i]).ts) && out.contains(
                    handed_on(channel, head[i]),
                );
            assert(messages[i] == head[i]);
            assert(all.contains(handed_on(channel, messages[i])));
        }
    } else {
        let c0 = cursor_of(marks, channel);
        let c = cursor_of(before, channel);
        if text_lt(c, m.ts) {
            assert(all[out.len() as int] == all.last());
        } else {
            runs_hand_on_in_order(marks, bot, allowed, channel, head);
            assert(out.len() > 0);
            only_news_is_handed_on(marks, bot, allowed, channel, head, out.len() - 1);
            let i = choose|i: int|
                0 <= i < head.len() && news(bot, allowed, c0, #[trigger] head[i]) && out[out.len()
                    - 1] == handed_on(channel, head[i]);
            ids_hold_their_timestamps(channel, head[i].ts);
            assert(c == head[i].ts);
            assert(messages[i] == head[i]);
            assert(all.contains(out[out.len() - 1])) by {
                assert(out.contains(out[out.len() - 1]));
            }
            if !text_le(m.ts, c) {
                lemma_not_le(m.ts, c);
            }
        }
    }
}

/// A run hands on nothing but what stands in the page: each message handed on has the sender
/// and the whole text of one of the messages, in the conversation and the thread of that one.
pub proof fn nothing_is_made_up(
    marks: MarksView,
    bot: Seq<char>,
    allowed: Seq<Seq<char>>,
    channel: Seq<char>,
    messages: Seq<PolledView>,
    i: int,
)
    requires
        0 <= i < history_run(marks, bot, allowed, channel, messages).1.len(),
    ensures
        exists|j: int|
            0 <= j < messages.len() && (#[trigger] messages[j]).user != bot && (allowed.contains(
                "*"@,
            ) || allowed.contains(messages[j].user)) && messages[j].text.len() > 0 && history_run(
                marks,
                bot,
                allowed,
                channel,
                messages,
            ).1[i] == (PendingView {
                id: "slack_"@ + channel + "_"@ + messages[j].ts,
                sender: messages[j].user,
                reply_target: channel,
                content: messages[j].text,
                channel: "slack"@,
                thread_ts: Some(
                    match messages[j].thread_ts {
                        Some(ts) => ts,
                        None => messages[j].ts,
                    },
                ),
            }),
    decreases messages.len(),
{
    let head = messages.drop_last();
    let out = history_run(marks, bot, allowed, channel, head).1;
    assert(messages =~= head.push(messages.last()));
    runs_go_message_by_message(marks, bot, allowed, channel, head, messages.last());
    if i < out.len() {
        nothing_is_made_up(marks, bot, allowed, channel, head, i);
        let j = choose|j: int|
            0 <= j < head.len() && (#[trigger] head[j]).user != bot && (allowed.contains("*"@)
                || allowed.contains(head[j].user)) && head[j].text.len() > 0 && out[i] == (
            PendingView {
                id: "slack_"@ + channel + "_"@ + head[j].ts,
                sender: head[j].user,
                reply_target: channel,
                content: head[j].text,
                channel: "slack"@,
                thread_ts: Some(
                    match head[j].thread_ts {
                        Some(ts) => ts,
                        None => head[j].ts,
                    },
                ),
            });
        assert(messages[j] == head[j]);
    } else {
        assert(messages[messages.len() - 1] == messages.last());
    }
}

/// From the document to the bot: of a history that is not refused, with its newest message
/// first, each item with a text, of an allowed user other than the bot, and later than the
/// cursor, is handed on with that text, whatever else the item holds.
pub proof fn items_of_a_history_are_handed_on(
    marks: MarksView,
    bot: Seq<char>,
    allowed: Seq<Seq<char>>,
    channel: Seq<char>,
    json: Json,
    items: Seq<Json>,
    j: int,
    ts: Seq<char>,
    user: Seq<char>,
    text: Seq<char>,
)
    requires
        bool_member(json, "ok"@) != Some(false),
        array_member(json, "messages"@) == Some(items),
        forall|a: int, b: int|
            0 <= a < b < items.len() ==> text_lt(
                text_or(text_member(#[trigger] items[b], "ts"@), ""@),
                text_or(text_member(#[trigger] items[a], "ts"@), ""@),
            ),
        0 <= j < items.len(),
        text_member(items[j], "ts"@) == Some(ts),
        text_or(text_member(items[j], "user"@), "unknown"@) == user,
        text_member(items[j], "text"@) == Some(text),
        user != bot,
        allowed.contains("*"@) || allowed.contains(user),
        text.len() > 0,
        text_lt(
            if marks.cursors.contains_key(channel) {
                marks.cursors[channel]
            } else {
                ""@
            },
            ts,
        ),
    ensures
        history_page(Some(json)) is Some,
        history_run(
            marks,
            bot,
            allowed,
            channel,
            history_page(Some(json))->0.reverse(),
        ).1.contains(
            PendingView {
                id: "slack_"@ + channel + "_"@ + ts,
                sender: user,
                reply_target: channel,
                content: text,
                channel: "slack"@,
                thread_ts: Some(text_or(text_member(items[j], "thread_ts"@), ts)),
            },
        ),
{
    let page = history_page(Some(json))->0;
    let messages = page.reverse();
    let k = items.len() - 1 - j;
    assert(page.len() == items.len());
    assert(page[j] == polled_message(items[j]));
    assert(messages[k] == page[j]);
    no_news_is_lost(marks, bot, allowed, channel, messages, k);
    assert forall|i: int| 0 <= i < k implies !text_le(
        messages[k].ts,
        (#[trigger] messages[i]).ts,
    ) by {
        let a = items.len() - 1 - i;
        assert(messages[i] == polled_message(items[a]));
        assert(text_lt(
            text_or(text_member(items[a], "ts"@), ""@),
            text_or(text_member(items[j], "ts"@), ""@),
        ));
        lemma_lt_not_le(messages[i].ts, messages[k].ts);
    }
}

/// No reply is lost: exactly the replies of allowed senders other than the bot, with a text,
/// and later than the mark of the thread before the page, are handed on, whole and in the order
/// of the page, whichever thread they name themselves. The mark moves to the last of them, and
/// nothing else changes.
pub proof fn no_reply_is_lost(
    marks: MarksView,
    bot: Seq<char>,
    allowed: Seq<Seq<char>>,
    thread: ThreadId,
    replies: Seq<PolledView>,
)
    ensures
        ({
            let mark = if marks.threads.contains_key(thread) {
                marks.threads[thread]
            } else {
                ""@
            };
            let fresh = replies.filter(
                |m: PolledView|
                    m.user != bot && (allowed.contains("*"@) || allowed.contains(m.user))
                        && m.text.len() > 0 && text_lt(mark, m.ts),
            );
            let (next, out) = replies_run(marks, bot, allowed, thread, replies);
            &&& out == fresh.map_values(
                |m: PolledView|
                    PendingView {
                        id: "slack_"@ + thread.0 + "_"@ + m.ts,
                        sender: m.user,
                        reply_target: thread.0,
                        content: m.text,
                        channel: "slack"@,
                        thread_ts: Some(thread.1),
                    },
            )
            &&& next.cursors == marks.cursors
            &&& fresh.len() == 0 ==> next == marks
            &&& fresh.len() > 0 ==> next.threads == marks.threads.insert(thread, fresh.last().ts)
            &&& fresh.len() > 0 && marks.threads.contains_key(thread) ==> next.order == marks.order
            &&& fresh.len() > 0 && !marks.threads.contains_key(thread) ==> next.order
                == marks.order.push(thread)
        }),
{
    let mark = mark_of(marks, thread);
    let p = |m: PolledView|
        m.user != bot && (allowed.contains("*"@) || allowed.contains(m.user)) && m.text.len() > 0
            && text_lt(mark, m.ts);
    let q = |m: PolledView| news(bot, allowed, mark, m);
    lemma_same_filter(replies, p, q);
    let fresh = replies.filter(p);
    let out = replies_run(marks, bot, allowed, thread, replies).1;
    assert(out =~= fresh.map_values(
        |m: PolledView|
            PendingView {
                id: "slack_"@ + thread.0 + "_"@ + m.ts,
                sender: m.user,
                reply_target: thread.0,
                content: m.text,
                channel: "slack"@,
                thread_ts: Some(thread.1),
            },
    ));
}

proof fn lemma_same_filter(
    s: Seq<PolledView>,
    p: spec_fn(PolledView) -> bool,
    q: spec_fn(PolledView) -> bool,
)
    requires
        forall|m: PolledView| #[trigger] p(m) == q(m),
    ensures
        s.filter(p) == s.filter(q),
    decreases s.len(),
{
    reveal(Seq::filter);
    if s.len() > 0 {
        lemma_same_filter(s.drop_last(), p, q);
        assert(p(s.last()) == q(s.last()));
    }
}

/// A reply of an allowed sender other than the bot, with a text, and later than the mark of the
/// thread, is handed on in that thread, whichever thread it names itself.
pub proof fn new_replies_are_handed_on(
    marks: MarksView,
    bot: Seq<char>,
    allowed: Seq<Seq<char>>,
    thread: ThreadId,
    replies: Seq<PolledView>,
    i: int,
)
    requires
        0 <= i < replies.len(),
        replies[i].user != bot,
        allowed.contains("*"@) || allowed.contains(replies[i].user),
        replies[i].text.len() > 0,
        text_lt(
            if marks.threads.contains_key(thread) {
                marks.threads[thread]
            } else {
                ""@
            },
            replies[i].ts,
        ),
    ensures
        replies_run(marks, bot, allowed, thread, replies).1.contains(
            PendingView {
                id: "slack_"@ + thread.0 + "_"@ + replies[i].ts,
                sender: replies[i].user,
                reply_target: thread.0,
                content: replies[i].text,
                channel: "slack"@,
                thread_ts: Some(thread.1),
            },
        ),
{
    let mark = mark_of(marks, thread);
    let fresh = new_replies(bot, allowed, mark, replies);
    let out = replies_run(marks, bot, allowed, thread, replies).1;
    lemma_news_is_fresh(replies, bot, allowed, mark, i);
    let k = choose|k: int| 0 <= k < fresh.len() && fresh[k] == replies[i];
    assert(out[k] == reply_handed_on(thread, replies[i]));
}

/// From the document to the bot: of a page of replies that is granted, each item with a text,
/// of an allowed user other than the bot, and later than the mark of the thread, is handed on
/// with that text, whatever else the item holds.
pub proof fn items_of_a_thread_are_handed_on(
    marks: MarksView,
    bot: Seq<char>,
    allowed: Seq<Seq<char>>,
    thread: ThreadId,
    json: Json,
    items: Seq<Json>,
    i: int,
    ts: Seq<char>,
    user: Seq<char>,
    text: Seq<char>,
)
    requires
        bool_member(json, "ok"@) == Some(true),
        array_member(json, "messages"@) == Some(items),
        0 <= i < items.len(),
        text_member(items[i], "ts"@) == Some(ts),
        text_or(text_member(items[i], "user"@), "unknown"@) == user,
        text_member(items[i], "text"@) == Some(text),
        user != bot,
        allowed.contains("*"@) || allowed.contains(user),
        text.len() > 0,
        text_lt(
            if marks.threads.contains_key(thread) {
                marks.threads[thread]
            } else {
                ""@
            },
            ts,
        ),
    ensures
        replies_page(Some(json)) is Some,
        replies_run(marks, bot, allowed, thread, replies_page(Some(json))->0).1.contains(
            PendingView {
                id: "slack_"@ + thread.0 + "_"@ + ts,
                sender: user,
                reply_target: thread.0,
                content: text,
                channel: "slack"@,
                thread_ts: Some(thread.1),
            },
        ),
{
    let page = replies_page(Some(json))->0;
    assert(page[i] == polled_message(items[i]));
    new_replies_are_handed_on(marks, bot, allowed, thread, page, i);
}

/// How one thread more changes the threads of a conversation: it comes behind the others where
/// it is in the conversation, and plays no part where it is not.
pub proof fn threads_are_listed_one_by_one(
    order: Seq<ThreadId>,
    thread: ThreadId,
    channel: Seq<char>,
)
    ensures
        threads_in(Seq::empty(), channel).len() == 0,
        thread.0 == channel ==> threads_in(order.push(thread), channel) == threads_in(
            order,
            channel,
        ).push(thread.1),
        thread.0 != channel ==> threads_in(order.push(thread), channel) == threads_in(
            order,
            channel,
        ),
{
    reveal(Seq::filter);
    let all = order.push(thread);
    let of_channel = in_channel(channel);
    assert(all.drop_last() =~= order);
    assert(all.last() == thread);
    assert(Seq::<ThreadId>::empty().filter(of_channel).len() == 0);
    if thread.0 == channel {
        assert(all.filter(of_channel) == order.filter(of_channel).push(thread));
        assert(threads_in(all, channel) =~= threads_in(order, channel).push(thread.1));
    }
}

/// Each field of a message counts, and each message of a page, in its place.
pub proof fn pages_are_viewed_field_by_field(messages: Vec<PolledMessage>, i: int)
    requires
        0 <= i < messages@.len(),
    ensures
        page_view(Some(messages)) == Some(polled_views(messages@)),
        page_view(None) is None,
        polled_views(messages@).len() == messages@.len(),
        polled_views(messages@)[i] == messages@[i]@,
        messages@[i]@.ts == messages@[i].ts@,
        messages@[i]@.user == messages@[i].user@,
        messages@[i]@.text == messages@[i].text@,
        messages@[i]@.thread_ts == opt_text(messages@[i].thread_ts),
{
}

/// The pause between two rounds is three seconds, and the list of conversations is asked for
/// again after a minute.
pub proof fn rounds_keep_their_pace()
    ensures
        POLL_INTERVAL_SECS == 3,
        DISCOVERY_INTERVAL_NANOS == 60 * 1_000_000_000,
{
}

} // verus!
