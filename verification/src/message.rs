//! Messages: those that come in, those that go out, and their ids.

use crate::json::{
    member_keys, members_text, object_text, quoted, quoted_texts_are_read_back, write_object,
};
use crate::text::{ascending, opt_text, pairs, text_le, text_lt};
use vstd::prelude::*;
use vstd::string::*;

verus! {

/// A message that came in on a channel.
#[derive(Debug, Clone)]
pub struct ChannelMessage {
    pub id: String,
    pub sender: String,
    pub reply_target: String,
    pub content: String,
    pub channel: String,
    pub timestamp: u64,
    pub thread_ts: Option<String>,
}

/// A message to be sent.
#[derive(Debug, Clone)]
pub struct SendMessage {
    pub recipient: String,
    pub content: String,
    pub thread_ts: Option<String>,
}

/// An inbound message that is yet to be handed on, and gets its time then.
#[derive(Debug, Clone)]
pub struct PendingMessage {
    pub id: String,
    pub sender: String,
    pub reply_target: String,
    pub content: String,
    pub channel: String,
    pub thread_ts: Option<String>,
}

/// What a [`PendingMessage`] holds.
pub struct PendingView {
    pub id: Seq<char>,
    pub sender: Seq<char>,
    pub reply_target: Seq<char>,
    pub content: Seq<char>,
    pub channel: Seq<char>,
    pub thread_ts: Option<Seq<char>>,
}

impl View for PendingMessage {
    type V = PendingView;

    open spec fn view(&self) -> PendingView {
        PendingView {
            id: self.id@,
            sender: self.sender@,
            reply_target: self.reply_target@,
            content: self.content@,
            channel: self.channel@,
            thread_ts: opt_text(self.thread_ts),
        }
    }
}

/// What each of `messages` holds.
pub open spec fn pending_views(messages: Seq<PendingMessage>) -> Seq<PendingView> {
    messages.map_values(|m: PendingMessage| m@)
}

/// The id of the message with the timestamp `ts` in a channel.
pub open spec fn id_text(channel: Seq<char>, ts: Seq<char>) -> Seq<char> {
    "slack_"@ + channel + "_"@ + ts
}

/// The message that `sender` wrote in a channel at `ts`.
pub open spec fn inbound(
    channel: Seq<char>,
    ts: Seq<char>,
    sender: Seq<char>,
    content: Seq<char>,
    thread_ts: Option<Seq<char>>,
) -> PendingView {
    PendingView {
        id: id_text(channel, ts),
        sender,
        reply_target: channel,
        content,
        channel: "slack"@,
        thread_ts,
    }
}

/// The id of the message with the timestamp `ts` in the channel `channel_id`.
pub fn message_id(channel_id: &str, ts: &str) -> (id: String)
    ensures
        id@ == id_text(channel_id@, ts@),
        id@ == "slack_"@ + channel_id@ + "_"@ + ts@,
{
    let mut id = "slack_".to_owned();
    id.append(channel_id);
    id.append("_");
    id.append(ts);
    id
}

/// The message that `sender` wrote in the channel `channel_id` at `ts`.
pub fn inbound_message(
    channel_id: &str,
    ts: &str,
    sender: &str,
    content: String,
    thread_ts: Option<String>,
) -> (r: PendingMessage)
    ensures
        r@ == inbound(channel_id@, ts@, sender@, content@, opt_text(thread_ts)),
        r.id@ == "slack_"@ + channel_id@ + "_"@ + ts@,
        r.sender@ == sender@,
        r.reply_target@ == channel_id@,
        r.content@ == content@,
        r.channel@ == "slack"@,
        opt_text(r.thread_ts) == opt_text(thread_ts),
{
    PendingMessage {
        id: message_id(channel_id, ts),
        sender: sender.to_owned(),
        reply_target: channel_id.to_owned(),
        content,
        channel: "slack".to_owned(),
        thread_ts,
    }
}

impl PendingMessage {
    /// The message, handed on at `timestamp`, in seconds since the Unix epoch.
    pub fn stamped(self, timestamp: u64) -> (r: ChannelMessage)
        ensures
            r.timestamp == timestamp,
            r.id == self.id,
            r.sender == self.sender,
            r.reply_target == self.reply_target,
            r.content == self.content,
            r.channel == self.channel,
            r.thread_ts == self.thread_ts,
    {
        ChannelMessage {
            id: self.id,
            sender: self.sender,
            reply_target: self.reply_target,
            content: self.content,
            channel: self.channel,
            timestamp,
            thread_ts: self.thread_ts,
        }
    }
}

/// The members of the request that posts a message.
pub open spec fn post_members(message: SendMessage) -> Seq<(Seq<char>, Seq<char>)> {
    let plain = seq![("channel"@, message.recipient@), ("text"@, message.content@)];
    match message.thread_ts {
        Some(ts) => plain.push(("thread_ts"@, ts@)),
        None => plain,
    }
}

proof fn lemma_post_keys_ascend()
    ensures
        text_lt("channel"@, "text"@),
        text_lt("text"@, "thread_ts"@),
        text_lt("channel"@, "thread_ts"@),
{
    reveal_strlit("channel");
    reveal_strlit("text");
    reveal_strlit("thread_ts");
    reveal_with_fuel(text_le, 2);
    assert("channel"@[0] == 'c' && "text"@[0] == 't' && "thread_ts"@[0] == 't');
    assert("text"@.drop_first()[0] == 'e' && "thread_ts"@.drop_first()[0] == 'h');
}

/// The JSON body of the request that posts `message`.
pub fn post_message_body(message: &SendMessage) -> (body: String)
    ensures
        body@ == object_text(post_members(*message)),
        message.thread_ts is None ==> body@ == object_text(
            seq![("channel"@, message.recipient@), ("text"@, message.content@)],
        ),
        message.thread_ts matches Some(ts) ==> body@ == object_text(
            seq![
                ("channel"@, message.recipient@),
                ("text"@, message.content@),
                ("thread_ts"@, ts@),
            ],
        ),
{
    let mut members: Vec<(String, String)> = Vec::new();
    members.push(("channel".to_owned(), message.recipient.clone()));
    members.push(("text".to_owned(), message.content.clone()));
    match &message.thread_ts {
        Some(ts) => {
            members.push(("thread_ts".to_owned(), ts.clone()));
        },
        None => {},
    }
    proof {
        lemma_post_keys_ascend();
        assert(pairs(members@) =~= post_members(*message));
        let keys = member_keys(members@);
        assert(keys[0] == "channel"@ && keys[1] == "text"@);
        assert(keys.len() == 3 ==> keys[2] == "thread_ts"@);
        assert(ascending(keys));
        posts_name_recipient_text_and_thread(*message);
    }
    write_object(members)
}

/// Two messages of one channel have different ids where their timestamps differ.
pub proof fn ids_differ_where_timestamps_differ(
    channel: Seq<char>,
    ts1: Seq<char>,
    ts2: Seq<char>,
)
    requires
        ts1 != ts2,
    ensures
        id_text(channel, ts1) != id_text(channel, ts2),
{
    let head = "slack_"@ + channel + "_"@;
    if head + ts1 == head + ts2 {
        assert(ts1 =~= (head + ts1).skip(head.len() as int));
        assert(ts2 =~= (head + ts2).skip(head.len() as int));
    }
}

/// Two messages with one timestamp have different ids where their channels differ.
pub proof fn ids_differ_where_channels_differ(
    channel1: Seq<char>,
    channel2: Seq<char>,
    ts: Seq<char>,
)
    requires
        channel1 != channel2,
    ensures
        id_text(channel1, ts) != id_text(channel2, ts),
{
    let a = id_text(channel1, ts);
    let b = id_text(channel2, ts);
    if a == b {
        let p = "slack_"@.len() as int;
        assert(a.len() == p + channel1.len() + "_"@.len() + ts.len());
        assert(b.len() == p + channel2.len() + "_"@.len() + ts.len());
        assert(channel1 =~= a.subrange(p, p + channel1.len()));
        assert(channel2 =~= b.subrange(p, p + channel2.len()));
    }
}

/// The timestamp in the id of a message of a channel.
pub open spec fn ts_in(channel: Seq<char>, id: Seq<char>) -> Seq<char> {
    id.skip(("slack_"@ + channel + "_"@).len() as int)
}

/// The timestamp of a message can be read off its id, given its channel.
pub proof fn ids_hold_their_timestamps(channel: Seq<char>, ts: Seq<char>)
    ensures
        ts_in(channel, id_text(channel, ts)) == ts,
{
    let head = "slack_"@ + channel + "_"@;
    assert((head + ts).skip(head.len() as int) =~= ts);
}

/// An id names one message, whatever the timestamps, where the channels hold no
/// underscore: the channel and the timestamp can be read off it.
pub proof fn ids_name_one_message(
    channel1: Seq<char>,
    ts1: Seq<char>,
    channel2: Seq<char>,
    ts2: Seq<char>,
)
    requires
        !channel1.contains('_'),
        !channel2.contains('_'),
        id_text(channel1, ts1) == id_text(channel2, ts2),
    ensures
        channel1 == channel2,
        ts1 == ts2,
{
    reveal_strlit("_");
    let a = id_text(channel1, ts1);
    let b = id_text(channel2, ts2);
    let p = "slack_"@.len() as int;
    if channel1.len() < channel2.len() {
        assert(a[p + channel1.len()] == '_');
        assert(b[p + channel1.len()] == channel2[channel1.len() as int]);
    } else if channel2.len() < channel1.len() {
        assert(b[p + channel2.len()] == '_');
        assert(a[p + channel2.len()] == channel1[channel2.len() as int]);
    }
    assert(channel1 =~= a.subrange(p, p + channel1.len()));
    assert(channel2 =~= b.subrange(p, p + channel2.len()));
    assert(ts1 =~= a.skip(p + channel1.len() + 1));
    assert(ts2 =~= b.skip(p + channel2.len() + 1));
}

/// An id names one message, whatever the channels, where the timestamps hold no underscore,
/// as those of Slack do not: the channel and the timestamp can be read off it.
pub proof fn ids_name_one_message_by_their_end(
    channel1: Seq<char>,
    ts1: Seq<char>,
    channel2: Seq<char>,
    ts2: Seq<char>,
)
    requires
        !ts1.contains('_'),
        !ts2.contains('_'),
        id_text(channel1, ts1) == id_text(channel2, ts2),
    ensures
        channel1 == channel2,
        ts1 == ts2,
{
    reveal_strlit("_");
    let a = id_text(channel1, ts1);
    let b = id_text(channel2, ts2);
    let p = "slack_"@.len() as int;
    assert(a.len() == p + channel1.len() + 1 + ts1.len());
    assert(b.len() == p + channel2.len() + 1 + ts2.len());
    let i = p + channel1.len();
    let j = p + channel2.len();
    assert(a[i] == '_' && b[j] == '_');
    if i < j {
        assert(a[j] == ts1[j - i - 1]);
        assert(ts1.contains(ts1[j - i - 1]));
    } else if j < i {
        assert(b[i] == ts2[i - j - 1]);
        assert(ts2.contains(ts2[i - j - 1]));
    }
    assert(channel1 =~= a.subrange(p, i));
    assert(channel2 =~= b.subrange(p, j));
    assert(ts1 =~= a.skip(i + 1));
    assert(ts2 =~= b.skip(j + 1));
}

/// A request that posts a message names its recipient, its whole content and, exactly where
/// the message answers in a thread, that thread.
pub proof fn posts_name_recipient_text_and_thread(message: SendMessage)
    ensures
        message.thread_ts is None ==> post_members(message) == seq![
            ("channel"@, message.recipient@),
            ("text"@, message.content@),
        ],
        message.thread_ts matches Some(ts) ==> post_members(message) == seq![
            ("channel"@, message.recipient@),
            ("text"@, message.content@),
            ("thread_ts"@, ts@),
        ],
{
    match message.thread_ts {
        Some(ts) => {
            assert(post_members(message) =~= seq![
                ("channel"@, message.recipient@),
                ("text"@, message.content@),
                ("thread_ts"@, ts@),
            ]);
        },
        None => {},
    }
}

/// What follows the content in the request that posts a message.
spec fn post_tail(thread_ts: Option<String>) -> Seq<char> {
    match thread_ts {
        Some(ts) => seq![','] + quoted("thread_ts"@) + seq![':'] + quoted(ts@) + seq!['}'],
        None => seq!['}'],
    }
}

proof fn lemma_regroup(
    k: Seq<char>,
    r: Seq<char>,
    t: Seq<char>,
    c: Seq<char>,
    tail: Seq<char>,
)
    ensures
        seq!['{'] + (k + seq![':'] + r + seq![','] + t + seq![':'] + c) + tail == seq!['{'] + k
            + seq![':'] + (r + (seq![','] + t + seq![':'] + (c + tail))),
{
    assert(seq!['{'] + (k + seq![':'] + r + seq![','] + t + seq![':'] + c) + tail =~= seq!['{'] + k
        + seq![':'] + (r + (seq![','] + t + seq![':'] + (c + tail))));
}

proof fn lemma_regroup_end(m: Seq<char>, h: Seq<char>, q: Seq<char>)
    ensures
        seq!['{'] + (m + seq![','] + h + seq![':'] + q) + seq!['}'] == seq!['{'] + m + (seq![',']
            + h + seq![':'] + q + seq!['}']),
{
    assert(seq!['{'] + (m + seq![','] + h + seq![':'] + q) + seq!['}'] =~= seq!['{'] + m + (
    seq![','] + h + seq![':'] + q + seq!['}']));
}

proof fn lemma_post_text(message: SendMessage)
    ensures
        object_text(post_members(message)) == seq!['{'] + quoted("channel"@) + seq![':'] + (quoted(
            message.recipient@,
        ) + (seq![','] + quoted("text"@) + seq![':'] + (quoted(message.content@) + post_tail(
            message.thread_ts,
        )))),
{
    posts_name_recipient_text_and_thread(message);
    let members = post_members(message);
    let none = Seq::<(Seq<char>, Seq<char>)>::empty();
    let one = seq![("channel"@, message.recipient@)];
    let two = seq![("channel"@, message.recipient@), ("text"@, message.content@)];
    let k = quoted("channel"@);
    let r = quoted(message.recipient@);
    let t = quoted("text"@);
    let c = quoted(message.content@);
    assert(one.drop_last() =~= none);
    assert(two.drop_last() =~= one);
    assert(members_text(none) =~= Seq::empty());
    assert(members_text(one) == k + seq![':'] + r) by {
        assert(members_text(one) == members_text(none) + Seq::<char>::empty() + k + seq![':'] + r);
        assert(members_text(none) + Seq::<char>::empty() + k =~= k);
    }
    let m = members_text(two);
    assert(m == k + seq![':'] + r + seq![','] + t + seq![':'] + c);
    lemma_regroup(k, r, t, c, post_tail(message.thread_ts));
    match message.thread_ts {
        Some(ts) => {
            assert(members.drop_last() =~= two);
            assert(members_text(members) == m + seq![','] + quoted("thread_ts"@) + seq![':']
                + quoted(ts@));
            lemma_regroup_end(m, quoted("thread_ts"@), quoted(ts@));
        },
        None => {
            assert(members == two);
        },
    }
}

/// Nothing of a message is lost in the request that posts it: two requests read alike only
/// where the messages have the same recipient, the same content and the same thread.
pub proof fn different_messages_are_posted_differently(a: SendMessage, b: SendMessage)
    requires
        object_text(post_members(a)) == object_text(post_members(b)),
    ensures
        a.recipient@ == b.recipient@,
        a.content@ == b.content@,
        opt_text(a.thread_ts) == opt_text(b.thread_ts),
{
    lemma_post_text(a);
    lemma_post_text(b);
    let head = seq!['{'] + quoted("channel"@) + seq![':'];
    let mid = seq![','] + quoted("text"@) + seq![':'];
    let ca = quoted(a.content@) + post_tail(a.thread_ts);
    let cb = quoted(b.content@) + post_tail(b.thread_ts);
    let ra = quoted(a.recipient@) + (mid + ca);
    let rb = quoted(b.recipient@) + (mid + cb);
    assert(ra =~= (head + ra).skip(head.len() as int));
    assert(rb =~= (head + rb).skip(head.len() as int));
    quoted_texts_are_read_back(a.recipient@, b.recipient@, mid + ca, mid + cb);
    assert(ca =~= (mid + ca).skip(mid.len() as int));
    assert(cb =~= (mid + cb).skip(mid.len() as int));
    quoted_texts_are_read_back(
        a.content@,
        b.content@,
        post_tail(a.thread_ts),
        post_tail(b.thread_ts),
    );
    match (a.thread_ts, b.thread_ts) {
        (Some(x), Some(y)) => {
            let lead = seq![','] + quoted("thread_ts"@) + seq![':'];
            let p = quoted(x@) + seq!['}'];
            let q = quoted(y@) + seq!['}'];
            assert(post_tail(a.thread_ts) =~= lead + p);
            assert(post_tail(b.thread_ts) =~= lead + q);
            assert(p =~= (lead + p).skip(lead.len() as int));
            assert(q =~= (lead + q).skip(lead.len() as int));
            quoted_texts_are_read_back(x@, y@, seq!['}'], seq!['}']);
        },
        (Some(_), None) => {
            assert(post_tail(a.thread_ts)[0] == ',' && post_tail(b.thread_ts)[0] == '}');
        },
        (None, Some(_)) => {
            assert(post_tail(a.thread_ts)[0] == '}' && post_tail(b.thread_ts)[0] == ',');
        },
        (None, None) => {},
    }
}

/// An inbound message keeps what was written, by whom, where and in which thread; it is
/// answered where it was written, and its id names that place and its timestamp.
pub proof fn inbound_messages_keep_what_was_written(
    channel: Seq<char>,
    ts: Seq<char>,
    sender: Seq<char>,
    content: Seq<char>,
    thread_ts: Option<Seq<char>>,
)
    ensures
        inbound(channel, ts, sender, content, thread_ts) == (PendingView {
            id: "slack_"@ + channel + "_"@ + ts,
            sender,
            reply_target: channel,
            content,
            channel: "slack"@,
            thread_ts,
        }),
        id_text(channel, ts) == "slack_"@ + channel + "_"@ + ts,
{
}

/// Each field of a message counts, and each message of a list, in its place.
pub proof fn messages_are_viewed_field_by_field(messages: Seq<PendingMessage>, i: int)
    requires
        0 <= i < messages.len(),
    ensures
        pending_views(messages).len() == messages.len(),
        pending_views(messages)[i] == messages[i]@,
        messages[i]@.id == messages[i].id@,
        messages[i]@.sender == messages[i].sender@,
        messages[i]@.reply_target == messages[i].reply_target@,
        messages[i]@.content == messages[i].content@,
        messages[i]@.channel == messages[i].channel@,
        messages[i]@.thread_ts == opt_text(messages[i].thread_ts),
{
}

} // verus!
