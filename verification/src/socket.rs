//! Socket Mode: events come in over a socket, and the bot answers where it is mentioned.

use crate::channel::{mentions, normalized, stripped, thread_context, user_allowed, SlackChannel};
use crate::json::{
    get, get_text, get_text_or, has_member, json_of, member, member_keys, object_text, parse_text,
    parsed_text, text_member, write_object, Json,
};
use crate::message::{inbound, inbound_message, PendingMessage, PendingView};
use crate::table::Table;
use crate::text::{opt_text, pairs, text_or};
use vstd::prelude::*;
use vstd::string::*;

verus! {

/// The number of messages of a thread that are kept as its context.
pub const MAX_THREAD_CONTEXT: usize = 20;

/// What came over the socket.
#[derive(Debug, Clone)]
pub enum SocketFrame {
    /// A text.
    Text(String),
    /// The end of the connection.
    Closed,
    /// A failure of the connection.
    Failed,
    /// Anything else.
    Other,
}

/// What a [`SocketFrame`] holds.
pub enum SocketFrameView {
    Text(Seq<char>),
    Closed,
    Failed,
    Other,
}

impl View for SocketFrame {
    type V = SocketFrameView;

    open spec fn view(&self) -> SocketFrameView {
        match self {
            SocketFrame::Text(text) => SocketFrameView::Text(text@),
            SocketFrame::Closed => SocketFrameView::Closed,
            SocketFrame::Failed => SocketFrameView::Failed,
            SocketFrame::Other => SocketFrameView::Other,
        }
    }
}

/// An event of the Events API, as far as it is read.
#[derive(Debug, Clone)]
pub struct SocketEvent {
    pub kind: String,
    pub has_subtype: bool,
    pub user: Option<String>,
    pub text: String,
    pub ts: String,
    pub channel: String,
    pub thread_ts: Option<String>,
    /// Whether there is anything under `thread_ts`, be it a text or not.
    pub is_threaded: bool,
}

/// What a [`SocketEvent`] holds.
pub struct SocketEventView {
    pub kind: Seq<char>,
    pub has_subtype: bool,
    pub user: Option<Seq<char>>,
    pub text: Seq<char>,
    pub ts: Seq<char>,
    pub channel: Seq<char>,
    pub thread_ts: Option<Seq<char>>,
    pub is_threaded: bool,
}

impl View for SocketEvent {
    type V = SocketEventView;

    open spec fn view(&self) -> SocketEventView {
        SocketEventView {
            kind: self.kind@,
            has_subtype: self.has_subtype,
            user: opt_text(self.user),
            text: self.text@,
            ts: self.ts@,
            channel: self.channel@,
            thread_ts: opt_text(self.thread_ts),
            is_threaded: self.is_threaded,
        }
    }
}

/// An envelope: what Slack sends over the socket.
#[derive(Debug, Clone)]
pub struct Envelope {
    pub envelope_id: Option<String>,
    pub kind: String,
    pub event: Option<SocketEvent>,
}

/// What an [`Envelope`] holds.
pub struct EnvelopeView {
    pub envelope_id: Option<Seq<char>>,
    pub kind: Seq<char>,
    pub event: Option<SocketEventView>,
}

/// What an event holds, where there is one.
pub open spec fn opt_event(event: Option<SocketEvent>) -> Option<SocketEventView> {
    match event {
        Some(e) => Some(e@),
        None => None,
    }
}

impl View for Envelope {
    type V = EnvelopeView;

    open spec fn view(&self) -> EnvelopeView {
        EnvelopeView {
            envelope_id: opt_text(self.envelope_id),
            kind: self.kind@,
            event: opt_event(self.event),
        }
    }
}

/// What is to be done with a frame.
#[derive(Debug, Clone)]
pub enum Received {
    /// Nothing: wait for the next one.
    Ignore,
    /// Leave the socket.
    Stop,
    /// Acknowledge the envelope, then dispatch it.
    Envelope(Envelope),
}

/// What a [`Received`] holds.
pub enum ReceivedView {
    Ignore,
    Stop,
    Envelope(EnvelopeView),
}

impl View for Received {
    type V = ReceivedView;

    open spec fn view(&self) -> ReceivedView {
        match self {
            Received::Ignore => ReceivedView::Ignore,
            Received::Stop => ReceivedView::Stop,
            Received::Envelope(envelope) => ReceivedView::Envelope(envelope@),
        }
    }
}

/// What is to be done after an envelope.
#[derive(Debug, Clone)]
pub enum SocketStep {
    /// Leave the socket.
    Stop,
    /// Wait for the next frame.
    Wait,
    /// Hand on this message, then wait for the next frame.
    Deliver(PendingMessage),
}

/// What a [`SocketStep`] holds.
pub enum SocketStepView {
    Stop,
    Wait,
    Deliver(PendingView),
}

impl View for SocketStep {
    type V = SocketStepView;

    open spec fn view(&self) -> SocketStepView {
        match self {
            SocketStep::Stop => SocketStepView::Stop,
            SocketStep::Wait => SocketStepView::Wait,
            SocketStep::Deliver(message) => SocketStepView::Deliver(message@),
        }
    }
}

/// A thread: the channel that it is in and the timestamp that opened it.
pub type ThreadId = (Seq<char>, Seq<char>);

/// A message of a thread: its sender and its text.
pub type Line = (Seq<char>, Seq<char>);

/// The state of a socket session.
pub struct SocketView {
    pub bot: Seq<char>,
    pub scope: Option<Seq<char>>,
    pub contexts: Map<ThreadId, Seq<Line>>,
}

/// An event, read from its document.
pub open spec fn event_of(json: Json) -> SocketEventView {
    SocketEventView {
        kind: text_or(text_member(json, "type"@), ""@),
        has_subtype: member(json, "subtype"@) is Some,
        user: text_member(json, "user"@),
        text: text_or(text_member(json, "text"@), ""@),
        ts: text_or(text_member(json, "ts"@), ""@),
        channel: text_or(text_member(json, "channel"@), ""@),
        thread_ts: text_member(json, "thread_ts"@),
        is_threaded: member(json, "thread_ts"@) is Some,
    }
}

/// The event in the payload of an envelope.
pub open spec fn event_in(json: Json) -> Option<SocketEventView> {
    match member(json, "payload"@) {
        Some(payload) => match member(payload, "event"@) {
            Some(event) => Some(event_of(event)),
            None => None,
        },
        None => None,
    }
}

/// An envelope, read from its document.
pub open spec fn envelope_of(json: Json) -> EnvelopeView {
    EnvelopeView {
        envelope_id: text_member(json, "envelope_id"@),
        kind: text_or(text_member(json, "type"@), ""@),
        event: event_in(json),
    }
}

/// What is to be done with a frame. A text that is no JSON document is passed over.
pub open spec fn received(frame: SocketFrameView) -> ReceivedView {
    match frame {
        SocketFrameView::Text(text) => match parsed_text(text) {
            Some(json) => ReceivedView::Envelope(envelope_of(json)),
            None => ReceivedView::Ignore,
        },
        SocketFrameView::Closed => ReceivedView::Stop,
        SocketFrameView::Failed => ReceivedView::Stop,
        SocketFrameView::Other => ReceivedView::Ignore,
    }
}

/// The text that acknowledges an envelope, where it has an id.
pub open spec fn acknowledged_by(envelope: EnvelopeView) -> Option<Seq<char>> {
    match envelope.envelope_id {
        Some(id) => Some(object_text(seq![("envelope_id"@, id)])),
        None => None,
    }
}

/// Whether an event is a plain message that the session heeds: one of an allowed user
/// who is not the bot, in the channel that is listened to, with a text and a timestamp.
pub open spec fn heeded(
    session: SocketView,
    allowed: Seq<Seq<char>>,
    event: SocketEventView,
) -> bool {
    &&& event.kind == "message"@
    &&& !event.has_subtype
    &&& event.user matches Some(user) && user != session.bot && user_allowed(allowed, user)
    &&& session.scope matches Some(target) ==> event.channel == target
    &&& event.text.len() > 0
    &&& event.ts.len() > 0
}

/// The thread that an event belongs to.
pub open spec fn thread_id(event: SocketEventView) -> ThreadId {
    (event.channel, text_or(event.thread_ts, event.ts))
}

/// The messages kept of a thread.
pub open spec fn lines_of(contexts: Map<ThreadId, Seq<Line>>, thread: ThreadId) -> Seq<Line> {
    if contexts.contains_key(thread) {
        contexts[thread]
    } else {
        Seq::empty()
    }
}

/// The messages kept of a thread once `line` has come: the oldest leaves where they
/// would be too many.
pub open spec fn buffered(lines: Seq<Line>, line: Line) -> Seq<Line> {
    if lines.len() + 1 > MAX_THREAD_CONTEXT {
        lines.push(line).drop_first()
    } else {
        lines.push(line)
    }
}

/// The session once a heeded event has been put into the context of its thread.
pub open spec fn remembered(session: SocketView, event: SocketEventView) -> SocketView {
    let thread = thread_id(event);
    let lines = buffered(lines_of(session.contexts, thread), (event.user->0, event.text));
    SocketView { contexts: session.contexts.insert(thread, lines), ..session }
}

/// What the bot is told about a mention: the message, and before it the messages of its
/// thread, where it came in one.
pub open spec fn told(bot: Seq<char>, event: SocketEventView, lines: Seq<Line>) -> Seq<char> {
    let message = stripped(event.text, bot);
    if event.is_threaded && lines.len() > 1 {
        thread_context(lines.drop_last()) + "[Message directed at bot]\n"@ + message
    } else {
        message
    }
}

/// The message that a heeded event becomes, where it mentions the bot; `session` is the
/// state in which it has been put into the context of its thread.
pub open spec fn delivered(session: SocketView, event: SocketEventView) -> PendingView {
    let thread = thread_id(event);
    inbound(
        event.channel,
        event.ts,
        event.user->0,
        told(session.bot, event, session.contexts[thread]),
        Some(thread.1),
    )
}

/// What an event does: the next state, and what is to be done.
pub open spec fn after_event(
    session: SocketView,
    allowed: Seq<Seq<char>>,
    event: SocketEventView,
) -> (SocketView, SocketStepView) {
    if !heeded(session, allowed, event) {
        (session, SocketStepView::Wait)
    } else if mentions(event.text, session.bot) {
        let next = remembered(session, event);
        (next, SocketStepView::Deliver(delivered(next, event)))
    } else {
        (remembered(session, event), SocketStepView::Wait)
    }
}

/// What an envelope does: the next state, and what is to be done.
pub open spec fn after_envelope(
    session: SocketView,
    allowed: Seq<Seq<char>>,
    envelope: EnvelopeView,
) -> (SocketView, SocketStepView) {
    if envelope.kind == "disconnect"@ {
        (session, SocketStepView::Stop)
    } else if envelope.kind == "events_api"@ && envelope.event is Some {
        after_event(session, allowed, envelope.event->0)
    } else {
        (session, SocketStepView::Wait)
    }
}

/// Reads an event from its document.
pub fn read_event(event: &serde_json::Value) -> (r: SocketEvent)
    ensures
        r@ == event_of(json_of(*event)),
        r.kind@ == text_or(text_member(json_of(*event), "type"@), ""@),
        r.has_subtype == (member(json_of(*event), "subtype"@) is Some),
        opt_text(r.user) == text_member(json_of(*event), "user"@),
        r.text@ == text_or(text_member(json_of(*event), "text"@), ""@),
        r.ts@ == text_or(text_member(json_of(*event), "ts"@), ""@),
        r.channel@ == text_or(text_member(json_of(*event), "channel"@), ""@),
        opt_text(r.thread_ts) == text_member(json_of(*event), "thread_ts"@),
        r.is_threaded == (member(json_of(*event), "thread_ts"@) is Some),
{
    SocketEvent {
        kind: get_text_or(event, "type", ""),
        has_subtype: has_member(event, "subtype"),
        user: get_text(event, "user"),
        text: get_text_or(event, "text", ""),
        ts: get_text_or(event, "ts", ""),
        channel: get_text_or(event, "channel", ""),
        thread_ts: get_text(event, "thread_ts"),
        is_threaded: has_member(event, "thread_ts"),
    }
}

/// Reads an envelope from its document.
pub fn read_envelope(envelope: &serde_json::Value) -> (r: Envelope)
    ensures
        r@ == envelope_of(json_of(*envelope)),
        opt_text(r.envelope_id) == text_member(json_of(*envelope), "envelope_id"@),
        r.kind@ == text_or(text_member(json_of(*envelope), "type"@), ""@),
        r.event is Some <==> (member(json_of(*envelope), "payload"@) matches Some(payload)
            && member(payload, "event"@) is Some),
{
    let event = match get(envelope, "payload") {
        Some(payload) => match get(payload, "event") {
            Some(event) => Some(read_event(event)),
            None => None,
        },
        None => None,
    };
    Envelope {
        envelope_id: get_text(envelope, "envelope_id"),
        kind: get_text_or(envelope, "type", ""),
        event,
    }
}

/// What is to be done with a frame. A text that is no JSON document is passed over.
pub fn receive(frame: &SocketFrame) -> (r: Received)
    ensures
        r@ == received(frame@),
{
    match frame {
        SocketFrame::Text(text) => match parse_text(text.as_str()) {
            Ok(value) => Received::Envelope(read_envelope(&value)),
            Err(_) => Received::Ignore,
        },
        SocketFrame::Closed => Received::Stop,
        SocketFrame::Failed => Received::Stop,
        SocketFrame::Other => Received::Ignore,
    }
}

impl Envelope {
    /// The text that acknowledges the envelope, where it has an id. Slack wants it
    /// before the envelope is dispatched.
    pub fn acknowledgement(&self) -> (r: Option<String>)
        ensures
            opt_text(r) == acknowledged_by(self@),
    {
        match &self.envelope_id {
            Some(id) => {
                let mut members: Vec<(String, String)> = Vec::new();
                members.push(("envelope_id".to_owned(), id.clone()));
                assert(pairs(members@) =~= seq![("envelope_id"@, id@)]);
                assert(member_keys(members@).len() == 1);
                Some(write_object(members))
            },
            None => None,
        }
    }
}

/// A session in Socket Mode. Of each thread it keeps the last messages.
pub struct SocketSession {
    bot_user_id: String,
    scoped_channel: Option<String>,
    contexts: Table<(String, String), Vec<(String, String)>>,
}

/// Whether no thread has more messages kept than it may.
pub open spec fn within_bounds(contexts: Map<ThreadId, Seq<Line>>) -> bool {
    forall|thread: ThreadId| #[trigger]
        contexts.contains_key(thread) ==> contexts[thread].len() <= MAX_THREAD_CONTEXT
}

impl View for SocketSession {
    type V = SocketView;

    closed spec fn view(&self) -> SocketView {
        SocketView {
            bot: self.bot_user_id@,
            scope: opt_text(self.scoped_channel),
            contexts: self.contexts@,
        }
    }
}

/// The messages kept once `user` has written `text`.
fn buffer(lines: Option<&Vec<(String, String)>>, user: &str, text: &str) -> (r: Vec<
    (String, String),
>)
    ensures
        r.deep_view() == buffered(
            match lines {
                Some(lines) => lines.deep_view(),
                None => Seq::empty(),
            },
            (user@, text@),
        ),
{
    let mut kept: Vec<(String, String)> = Vec::new();
    match lines {
        Some(lines) => {
            let start: usize = if lines.len() >= MAX_THREAD_CONTEXT {
                1
            } else {
                0
            };
            let mut i: usize = start;
            while i < lines.len()
                invariant
                    start <= i <= lines.len(),
                    kept.deep_view() == lines.deep_view().subrange(start as int, i as int),
                decreases lines.len() - i,
            {
                let ghost before = kept.deep_view();
                kept.push((lines[i].0.clone(), lines[i].1.clone()));
                assert(lines.deep_view()[i as int] == (lines@[i as int].0@, lines@[i as int].1@));
                assert(kept.deep_view() =~= before.push(lines.deep_view()[i as int]));
                assert(kept.deep_view() =~= lines.deep_view().subrange(start as int, i + 1));
                i += 1;
            }
        },
        None => {},
    }
    let ghost before = kept.deep_view();
    kept.push((user.to_owned(), text.to_owned()));
    assert(kept.deep_view() =~= before.push((user@, text@)));
    kept
}

impl SocketSession {
    #[verifier::type_invariant]
    spec fn well_formed(self) -> bool {
        within_bounds(self.contexts@)
    }

    /// A session of `channel` for the bot with the given user id, where that is known.
    pub fn new(channel: &SlackChannel, bot_user_id: Option<String>) -> (session: Self)
        ensures
            session@ == (SocketView {
                bot: text_or(opt_text(bot_user_id), ""@),
                scope: normalized(opt_text(channel.channel_id)),
                contexts: Map::empty(),
            }),
    {
        let bot_user_id = match bot_user_id {
            Some(id) => id,
            None => "".to_owned(),
        };
        SocketSession {
            bot_user_id,
            scoped_channel: channel.configured_channel_id(),
            contexts: Table::new(),
        }
    }

    /// Whether an event is a plain message that the session heeds.
    fn heeds(&self, channel: &SlackChannel, event: &SocketEvent) -> (r: bool)
        ensures
            r == heeded(self@, channel.allowlist(), event@),
    {
        if !event.kind.as_str().eq("message") || event.has_subtype {
            return false;
        }
        match &event.user {
            Some(user) => {
                if user.as_str().eq(self.bot_user_id.as_str()) {
                    return false;
                }
                if !channel.is_user_allowed(user.as_str()) {
                    return false;
                }
            },
            None => {
                return false;
            },
        }
        match &self.scoped_channel {
            Some(target) => if !event.channel.as_str().eq(target.as_str()) {
                return false;
            },
            None => {},
        }
        !event.text.as_str().is_empty() && !event.ts.as_str().is_empty()
    }

    /// Takes in an event and says what is to be done.
    pub fn on_event(&mut self, channel: &SlackChannel, event: &SocketEvent) -> (step: SocketStep)
        ensures
            (final(self)@, step@) == after_event(old(self)@, channel.allowlist(), event@),
            within_bounds(old(self)@.contexts),
            within_bounds(final(self)@.contexts),
    {
        proof {
            use_type_invariant(&*self);
        }
        if !self.heeds(channel, event) {
            return SocketStep::Wait;
        }
        let user = match &event.user {
            Some(user) => user.clone(),
            None => {
                return SocketStep::Wait;
            },
        };
        let thread_ts = match &event.thread_ts {
            Some(thread) => thread.clone(),
            None => event.ts.clone(),
        };
        let thread = (event.channel.clone(), thread_ts.clone());
        let lines = buffer(self.contexts.find(&thread), user.as_str(), event.text.as_str());
        let mentioned = SlackChannel::contains_bot_mention(
            event.text.as_str(),
            self.bot_user_id.as_str(),
        );
        let step = if mentioned {
            let message = SlackChannel::strip_bot_mention(
                event.text.as_str(),
                self.bot_user_id.as_str(),
            );
            let content = if event.is_threaded && lines.len() > 1 {
                let prior = vstd::slice::slice_subrange(lines.as_slice(), 0, lines.len() - 1);
                assert(pairs(prior@) =~= lines.deep_view().drop_last());
                let mut content = SlackChannel::format_thread_context(prior);
                content.append("[Message directed at bot]\n");
                content.append(message.as_str());
                content
            } else {
                message
            };
            SocketStep::Deliver(
                inbound_message(
                    event.channel.as_str(),
                    event.ts.as_str(),
                    user.as_str(),
                    content,
                    Some(thread_ts),
                ),
            )
        } else {
            SocketStep::Wait
        };
        let mut contexts: Table<(String, String), Vec<(String, String)>> = Table::new();
        std::mem::swap(&mut contexts, &mut self.contexts);
        contexts.insert(thread, lines);
        self.contexts = contexts;
        step
    }

    /// Takes in an envelope, which has been acknowledged, and says what is to be done.
    pub fn dispatch(&mut self, channel: &SlackChannel, envelope: &Envelope) -> (step: SocketStep)
        ensures
            (final(self)@, step@) == after_envelope(old(self)@, channel.allowlist(), envelope@),
            within_bounds(final(self)@.contexts),
    {
        proof {
            use_type_invariant(&*self);
        }
        if envelope.kind.as_str().eq("disconnect") {
            return SocketStep::Stop;
        }
        if !envelope.kind.as_str().eq("events_api") {
            return SocketStep::Wait;
        }
        match &envelope.event {
            Some(event) => self.on_event(channel, event),
            None => SocketStep::Wait,
        }
    }
}

/// A message is handed on exactly where the session heeds the event and the text
/// mentions the bot.
pub proof fn only_mentions_are_handed_on(
    session: SocketView,
    allowed: Seq<Seq<char>>,
    event: SocketEventView,
)
    ensures
        after_event(session, allowed, event).1 is Deliver <==> heeded(session, allowed, event)
            && mentions(event.text, session.bot),
        after_event(session, allowed, event).1 is Deliver || after_event(session, allowed, event).1
            is Wait,
{
}

/// A message of the bot itself, of a user who is not allowed, or in a channel that is not
/// listened to leaves the session as it is, and nothing is handed on.
pub proof fn unheeded_events_leave_no_trace(
    session: SocketView,
    allowed: Seq<Seq<char>>,
    event: SocketEventView,
)
    requires
        ({
            ||| event.user is None
            ||| event.user == Some(session.bot)
            ||| !user_allowed(allowed, event.user->0)
            ||| session.scope is Some && session.scope != Some(event.channel)
        }),
    ensures
        after_event(session, allowed, event) == (session, SocketStepView::Wait),
{
}

/// A bot whose user id is not known is handed nothing, whatever comes.
pub proof fn nameless_bot_is_handed_nothing(
    session: SocketView,
    allowed: Seq<Seq<char>>,
    envelope: EnvelopeView,
)
    requires
        session.bot.len() == 0,
    ensures
        !(after_envelope(session, allowed, envelope).1 is Deliver),
{
}

/// An envelope changes the context of no thread but that of its own event, and neither
/// the bot nor the channel that is listened to.
pub proof fn other_threads_are_untouched(
    session: SocketView,
    allowed: Seq<Seq<char>>,
    envelope: EnvelopeView,
    thread: ThreadId,
)
    requires
        envelope.event matches Some(event) ==> thread_id(event) != thread,
    ensures
        ({
            let next = after_envelope(session, allowed, envelope).0;
            &&& next.bot == session.bot
            &&& next.scope == session.scope
            &&& next.contexts.contains_key(thread) == session.contexts.contains_key(thread)
            &&& lines_of(next.contexts, thread) == lines_of(session.contexts, thread)
        }),
{
}

/// Whatever comes, no thread gets more messages kept than it may.
pub proof fn contexts_stay_within_bounds(
    session: SocketView,
    allowed: Seq<Seq<char>>,
    envelope: EnvelopeView,
)
    requires
        within_bounds(session.contexts),
    ensures
        within_bounds(after_envelope(session, allowed, envelope).0.contexts),
{
}

/// The messages kept of a thread to which `messages` have come one after the other.
pub open spec fn kept(messages: Seq<Line>) -> Seq<Line>
    decreases messages.len(),
{
    if messages.len() == 0 {
        Seq::empty()
    } else {
        buffered(kept(messages.drop_last()), messages.last())
    }
}

/// The context of a thread is made of the messages that came last: all of them, or the
/// last twenty.
pub proof fn the_last_messages_are_kept(messages: Seq<Line>)
    ensures
        kept(messages) == if messages.len() <= MAX_THREAD_CONTEXT {
            messages
        } else {
            messages.skip(messages.len() - MAX_THREAD_CONTEXT)
        },
    decreases messages.len(),
{
    if messages.len() > 0 {
        let before = messages.drop_last();
        the_last_messages_are_kept(before);
        if messages.len() <= MAX_THREAD_CONTEXT {
            assert(before.push(messages.last()) =~= messages);
        } else if before.len() <= MAX_THREAD_CONTEXT {
            assert(before.push(messages.last()).drop_first() =~= messages.skip(
                messages.len() - MAX_THREAD_CONTEXT,
            ));
        } else {
            assert(before.skip(before.len() - MAX_THREAD_CONTEXT).push(messages.last()).drop_first()
                =~= messages.skip(messages.len() - MAX_THREAD_CONTEXT));
        }
    } else {
        assert(kept(messages) =~= messages);
    }
}

/// A message that is handed on is not part of its own context, which is made of messages
/// that came before it.
pub proof fn context_leaves_the_message_out(lines: Seq<Line>, line: Line)
    ensures
        buffered(lines, line).last() == line,
        buffered(lines, line).drop_last() == if lines.len() < MAX_THREAD_CONTEXT {
            lines
        } else {
            lines.drop_first()
        },
{
    assert(buffered(lines, line).drop_last() =~= if lines.len() < MAX_THREAD_CONTEXT {
        lines
    } else {
        lines.drop_first()
    });
}

/// The session once `events` have come one after the other.
pub open spec fn session_after(
    session: SocketView,
    allowed: Seq<Seq<char>>,
    events: Seq<SocketEventView>,
) -> SocketView
    decreases events.len(),
{
    if events.len() == 0 {
        session
    } else {
        after_event(session_after(session, allowed, events.drop_last()), allowed, events.last()).0
    }
}

/// The messages among `events` that a session heeds in a thread.
pub open spec fn heard(
    session: SocketView,
    allowed: Seq<Seq<char>>,
    events: Seq<SocketEventView>,
    thread: ThreadId,
) -> Seq<Line> {
    events.filter(
        |e: SocketEventView| heeded(session, allowed, e) && thread_id(e) == thread,
    ).map_values(|e: SocketEventView| (e.user->0, e.text))
}

/// Whatever has come since a session started, the context of a thread is made of the last
/// messages that the session has heeded in it, be the bot mentioned in them or not.
pub proof fn contexts_hold_what_was_heard(
    session: SocketView,
    allowed: Seq<Seq<char>>,
    events: Seq<SocketEventView>,
    thread: ThreadId,
)
    requires
        session.contexts == Map::<ThreadId, Seq<Line>>::empty(),
    ensures
        lines_of(session_after(session, allowed, events).contexts, thread) == kept(
            heard(session, allowed, events, thread),
        ),
        session_after(session, allowed, events).bot == session.bot,
        session_after(session, allowed, events).scope == session.scope,
    decreases events.len(),
{
    reveal(Seq::filter);
    let lines = heard(session, allowed, events, thread);
    if events.len() > 0 {
        let before = events.drop_last();
        let event = events.last();
        contexts_hold_what_was_heard(session, allowed, before, thread);
        let was = heard(session, allowed, before, thread);
        let now = session_after(session, allowed, before);
        assert(heeded(now, allowed, event) == heeded(session, allowed, event));
        if heeded(session, allowed, event) && thread_id(event) == thread {
            assert(lines =~= was.push((event.user->0, event.text)));
            assert(lines.drop_last() =~= was);
        } else {
            assert(lines =~= was);
        }
    } else {
        assert(lines =~= Seq::empty());
    }
}

/// An event is read from the members that bear its parts, whatever its other members are. A
/// part that is no text counts as missing; whether the event is in a thread, and whether it
/// has a subtype, goes by the member alone.
pub proof fn events_are_read_member_by_member(json: Json)
    ensures
        event_of(json).kind == match text_member(json, "type"@) {
            Some(kind) => kind,
            None => ""@,
        },
        event_of(json).user == text_member(json, "user"@),
        event_of(json).text == match text_member(json, "text"@) {
            Some(text) => text,
            None => ""@,
        },
        event_of(json).ts == match text_member(json, "ts"@) {
            Some(ts) => ts,
            None => ""@,
        },
        event_of(json).channel == match text_member(json, "channel"@) {
            Some(channel) => channel,
            None => ""@,
        },
        event_of(json).thread_ts == text_member(json, "thread_ts"@),
        event_of(json).has_subtype <==> member(json, "subtype"@) is Some,
        event_of(json).is_threaded <==> member(json, "thread_ts"@) is Some,
{
}

/// An envelope is read from the members that bear its parts; its event is the member `event`
/// of the member `payload`, whatever it is.
pub proof fn envelopes_are_read_member_by_member(json: Json, payload: Json, event: Json)
    ensures
        envelope_of(json).envelope_id == text_member(json, "envelope_id"@),
        envelope_of(json).kind == match text_member(json, "type"@) {
            Some(kind) => kind,
            None => ""@,
        },
        member(json, "payload"@) == Some(payload) && member(payload, "event"@) == Some(event)
            ==> envelope_of(json).event == Some(event_of(event)),
        member(json, "payload"@) == Some(payload) && member(payload, "event"@) is None
            ==> envelope_of(json).event is None,
        member(json, "payload"@) is None ==> envelope_of(json).event is None,
{
}

/// A text frame that holds a document is an envelope; one that holds none, and a frame of
/// another kind, is passed over; and the end or a failure of the connection ends the session.
pub proof fn frames_are_told_apart(text: Seq<char>)
    ensures
        parsed_text(text) matches Some(json) ==> received(SocketFrameView::Text(text))
            == ReceivedView::Envelope(envelope_of(json)),
        parsed_text(text) is None ==> received(SocketFrameView::Text(text)) == ReceivedView::Ignore,
        received(SocketFrameView::Closed) == ReceivedView::Stop,
        received(SocketFrameView::Failed) == ReceivedView::Stop,
        received(SocketFrameView::Other) == ReceivedView::Ignore,
{
}

/// The session heeds exactly the plain messages of allowed users other than the bot, in the
/// channel that is listened to, that have a text and a timestamp; nothing else about an event
/// plays a part.
pub proof fn plain_messages_are_heeded(
    session: SocketView,
    allowed: Seq<Seq<char>>,
    event: SocketEventView,
    user: Seq<char>,
)
    ensures
        event.user is None ==> !heeded(session, allowed, event),
        event.user == Some(user) ==> (heeded(session, allowed, event) <==> event.kind == "message"@
            && !event.has_subtype && user != session.bot && (allowed.contains("*"@)
            || allowed.contains(user)) && (session.scope is None || session.scope == Some(
            event.channel,
        )) && event.text.len() > 0 && event.ts.len() > 0),
{
}

/// A heeded message is put behind the messages of its thread, which is the one that it names
/// or else its own; of twenty that are there, the oldest leaves. The other threads stay, and
/// so do the bot and the channel that is listened to.
pub proof fn heeded_messages_are_kept(
    session: SocketView,
    allowed: Seq<Seq<char>>,
    event: SocketEventView,
    other: ThreadId,
)
    requires
        heeded(session, allowed, event),
    ensures
        ({
            let next = after_event(session, allowed, event).0;
            let thread = (
                event.channel,
                match event.thread_ts {
                    Some(ts) => ts,
                    None => event.ts,
                },
            );
            let line = (event.user->0, event.text);
            let known = session.contexts.contains_key(thread);
            &&& next.contexts.contains_key(thread)
            &&& !known ==> next.contexts[thread] == seq![line]
            &&& known && session.contexts[thread].len() < 20 ==> next.contexts[thread]
                == session.contexts[thread].push(line)
            &&& known && session.contexts[thread].len() >= 20 ==> next.contexts[thread]
                == session.contexts[thread].drop_first().push(line)
            &&& other != thread ==> next.contexts.contains_key(other)
                == session.contexts.contains_key(other)
            &&& other != thread && next.contexts.contains_key(other) ==> next.contexts[other]
                == session.contexts[other]
            &&& next.bot == session.bot
            &&& next.scope == session.scope
        }),
{
    let thread = thread_id(event);
    let line = (event.user->0, event.text);
    let lines = lines_of(session.contexts, thread);
    if session.contexts.contains_key(thread) {
        if lines.len() >= 20 {
            assert(lines.push(line).drop_first() =~= lines.drop_first().push(line));
        }
    } else {
        assert(lines.push(line) =~= seq![line]);
    }
}

/// A mention is handed on whole: who wrote it, where, when and in which thread, and what, less
/// the mention itself. Where it came in a thread of which the session keeps earlier messages,
/// be it only one, all of them stand in front of it, as the context of the thread; otherwise
/// nothing does.
pub proof fn mentions_come_with_their_context(
    session: SocketView,
    allowed: Seq<Seq<char>>,
    event: SocketEventView,
    earlier: Seq<Line>,
)
    requires
        heeded(session, allowed, event),
        mentions(event.text, session.bot),
        ({
            let thread = (
                event.channel,
                match event.thread_ts {
                    Some(ts) => ts,
                    None => event.ts,
                },
            );
            earlier == if !session.contexts.contains_key(thread) {
                Seq::<Line>::empty()
            } else if session.contexts[thread].len() >= 20 {
                session.contexts[thread].drop_first()
            } else {
                session.contexts[thread]
            }
        }),
    ensures
        ({
            let message = stripped(event.text, session.bot);
            after_event(session, allowed, event).1 == SocketStepView::Deliver(
                PendingView {
                    id: "slack_"@ + event.channel + "_"@ + event.ts,
                    sender: event.user->0,
                    reply_target: event.channel,
                    content: if event.is_threaded && earlier.len() > 0 {
                        thread_context(earlier) + "[Message directed at bot]\n"@ + message
                    } else {
                        message
                    },
                    channel: "slack"@,
                    thread_ts: Some(
                        match event.thread_ts {
                            Some(ts) => ts,
                            None => event.ts,
                        },
                    ),
                },
            )
        }),
{
    let thread = thread_id(event);
    let line = (event.user->0, event.text);
    let lines = lines_of(session.contexts, thread);
    context_leaves_the_message_out(lines, line);
    assert(buffered(lines, line).drop_last() =~= earlier);
    assert(buffered(lines, line).len() == earlier.len() + 1);
}

/// A message that is heeded and does not mention the bot is kept and not handed on.
pub proof fn other_messages_are_only_kept(
    session: SocketView,
    allowed: Seq<Seq<char>>,
    event: SocketEventView,
)
    ensures
        !heeded(session, allowed, event) ==> after_event(session, allowed, event) == (
            session,
            SocketStepView::Wait,
        ),
        heeded(session, allowed, event) && !mentions(event.text, session.bot) ==> after_event(
            session,
            allowed,
            event,
        ).1 == SocketStepView::Wait,
{
}

/// A disconnect ends the session, an event of the Events API is taken in, and any other
/// envelope is passed over.
pub proof fn envelopes_go_by_their_kind(
    session: SocketView,
    allowed: Seq<Seq<char>>,
    envelope: EnvelopeView,
    event: SocketEventView,
)
    ensures
        envelope.kind == "disconnect"@ ==> after_envelope(session, allowed, envelope) == (
            session,
            SocketStepView::Stop,
        ),
        envelope.kind == "events_api"@ && envelope.event == Some(event) ==> after_envelope(
            session,
            allowed,
            envelope,
        ) == after_event(session, allowed, event),
        envelope.kind != "disconnect"@ && (envelope.kind != "events_api"@ || envelope.event is None)
            ==> after_envelope(session, allowed, envelope) == (session, SocketStepView::Wait),
{
    reveal_strlit("disconnect");
    reveal_strlit("events_api");
    assert("disconnect"@[0] != "events_api"@[0]);
}

/// An envelope is acknowledged with an object that holds its id, whole, and nothing else; one
/// without an id is not.
pub proof fn acknowledgements_hold_the_id(envelope: EnvelopeView, id: Seq<char>)
    ensures
        envelope.envelope_id == Some(id) ==> acknowledged_by(envelope) == Some(
            object_text(seq![("envelope_id"@, id)]),
        ),
        envelope.envelope_id is None ==> acknowledged_by(envelope) is None,
{
}

/// Each field of what comes over the socket counts.
pub proof fn events_are_viewed_field_by_field(event: SocketEvent)
    ensures
        event@.kind == event.kind@,
        event@.has_subtype == event.has_subtype,
        event@.user == opt_text(event.user),
        event@.text == event.text@,
        event@.ts == event.ts@,
        event@.channel == event.channel@,
        event@.thread_ts == opt_text(event.thread_ts),
        event@.is_threaded == event.is_threaded,
{
}

/// Each field of an envelope counts.
pub proof fn envelopes_are_viewed_field_by_field(envelope: Envelope, event: SocketEvent)
    ensures
        envelope@.envelope_id == opt_text(envelope.envelope_id),
        envelope@.kind == envelope.kind@,
        envelope.event is None ==> envelope@.event is None,
        envelope.event == Some(event) ==> envelope@.event == Some(event@),
{
}

/// What came over the socket, what is to be done with it and what is to be done after it are
/// told apart, each with what it holds.
pub proof fn frames_and_steps_are_viewed_whole(
    text: String,
    envelope: Envelope,
    message: PendingMessage,
)
    ensures
        SocketFrame::Text(text)@ == SocketFrameView::Text(text@),
        SocketFrame::Closed@ == SocketFrameView::Closed,
        SocketFrame::Failed@ == SocketFrameView::Failed,
        SocketFrame::Other@ == SocketFrameView::Other,
        Received::Ignore@ == ReceivedView::Ignore,
        Received::Stop@ == ReceivedView::Stop,
        Received::Envelope(envelope)@ == ReceivedView::Envelope(envelope@),
        SocketStep::Stop@ == SocketStepView::Stop,
        SocketStep::Wait@ == SocketStepView::Wait,
        SocketStep::Deliver(message)@ == SocketStepView::Deliver(message@),
{
}

} // verus!
