//! The polling loop: which request comes next, and what the replies lead to.

use crate::channel::{cursor_or, normalized, SlackChannel};
use crate::message::{pending_views, ts_in, PendingMessage, PendingView};
use crate::polling::{
    answers_go_to_the_conversation, ascending_after, consistent, cursor_of, cursors_never_go_back,
    handed_on, history_run, known_threads_are_polled, lemma_ascending_push, mark_of, news,
    only_news_is_handed_on, page_view, reached, replies_run, runs_hand_on_in_order,
    runs_keep_marks_consistent, thread_marks_never_go_back, threads_in, threads_of_news_are_tracked,
    Marks, MarksView, PolledMessage, PolledView, DISCOVERY_INTERVAL_NANOS,
};
use crate::socket::ThreadId;
use crate::text::{opt_text, pairs, text_lt, text_or, texts};
use vstd::prelude::*;

verus! {

/// What the loop is waiting for.
pub enum Phase {
    /// The end of the pause between two rounds.
    Idle,
    /// The list of the conversations.
    Discovery,
    /// The history of this conversation.
    History(String),
    /// That a new message of this conversation has been handed on, or of this thread of it.
    Delivery(String, Option<String>),
    /// The replies in this thread of a conversation.
    Replies(String, String),
    /// Nothing any more.
    Ended,
}

/// What a [`Phase`] holds.
pub enum PhaseView {
    Idle,
    Discovery,
    History(Seq<char>),
    Delivery(Seq<char>, Option<Seq<char>>),
    Replies(Seq<char>, Seq<char>),
    Ended,
}

impl View for Phase {
    type V = PhaseView;

    open spec fn view(&self) -> PhaseView {
        match self {
            Phase::Idle => PhaseView::Idle,
            Phase::Discovery => PhaseView::Discovery,
            Phase::History(channel) => PhaseView::History(channel@),
            Phase::Delivery(channel, thread) => PhaseView::Delivery(channel@, opt_text(*thread)),
            Phase::Replies(channel, thread) => PhaseView::Replies(channel@, thread@),
            Phase::Ended => PhaseView::Ended,
        }
    }
}

/// What has happened. A clock reading is the time since the loop started, in nanoseconds.
#[derive(Debug, Clone)]
pub enum PollEvent {
    /// The pause is over; the clock reads this.
    Tick(u128),
    /// The list of the conversations has come, or could not be had; the clock reads this.
    Listed(u128, Option<Vec<String>>),
    /// A history has come, newest message first, or could not be had.
    History(Option<Vec<PolledMessage>>),
    /// The message has been handed on, or nobody takes messages any more.
    Delivered(bool),
    /// The replies in a thread have come, or could not be had.
    Replies(Option<Vec<PolledMessage>>),
}

/// What a [`PollEvent`] holds.
pub enum PollEventView {
    Tick(u128),
    Listed(u128, Option<Seq<Seq<char>>>),
    History(Option<Seq<PolledView>>),
    Delivered(bool),
    Replies(Option<Seq<PolledView>>),
}

/// The texts of a list, where there is one.
pub open spec fn opt_texts(list: Option<Vec<String>>) -> Option<Seq<Seq<char>>> {
    match list {
        Some(items) => Some(texts(items@)),
        None => None,
    }
}

impl View for PollEvent {
    type V = PollEventView;

    open spec fn view(&self) -> PollEventView {
        match self {
            PollEvent::Tick(clock) => PollEventView::Tick(*clock),
            PollEvent::Listed(clock, list) => PollEventView::Listed(*clock, opt_texts(*list)),
            PollEvent::History(page) => PollEventView::History(page_view(*page)),
            PollEvent::Delivered(taken) => PollEventView::Delivered(*taken),
            PollEvent::Replies(page) => PollEventView::Replies(page_view(*page)),
        }
    }
}

/// What is to be done.
#[derive(Debug, Clone)]
pub enum PollAction {
    /// Pause for [`POLL_INTERVAL_SECS`](crate::polling::POLL_INTERVAL_SECS) seconds, then
    /// report [`PollEvent::Tick`].
    Sleep,
    /// Ask for the list of the conversations, then report [`PollEvent::Listed`].
    Discover,
    /// Ask for a history with these parameters, then report [`PollEvent::History`].
    FetchHistory(Vec<(String, String)>),
    /// Hand this message on, then report [`PollEvent::Delivered`].
    Deliver(PendingMessage),
    /// Ask for replies with these parameters, then report [`PollEvent::Replies`].
    FetchReplies(Vec<(String, String)>),
    /// Leave the loop.
    Stop,
}

/// What a [`PollAction`] holds.
pub enum PollActionView {
    Sleep,
    Discover,
    FetchHistory(Seq<(Seq<char>, Seq<char>)>),
    Deliver(PendingView),
    FetchReplies(Seq<(Seq<char>, Seq<char>)>),
    Stop,
}

impl View for PollAction {
    type V = PollActionView;

    open spec fn view(&self) -> PollActionView {
        match self {
            PollAction::Sleep => PollActionView::Sleep,
            PollAction::Discover => PollActionView::Discover,
            PollAction::FetchHistory(params) => PollActionView::FetchHistory(pairs(params@)),
            PollAction::Deliver(message) => PollActionView::Deliver(message@),
            PollAction::FetchReplies(params) => PollActionView::FetchReplies(pairs(params@)),
            PollAction::Stop => PollActionView::Stop,
        }
    }
}

/// The state of the polling loop: whom it serves, the conversations that are known, what
/// the clock read when the last attempt to list them was over, how far the loop has come in
/// them, what it waits for, the conversations that are left in this round, the threads that
/// are left in the conversation that is being polled, and the messages that are left to be
/// handed on.
pub struct PollView {
    pub bot: Seq<char>,
    pub scope: Option<Seq<char>>,
    pub discovered: Seq<Seq<char>>,
    pub last_discovery: u128,
    pub marks: MarksView,
    pub phase: PhaseView,
    pub channels: Seq<Seq<char>>,
    pub threads: Seq<Seq<char>>,
    pub outbox: Seq<PendingView>,
}

/// The parameters of the request for the history of a conversation.
pub open spec fn history_query(channel: Seq<char>, cursor: Seq<char>) -> Seq<
    (Seq<char>, Seq<char>),
> {
    seq![("channel"@, channel), ("limit"@, "10"@), ("oldest"@, cursor)]
}

/// The parameters of the request for the replies in a thread.
pub open spec fn replies_query(channel: Seq<char>, thread: Seq<char>, last: Seq<char>) -> Seq<
    (Seq<char>, Seq<char>),
> {
    seq![("channel"@, channel), ("ts"@, thread), ("oldest"@, last), ("limit"@, "10"@)]
}

/// Whether an event is one that the loop can be waiting for.
pub open spec fn awaited(phase: PhaseView, event: PollEventView) -> bool {
    match phase {
        PhaseView::Idle => event is Tick,
        PhaseView::Discovery => event is Listed,
        PhaseView::History(_) => event is History,
        PhaseView::Delivery(_, _) => event is Delivered,
        PhaseView::Replies(_, _) => event is Replies,
        PhaseView::Ended => false,
    }
}

/// On to the next conversation of the round, or to the end of the round. A conversation
/// that has no cursor yet gets `now_ts`.
pub open spec fn to_next_channel(s: PollView, now_ts: Seq<char>) -> (PollView, PollActionView) {
    if s.channels.len() == 0 {
        (PollView { phase: PhaseView::Idle, ..s }, PollActionView::Sleep)
    } else {
        let channel = s.channels[0];
        let cursor = cursor_or(s.marks.cursors, channel, now_ts);
        (
            PollView {
                marks: MarksView { cursors: s.marks.cursors.insert(channel, cursor), ..s.marks },
                phase: PhaseView::History(channel),
                channels: s.channels.drop_first(),
                ..s
            },
            PollActionView::FetchHistory(history_query(channel, cursor)),
        )
    }
}

/// On to the next thread of a conversation, or to the next conversation.
pub open spec fn to_next_thread(s: PollView, channel: Seq<char>, now_ts: Seq<char>) -> (
    PollView,
    PollActionView,
) {
    if s.threads.len() == 0 {
        to_next_channel(s, now_ts)
    } else {
        let thread = s.threads[0];
        (
            PollView {
                phase: PhaseView::Replies(channel, thread),
                threads: s.threads.drop_first(),
                ..s
            },
            PollActionView::FetchReplies(
                replies_query(channel, thread, mark_of(s.marks, (channel, thread))),
            ),
        )
    }
}

/// On to the next message that is left to be handed on, or to the next thread. `from` is the
/// thread of the conversation that the messages come from, or none where they come from its
/// history.
pub open spec fn to_next_message(
    s: PollView,
    channel: Seq<char>,
    from: Option<Seq<char>>,
    now_ts: Seq<char>,
) -> (PollView, PollActionView) {
    if s.outbox.len() == 0 {
        to_next_thread(s, channel, now_ts)
    } else {
        (
            PollView {
                phase: PhaseView::Delivery(channel, from),
                outbox: s.outbox.drop_first(),
                ..s
            },
            PollActionView::Deliver(s.outbox[0]),
        )
    }
}

/// A round through all the conversations that are known.
pub open spec fn round(s: PollView, now_ts: Seq<char>) -> (PollView, PollActionView) {
    to_next_channel(PollView { channels: s.discovered, ..s }, now_ts)
}

/// Whether the list of the conversations is to be asked for when the clock reads `clock`:
/// where it is empty, or the last attempt, be it one that failed, is long enough ago.
pub open spec fn discovery_due(s: PollView, clock: u128) -> bool {
    s.discovered.len() == 0 || clock - s.last_discovery >= DISCOVERY_INTERVAL_NANOS
}

/// What an event that the loop waits for leads to: the next state, and what is to be done.
pub open spec fn after_poll_event(
    s: PollView,
    allowed: Seq<Seq<char>>,
    event: PollEventView,
    now_ts: Seq<char>,
) -> (PollView, PollActionView) {
    match (s.phase, event) {
        (PhaseView::Idle, PollEventView::Tick(clock)) => match s.scope {
            Some(channel) => to_next_channel(PollView { channels: seq![channel], ..s }, now_ts),
            None => if discovery_due(s, clock) {
                (PollView { phase: PhaseView::Discovery, ..s }, PollActionView::Discover)
            } else {
                round(s, now_ts)
            },
        },
        (PhaseView::Discovery, PollEventView::Listed(clock, Some(list))) => round(
            PollView { discovered: list, last_discovery: clock, ..s },
            now_ts,
        ),
        (PhaseView::Discovery, PollEventView::Listed(clock, None)) => round(
            PollView { last_discovery: clock, ..s },
            now_ts,
        ),
        (PhaseView::History(channel), PollEventView::History(Some(page))) => {
            let (marks, out) = history_run(s.marks, s.bot, allowed, channel, page.reverse());
            let threads = threads_in(marks.order, channel);
            to_next_message(PollView { marks, threads, outbox: out, ..s }, channel, None, now_ts)
        },
        (PhaseView::History(channel), PollEventView::History(None)) => to_next_channel(s, now_ts),
        (PhaseView::Delivery(channel, from), PollEventView::Delivered(true)) => to_next_message(
            s,
            channel,
            from,
            now_ts,
        ),
        (PhaseView::Delivery(_, _), PollEventView::Delivered(false)) => (
            PollView { phase: PhaseView::Ended, ..s },
            PollActionView::Stop,
        ),
        (PhaseView::Replies(channel, thread), PollEventView::Replies(Some(page))) => {
            let (marks, out) = replies_run(s.marks, s.bot, allowed, (channel, thread), page);
            to_next_message(
                PollView { marks, outbox: out, ..s },
                channel,
                Some(thread),
                now_ts,
            )
        },
        (PhaseView::Replies(channel, thread), PollEventView::Replies(None)) => to_next_thread(
            s,
            channel,
            now_ts,
        ),
        _ => (s, PollActionView::Stop),
    }
}

/// The polling loop of a channel.
pub struct Poller {
    bot_user_id: String,
    scoped_channel: Option<String>,
    discovered: Vec<String>,
    last_discovery: u128,
    marks: Marks,
    phase: Phase,
    channels: Vec<String>,
    threads: Vec<String>,
    outbox: Vec<PendingMessage>,
}

impl View for Poller {
    type V = PollView;

    closed spec fn view(&self) -> PollView {
        PollView {
            bot: self.bot_user_id@,
            scope: opt_text(self.scoped_channel),
            discovered: texts(self.discovered@),
            last_discovery: self.last_discovery,
            marks: self.marks@,
            phase: self.phase@,
            channels: texts(self.channels@),
            threads: texts(self.threads@),
            outbox: pending_views(self.outbox@),
        }
    }
}

/// A copy of a list of texts.
fn copied_list(list: &Vec<String>) -> (r: Vec<String>)
    ensures
        texts(r@) == texts(list@),
{
    let mut copy: Vec<String> = Vec::new();
    let mut i: usize = 0;
    while i < list.len()
        invariant
            i <= list.len(),
            texts(copy@) == texts(list@).take(i as int),
        decreases list.len() - i,
    {
        let ghost before = texts(copy@);
        copy.push(list[i].clone());
        assert(texts(copy@) =~= before.push(list@[i as int]@));
        assert(texts(copy@) =~= texts(list@).take(i + 1));
        i += 1;
    }
    assert(texts(list@).take(i as int) == texts(list@));
    copy
}

impl Poller {
    /// The loop of `channel` for the bot with the given user id, where that is known. It
    /// starts with a pause.
    pub fn new(channel: &SlackChannel, bot_user_id: Option<String>) -> (poller: Self)
        ensures
            poller@ == (PollView {
                bot: text_or(opt_text(bot_user_id), ""@),
                scope: normalized(opt_text(channel.channel_id)),
                discovered: Seq::empty(),
                last_discovery: 0,
                marks: MarksView {
                    cursors: Map::empty(),
                    threads: Map::empty(),
                    order: Seq::empty(),
                },
                phase: PhaseView::Idle,
                channels: Seq::empty(),
                threads: Seq::empty(),
                outbox: Seq::empty(),
            }),
    {
        let bot_user_id = match bot_user_id {
            Some(id) => id,
            None => "".to_owned(),
        };
        let poller = Poller {
            bot_user_id,
            scoped_channel: channel.configured_channel_id(),
            discovered: Vec::new(),
            last_discovery: 0,
            marks: Marks::new(),
            phase: Phase::Idle,
            channels: Vec::new(),
            threads: Vec::new(),
            outbox: Vec::new(),
        };
        assert(texts(poller.discovered@) =~= Seq::empty());
        assert(texts(poller.channels@) =~= Seq::empty());
        assert(texts(poller.threads@) =~= Seq::empty());
        assert(pending_views(poller.outbox@) =~= Seq::empty());
        poller
    }

    /// Whether `event` is one that the loop is waiting for.
    pub fn awaits(&self, event: &PollEvent) -> (r: bool)
        ensures
            r == awaited(self@.phase, event@),
    {
        match (&self.phase, event) {
            (Phase::Idle, PollEvent::Tick(_)) => true,
            (Phase::Discovery, PollEvent::Listed(_, _)) => true,
            (Phase::History(_), PollEvent::History(_)) => true,
            (Phase::Delivery(_, _), PollEvent::Delivered(_)) => true,
            (Phase::Replies(_, _), PollEvent::Replies(_)) => true,
            _ => false,
        }
    }

    fn next_channel(&mut self, now_ts: &str) -> (action: PollAction)
        ensures
            (final(self)@, action@) == to_next_channel(old(self)@, now_ts@),
    {
        if self.channels.len() == 0 {
            self.phase = Phase::Idle;
            return PollAction::Sleep;
        }
        let channel_id = self.channels.remove(0);
        assert(texts(self.channels@) =~= texts(old(self).channels@).drop_first());
        let cursor = self.marks.start(channel_id.as_str(), now_ts);
        let mut params: Vec<(String, String)> = Vec::new();
        params.push(("channel".to_owned(), channel_id.clone()));
        params.push(("limit".to_owned(), "10".to_owned()));
        params.push(("oldest".to_owned(), cursor));
        assert(pairs(params@) =~= history_query(channel_id@, cursor@));
        self.phase = Phase::History(channel_id);
        PollAction::FetchHistory(params)
    }

    fn next_thread(&mut self, channel_id: String, now_ts: &str) -> (action: PollAction)
        ensures
            (final(self)@, action@) == to_next_thread(old(self)@, channel_id@, now_ts@),
    {
        if self.threads.len() == 0 {
            return self.next_channel(now_ts);
        }
        let thread_ts = self.threads.remove(0);
        assert(texts(self.threads@) =~= texts(old(self).threads@).drop_first());
        let thread = (channel_id, thread_ts);
        let last = self.marks.mark(&thread);
        let mut params: Vec<(String, String)> = Vec::new();
        params.push(("channel".to_owned(), thread.0.clone()));
        params.push(("ts".to_owned(), thread.1.clone()));
        params.push(("oldest".to_owned(), last));
        params.push(("limit".to_owned(), "10".to_owned()));
        assert(pairs(params@) =~= replies_query(thread.0@, thread.1@, last@));
        self.phase = Phase::Replies(thread.0, thread.1);
        PollAction::FetchReplies(params)
    }

    fn next_message(&mut self, channel_id: String, from: Option<String>, now_ts: &str) -> (action:
        PollAction)
        ensures
            (final(self)@, action@) == to_next_message(
                old(self)@,
                channel_id@,
                opt_text(from),
                now_ts@,
            ),
    {
        if self.outbox.len() == 0 {
            return self.next_thread(channel_id, now_ts);
        }
        let message = self.outbox.remove(0);
        assert(pending_views(self.outbox@) =~= pending_views(old(self).outbox@).drop_first());
        self.phase = Phase::Delivery(channel_id, from);
        PollAction::Deliver(message)
    }

    fn start_round(&mut self, now_ts: &str) -> (action: PollAction)
        ensures
            (final(self)@, action@) == round(old(self)@, now_ts@),
    {
        self.channels = copied_list(&self.discovered);
        self.next_channel(now_ts)
    }

    /// Whether the list of the conversations is to be asked for when the clock reads `clock`.
    pub fn is_discovery_due(&self, clock: u128) -> (r: bool)
        ensures
            r == discovery_due(self@, clock),
    {
        self.discovered.len() == 0 || (clock >= self.last_discovery && clock - self.last_discovery
            >= DISCOVERY_INTERVAL_NANOS)
    }

    /// Takes in an event that the loop is waiting for, at the time `now_ts`, and says what
    /// is to be done.
    pub fn step(
        &mut self,
        channel: &SlackChannel,
        event: PollEvent,
        now_ts: &str,
    ) -> (action: PollAction)
        requires
            awaited(old(self)@.phase, event@),
        ensures
            (final(self)@, action@) == after_poll_event(
                old(self)@,
                channel.allowlist(),
                event@,
                now_ts@,
            ),
    {
        let mut phase = Phase::Idle;
        std::mem::swap(&mut phase, &mut self.phase);
        match (phase, event) {
            (Phase::Idle, PollEvent::Tick(clock)) => {
                match &self.scoped_channel {
                    Some(channel_id) => {
                        let mut channels: Vec<String> = Vec::new();
                        channels.push(channel_id.clone());
                        assert(texts(channels@) =~= seq![channel_id@]);
                        self.channels = channels;
                        self.next_channel(now_ts)
                    },
                    None => if self.is_discovery_due(clock) {
                        self.phase = Phase::Discovery;
                        PollAction::Discover
                    } else {
                        self.start_round(now_ts)
                    },
                }
            },
            (Phase::Discovery, PollEvent::Listed(clock, list)) => {
                self.phase = Phase::Discovery;
                self.last_discovery = clock;
                match list {
                    Some(channels) => {
                        self.discovered = channels;
                    },
                    None => {},
                }
                self.start_round(now_ts)
            },
            (Phase::History(channel_id), PollEvent::History(page)) => match page {
                Some(messages) => {
                    self.outbox = self.marks.take_history(
                        channel,
                        self.bot_user_id.as_str(),
                        channel_id.as_str(),
                        &messages,
                    );
                    self.threads = self.marks.threads_of(channel_id.as_str());
                    self.next_message(channel_id, None, now_ts)
                },
                None => {
                    self.phase = Phase::History(channel_id);
                    self.next_channel(now_ts)
                },
            },
            (Phase::Delivery(channel_id, from), PollEvent::Delivered(taken)) => {
                if !taken {
                    self.phase = Phase::Ended;
                    return PollAction::Stop;
                }
                self.next_message(channel_id, from, now_ts)
            },
            (Phase::Replies(channel_id, thread_ts), PollEvent::Replies(page)) => match page {
                Some(messages) => {
                    let thread = (channel_id, thread_ts);
                    self.outbox = self.marks.take_replies(
                        channel,
                        self.bot_user_id.as_str(),
                        &thread,
                        &messages,
                    );
                    self.next_message(thread.0, Some(thread.1), now_ts)
                },
                None => {
                    self.phase = Phase::Replies(channel_id.clone(), thread_ts);
                    self.next_thread(channel_id, now_ts)
                },
            },
            _ => PollAction::Stop,
        }
    }
}

/// The event that reports that an action has been performed is the one that the loop waits
/// for after it.
pub open spec fn reported_by(action: PollActionView, event: PollEventView) -> bool {
    match action {
        PollActionView::Sleep => event is Tick,
        PollActionView::Discover => event is Listed,
        PollActionView::FetchHistory(_) => event is History,
        PollActionView::Deliver(_) => event is Delivered,
        PollActionView::FetchReplies(_) => event is Replies,
        PollActionView::Stop => false,
    }
}

/// The loop ends where nobody takes the messages any more, and only there: then nothing is
/// awaited any more, and nothing that has been seen so far is touched.
pub proof fn the_loop_ends_where_nobody_takes_messages(
    s: PollView,
    allowed: Seq<Seq<char>>,
    event: PollEventView,
    now_ts: Seq<char>,
    report: PollEventView,
)
    requires
        awaited(s.phase, event),
    ensures
        ({
            let (next, action) = after_poll_event(s, allowed, event, now_ts);
            &&& action is Stop <==> event == PollEventView::Delivered(false)
            &&& action is Stop <==> next.phase is Ended
            &&& action is Stop ==> !awaited(next.phase, report) && next.marks == s.marks
        }),
{
}

/// Once the loop has ended, nothing more is asked for and nothing more is handed on, whatever
/// comes.
pub proof fn the_end_is_final(
    s: PollView,
    allowed: Seq<Seq<char>>,
    event: PollEventView,
    now_ts: Seq<char>,
)
    requires
        s.phase is Ended,
    ensures
        after_poll_event(s, allowed, event, now_ts) == (s, PollActionView::Stop),
{
}

/// Nothing but the reply to a request for the list changes the list, or the time from which
/// the next request is counted.
pub proof fn only_discoveries_change_the_list(
    s: PollView,
    allowed: Seq<Seq<char>>,
    event: PollEventView,
    now_ts: Seq<char>,
)
    requires
        !(event is Listed),
    ensures
        ({
            let next = after_poll_event(s, allowed, event, now_ts).0;
            next.discovered == s.discovered && next.last_discovery == s.last_discovery
        }),
{
}

/// After each step the loop waits for the report of what it asked to be done, so that the
/// next step can be taken with it.
pub proof fn what_is_asked_for_is_awaited(
    s: PollView,
    allowed: Seq<Seq<char>>,
    event: PollEventView,
    now_ts: Seq<char>,
    report: PollEventView,
)
    requires
        awaited(s.phase, event),
        reported_by(after_poll_event(s, allowed, event, now_ts).1, report),
    ensures
        awaited(after_poll_event(s, allowed, event, now_ts).0.phase, report),
{
}

/// How much is left to be done in a round, in numbers of which the first weighs most.
pub open spec fn work_left(s: PollView) -> (nat, nat, nat, nat, nat, nat) {
    (
        if s.phase is Discovery { 1 } else { 0 },
        s.channels.len(),
        if s.phase is History { 1 } else { 0 },
        s.threads.len(),
        if s.phase is Replies { 1 } else { 0 },
        if s.phase is Delivery { s.outbox.len() + 1 } else { 0 },
    )
}

/// Whether `a` is less than `b`, where an earlier number weighs more than a later one.
pub open spec fn less_work(
    a: (nat, nat, nat, nat, nat, nat),
    b: (nat, nat, nat, nat, nat, nat),
) -> bool {
    ||| a.0 < b.0
    ||| a.0 == b.0 && a.1 < b.1
    ||| a.0 == b.0 && a.1 == b.1 && a.2 < b.2
    ||| a.0 == b.0 && a.1 == b.1 && a.2 == b.2 && a.3 < b.3
    ||| a.0 == b.0 && a.1 == b.1 && a.2 == b.2 && a.3 == b.3 && a.4 < b.4
    ||| a.0 == b.0 && a.1 == b.1 && a.2 == b.2 && a.3 == b.3 && a.4 == b.4 && a.5 < b.5
}

/// Each round comes to an end, whatever the replies are: with each event but the end of a
/// pause less is left to be done.
pub proof fn rounds_come_to_an_end(
    s: PollView,
    allowed: Seq<Seq<char>>,
    event: PollEventView,
    now_ts: Seq<char>,
)
    requires
        awaited(s.phase, event),
        !(s.phase is Idle),
    ensures
        less_work(work_left(after_poll_event(s, allowed, event, now_ts).0), work_left(s)),
{
}

/// Whether the loop polls no conversation but `channel`, and has no message of another one.
pub open spec fn confined_to(s: PollView, channel: Seq<char>) -> bool {
    &&& s.scope == Some(channel)
    &&& forall|i: int| 0 <= i < s.channels.len() ==> #[trigger] s.channels[i] == channel
    &&& forall|i: int|
        0 <= i < s.outbox.len() ==> (#[trigger] s.outbox[i]).reply_target == channel
    &&& match s.phase {
        PhaseView::Idle => true,
        PhaseView::Discovery => false,
        PhaseView::History(c) => c == channel,
        PhaseView::Delivery(c, _) => c == channel,
        PhaseView::Replies(c, _) => c == channel,
        PhaseView::Ended => true,
    }
}

/// A channel that is configured to one conversation never asks for another one, nor for
/// the list of them, and hands on nothing that is to be answered elsewhere.
pub proof fn a_scoped_loop_stays_in_its_channel(
    s: PollView,
    allowed: Seq<Seq<char>>,
    event: PollEventView,
    now_ts: Seq<char>,
    channel: Seq<char>,
)
    requires
        awaited(s.phase, event),
        confined_to(s, channel),
    ensures
        ({
            let (next, action) = after_poll_event(s, allowed, event, now_ts);
            &&& confined_to(next, channel)
            &&& match action {
                PollActionView::Discover => false,
                PollActionView::FetchHistory(params) => params[0] == ("channel"@, channel),
                PollActionView::FetchReplies(params) => params[0] == ("channel"@, channel),
                PollActionView::Deliver(message) => message.reply_target == channel,
                _ => true,
            }
        }),
{
    match (s.phase, event) {
        (PhaseView::History(c), PollEventView::History(Some(page))) => {
            answers_go_to_the_conversation(s.marks, s.bot, allowed, (c, ""@), page.reverse());
        },
        (PhaseView::Replies(c, thread), PollEventView::Replies(Some(page))) => {
            answers_go_to_the_conversation(s.marks, s.bot, allowed, (c, thread), page);
        },
        _ => {},
    }
}

/// The threads of a conversation whose history could not be had are passed over, and
/// nothing that has been seen so far is forgotten.
pub proof fn a_failed_history_passes_the_threads_over(
    s: PollView,
    allowed: Seq<Seq<char>>,
    now_ts: Seq<char>,
    other: Seq<char>,
)
    requires
        s.phase is History,
    ensures
        ({
            let (next, action) = after_poll_event(s, allowed, PollEventView::History(None), now_ts);
            &&& !(action is FetchReplies) && !(action is Deliver)
            &&& next.marks.threads == s.marks.threads
            &&& next.marks.order == s.marks.order
            &&& s.marks.cursors.contains_key(other) ==> next.marks.cursors.contains_key(other)
                && next.marks.cursors[other] == s.marks.cursors[other]
        }),
{
}

/// A conversation that is polled for the first time starts at the time of that poll, so
/// that its history is not replayed: of a page of it, only what is later is handed on.
pub proof fn first_polls_do_not_replay_the_history(
    s: PollView,
    allowed: Seq<Seq<char>>,
    now_ts: Seq<char>,
    page: Seq<PolledView>,
    i: int,
)
    requires
        s.channels.len() > 0,
        !s.marks.cursors.contains_key(s.channels[0]),
        0 <= i < history_run(
            to_next_channel(s, now_ts).0.marks,
            s.bot,
            allowed,
            s.channels[0],
            page.reverse(),
        ).1.len(),
    ensures
        to_next_channel(s, now_ts).1 == PollActionView::FetchHistory(
            history_query(s.channels[0], now_ts),
        ),
        exists|m: PolledView| page.contains(m) && text_lt(now_ts, m.ts) && history_run(
            to_next_channel(s, now_ts).0.marks,
            s.bot,
            allowed,
            s.channels[0],
            page.reverse(),
        ).1[i] == #[trigger] handed_on(s.channels[0], m),
{
    let marks = to_next_channel(s, now_ts).0.marks;
    let messages = page.reverse();
    only_news_is_handed_on(marks, s.bot, allowed, s.channels[0], messages, i);
    let j = choose|j: int|
        0 <= j < messages.len() && news(
            s.bot,
            allowed,
            cursor_of(marks, s.channels[0]),
            #[trigger] messages[j],
        ) && history_run(marks, s.bot, allowed, s.channels[0], messages).1[i] == handed_on(
            s.channels[0],
            messages[j],
        );
    assert(page[page.len() - 1 - j] == messages[j]);
    assert(page.contains(messages[j]));
}

/// The state once `events` have come one after the other, each with the time at which it
/// came.
pub open spec fn poll_run(
    s: PollView,
    allowed: Seq<Seq<char>>,
    events: Seq<(PollEventView, Seq<char>)>,
) -> PollView
    decreases events.len(),
{
    if events.len() == 0 {
        s
    } else {
        let before = poll_run(s, allowed, events.drop_last());
        after_poll_event(before, allowed, events.last().0, events.last().1).0
    }
}

proof fn lemma_list_is_kept(
    s: PollView,
    allowed: Seq<Seq<char>>,
    events: Seq<(PollEventView, Seq<char>)>,
)
    requires
        forall|i: int| 0 <= i < events.len() ==> !((#[trigger] events[i]).0 is Listed),
    ensures
        poll_run(s, allowed, events).discovered == s.discovered,
        poll_run(s, allowed, events).last_discovery == s.last_discovery,
        poll_run(s, allowed, events).scope == s.scope,
    decreases events.len(),
{
    if events.len() > 0 {
        lemma_list_is_kept(s, allowed, events.drop_last());
        assert(!(events[events.len() - 1].0 is Listed));
        let before = poll_run(s, allowed, events.drop_last());
        only_discoveries_change_the_list(before, allowed, events.last().0, events.last().1);
    }
}

/// When the list of the conversations is asked for is counted from the last attempt, whether
/// that succeeded or failed: whatever has come since then, the list is asked for at the end
/// of a pause exactly where it is empty or the interval is over.
pub proof fn discoveries_are_paced(
    s: PollView,
    allowed: Seq<Seq<char>>,
    listed: u128,
    list: Option<Seq<Seq<char>>>,
    now_ts: Seq<char>,
    events: Seq<(PollEventView, Seq<char>)>,
    tick: u128,
    later_ts: Seq<char>,
)
    requires
        s.scope is None,
        s.phase is Discovery,
        forall|i: int| 0 <= i < events.len() ==> !((#[trigger] events[i]).0 is Listed),
        poll_run(
            after_poll_event(s, allowed, PollEventView::Listed(listed, list), now_ts).0,
            allowed,
            events,
        ).phase is Idle,
    ensures
        ({
            let next = after_poll_event(s, allowed, PollEventView::Listed(listed, list), now_ts).0;
            let later = poll_run(next, allowed, events);
            let known = match list {
                Some(list) => list,
                None => s.discovered,
            };
            &&& later.discovered == known
            &&& after_poll_event(later, allowed, PollEventView::Tick(tick), later_ts).1 is Discover
                <==> known.len() == 0 || tick - listed >= DISCOVERY_INTERVAL_NANOS
        }),
{
    let next = after_poll_event(s, allowed, PollEventView::Listed(listed, list), now_ts).0;
    lemma_list_is_kept(next, allowed, events);
}

/// The messages that an event brings, which are to be handed on.
pub open spec fn brought(
    s: PollView,
    allowed: Seq<Seq<char>>,
    event: PollEventView,
) -> Seq<PendingView> {
    match (s.phase, event) {
        (PhaseView::History(channel), PollEventView::History(Some(page))) => history_run(
            s.marks,
            s.bot,
            allowed,
            channel,
            page.reverse(),
        ).1,
        (PhaseView::Replies(channel, thread), PollEventView::Replies(Some(page))) => replies_run(
            s.marks,
            s.bot,
            allowed,
            (channel, thread),
            page,
        ).1,
        _ => Seq::empty(),
    }
}

/// The messages that `events` bring, in the order in which they come.
pub open spec fn all_brought(
    s: PollView,
    allowed: Seq<Seq<char>>,
    events: Seq<(PollEventView, Seq<char>)>,
) -> Seq<PendingView>
    decreases events.len(),
{
    if events.len() == 0 {
        Seq::empty()
    } else {
        let before = poll_run(s, allowed, events.drop_last());
        all_brought(s, allowed, events.drop_last()) + brought(before, allowed, events.last().0)
    }
}

/// The messages that the loop asks to be handed on while `events` come.
pub open spec fn all_delivered(
    s: PollView,
    allowed: Seq<Seq<char>>,
    events: Seq<(PollEventView, Seq<char>)>,
) -> Seq<PendingView>
    decreases events.len(),
{
    if events.len() == 0 {
        Seq::empty()
    } else {
        let earlier = all_delivered(s, allowed, events.drop_last());
        let before = poll_run(s, allowed, events.drop_last());
        match after_poll_event(before, allowed, events.last().0, events.last().1).1 {
            PollActionView::Deliver(message) => earlier.push(message),
            _ => earlier,
        }
    }
}

/// Over a whole run from the start of the loop, the messages are handed on one by one, in the
/// order in which they came: those handed on and those left are always those that came, and
/// none is left when the loop asks for anything else. So where nobody takes a message, those
/// handed on are the ones up to that message.
pub proof fn messages_are_handed_on_one_by_one(
    s: PollView,
    allowed: Seq<Seq<char>>,
    events: Seq<(PollEventView, Seq<char>)>,
)
    requires
        s.phase is Idle,
        s.outbox.len() == 0,
    ensures
        ({
            let end = poll_run(s, allowed, events);
            &&& all_delivered(s, allowed, events) + end.outbox == all_brought(s, allowed, events)
            &&& end.phase is Delivery || end.phase is Ended || end.outbox.len() == 0
        }),
    decreases events.len(),
{
    if events.len() == 0 {
        assert(all_delivered(s, allowed, events) + s.outbox =~= Seq::empty());
    } else {
        let head = events.drop_last();
        let (event, now_ts) = events.last();
        messages_are_handed_on_one_by_one(s, allowed, head);
        let before = poll_run(s, allowed, head);
        let end = poll_run(s, allowed, events);
        let earlier = all_delivered(s, allowed, head);
        let new = brought(before, allowed, event);
        assert(earlier + before.outbox + new == all_brought(s, allowed, events));
        if before.phase is History && event matches PollEventView::History(Some(_)) || before.phase
            is Replies && event matches PollEventView::Replies(Some(_)) {
            assert(earlier + before.outbox =~= earlier);
            if new.len() > 0 {
                assert(earlier.push(new[0]) + new.drop_first() =~= earlier + new);
            }
        } else {
            assert(earlier + before.outbox + new =~= earlier + before.outbox);
            if end.outbox.len() != before.outbox.len() {
                assert(earlier.push(before.outbox[0]) + before.outbox.drop_first() =~= earlier
                    + before.outbox);
            }
        }
    }
}

/// The messages from the histories of a conversation that are handed on while `events` come.
pub open spec fn history_of(
    s: PollView,
    allowed: Seq<Seq<char>>,
    events: Seq<(PollEventView, Seq<char>)>,
    channel: Seq<char>,
) -> Seq<PendingView>
    decreases events.len(),
{
    if events.len() == 0 {
        Seq::empty()
    } else {
        let earlier = history_of(s, allowed, events.drop_last(), channel);
        let before = poll_run(s, allowed, events.drop_last());
        match after_poll_event(before, allowed, events.last().0, events.last().1).1 {
            PollActionView::Deliver(message) => if poll_run(s, allowed, events).phase
                == PhaseView::Delivery(channel, None) {
                earlier.push(message)
            } else {
                earlier
            },
            _ => earlier,
        }
    }
}

/// The messages from the history of a conversation that are left to be handed on.
pub open spec fn left_of(s: PollView, channel: Seq<char>) -> Seq<PendingView> {
    if s.phase == PhaseView::Delivery(channel, None) {
        s.outbox
    } else {
        Seq::empty()
    }
}

/// The time at which the history of a conversation is first asked for while `events` come.
pub open spec fn first_poll(
    s: PollView,
    allowed: Seq<Seq<char>>,
    events: Seq<(PollEventView, Seq<char>)>,
    channel: Seq<char>,
) -> Option<Seq<char>>
    decreases events.len(),
{
    if events.len() == 0 {
        None
    } else {
        let earlier = first_poll(s, allowed, events.drop_last(), channel);
        let before = poll_run(s, allowed, events.drop_last());
        match after_poll_event(before, allowed, events.last().0, events.last().1).1 {
            PollActionView::FetchHistory(params) => if earlier is None && params[0].1 == channel {
                Some(events.last().1)
            } else {
                earlier
            },
            _ => earlier,
        }
    }
}

proof fn lemma_ascending_append(
    channel: Seq<char>,
    start: Seq<char>,
    earlier: Seq<PendingView>,
    out: Seq<PendingView>,
)
    requires
        ascending_after(channel, start, earlier),
        ascending_after(channel, reached(channel, start, earlier), out),
    ensures
        ascending_after(channel, start, earlier + out),
        reached(channel, start, earlier + out) == reached(
            channel,
            reached(channel, start, earlier),
            out,
        ),
    decreases out.len(),
{
    if out.len() == 0 {
        assert(earlier + out =~= earlier);
    } else {
        let head = out.drop_last();
        let last = out.last();
        let middle = reached(channel, start, earlier);
        assert(ascending_after(channel, middle, head)) by {
            assert forall|i: int| 0 <= i < head.len() implies text_lt(
                middle,
                ts_in(channel, (#[trigger] head[i]).id),
            ) by {
                assert(head[i] == out[i]);
            }
            assert forall|i: int, j: int| 0 <= i < j < head.len() implies text_lt(
                ts_in(channel, (#[trigger] head[i]).id),
                ts_in(channel, (#[trigger] head[j]).id),
            ) by {
                assert(head[i] == out[i] && head[j] == out[j]);
            }
        }
        lemma_ascending_append(channel, start, earlier, head);
        assert(text_lt(reached(channel, middle, head), ts_in(channel, last.id))) by {
            assert(out[out.len() - 1] == last);
            if head.len() > 0 {
                assert(head.last() == out[head.len() - 1]);
            }
        }
        lemma_ascending_push(channel, start, earlier + head, last);
        assert(earlier + out =~= (earlier + head).push(last));
    }
}

proof fn lemma_ascending_prefix(
    channel: Seq<char>,
    start: Seq<char>,
    out: Seq<PendingView>,
    left: Seq<PendingView>,
)
    requires
        ascending_after(channel, start, out + left),
    ensures
        ascending_after(channel, start, out),
{
    let all = out + left;
    assert forall|i: int| 0 <= i < out.len() implies text_lt(
        start,
        ts_in(channel, (#[trigger] out[i]).id),
    ) by {
        assert(out[i] == all[i]);
    }
    assert forall|i: int, j: int| 0 <= i < j < out.len() implies text_lt(
        ts_in(channel, (#[trigger] out[i]).id),
        ts_in(channel, (#[trigger] out[j]).id),
    ) by {
        assert(out[i] == all[i] && out[j] == all[j]);
    }
}

/// Over a whole run from the start of the loop, whatever the replies are, the messages from
/// the histories of a conversation, those handed on and those left, come in the strict order
/// of their timestamps, so that none comes twice, and all of them are later than the first
/// poll of the conversation; until the loop ends, its cursor stands at the last of them, or
/// at the first poll where there is none.
pub proof fn conversations_are_handed_on_in_order(
    s: PollView,
    allowed: Seq<Seq<char>>,
    events: Seq<(PollEventView, Seq<char>)>,
    channel: Seq<char>,
)
    requires
        s.phase is Idle,
        !s.marks.cursors.contains_key(channel),
    ensures
        ({
            let end = poll_run(s, allowed, events);
            let out = history_of(s, allowed, events, channel) + left_of(end, channel);
            match first_poll(s, allowed, events, channel) {
                Some(first) => {
                    &&& ascending_after(channel, first, out)
                    &&& end.marks.cursors.contains_key(channel)
                    &&& end.phase is Ended || end.marks.cursors[channel] == reached(
                        channel,
                        first,
                        out,
                    )
                },
                None => {
                    &&& out.len() == 0
                    &&& !end.marks.cursors.contains_key(channel)
                    &&& end.phase != PhaseView::History(channel)
                    &&& end.phase != PhaseView::Delivery(channel, None)
                },
            }
        }),
    decreases events.len(),
{
    if events.len() > 0 {
        let head = events.drop_last();
        let (event, now_ts) = events.last();
        conversations_are_handed_on_in_order(s, allowed, head, channel);
        let before = poll_run(s, allowed, head);
        let end = poll_run(s, allowed, events);
        let earlier = history_of(s, allowed, head, channel);
        let handed = history_of(s, allowed, events, channel);
        let left = left_of(before, channel);
        match (before.phase, event) {
            (PhaseView::History(c), PollEventView::History(Some(page))) => {
                let messages = page.reverse();
                let out = history_run(before.marks, before.bot, allowed, c, messages).1;
                assert(earlier + left =~= earlier);
                if c == channel {
                    let first = first_poll(s, allowed, head, channel)->0;
                    runs_hand_on_in_order(before.marks, before.bot, allowed, c, messages);
                    lemma_ascending_append(channel, first, earlier, out);
                    if out.len() > 0 {
                        assert(handed == earlier.push(out[0]));
                        assert(handed + left_of(end, channel) =~= earlier + out);
                    } else {
                        assert(earlier + out =~= earlier);
                        assert(handed + left_of(end, channel) =~= earlier);
                    }
                } else {
                    cursors_never_go_back(
                        before.marks,
                        before.bot,
                        allowed,
                        c,
                        messages,
                        channel,
                    );
                    assert(handed + left_of(end, channel) =~= earlier);
                }
            },
            (PhaseView::Replies(c, thread), PollEventView::Replies(Some(page))) => {
                thread_marks_never_go_back(
                    before.marks,
                    before.bot,
                    allowed,
                    (c, thread),
                    page,
                    (c, thread),
                );
                assert(handed + left_of(end, channel) =~= earlier + left);
            },
            (PhaseView::Delivery(c, from), PollEventView::Delivered(true)) => {
                if before.outbox.len() > 0 && c == channel && from is None {
                    assert(handed == earlier.push(left[0]));
                }
                assert(handed + left_of(end, channel) =~= earlier + left);
            },
            (PhaseView::Delivery(_, _), PollEventView::Delivered(false)) => {
                assert(handed + left_of(end, channel) =~= earlier);
                match first_poll(s, allowed, head, channel) {
                    Some(first) => {
                        lemma_ascending_prefix(channel, first, earlier, left);
                    },
                    None => {},
                }
            },
            _ => {
                assert(handed + left_of(end, channel) =~= earlier + left);
            },
        }
    } else {
        assert(history_of(s, allowed, events, channel) + left_of(s, channel) =~= Seq::empty());
    }
}

/// Over a whole run from the start of the loop, each request for the history of a
/// conversation starts at the last message of it that has been handed on; where there is
/// none, at the first poll of the conversation, which starts at its own time.
pub proof fn requests_start_at_the_last_message(
    s: PollView,
    allowed: Seq<Seq<char>>,
    events: Seq<(PollEventView, Seq<char>)>,
    event: PollEventView,
    now_ts: Seq<char>,
    channel: Seq<char>,
)
    requires
        s.phase is Idle,
        !s.marks.cursors.contains_key(channel),
        after_poll_event(poll_run(s, allowed, events), allowed, event, now_ts).1 matches
            PollActionView::FetchHistory(params) && params[0] == ("channel"@, channel),
    ensures
        after_poll_event(poll_run(s, allowed, events), allowed, event, now_ts).1
            == PollActionView::FetchHistory(
            history_query(
                channel,
                match first_poll(s, allowed, events, channel) {
                    Some(first) => reached(
                        channel,
                        first,
                        history_of(s, allowed, events, channel),
                    ),
                    None => now_ts,
                },
            ),
        ),
{
    conversations_are_handed_on_in_order(s, allowed, events, channel);
    let end = poll_run(s, allowed, events);
    let handed = history_of(s, allowed, events, channel);
    if left_of(end, channel).len() == 0 {
        assert(handed + left_of(end, channel) =~= handed);
    }
    match (end.phase, event) {
        (PhaseView::History(c), PollEventView::History(Some(page))) => {
            runs_hand_on_in_order(end.marks, end.bot, allowed, c, page.reverse());
            cursors_never_go_back(end.marks, end.bot, allowed, c, page.reverse(), channel);
        },
        (PhaseView::Replies(c, thread), PollEventView::Replies(Some(page))) => {
            thread_marks_never_go_back(
                end.marks,
                end.bot,
                allowed,
                (c, thread),
                page,
                (c, thread),
            );
        },
        _ => {},
    }
}

/// Whether each of `events` is awaited when it comes, and none of them starts a round.
pub open spec fn within_a_round(
    s: PollView,
    allowed: Seq<Seq<char>>,
    events: Seq<(PollEventView, Seq<char>)>,
) -> bool
    decreases events.len(),
{
    events.len() > 0 ==> {
        &&& within_a_round(s, allowed, events.drop_last())
        &&& awaited(poll_run(s, allowed, events.drop_last()).phase, events.last().0)
        &&& !(events.last().0 is Tick)
        &&& !(events.last().0 is Listed)
    }
}

/// The conversations whose history is asked for while `events` come.
pub open spec fn asked_for(
    s: PollView,
    allowed: Seq<Seq<char>>,
    events: Seq<(PollEventView, Seq<char>)>,
) -> Seq<Seq<char>>
    decreases events.len(),
{
    if events.len() == 0 {
        Seq::empty()
    } else {
        let earlier = asked_for(s, allowed, events.drop_last());
        let before = poll_run(s, allowed, events.drop_last());
        match after_poll_event(before, allowed, events.last().0, events.last().1).1 {
            PollActionView::FetchHistory(params) => earlier.push(params[0].1),
            _ => earlier,
        }
    }
}

/// A round asks for the history of each of its conversations once, in their order, whatever
/// the replies are: those asked for and those left are always those of the round, and none
/// is left when the next pause comes.
pub proof fn rounds_go_through_all_conversations(
    s: PollView,
    allowed: Seq<Seq<char>>,
    now_ts: Seq<char>,
    events: Seq<(PollEventView, Seq<char>)>,
)
    requires
        s.discovered.len() > 0,
        within_a_round(round(s, now_ts).0, allowed, events),
    ensures
        ({
            let start = round(s, now_ts).0;
            let end = poll_run(start, allowed, events);
            &&& seq![s.discovered[0]] + asked_for(start, allowed, events) + end.channels
                == s.discovered
            &&& end.phase is Idle ==> end.channels.len() == 0
        }),
    decreases events.len(),
{
    let start = round(s, now_ts).0;
    if events.len() == 0 {
        assert(seq![s.discovered[0]] + asked_for(start, allowed, events) + start.channels
            =~= s.discovered);
    } else {
        rounds_go_through_all_conversations(s, allowed, now_ts, events.drop_last());
        let before = poll_run(start, allowed, events.drop_last());
        let end = poll_run(start, allowed, events);
        let earlier = seq![s.discovered[0]] + asked_for(start, allowed, events.drop_last());
        let action = after_poll_event(before, allowed, events.last().0, events.last().1).1;
        if action is FetchHistory {
            assert(end.channels == before.channels.drop_first());
            assert(earlier.push(before.channels[0]) + end.channels =~= earlier + before.channels);
            assert(seq![s.discovered[0]] + asked_for(start, allowed, events) =~= earlier.push(
                before.channels[0],
            ));
        }
    }
}

/// The thread of each message that a history brings is among those that are polled once the
/// messages have been handed on.
pub proof fn threads_of_news_are_polled(
    s: PollView,
    allowed: Seq<Seq<char>>,
    page: Seq<PolledView>,
    now_ts: Seq<char>,
    i: int,
)
    requires
        consistent(s.marks),
        s.phase is History,
        0 <= i < brought(s, allowed, PollEventView::History(Some(page))).len(),
    ensures
        ({
            let event = PollEventView::History(Some(page));
            let out = brought(s, allowed, event);
            let (next, action) = after_poll_event(s, allowed, event, now_ts);
            &&& action == PollActionView::Deliver(out[0])
            &&& next.outbox == out.drop_first()
            &&& out[i].thread_ts is Some
            &&& next.threads.contains(out[i].thread_ts->0)
        }),
{
    let channel = s.phase->History_0;
    let messages = page.reverse();
    let (marks, out) = history_run(s.marks, s.bot, allowed, channel, messages);
    threads_of_news_are_tracked(s.marks, s.bot, allowed, channel, messages);
    runs_keep_marks_consistent(s.marks, s.bot, allowed, (channel, ""@), messages);
    assert(out[i].thread_ts is Some);
    known_threads_are_polled(marks, channel, out[i].thread_ts->0);
}

/// Each step keeps the list of the threads consistent with their marks.
pub proof fn steps_keep_marks_consistent(
    s: PollView,
    allowed: Seq<Seq<char>>,
    event: PollEventView,
    now_ts: Seq<char>,
)
    requires
        consistent(s.marks),
    ensures
        consistent(after_poll_event(s, allowed, event, now_ts).0.marks),
{
    let next = after_poll_event(s, allowed, event, now_ts).0.marks;
    let run = match (s.phase, event) {
        (PhaseView::History(channel), PollEventView::History(Some(page))) => {
            runs_keep_marks_consistent(s.marks, s.bot, allowed, (channel, ""@), page.reverse());
            history_run(s.marks, s.bot, allowed, channel, page.reverse()).0
        },
        (PhaseView::Replies(channel, thread), PollEventView::Replies(Some(page))) => {
            runs_keep_marks_consistent(s.marks, s.bot, allowed, (channel, thread), page);
            replies_run(s.marks, s.bot, allowed, (channel, thread), page).0
        },
        _ => s.marks,
    };
    assert(next.order == run.order && next.threads == run.threads);
    assert forall|t: ThreadId| #[trigger]
        next.order.contains(t) == next.threads.contains_key(t) by {
        assert(run.order.contains(t) == run.threads.contains_key(t));
    }
}

/// The next conversation is asked for its ten latest messages from its cursor on, which is the
/// one that it has or else now; the conversations behind it are left. A round in which none is
/// left is over.
pub proof fn each_conversation_is_asked_in_turn(s: PollView, now_ts: Seq<char>)
    ensures
        s.channels.len() == 0 ==> to_next_channel(s, now_ts) == (
            PollView { phase: PhaseView::Idle, ..s },
            PollActionView::Sleep,
        ),
        s.channels.len() > 0 ==> ({
            let channel = s.channels[0];
            let known = s.marks.cursors.contains_key(channel);
            let cursor = if known {
                s.marks.cursors[channel]
            } else {
                now_ts
            };
            let (next, action) = to_next_channel(s, now_ts);
            &&& action == PollActionView::FetchHistory(
                seq![("channel"@, channel), ("limit"@, "10"@), ("oldest"@, cursor)],
            )
            &&& next.phase == PhaseView::History(channel)
            &&& seq![channel] + next.channels == s.channels
            &&& next.marks.cursors == s.marks.cursors.insert(channel, cursor)
            &&& next.marks.threads == s.marks.threads
            &&& next.marks.order == s.marks.order
            &&& next.bot == s.bot && next.scope == s.scope
            &&& next.discovered == s.discovered && next.last_discovery == s.last_discovery
            &&& next.threads == s.threads && next.outbox == s.outbox
        }),
{
    if s.channels.len() > 0 {
        assert(seq![s.channels[0]] + s.channels.drop_first() =~= s.channels);
    }
}

/// The next thread of a conversation is asked for its replies from its mark on; the threads
/// behind it are left. Where none is left, the next conversation comes.
pub proof fn each_thread_is_asked_in_turn(s: PollView, channel: Seq<char>, now_ts: Seq<char>)
    ensures
        s.threads.len() == 0 ==> to_next_thread(s, channel, now_ts) == to_next_channel(s, now_ts),
        s.threads.len() > 0 ==> ({
            let thread = s.threads[0];
            let mark = if s.marks.threads.contains_key((channel, thread)) {
                s.marks.threads[(channel, thread)]
            } else {
                ""@
            };
            let (next, action) = to_next_thread(s, channel, now_ts);
            &&& action == PollActionView::FetchReplies(
                seq![("channel"@, channel), ("ts"@, thread), ("oldest"@, mark), ("limit"@, "10"@)],
            )
            &&& next.phase == PhaseView::Replies(channel, thread)
            &&& seq![thread] + next.threads == s.threads
            &&& next.marks == s.marks
            &&& next.bot == s.bot && next.scope == s.scope
            &&& next.discovered == s.discovered && next.last_discovery == s.last_discovery
            &&& next.channels == s.channels && next.outbox == s.outbox
        }),
{
    if s.threads.len() > 0 {
        assert(seq![s.threads[0]] + s.threads.drop_first() =~= s.threads);
    }
}

/// The next message is handed on as it is, and those behind it are left. Where none is left,
/// the next thread comes.
pub proof fn each_message_is_handed_on_in_turn(
    s: PollView,
    channel: Seq<char>,
    from: Option<Seq<char>>,
    now_ts: Seq<char>,
)
    ensures
        s.outbox.len() == 0 ==> to_next_message(s, channel, from, now_ts) == to_next_thread(
            s,
            channel,
            now_ts,
        ),
        s.outbox.len() > 0 ==> ({
            let (next, action) = to_next_message(s, channel, from, now_ts);
            &&& action == PollActionView::Deliver(s.outbox[0])
            &&& next.phase == PhaseView::Delivery(channel, from)
            &&& seq![s.outbox[0]] + next.outbox == s.outbox
            &&& next.marks == s.marks
            &&& next.bot == s.bot && next.scope == s.scope
            &&& next.discovered == s.discovered && next.last_discovery == s.last_discovery
            &&& next.channels == s.channels && next.threads == s.threads
        }),
{
    if s.outbox.len() > 0 {
        assert(seq![s.outbox[0]] + s.outbox.drop_first() =~= s.outbox);
    }
}

/// A pause ends with the configured conversation where there is one; otherwise with the list,
/// where that is empty or a minute old, and else with a round through all that is on it.
pub proof fn pauses_end_with_a_round_or_a_discovery(
    s: PollView,
    allowed: Seq<Seq<char>>,
    clock: u128,
    now_ts: Seq<char>,
    channel: Seq<char>,
)
    requires
        s.phase is Idle,
    ensures
        ({
            let after = after_poll_event(s, allowed, PollEventView::Tick(clock), now_ts);
            let due = s.discovered.len() == 0 || clock - s.last_discovery >= 60 * 1_000_000_000;
            &&& s.scope == Some(channel) ==> after == to_next_channel(
                PollView { channels: seq![channel], ..s },
                now_ts,
            )
            &&& s.scope is None && due ==> after == (
                PollView { phase: PhaseView::Discovery, ..s },
                PollActionView::Discover,
            )
            &&& s.scope is None && !due ==> after == to_next_channel(
                PollView { channels: s.discovered, ..s },
                now_ts,
            )
        }),
{
}

/// A list that has come is the one that is polled, whole and in its order; where none has come,
/// the one before it is.
pub proof fn rounds_take_up_the_list(
    s: PollView,
    allowed: Seq<Seq<char>>,
    clock: u128,
    list: Seq<Seq<char>>,
    now_ts: Seq<char>,
)
    requires
        s.phase is Discovery,
    ensures
        after_poll_event(s, allowed, PollEventView::Listed(clock, Some(list)), now_ts)
            == to_next_channel(
            PollView { channels: list, discovered: list, last_discovery: clock, ..s },
            now_ts,
        ),
        after_poll_event(s, allowed, PollEventView::Listed(clock, None), now_ts)
            == to_next_channel(
            PollView { channels: s.discovered, last_discovery: clock, ..s },
            now_ts,
        ),
{
}

/// A history that has come is run through from its oldest message, which stands last; what
/// that brings is handed on, and then all the known threads of the conversation are polled.
/// Without a history the next conversation comes.
pub proof fn histories_are_taken_in(
    s: PollView,
    allowed: Seq<Seq<char>>,
    channel: Seq<char>,
    page: Seq<PolledView>,
    now_ts: Seq<char>,
)
    requires
        s.phase == PhaseView::History(channel),
    ensures
        ({
            let (marks, out) = history_run(s.marks, s.bot, allowed, channel, page.reverse());
            after_poll_event(s, allowed, PollEventView::History(Some(page)), now_ts)
                == to_next_message(
                PollView { marks, threads: threads_in(marks.order, channel), outbox: out, ..s },
                channel,
                None,
                now_ts,
            )
        }),
        after_poll_event(s, allowed, PollEventView::History(None), now_ts) == to_next_channel(
            s,
            now_ts,
        ),
{
}

/// Replies that have come are run through in their order, and what that brings is handed on.
/// Without replies the next thread comes.
pub proof fn replies_are_taken_in(
    s: PollView,
    allowed: Seq<Seq<char>>,
    channel: Seq<char>,
    thread: Seq<char>,
    page: Seq<PolledView>,
    now_ts: Seq<char>,
)
    requires
        s.phase == PhaseView::Replies(channel, thread),
    ensures
        ({
            let (marks, out) = replies_run(s.marks, s.bot, allowed, (channel, thread), page);
            after_poll_event(s, allowed, PollEventView::Replies(Some(page)), now_ts)
                == to_next_message(
                PollView { marks, outbox: out, ..s },
                channel,
                Some(thread),
                now_ts,
            )
        }),
        after_poll_event(s, allowed, PollEventView::Replies(None), now_ts) == to_next_thread(
            s,
            channel,
            now_ts,
        ),
{
}

/// Once a message has been handed on, the next one comes; where nobody takes it, the loop ends
/// with everything as it was.
pub proof fn deliveries_lead_to_the_next_message(
    s: PollView,
    allowed: Seq<Seq<char>>,
    channel: Seq<char>,
    from: Option<Seq<char>>,
    now_ts: Seq<char>,
)
    requires
        s.phase == PhaseView::Delivery(channel, from),
    ensures
        after_poll_event(s, allowed, PollEventView::Delivered(true), now_ts) == to_next_message(
            s,
            channel,
            from,
            now_ts,
        ),
        after_poll_event(s, allowed, PollEventView::Delivered(false), now_ts) == (
            PollView { phase: PhaseView::Ended, ..s },
            PollActionView::Stop,
        ),
{
}

/// What the loop waits for: the end of a pause, a list, a history, the report of a delivery,
/// replies, or nothing once it has ended.
pub proof fn one_kind_of_event_is_awaited(
    channel: Seq<char>,
    thread: Seq<char>,
    from: Option<Seq<char>>,
    event: PollEventView,
)
    ensures
        awaited(PhaseView::Idle, event) <==> event is Tick,
        awaited(PhaseView::Discovery, event) <==> event is Listed,
        awaited(PhaseView::History(channel), event) <==> event is History,
        awaited(PhaseView::Delivery(channel, from), event) <==> event is Delivered,
        awaited(PhaseView::Replies(channel, thread), event) <==> event is Replies,
        !awaited(PhaseView::Ended, event),
{
}

/// All the threads of a conversation that have a mark are polled after its history, each once:
/// where nothing is to be handed on, the first of them at once.
pub proof fn known_threads_are_polled_after_the_history(
    s: PollView,
    allowed: Seq<Seq<char>>,
    channel: Seq<char>,
    page: Seq<PolledView>,
    now_ts: Seq<char>,
    thread: Seq<char>,
)
    requires
        consistent(s.marks),
        s.phase == PhaseView::History(channel),
        s.marks.threads.contains_key((channel, thread)),
    ensures
        ({
            let event = PollEventView::History(Some(page));
            let (next, action) = after_poll_event(s, allowed, event, now_ts);
            ||| next.threads.contains(thread)
            ||| next.phase == PhaseView::Replies(channel, thread) && action is FetchReplies
        }),
{
    let messages = page.reverse();
    let (marks, out) = history_run(s.marks, s.bot, allowed, channel, messages);
    threads_of_news_are_tracked(s.marks, s.bot, allowed, channel, messages);
    runs_keep_marks_consistent(s.marks, s.bot, allowed, (channel, ""@), messages);
    assert(marks.threads.contains_key((channel, thread)));
    known_threads_are_polled(marks, channel, thread);
    let threads = threads_in(marks.order, channel);
    assert(threads.contains(thread));
    if out.len() == 0 && threads[0] != thread {
        let k = choose|k: int| 0 <= k < threads.len() && threads[k] == thread;
        assert(threads.drop_first()[k - 1] == thread);
    }
}

/// What happens, what is to be done and what is awaited are told apart, each with what it
/// holds.
pub proof fn events_and_actions_are_viewed_whole(
    clock: u128,
    list: Vec<String>,
    page: Option<Vec<PolledMessage>>,
    b: bool,
    params: Vec<(String, String)>,
    message: PendingMessage,
    channel: String,
    thread: String,
)
    ensures
        PollEvent::Tick(clock)@ == PollEventView::Tick(clock),
        PollEvent::Listed(clock, Some(list))@ == PollEventView::Listed(clock, Some(texts(list@))),
        PollEvent::Listed(clock, None)@ == PollEventView::Listed(clock, None),
        PollEvent::History(page)@ == PollEventView::History(page_view(page)),
        PollEvent::Delivered(b)@ == PollEventView::Delivered(b),
        PollEvent::Replies(page)@ == PollEventView::Replies(page_view(page)),
        PollAction::Sleep@ == PollActionView::Sleep,
        PollAction::Discover@ == PollActionView::Discover,
        PollAction::FetchHistory(params)@ == PollActionView::FetchHistory(pairs(params@)),
        PollAction::Deliver(message)@ == PollActionView::Deliver(message@),
        PollAction::FetchReplies(params)@ == PollActionView::FetchReplies(pairs(params@)),
        PollAction::Stop@ == PollActionView::Stop,
        Phase::Idle@ == PhaseView::Idle,
        Phase::Discovery@ == PhaseView::Discovery,
        Phase::History(channel)@ == PhaseView::History(channel@),
        Phase::Delivery(channel, Some(thread))@ == PhaseView::Delivery(channel@, Some(thread@)),
        Phase::Delivery(channel, None)@ == PhaseView::Delivery(channel@, None),
        Phase::Replies(channel, thread)@ == PhaseView::Replies(channel@, thread@),
        Phase::Ended@ == PhaseView::Ended,
{
}

} // verus!
