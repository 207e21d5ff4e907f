//! The loop of Socket Mode: what is read, written and handed on, and in which order.

use crate::channel::{normalized, SlackChannel};
use crate::json::{member, object_text, parsed_text, text_member, Json};
use crate::message::{PendingMessage, PendingView};
use crate::socket::{
    acknowledged_by, after_envelope, after_event, contexts_hold_what_was_heard, event_of, heard,
    kept, lines_of, receive, received, session_after, Envelope, EnvelopeView, Line, Received,
    ReceivedView, SocketEventView, SocketFrame, SocketFrameView, SocketSession, SocketStep,
    SocketStepView, SocketView, ThreadId,
};
use crate::text::{opt_text, text_or};
use vstd::prelude::*;

verus! {

/// What the loop is waiting for.
pub enum SocketPhase {
    /// The next frame.
    Reading,
    /// That the acknowledgement of this envelope has been written.
    Writing(Envelope),
    /// That a message has been handed on.
    Delivering,
    /// Nothing any more.
    Ended,
}

/// What a [`SocketPhase`] holds.
pub enum SocketPhaseView {
    Reading,
    Writing(EnvelopeView),
    Delivering,
    Ended,
}

impl View for SocketPhase {
    type V = SocketPhaseView;

    open spec fn view(&self) -> SocketPhaseView {
        match self {
            SocketPhase::Reading => SocketPhaseView::Reading,
            SocketPhase::Writing(envelope) => SocketPhaseView::Writing(envelope@),
            SocketPhase::Delivering => SocketPhaseView::Delivering,
            SocketPhase::Ended => SocketPhaseView::Ended,
        }
    }
}

/// What has happened.
#[derive(Debug, Clone)]
pub enum SocketReport {
    /// This came over the socket.
    Frame(SocketFrame),
    /// The text has been written, or could not be.
    Written(bool),
    /// The message has been handed on, or nobody takes messages any more.
    Delivered(bool),
}

/// What a [`SocketReport`] holds.
pub enum SocketReportView {
    Frame(SocketFrameView),
    Written(bool),
    Delivered(bool),
}

impl View for SocketReport {
    type V = SocketReportView;

    open spec fn view(&self) -> SocketReportView {
        match self {
            SocketReport::Frame(frame) => SocketReportView::Frame(frame@),
            SocketReport::Written(done) => SocketReportView::Written(*done),
            SocketReport::Delivered(taken) => SocketReportView::Delivered(*taken),
        }
    }
}

/// What is to be done.
#[derive(Debug, Clone)]
pub enum SocketAction {
    /// Read the next frame, then report [`SocketReport::Frame`].
    Read,
    /// Write this text, then report [`SocketReport::Written`].
    Write(String),
    /// Hand this message on, then report [`SocketReport::Delivered`].
    Deliver(PendingMessage),
    /// Leave the socket.
    Stop,
}

/// What a [`SocketAction`] holds.
pub enum SocketActionView {
    Read,
    Write(Seq<char>),
    Deliver(PendingView),
    Stop,
}

impl View for SocketAction {
    type V = SocketActionView;

    open spec fn view(&self) -> SocketActionView {
        match self {
            SocketAction::Read => SocketActionView::Read,
            SocketAction::Write(text) => SocketActionView::Write(text@),
            SocketAction::Deliver(message) => SocketActionView::Deliver(message@),
            SocketAction::Stop => SocketActionView::Stop,
        }
    }
}

/// The state of the loop: that of the session, and what the loop waits for.
pub struct SocketLoopView {
    pub session: SocketView,
    pub phase: SocketPhaseView,
}

/// Whether a report is one that the loop can be waiting for.
pub open spec fn awaited(phase: SocketPhaseView, report: SocketReportView) -> bool {
    match phase {
        SocketPhaseView::Reading => report is Frame,
        SocketPhaseView::Writing(_) => report is Written,
        SocketPhaseView::Delivering => report is Delivered,
        SocketPhaseView::Ended => false,
    }
}

/// The end of the loop.
pub open spec fn ended(s: SocketLoopView) -> (SocketLoopView, SocketActionView) {
    (SocketLoopView { phase: SocketPhaseView::Ended, ..s }, SocketActionView::Stop)
}

/// On to the next frame.
pub open spec fn to_next_frame(s: SocketLoopView) -> (SocketLoopView, SocketActionView) {
    (SocketLoopView { phase: SocketPhaseView::Reading, ..s }, SocketActionView::Read)
}

/// What an envelope leads to that needs no acknowledgement any more.
pub open spec fn dispatched(
    s: SocketLoopView,
    allowed: Seq<Seq<char>>,
    envelope: EnvelopeView,
) -> (SocketLoopView, SocketActionView) {
    let (session, step) = after_envelope(s.session, allowed, envelope);
    match step {
        SocketStepView::Stop => ended(SocketLoopView { session, ..s }),
        SocketStepView::Wait => to_next_frame(SocketLoopView { session, ..s }),
        SocketStepView::Deliver(message) => (
            SocketLoopView { session, phase: SocketPhaseView::Delivering },
            SocketActionView::Deliver(message),
        ),
    }
}

/// What a frame leads to, given what is to be done with it: an envelope that has an id is
/// acknowledged before anything else.
pub open spec fn after_received(
    s: SocketLoopView,
    allowed: Seq<Seq<char>>,
    received: ReceivedView,
) -> (SocketLoopView, SocketActionView) {
    match received {
        ReceivedView::Ignore => to_next_frame(s),
        ReceivedView::Stop => ended(s),
        ReceivedView::Envelope(envelope) => match acknowledged_by(envelope) {
            Some(text) => (
                SocketLoopView { phase: SocketPhaseView::Writing(envelope), ..s },
                SocketActionView::Write(text),
            ),
            None => dispatched(s, allowed, envelope),
        },
    }
}

/// What a report that the loop waits for leads to: the next state, and what is to be done.
pub open spec fn after_report(
    s: SocketLoopView,
    allowed: Seq<Seq<char>>,
    report: SocketReportView,
) -> (SocketLoopView, SocketActionView) {
    match (s.phase, report) {
        (SocketPhaseView::Reading, SocketReportView::Frame(frame)) => after_received(
            s,
            allowed,
            received(frame),
        ),
        (SocketPhaseView::Writing(envelope), SocketReportView::Written(true)) => dispatched(
            s,
            allowed,
            envelope,
        ),
        (SocketPhaseView::Delivering, SocketReportView::Delivered(true)) => to_next_frame(s),
        _ => ended(s),
    }
}

/// The loop of a channel in Socket Mode.
pub struct SocketLoop {
    session: SocketSession,
    phase: SocketPhase,
}

impl View for SocketLoop {
    type V = SocketLoopView;

    closed spec fn view(&self) -> SocketLoopView {
        SocketLoopView { session: self.session@, phase: self.phase@ }
    }
}

impl SocketLoop {
    /// The loop of `channel` for the bot with the given user id, where that is known. It
    /// starts with a frame to be read.
    pub fn new(channel: &SlackChannel, bot_user_id: Option<String>) -> (r: Self)
        ensures
            r@ == (SocketLoopView {
                session: SocketView {
                    bot: text_or(opt_text(bot_user_id), ""@),
                    scope: normalized(opt_text(channel.channel_id)),
                    contexts: Map::empty(),
                },
                phase: SocketPhaseView::Reading,
            }),
    {
        SocketLoop {
            session: SocketSession::new(channel, bot_user_id),
            phase: SocketPhase::Reading,
        }
    }

    /// Whether `report` is one that the loop is waiting for.
    pub fn awaits(&self, report: &SocketReport) -> (r: bool)
        ensures
            r == awaited(self@.phase, report@),
    {
        match (&self.phase, report) {
            (SocketPhase::Reading, SocketReport::Frame(_)) => true,
            (SocketPhase::Writing(_), SocketReport::Written(_)) => true,
            (SocketPhase::Delivering, SocketReport::Delivered(_)) => true,
            _ => false,
        }
    }

    fn dispatch(&mut self, channel: &SlackChannel, envelope: &Envelope) -> (action: SocketAction)
        ensures
            (final(self)@, action@) == dispatched(old(self)@, channel.allowlist(), envelope@),
    {
        match self.session.dispatch(channel, envelope) {
            SocketStep::Stop => {
                self.phase = SocketPhase::Ended;
                SocketAction::Stop
            },
            SocketStep::Wait => {
                self.phase = SocketPhase::Reading;
                SocketAction::Read
            },
            SocketStep::Deliver(message) => {
                self.phase = SocketPhase::Delivering;
                SocketAction::Deliver(message)
            },
        }
    }

    /// Takes in what is to be done with a frame, and says what is to be done first.
    pub fn on_received(&mut self, channel: &SlackChannel, received: Received) -> (action:
        SocketAction)
        ensures
            (final(self)@, action@) == after_received(
                old(self)@,
                channel.allowlist(),
                received@,
            ),
    {
        match received {
            Received::Ignore => {
                self.phase = SocketPhase::Reading;
                SocketAction::Read
            },
            Received::Stop => {
                self.phase = SocketPhase::Ended;
                SocketAction::Stop
            },
            Received::Envelope(envelope) => match envelope.acknowledgement() {
                Some(text) => {
                    self.phase = SocketPhase::Writing(envelope);
                    SocketAction::Write(text)
                },
                None => self.dispatch(channel, &envelope),
            },
        }
    }

    /// Takes in a report that the loop is waiting for, and says what is to be done.
    pub fn step(&mut self, channel: &SlackChannel, report: SocketReport) -> (action: SocketAction)
        requires
            awaited(old(self)@.phase, report@),
        ensures
            (final(self)@, action@) == after_report(old(self)@, channel.allowlist(), report@),
    {
        let mut phase = SocketPhase::Ended;
        std::mem::swap(&mut phase, &mut self.phase);
        match (phase, report) {
            (SocketPhase::Reading, SocketReport::Frame(frame)) => {
                self.on_received(channel, receive(&frame))
            },
            (SocketPhase::Writing(envelope), SocketReport::Written(true)) => {
                self.dispatch(channel, &envelope)
            },
            (SocketPhase::Delivering, SocketReport::Delivered(true)) => {
                self.phase = SocketPhase::Reading;
                SocketAction::Read
            },
            _ => SocketAction::Stop,
        }
    }
}

/// The text that is to be written for a frame, where there is one: the acknowledgement of
/// the envelope in it, whatever the kind of the envelope.
pub open spec fn due_for(frame: SocketFrameView) -> Option<Seq<char>> {
    match received(frame) {
        ReceivedView::Envelope(envelope) => acknowledged_by(envelope),
        _ => None,
    }
}

/// A frame is acknowledged exactly where it is the text of a JSON document with a text under
/// `envelope_id`, and the acknowledgement is the object with that text under the same key.
pub proof fn acknowledgements_name_the_envelope(text: Seq<char>)
    ensures
        due_for(SocketFrameView::Text(text)) == match parsed_text(text) {
            Some(json) => match text_member(json, "envelope_id"@) {
                Some(id) => Some(object_text(seq![("envelope_id"@, id)])),
                None => None,
            },
            None => None,
        },
        due_for(SocketFrameView::Closed) is None,
        due_for(SocketFrameView::Failed) is None,
        due_for(SocketFrameView::Other) is None,
{
}

/// An envelope with an id is acknowledged before anything else: the acknowledgement is
/// written, and until that is reported nothing else is awaited, the event is not looked at
/// and nothing is handed on. Once it is written, the envelope is dispatched, and nothing more
/// is written for it. Where it cannot be written, the loop ends, and the event is dropped.
pub proof fn envelopes_are_acknowledged_first(
    s: SocketLoopView,
    allowed: Seq<Seq<char>>,
    frame: SocketFrameView,
    report: SocketReportView,
)
    requires
        s.phase is Reading,
        due_for(frame) is Some,
    ensures
        ({
            let (next, action) = after_report(s, allowed, SocketReportView::Frame(frame));
            let (then, second) = after_report(next, allowed, SocketReportView::Written(true));
            let envelope = received(frame)->Envelope_0;
            &&& action == SocketActionView::Write(due_for(frame)->0)
            &&& next.session == s.session
            &&& awaited(next.phase, report) <==> report is Written
            &&& (then, second) == dispatched(s, allowed, envelope)
            &&& !(second is Write)
            &&& after_report(next, allowed, SocketReportView::Written(false)) == ended(s)
        }),
{
}

/// Nothing is written for a frame without an envelope that has an id.
pub proof fn other_frames_are_not_acknowledged(
    s: SocketLoopView,
    allowed: Seq<Seq<char>>,
    frame: SocketFrameView,
)
    requires
        s.phase is Reading,
        due_for(frame) is None,
    ensures
        !(after_report(s, allowed, SocketReportView::Frame(frame)).1 is Write),
        !(after_report(s, allowed, SocketReportView::Frame(frame)).0.phase is Writing),
{
}

/// A write or a delivery that fails ends the loop, with the session as it was.
pub proof fn failures_end_the_loop(
    s: SocketLoopView,
    allowed: Seq<Seq<char>>,
    report: SocketReportView,
)
    requires
        awaited(s.phase, report),
        report == SocketReportView::Written(false) || report == SocketReportView::Delivered(false),
    ensures
        after_report(s, allowed, report) == ended(s),
{
}

/// Whether `report` reports that `action` has been performed.
pub open spec fn reported_by(action: SocketActionView, report: SocketReportView) -> bool {
    match action {
        SocketActionView::Read => report is Frame,
        SocketActionView::Write(_) => report is Written,
        SocketActionView::Deliver(_) => report is Delivered,
        SocketActionView::Stop => false,
    }
}

/// After each step the loop waits for the report of what it asked to be done, and for nothing
/// else; once it asks to leave the socket, it waits for nothing any more.
pub proof fn what_is_asked_for_is_awaited(
    s: SocketLoopView,
    allowed: Seq<Seq<char>>,
    report: SocketReportView,
    next: SocketReportView,
)
    requires
        awaited(s.phase, report),
    ensures
        awaited(after_report(s, allowed, report).0.phase, next) <==> reported_by(
            after_report(s, allowed, report).1,
            next,
        ),
{
}

/// The state once `reports` have come one after the other.
pub open spec fn socket_run(
    s: SocketLoopView,
    allowed: Seq<Seq<char>>,
    reports: Seq<SocketReportView>,
) -> SocketLoopView
    decreases reports.len(),
{
    if reports.len() == 0 {
        s
    } else {
        after_report(socket_run(s, allowed, reports.drop_last()), allowed, reports.last()).0
    }
}

/// Whether each of `reports` is awaited when it comes.
pub open spec fn all_awaited(
    s: SocketLoopView,
    allowed: Seq<Seq<char>>,
    reports: Seq<SocketReportView>,
) -> bool
    decreases reports.len(),
{
    reports.len() > 0 ==> {
        &&& all_awaited(s, allowed, reports.drop_last())
        &&& awaited(socket_run(s, allowed, reports.drop_last()).phase, reports.last())
    }
}

/// The texts that the loop asks to be written while `reports` come.
pub open spec fn written(
    s: SocketLoopView,
    allowed: Seq<Seq<char>>,
    reports: Seq<SocketReportView>,
) -> Seq<Seq<char>>
    decreases reports.len(),
{
    if reports.len() == 0 {
        Seq::empty()
    } else {
        let earlier = written(s, allowed, reports.drop_last());
        let before = socket_run(s, allowed, reports.drop_last());
        match after_report(before, allowed, reports.last()).1 {
            SocketActionView::Write(text) => earlier.push(text),
            _ => earlier,
        }
    }
}

/// The acknowledgements that are due for the frames among `reports`, in their order.
pub open spec fn due(reports: Seq<SocketReportView>) -> Seq<Seq<char>>
    decreases reports.len(),
{
    if reports.len() == 0 {
        Seq::empty()
    } else {
        let earlier = due(reports.drop_last());
        match reports.last() {
            SocketReportView::Frame(frame) => match due_for(frame) {
                Some(text) => earlier.push(text),
                None => earlier,
            },
            _ => earlier,
        }
    }
}

/// How many texts have been written, as `reports` say.
pub open spec fn confirmed(reports: Seq<SocketReportView>) -> nat
    decreases reports.len(),
{
    if reports.len() == 0 {
        0
    } else {
        confirmed(reports.drop_last()) + if reports.last() == SocketReportView::Written(true) {
            1nat
        } else {
            0nat
        }
    }
}

/// Over a whole run, one acknowledgement is written for each frame that needs one, in the
/// order of the frames, and nothing else is written; and whenever a message is to be handed
/// on or the next frame is to be read, all of them have been written.
pub proof fn every_envelope_is_acknowledged_once(
    s: SocketLoopView,
    allowed: Seq<Seq<char>>,
    reports: Seq<SocketReportView>,
)
    requires
        s.phase is Reading,
        all_awaited(s, allowed, reports),
    ensures
        written(s, allowed, reports) == due(reports),
        ({
            let phase = socket_run(s, allowed, reports).phase;
            &&& phase is Reading || phase is Delivering ==> confirmed(reports) == due(reports).len()
            &&& phase is Writing ==> confirmed(reports) + 1 == due(reports).len()
        }),
    decreases reports.len(),
{
    if reports.len() > 0 {
        every_envelope_is_acknowledged_once(s, allowed, reports.drop_last());
    }
}

/// The event that the session is given with a report, where there is one: that of an
/// envelope of the Events API, once it needs no acknowledgement any more.
pub open spec fn event_with(s: SocketLoopView, report: SocketReportView) -> Option<
    SocketEventView,
> {
    let envelope = match (s.phase, report) {
        (SocketPhaseView::Reading, SocketReportView::Frame(frame)) => match received(frame) {
            ReceivedView::Envelope(e) => if acknowledged_by(e) is None {
                Some(e)
            } else {
                None
            },
            _ => None,
        },
        (SocketPhaseView::Writing(e), SocketReportView::Written(true)) => Some(e),
        _ => None,
    };
    match envelope {
        Some(e) => if e.kind == "disconnect"@ {
            None
        } else if e.kind == "events_api"@ {
            e.event
        } else {
            None
        },
        None => None,
    }
}

/// The events that the session is given while `reports` come.
pub open spec fn events_in(
    s: SocketLoopView,
    allowed: Seq<Seq<char>>,
    reports: Seq<SocketReportView>,
) -> Seq<SocketEventView>
    decreases reports.len(),
{
    if reports.len() == 0 {
        Seq::empty()
    } else {
        let earlier = events_in(s, allowed, reports.drop_last());
        match event_with(socket_run(s, allowed, reports.drop_last()), reports.last()) {
            Some(event) => earlier.push(event),
            None => earlier,
        }
    }
}

/// Over a whole run, the session is what its events make of it, so that the context of each
/// thread is made of the last messages that were heeded in it.
pub proof fn runs_keep_what_was_heard(
    s: SocketLoopView,
    allowed: Seq<Seq<char>>,
    reports: Seq<SocketReportView>,
    thread: ThreadId,
)
    requires
        s.session.contexts == Map::<ThreadId, Seq<Line>>::empty(),
    ensures
        ({
            let end = socket_run(s, allowed, reports).session;
            let events = events_in(s, allowed, reports);
            &&& end == session_after(s.session, allowed, events)
            &&& lines_of(end.contexts, thread) == kept(heard(s.session, allowed, events, thread))
        }),
    decreases reports.len(),
{
    let events = events_in(s, allowed, reports);
    contexts_hold_what_was_heard(s.session, allowed, events, thread);
    if reports.len() > 0 {
        let head = reports.drop_last();
        runs_keep_what_was_heard(s, allowed, head, thread);
        let earlier = events_in(s, allowed, head);
        match event_with(socket_run(s, allowed, head), reports.last()) {
            Some(event) => {
                assert(events.drop_last() =~= earlier);
            },
            None => {},
        }
    }
}

/// A frame that needs no acknowledgement is dealt with at once: an envelope is dispatched, the
/// end of the connection ends the loop, and anything else leads to the next frame.
pub proof fn other_frames_are_dealt_with_at_once(
    s: SocketLoopView,
    allowed: Seq<Seq<char>>,
    frame: SocketFrameView,
    envelope: EnvelopeView,
)
    requires
        s.phase is Reading,
    ensures
        ({
            let after = after_report(s, allowed, SocketReportView::Frame(frame));
            &&& received(frame) == ReceivedView::Envelope(envelope) && envelope.envelope_id is None
                ==> after == dispatched(s, allowed, envelope)
            &&& received(frame) == ReceivedView::Ignore ==> after == (s, SocketActionView::Read)
            &&& received(frame) == ReceivedView::Stop ==> after == (
                SocketLoopView { session: s.session, phase: SocketPhaseView::Ended },
                SocketActionView::Stop,
            )
        }),
{
}

/// What the session makes of an envelope is done: a message is handed on as it is, the end is
/// the end, and otherwise the next frame is read. The session is what the envelope makes of
/// it.
pub proof fn dispatching_does_what_the_session_says(
    s: SocketLoopView,
    allowed: Seq<Seq<char>>,
    envelope: EnvelopeView,
    message: PendingView,
)
    ensures
        ({
            let (next, action) = dispatched(s, allowed, envelope);
            let (session, step) = after_envelope(s.session, allowed, envelope);
            &&& next.session == session
            &&& step == SocketStepView::Deliver(message) <==> action == SocketActionView::Deliver(
                message,
            )
            &&& step is Deliver <==> next.phase is Delivering
            &&& step is Wait <==> action is Read
            &&& step is Wait <==> next.phase is Reading
            &&& step is Stop <==> action is Stop
            &&& step is Stop <==> next.phase is Ended
        }),
{
}

/// Once a message has been handed on, the next frame is read, with the session as it was.
pub proof fn deliveries_lead_to_the_next_frame(s: SocketLoopView, allowed: Seq<Seq<char>>)
    requires
        s.phase is Delivering,
    ensures
        after_report(s, allowed, SocketReportView::Delivered(true)) == (
            SocketLoopView { session: s.session, phase: SocketPhaseView::Reading },
            SocketActionView::Read,
        ),
{
}

/// What the loop waits for: a frame, the report of a write, the report of a delivery, or
/// nothing once it has ended.
pub proof fn one_kind_of_report_is_awaited(envelope: EnvelopeView, report: SocketReportView)
    ensures
        awaited(SocketPhaseView::Reading, report) <==> report is Frame,
        awaited(SocketPhaseView::Writing(envelope), report) <==> report is Written,
        awaited(SocketPhaseView::Delivering, report) <==> report is Delivered,
        !awaited(SocketPhaseView::Ended, report),
{
}

/// The end of the loop: nothing but the phase changes, and the socket is left.
pub proof fn the_end_leaves_the_session_alone(s: SocketLoopView)
    ensures
        ended(s) == (
            SocketLoopView { session: s.session, phase: SocketPhaseView::Ended },
            SocketActionView::Stop,
        ),
{
}

/// A mention in a frame reaches the bot: at once, or once the envelope has been acknowledged.
pub proof fn mentions_reach_the_bot(
    s: SocketLoopView,
    allowed: Seq<Seq<char>>,
    text: Seq<char>,
    json: Json,
    payload: Json,
    event: Json,
    message: PendingView,
)
    requires
        s.phase is Reading,
        parsed_text(text) == Some(json),
        text_member(json, "type"@) == Some("events_api"@),
        member(json, "payload"@) == Some(payload),
        member(payload, "event"@) == Some(event),
        after_event(s.session, allowed, event_of(event)).1 == SocketStepView::Deliver(message),
    ensures
        ({
            let frame = SocketReportView::Frame(SocketFrameView::Text(text));
            let (next, action) = after_report(s, allowed, frame);
            &&& text_member(json, "envelope_id"@) is None ==> action == SocketActionView::Deliver(
                message,
            )
            &&& text_member(json, "envelope_id"@) is Some ==> action is Write && after_report(
                next,
                allowed,
                SocketReportView::Written(true),
            ).1 == SocketActionView::Deliver(message)
        }),
{
    reveal_strlit("disconnect");
    reveal_strlit("events_api");
    assert("disconnect"@[0] != "events_api"@[0]);
}

/// What is reported, what is to be done and what is awaited are told apart, each with what it
/// holds.
pub proof fn reports_and_actions_are_viewed_whole(
    frame: SocketFrame,
    b: bool,
    text: String,
    message: PendingMessage,
    envelope: Envelope,
)
    ensures
        SocketReport::Frame(frame)@ == SocketReportView::Frame(frame@),
        SocketReport::Written(b)@ == SocketReportView::Written(b),
        SocketReport::Delivered(b)@ == SocketReportView::Delivered(b),
        SocketAction::Read@ == SocketActionView::Read,
        SocketAction::Write(text)@ == SocketActionView::Write(text@),
        SocketAction::Deliver(message)@ == SocketActionView::Deliver(message@),
        SocketAction::Stop@ == SocketActionView::Stop,
        SocketPhase::Reading@ == SocketPhaseView::Reading,
        SocketPhase::Writing(envelope)@ == SocketPhaseView::Writing(envelope@),
        SocketPhase::Delivering@ == SocketPhaseView::Delivering,
        SocketPhase::Ended@ == SocketPhaseView::Ended,
{
}

} // verus!
