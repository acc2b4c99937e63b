use vstd::prelude::*;

use crate::message::{decode_spec, encode_spec, lemma_round_trip, ChatMessage, MessageView};

verus! {

/// The one broker channel that every relay session publishes to and
/// listens on.
pub const GLOBAL_ROOM: &'static str = "global room";

/// Where a relay session is in its life.
#[derive(Clone, Copy, Debug, PartialEq, Eq, Structural)]
pub enum Phase {
    Starting,
    Active,
    Closing,
    Closed,
}

/// A frame read from the client's socket.
#[derive(Clone, Debug, PartialEq, Eq)]
pub enum Frame {
    Text(String),
    Close,
    /// Binary, ping or pong: no effect on the session.
    Other,
}

/// The value of a [`Frame`].
pub enum FrameView {
    Text(Seq<char>),
    Close,
    Other,
}

impl View for Frame {
    type V = FrameView;

    open spec fn view(&self) -> FrameView {
        match self {
            Frame::Text(t) => FrameView::Text(t@),
            Frame::Close => FrameView::Close,
            Frame::Other => FrameView::Other,
        }
    }
}

/// What the inbound task does with one socket frame.
#[derive(Clone, Debug, PartialEq, Eq)]
pub enum Step {
    /// Publish this payload to the room and read on.
    Publish(String),
    /// Publish this payload to the room, then end the inbound task.
    Finish(String),
    /// Publish nothing and read on.
    Skip,
}

/// The value of a [`Step`].
pub enum StepView {
    Publish(Seq<char>),
    Finish(Seq<char>),
    Skip,
}

impl View for Step {
    type V = StepView;

    open spec fn view(&self) -> StepView {
        match self {
            Step::Publish(p) => StepView::Publish(p@),
            Step::Finish(p) => StepView::Finish(p@),
            Step::Skip => StepView::Skip,
        }
    }
}

/// A user message without a sender takes the connection's identity; every
/// other message is left as it is.
pub open spec fn backfill(m: MessageView, identity: Seq<char>) -> MessageView {
    match m {
        MessageView::UserMessage { username: None, content } => MessageView::UserMessage {
            username: Some(identity),
            content,
        },
        _ => m,
    }
}

/// What the inbound task of a session for `identity` does with one frame.
pub open spec fn step_spec(identity: Seq<char>, f: FrameView) -> StepView {
    match f {
        FrameView::Text(t) => match decode_spec(t) {
            Some(m) => StepView::Publish(encode_spec(backfill(m, identity))),
            None => StepView::Skip,
        },
        FrameView::Close => StepView::Finish(
            encode_spec(MessageView::UserOffline { username: identity }),
        ),
        FrameView::Other => StepView::Skip,
    }
}

/// Fills the sender of a user message that has none with `identity`.
pub fn fill_username(m: ChatMessage, identity: &str) -> (r: ChatMessage)
    ensures
        r@ == backfill(m@, identity@),
{
    match m {
        ChatMessage::UserMessage { username: None, content } => ChatMessage::UserMessage {
            username: Some(identity.to_owned()),
            content,
        },
        other => other,
    }
}

/// Decides what the outbound task does with one broker event: a payload
/// that could be read is forwarded to the socket as it is, one that could
/// not is skipped.
pub fn forward_event(payload: Option<String>) -> (r: Option<String>)
    ensures
        r == payload,
{
    payload
}

/// A broker operation whose outcome the session is told of.
#[derive(Clone, Copy, Debug, PartialEq, Eq, Structural)]
pub enum BrokerOp {
    /// Opening the subscription to the room.
    Subscribe,
    /// Publishing a join or leave event.
    PublishPresence,
    /// Publishing a message that a client sent.
    PublishContent,
}

/// Whether a failure of `op` ends the session: a failed subscription or a
/// failed content publish does; a failed presence publish is only reported.
pub open spec fn failure_is_fatal(op: BrokerOp) -> bool {
    op != BrokerOp::PublishPresence
}

/// The payloads of the broker events that reach the socket, in the order
/// the broker delivered them: every readable payload, none dropped, none
/// repeated.
pub open spec fn forwarded(events: Seq<Option<Seq<char>>>) -> Seq<Seq<char>>
    decreases events.len(),
{
    if events.len() == 0 {
        seq![]
    } else {
        forwarded(events.drop_last()) + match events.last() {
            Some(p) => seq![p],
            None => seq![],
        }
    }
}

/// The views of optional texts.
pub open spec fn opt_texts_view(v: Seq<Option<String>>) -> Seq<Option<Seq<char>>> {
    v.map_values(
        |o: Option<String>|
            match o {
                Some(s) => Some(s@),
                None => None,
            },
    )
}

/// The text frames that the outbound task writes for a run of broker
/// events, in order.
pub fn forward_events(events: &Vec<Option<String>>) -> (r: Vec<String>)
    ensures
        texts_view(r@) == forwarded(opt_texts_view(events@)),
{
    let ghost ev = opt_texts_view(events@);
    let mut out: Vec<String> = Vec::new();
    let mut k: usize = 0;
    while k < events.len()
        invariant
            k <= events.len(),
            ev == opt_texts_view(events@),
            texts_view(out@) == forwarded(ev.subrange(0, k as int)),
        decreases events.len() - k,
    {
        let ghost before = texts_view(out@);
        assert(ev.subrange(0, k + 1).drop_last() =~= ev.subrange(0, k as int));
        match forward_event(events[k].clone()) {
            Some(p) => {
                out.push(p);
                assert(texts_view(out@) =~= before + seq![ev[k as int]->Some_0]);
            },
            None => {
                assert(texts_view(out@) =~= before + seq![]);
            },
        }
        k = k + 1;
    }
    assert(ev.subrange(0, k as int) =~= ev);
    out
}

/// The coordinator of one client connection on the shared room: it decides
/// what each side of the bridge does, and the caller carries it out.
pub struct RelaySession {
    identity: String,
    phase: Phase,
}

impl RelaySession {
    /// The authenticated username of the connection.
    pub closed spec fn identity_spec(&self) -> Seq<char> {
        self.identity@
    }

    /// The session's phase.
    pub closed spec fn phase_spec(&self) -> Phase {
        self.phase
    }

    /// A session for the connection of `identity`, not started yet.
    pub fn new(identity: &str) -> (r: RelaySession)
        ensures
            r.identity_spec() == identity@,
            r.phase_spec() == Phase::Starting,
    {
        RelaySession { identity: identity.to_owned(), phase: Phase::Starting }
    }

    /// The identity of the connection.
    pub fn identity(&self) -> (r: &String)
        ensures
            r@ == self.identity_spec(),
    {
        &self.identity
    }

    /// The session's phase.
    pub fn phase(&self) -> (r: Phase)
        ensures
            r == self.phase_spec(),
    {
        self.phase
    }

    /// Starts the session once its subscription is open: the payload of the
    /// join event to publish first.
    pub fn start(&mut self) -> (r: String)
        requires
            old(self).phase_spec() == Phase::Starting,
        ensures
            r@ == encode_spec(MessageView::UserOnline { username: old(self).identity_spec() }),
            final(self).phase_spec() == Phase::Active,
            final(self).identity_spec() == old(self).identity_spec(),
    {
        self.phase = Phase::Active;
        ChatMessage::new_user_online(self.identity.as_str()).to_json_str()
    }

    /// Decides what the inbound task does with one socket frame. A close
    /// frame ends the inbound side and moves the session to closing; a
    /// malformed text frame is skipped and the session stays active.
    pub fn on_frame(&mut self, frame: &Frame) -> (r: Step)
        requires
            old(self).phase_spec() == Phase::Active,
        ensures
            r@ == step_spec(old(self).identity_spec(), frame@),
            final(self).identity_spec() == old(self).identity_spec(),
            final(self).phase_spec() == (if frame@ is Close {
                Phase::Closing
            } else {
                Phase::Active
            }),
    {
        match frame {
            Frame::Text(t) => match ChatMessage::from_json_str(t.as_str()) {
                Ok(m) => {
                    let filled = fill_username(m, self.identity.as_str());
                    Step::Publish(filled.to_json_str())
                },
                Err(_) => Step::Skip,
            },
            Frame::Close => {
                self.phase = Phase::Closing;
                Step::Finish(ChatMessage::new_user_offline(self.identity.as_str()).to_json_str())
            },
            Frame::Other => Step::Skip,
        }
    }

    /// One of the two tasks has ended: the session closes, and the other task
    /// is to be cancelled.
    pub fn on_task_end(&mut self)
        ensures
            final(self).identity_spec() == old(self).identity_spec(),
            final(self).phase_spec() == (if old(self).phase_spec() == Phase::Closed {
                Phase::Closed
            } else {
                Phase::Closing
            }),
    {
        if self.phase != Phase::Closed {
            self.phase = Phase::Closing;
        }
    }

    /// Takes the outcome of a broker operation and says whether the session
    /// goes on. A fatal failure moves it to closing.
    pub fn on_broker_result(&mut self, op: BrokerOp, ok: bool) -> (go_on: bool)
        ensures
            go_on == (ok || !failure_is_fatal(op)),
            final(self).identity_spec() == old(self).identity_spec(),
            final(self).phase_spec() == (if go_on || old(self).phase_spec() == Phase::Closed {
                old(self).phase_spec()
            } else {
                Phase::Closing
            }),
    {
        let go_on = ok || op == BrokerOp::PublishPresence;
        if !go_on && self.phase != Phase::Closed {
            self.phase = Phase::Closing;
        }
        go_on
    }

    /// Both tasks have unwound and the resources are released.
    pub fn on_unwound(&mut self)
        requires
            old(self).phase_spec() == Phase::Closing,
        ensures
            final(self).identity_spec() == old(self).identity_spec(),
            final(self).phase_spec() == Phase::Closed,
    {
        self.phase = Phase::Closed;
    }

    /// Whether a task of this session may still read and forward.
    pub fn is_active(&self) -> (r: bool)
        ensures
            r == (self.phase_spec() == Phase::Active),
    {
        self.phase == Phase::Active
    }
}

/// The payloads that the inbound task publishes for `frames`, up to and
/// including the one for the first close frame.
pub open spec fn publishes_after(identity: Seq<char>, frames: Seq<FrameView>) -> Seq<Seq<char>>
    decreases frames.len(),
{
    if frames.len() == 0 {
        seq![]
    } else {
        match step_spec(identity, frames[0]) {
            StepView::Publish(p) => seq![p] + publishes_after(identity, frames.drop_first()),
            StepView::Finish(p) => seq![p],
            StepView::Skip => publishes_after(identity, frames.drop_first()),
        }
    }
}

/// Everything a session for `identity` publishes while its socket yields
/// `frames`: the join event, then what the frames give.
pub open spec fn session_trace(identity: Seq<char>, frames: Seq<FrameView>) -> Seq<Seq<char>> {
    seq![encode_spec(MessageView::UserOnline { username: identity })] + publishes_after(
        identity,
        frames,
    )
}

/// A user message without a sender is published with the connection's
/// identity as its sender and its content kept; one with a sender is
/// published as the same message.
pub proof fn lemma_backfill_published(identity: Seq<char>, t: Seq<char>)
    ensures
        decode_spec(t) matches Some(MessageView::UserMessage { username: None, content })
            ==> step_spec(identity, FrameView::Text(t)) matches StepView::Publish(p) && decode_spec(p)
            == Some(MessageView::UserMessage { username: Some(identity), content }),
        decode_spec(t) matches Some(MessageView::UserMessage { username: Some(u), content })
            ==> step_spec(identity, FrameView::Text(t)) matches StepView::Publish(p) && decode_spec(p)
            == decode_spec(t),
{
    if let Some(m) = decode_spec(t) {
        lemma_round_trip(backfill(m, identity));
    }
}

/// A text frame that holds no envelope publishes nothing and does not end
/// the inbound task, whatever the connection's identity.
pub proof fn lemma_malformed_frame_skipped(identity: Seq<char>, t: Seq<char>)
    requires
        decode_spec(t) is None,
    ensures
        step_spec(identity, FrameView::Text(t)) == StepView::Skip,
{
}

proof fn lemma_publishes_end_offline(identity: Seq<char>, frames: Seq<FrameView>)
    requires
        exists|i: int| 0 <= i < frames.len() && frames[i] is Close,
    ensures
        publishes_after(identity, frames).len() > 0,
        publishes_after(identity, frames).last() == encode_spec(
            MessageView::UserOffline { username: identity },
        ),
    decreases frames.len(),
{
    let i = choose|i: int| 0 <= i < frames.len() && frames[i] is Close;
    if !(frames[0] is Close) {
        assert(frames.drop_first()[i - 1] is Close);
        lemma_publishes_end_offline(identity, frames.drop_first());
    }
}

/// A session's first publication is the join event of its identity, and,
/// where the socket sends a close frame, its last is the leave event.
pub proof fn lemma_presence_order(identity: Seq<char>, frames: Seq<FrameView>)
    ensures
        session_trace(identity, frames)[0] == encode_spec(
            MessageView::UserOnline { username: identity },
        ),
        (exists|i: int| 0 <= i < frames.len() && frames[i] is Close) ==> session_trace(
            identity,
            frames,
        ).last() == encode_spec(MessageView::UserOffline { username: identity }),
{
    if exists|i: int| 0 <= i < frames.len() && frames[i] is Close {
        lemma_publishes_end_offline(identity, frames);
    }
}

/// The views of a list of texts.
pub open spec fn texts_view(v: Seq<String>) -> Seq<Seq<char>> {
    v.map_values(|s: String| s@)
}

/// The views of a list of frames.
pub open spec fn frames_view(v: Seq<Frame>) -> Seq<FrameView> {
    v.map_values(|f: Frame| f@)
}

/// Runs the inbound side of a session for `identity` over a recorded frame
/// sequence and returns what it publishes, the join event first.
pub fn inbound_trace(identity: &str, frames: &Vec<Frame>) -> (r: Vec<String>)
    ensures
        texts_view(r@) == session_trace(identity@, frames_view(frames@)),
{
    let ghost fv = frames_view(frames@);
    let mut session = RelaySession::new(identity);
    let mut out: Vec<String> = Vec::new();
    out.push(session.start());
    assert(texts_view(out@) =~= seq![encode_spec(MessageView::UserOnline { username: identity@ })]);
    assert(fv.subrange(0, fv.len() as int) =~= fv);
    let mut k: usize = 0;
    let mut done = false;
    while k < frames.len() && !done
        invariant
            k <= frames.len(),
            fv == frames_view(frames@),
            session.identity_spec() == identity@,
            !done ==> session.phase_spec() == Phase::Active,
            done ==> texts_view(out@) == session_trace(identity@, fv),
            !done ==> texts_view(out@) + publishes_after(identity@, fv.subrange(k as int, fv.len() as int))
                == session_trace(identity@, fv),
        decreases frames.len() - k,
    {
        let ghost rest = fv.subrange(k as int, fv.len() as int);
        assert(rest.drop_first() =~= fv.subrange(k + 1, fv.len() as int));
        assert(rest[0] == frames@[k as int]@);
        let ghost before = texts_view(out@);
        match session.on_frame(&frames[k]) {
            Step::Publish(p) => {
                out.push(p);
                assert(texts_view(out@) =~= before + seq![p@]);
            },
            Step::Finish(p) => {
                out.push(p);
                assert(texts_view(out@) =~= before + seq![p@]);
                done = true;
            },
            Step::Skip => {
                assert(texts_view(out@) =~= before);
            },
        }
        k = k + 1;
    }
    proof {
        if !done {
            assert(fv.subrange(k as int, fv.len() as int).len() == 0);
            assert(texts_view(out@) + seq![] =~= texts_view(out@));
        }
    }
    out
}

} // verus!
