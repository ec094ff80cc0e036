//! The daemon's side of a session with a hub.
//!
//! A session carries envelopes both ways, subscriptions, key packages and cover
//! frames. An answer to a request for a key package names no request, so answers
//! are paired with requests in the order in which these were sent.
use vstd::prelude::*;

use std::collections::VecDeque;

use tokio::sync::{mpsc, oneshot};

use crate::bytes::{append_bytes, copy_bytes, copy_range};
use crate::channel::{respond, Record, Reply};
use crate::hub::gossip::RoutingId;
use crate::hub::handler::{lemma_routing_id_at, routing_id_at, routing_ids, split_deliver_payload};

verus! {

/// How many actions wait for a hub's session at most.
pub const OUTBOUND_QUEUE_CAPACITY: usize = 64;

/// What a hub's session is asked to do.
#[derive(Debug)]
pub enum HubOutbound {
    /// Send an envelope to a routing id.
    Deliver {
        target: RoutingId,
        body: Vec<u8>,
    },
    /// Ask for a key package; the answer goes to the responder.
    FetchKp {
        routing_id: RoutingId,
        responder: oneshot::Sender<Option<Vec<u8>>>,
    },
    /// Subscribe to more routing ids.
    Subscribe(Vec<RoutingId>),
    /// Send a cover frame.
    Pad,
}

impl HubOutbound {
    /// The action to send an envelope.
    pub fn deliver(target: RoutingId, body: Vec<u8>) -> (o: Self)
        ensures
            o == (HubOutbound::Deliver { target, body }),
    {
        HubOutbound::Deliver { target, body }
    }
}

/// A key package to file in a hub's directory when a session begins.
#[derive(Debug)]
pub struct SelfPublish {
    pub routing_id: RoutingId,
    pub kp_bytes: Vec<u8>,
}

/// What kind of frame goes to a hub.
#[derive(Debug, Clone, Copy, PartialEq, Eq, Structural)]
pub enum WireKind {
    Subscribe,
    Deliver,
    KpPublish,
    KpFetch,
    Pad,
}

/// A frame for a hub.
#[derive(Debug)]
pub struct WireFrame {
    pub kind: WireKind,
    pub payload: Vec<u8>,
}

/// Routing ids put one after the other.
pub open spec fn subscribe_payload(ids: Seq<RoutingId>) -> Seq<u8>
    decreases ids.len(),
{
    if ids.len() == 0 {
        Seq::empty()
    } else {
        subscribe_payload(ids.drop_last()) + ids.last()@
    }
}

/// The frame that subscribes to routing ids.
pub fn subscribe_frame(ids: &[RoutingId]) -> (f: WireFrame)
    ensures
        f.kind == WireKind::Subscribe,
        f.payload@ == subscribe_payload(ids@),
{
    let mut payload: Vec<u8> = Vec::new();
    let mut i: usize = 0;
    proof {
        assert(ids@.take(0) =~= Seq::<RoutingId>::empty());
    }
    while i < ids.len()
        invariant
            i <= ids@.len(),
            payload@ == subscribe_payload(ids@.take(i as int)),
        decreases ids@.len() - i,
    {
        append_bytes(&mut payload, ids[i].as_slice());
        i += 1;
        proof {
            assert(ids@.take(i as int).drop_last() =~= ids@.take(i - 1));
            assert(ids@.take(i as int).last() == ids@[i - 1]);
        }
    }
    proof {
        assert(ids@.take(i as int) =~= ids@);
    }
    WireFrame { kind: WireKind::Subscribe, payload }
}

/// A routing id and what belongs to it, in one payload.
fn addressed(id: &RoutingId, body: &[u8]) -> (payload: Vec<u8>)
    ensures
        payload@ == id@ + body@,
{
    let mut payload = copy_bytes(id.as_slice());
    append_bytes(&mut payload, body);
    payload
}

/// The frame that files a key package.
pub fn kp_publish_frame(publish: &SelfPublish) -> (f: WireFrame)
    ensures
        f.kind == WireKind::KpPublish,
        f.payload@ == publish.routing_id@ + publish.kp_bytes@,
{
    WireFrame {
        kind: WireKind::KpPublish,
        payload: addressed(&publish.routing_id, publish.kp_bytes.as_slice()),
    }
}

/// A cover frame: empty, so that it is padded like any small frame.
pub fn pad_frame() -> (f: WireFrame)
    ensures
        f.kind == WireKind::Pad,
        f.payload@ == Seq::<u8>::empty(),
{
    WireFrame { kind: WireKind::Pad, payload: Vec::new() }
}

/// What kind of frame came from a hub.
#[derive(Debug, Clone, Copy, PartialEq, Eq, Structural)]
pub enum HubFrame {
    Deliver,
    KpResponse,
    Other,
}

/// What to do about a frame from a hub.
#[derive(Debug)]
pub enum HubStep {
    /// Nothing.
    Ignore,
    /// An envelope arrived for one of the subscriptions.
    Delivered {
        target: RoutingId,
        body: Vec<u8>,
    },
    /// A request for a key package was answered.
    Answered,
}

/// What an answer to a request for a key package says: the key package behind a
/// zero, or that there is none.
pub open spec fn answer_in(payload: Seq<u8>) -> Option<Seq<u8>> {
    if payload.len() > 0 && payload[0] == 0 {
        Some(payload.skip(1))
    } else {
        None
    }
}

/// Read an answer to a request for a key package.
pub fn read_kp_response(payload: &[u8]) -> (r: Option<Vec<u8>>)
    ensures
        match r {
            Some(kp) => answer_in(payload@) == Some(kp@),
            None => answer_in(payload@) is None,
        },
{
    if payload.len() > 0 && payload[0] == 0 {
        let kp = copy_range(payload, 1, payload.len());
        assert(kp@ =~= payload@.skip(1));
        Some(kp)
    } else {
        None
    }
}

/// A session with a hub.
pub struct HubSession {
    pending: VecDeque<oneshot::Sender<Option<Vec<u8>>>>,
    replied: Record<Reply<Option<Vec<u8>>>>,
}

impl View for HubSession {
    type V = Seq<oneshot::Sender<Option<Vec<u8>>>>;

    /// Who waits for an answer, the longest waiting first.
    closed spec fn view(&self) -> Seq<oneshot::Sender<Option<Vec<u8>>>> {
        self.pending@
    }
}

/// What an answer of the hub says, as it is handed on.
pub open spec fn says_answer(value: Option<Vec<u8>>, payload: Seq<u8>) -> bool {
    match value {
        Some(kp) => answer_in(payload) == Some(kp@),
        None => answer_in(payload) is None,
    }
}

impl HubSession {
    /// What was answered to whom, in order.
    pub closed spec fn replies(&self) -> Seq<Reply<Option<Vec<u8>>>> {
        self.replied@
    }

    pub fn new() -> (s: Self)
        ensures
            s@ == Seq::<oneshot::Sender<Option<Vec<u8>>>>::empty(),
            s.replies() == Seq::<Reply<Option<Vec<u8>>>>::empty(),
    {
        HubSession { pending: VecDeque::new(), replied: Record::new() }
    }

    /// Who waits longest for an answer.
    pub fn next_responder(&mut self) -> (r: Option<oneshot::Sender<Option<Vec<u8>>>>)
        ensures
            match r {
                Some(tx) => old(self)@.len() > 0 && tx == old(self)@[0] && final(self)@ == old(
                    self,
                )@.skip(1),
                None => old(self)@.len() == 0 && final(self)@ == old(self)@,
            },
            final(self).replies() == old(self).replies(),
    {
        let r = self.pending.pop_front();
        proof {
            if r is Some {
                assert(self@ =~= old(self)@.skip(1));
            }
        }
        r
    }

    /// Who gets an answer from the hub, and what it says; nobody where nobody
    /// waits.
    pub fn next_answer(&mut self, payload: &[u8]) -> (r: Option<
        (oneshot::Sender<Option<Vec<u8>>>, Option<Vec<u8>>),
    >)
        ensures
            match r {
                Some((tx, answer)) => {
                    &&& old(self)@.len() > 0
                    &&& tx == old(self)@[0]
                    &&& final(self)@ == old(self)@.skip(1)
                    &&& says_answer(answer, payload@)
                },
                None => old(self)@.len() == 0 && final(self)@ == old(self)@,
            },
            final(self).replies() == old(self).replies(),
    {
        match self.next_responder() {
            Some(tx) => Some((tx, read_kp_response(payload))),
            None => None,
        }
    }

    /// Deal with a frame from the hub. An answer goes to whoever waits longest.
    pub fn on_frame(&mut self, kind: HubFrame, payload: &[u8]) -> (step: HubStep)
        ensures
            match kind {
                HubFrame::Deliver => *final(self) == *old(self) && if payload@.len() < 16 {
                    step is Ignore
                } else {
                    step matches HubStep::Delivered { target, body } && payload@ == target@ + body@
                },
                HubFrame::KpResponse => if old(self)@.len() == 0 {
                    step is Ignore && final(self)@ == old(self)@ && final(self).replies() == old(
                        self,
                    ).replies()
                } else {
                    &&& step is Answered
                    &&& final(self)@ == old(self)@.skip(1)
                    &&& final(self).replies().len() == old(self).replies().len() + 1
                    &&& final(self).replies().drop_last() == old(self).replies()
                    &&& final(self).replies().last().to == old(self)@[0]
                    &&& says_answer(final(self).replies().last().value, payload@)
                },
                HubFrame::Other => step is Ignore && *final(self) == *old(self),
            },
    {
        match kind {
            HubFrame::Deliver => match split_deliver_payload(payload) {
                Err(_) => HubStep::Ignore,
                Ok((target, body)) => HubStep::Delivered { target, body },
            },
            HubFrame::KpResponse => match self.next_answer(payload) {
                None => HubStep::Ignore,
                Some((tx, answer)) => {
                    let ghost before = self.replies();
                    let ghost reply = Reply { to: tx, value: answer };
                    respond(&mut self.replied, tx, answer);
                    proof {
                        assert(self.replies() == before.push(reply));
                        assert(self.replies().drop_last() =~= before);
                    }
                    HubStep::Answered
                },
            },
            HubFrame::Other => HubStep::Ignore,
        }
    }

    /// Turn an action into the frame to send, if there is anything to send. Who
    /// asks for a key package is noted before the request goes out.
    pub fn on_outbound(&mut self, outbound: HubOutbound) -> (frame: Option<WireFrame>)
        ensures
            match outbound {
                HubOutbound::Deliver { target, body } => frame matches Some(f) && f.kind
                    == WireKind::Deliver && f.payload@ == target@ + body@ && final(self)@ == old(
                    self,
                )@,
                HubOutbound::FetchKp { routing_id, responder } => frame matches Some(f) && f.kind
                    == WireKind::KpFetch && f.payload@ == routing_id@ && final(self)@ == old(
                    self,
                )@.push(responder),
                HubOutbound::Subscribe(ids) => final(self)@ == old(self)@ && if ids@.len() == 0 {
                    frame is None
                } else {
                    frame matches Some(f) && f.kind == WireKind::Subscribe && f.payload@
                        == subscribe_payload(ids@)
                },
                HubOutbound::Pad => frame matches Some(f) && f.kind == WireKind::Pad && f.payload@
                    == Seq::<u8>::empty() && final(self)@ == old(self)@,
            },
            final(self).replies() == old(self).replies(),
    {
        match outbound {
            HubOutbound::Deliver { target, body } => Some(
                WireFrame { kind: WireKind::Deliver, payload: addressed(&target, body.as_slice()) },
            ),
            HubOutbound::FetchKp { routing_id, responder } => {
                self.pending.push_back(responder);
                Some(
                    WireFrame {
                        kind: WireKind::KpFetch,
                        payload: copy_bytes(routing_id.as_slice()),
                    },
                )
            },
            HubOutbound::Subscribe(ids) => if ids.len() == 0 {
                None
            } else {
                Some(subscribe_frame(ids.as_slice()))
            },
            HubOutbound::Pad => Some(pad_frame()),
        }
    }
}

/// What the input of a paced session holds at the start of a slot.
#[derive(Debug)]
pub enum Polled {
    /// An action that waits.
    Action(HubOutbound),
    /// Nothing at the moment.
    Empty,
    /// Nothing any more.
    Closed,
}

/// `mpsc::Receiver::try_recv`: take what waits in a channel, without waiting.
/// Nothing is claimed of what waits there. The record gets it.
#[verifier::external_body]
fn poll_input(got: &mut Record<Polled>, rx: &mut mpsc::Receiver<HubOutbound>) -> (r: Polled)
    ensures
        final(got)@ == old(got)@.push(r),
{
    match rx.try_recv() {
        Ok(action) => Polled::Action(action),
        Err(mpsc::error::TryRecvError::Empty) => Polled::Empty,
        Err(mpsc::error::TryRecvError::Disconnected) => Polled::Closed,
    }
}

/// What goes out in a slot.
pub open spec fn filled(polled: Polled) -> Option<HubOutbound> {
    match polled {
        Polled::Action(a) => Some(a),
        Polled::Empty => Some(HubOutbound::Pad),
        Polled::Closed => None,
    }
}

/// What goes out in a slot: the action that waits, a cover frame where none does,
/// and nothing once the input is closed.
pub fn fill_slot(polled: Polled) -> (r: Option<HubOutbound>)
    ensures
        r == filled(polled),
{
    match polled {
        Polled::Action(a) => Some(a),
        Polled::Empty => Some(HubOutbound::Pad),
        Polled::Closed => None,
    }
}

/// One slot of a paced session: take what waits in the input and say what goes
/// out. Nothing means that the input is closed.
pub fn next_slot(got: &mut Record<Polled>, rx: &mut mpsc::Receiver<HubOutbound>) -> (r: Option<
    HubOutbound,
>)
    ensures
        final(got)@.len() == old(got)@.len() + 1,
        final(got)@.drop_last() == old(got)@,
        r == filled(final(got)@.last()),
{
    let ghost before = got@;
    let polled = poll_input(got, rx);
    proof {
        assert(got@.drop_last() =~= before);
    }
    fill_slot(polled)
}

/// What goes out in slot `i` of a paced session whose input holds `queue` and
/// stays open.
pub open spec fn slot_content(queue: Seq<HubOutbound>, i: int) -> HubOutbound {
    if 0 <= i < queue.len() {
        queue[i]
    } else {
        HubOutbound::Pad
    }
}

/// What the input holds after `i` slots.
pub open spec fn left_after(queue: Seq<HubOutbound>, i: int) -> Seq<HubOutbound> {
    if 0 <= i <= queue.len() {
        queue.skip(i)
    } else {
        Seq::empty()
    }
}

/// The pace does not depend on the traffic: every slot carries exactly one frame,
/// what waits goes out in order, and cover frames fill the rest.
pub proof fn law_every_slot_is_filled(queue: Seq<HubOutbound>, i: int)
    requires
        i >= 0,
    ensures
        slot_content(queue, i) == if left_after(queue, i).len() > 0 {
            left_after(queue, i)[0]
        } else {
            HubOutbound::Pad
        },
        left_after(queue, i + 1) == if left_after(queue, i).len() > 0 {
            left_after(queue, i).skip(1)
        } else {
            Seq::<HubOutbound>::empty()
        },
{
    if i < queue.len() {
        assert(left_after(queue, i + 1) =~= left_after(queue, i).skip(1));
    } else {
        assert(left_after(queue, i) =~= Seq::<HubOutbound>::empty());
        assert(left_after(queue, i + 1) =~= Seq::<HubOutbound>::empty());
    }
}

/// A hub reads the very routing ids that a client subscribes to.
pub proof fn law_subscribe_round_trip(ids: Seq<RoutingId>)
    ensures
        subscribe_payload(ids).len() == 16 * ids.len(),
        routing_ids(subscribe_payload(ids)) == ids,
{
    lemma_subscribe_payload(ids);
    let p = subscribe_payload(ids);
    assert forall|i: int| 0 <= i < ids.len() implies routing_id_at(p, i) == ids[i] by {
        lemma_routing_id_at(p, i, ids[i]);
    }
    assert(routing_ids(p) =~= ids);
}

proof fn lemma_subscribe_payload(ids: Seq<RoutingId>)
    ensures
        subscribe_payload(ids).len() == 16 * ids.len(),
        forall|i: int|
            0 <= i < ids.len() ==> subscribe_payload(ids).subrange(16 * i, 16 * i + 16) == (
            #[trigger] ids[i])@,
    decreases ids.len(),
{
    if ids.len() > 0 {
        let p = ids.drop_last();
        lemma_subscribe_payload(p);
        assert forall|i: int| 0 <= i < ids.len() implies subscribe_payload(ids).subrange(
            16 * i,
            16 * i + 16,
        ) == (#[trigger] ids[i])@ by {
            if i < p.len() {
                assert(p[i] == ids[i]);
                assert(subscribe_payload(ids).subrange(16 * i, 16 * i + 16)
                    =~= subscribe_payload(p).subrange(16 * i, 16 * i + 16));
            } else {
                assert(subscribe_payload(ids).subrange(16 * i, 16 * i + 16) =~= ids[i]@);
            }
        }
    }
}

/// A client reads from a hub's answer the very key package that the hub has, or
/// that it has none.
pub proof fn law_fetch_round_trip(
    m: crate::hub::state::HubModel,
    id: RoutingId,
)
    ensures
        answer_in(crate::hub::handler::kp_answer(m, id)) == if m.keypackages.dom().contains(id) {
            Some(m.keypackages[id])
        } else {
            None
        },
{
    let a = crate::hub::handler::kp_answer(m, id);
    if m.keypackages.dom().contains(id) {
        assert(a.skip(1) =~= m.keypackages[id]);
    }
}

/// A session, as a value.
#[verifier::ext_equal]
pub struct SessionModel {
    /// Who waits for an answer, the longest waiting first.
    pub waiting: Seq<oneshot::Sender<Option<Vec<u8>>>>,
    /// What was answered to whom, in order.
    pub replies: Seq<Reply<Option<Vec<u8>>>>,
}

/// A session at its start.
pub open spec fn fresh_session() -> SessionModel {
    SessionModel { waiting: Seq::empty(), replies: Seq::empty() }
}

/// What comes to a session.
#[derive(Debug)]
pub enum SessionInput {
    /// A frame from the hub.
    Frame {
        kind: HubFrame,
        payload: Vec<u8>,
    },
    /// The hub's stream came to its end.
    ReadFailed,
    /// Something to send.
    Outbound(HubOutbound),
    /// Something could not be sent.
    WriteFailed,
}

/// What a session asks for.
#[derive(Debug)]
pub enum ServeStep {
    /// Nothing.
    Nothing,
    /// Take in an envelope.
    Deliver {
        target: RoutingId,
        body: Vec<u8>,
    },
    /// Send a frame to the hub.
    Send(WireFrame),
    /// End the session; nothing went wrong.
    End,
    /// End the session with an error.
    Fail,
}

/// The session ends with this.
pub open spec fn ends_session(input: SessionInput) -> bool {
    input is ReadFailed || input is WriteFailed
}

/// The frame that an action becomes, if there is anything to send.
pub open spec fn is_wire_frame(frame: Option<WireFrame>, outbound: HubOutbound) -> bool {
    match outbound {
        HubOutbound::Deliver { target, body } => frame matches Some(f) && f.kind
            == WireKind::Deliver && f.payload@ == target@ + body@,
        HubOutbound::FetchKp { routing_id, .. } => frame matches Some(f) && f.kind
            == WireKind::KpFetch && f.payload@ == routing_id@,
        HubOutbound::Subscribe(ids) => if ids@.len() == 0 {
            frame is None
        } else {
            frame matches Some(f) && f.kind == WireKind::Subscribe && f.payload@
                == subscribe_payload(ids@)
        },
        HubOutbound::Pad => frame matches Some(f) && f.kind == WireKind::Pad && f.payload@
            == Seq::<u8>::empty(),
    }
}

/// What a session does about an input.
pub open spec fn is_served(
    before: SessionModel,
    after: SessionModel,
    input: SessionInput,
    step: ServeStep,
) -> bool {
    match input {
        SessionInput::Frame { kind: HubFrame::Deliver, payload } => {
            &&& after == before
            &&& if payload@.len() < 16 {
                step is Nothing
            } else {
                step matches ServeStep::Deliver { target, body } && payload@ == target@ + body@
            }
        },
        SessionInput::Frame { kind: HubFrame::KpResponse, payload } => {
            &&& step is Nothing
            &&& if before.waiting.len() == 0 {
                after == before
            } else {
                &&& after.waiting == before.waiting.skip(1)
                &&& after.replies == before.replies.push(after.replies.last())
                &&& after.replies.last().to == before.waiting[0]
                &&& says_answer(after.replies.last().value, payload@)
            }
        },
        SessionInput::Frame { kind: HubFrame::Other, .. } => step is Nothing && after == before,
        SessionInput::ReadFailed => step is End && after == (SessionModel {
            waiting: Seq::empty(),
            ..before
        }),
        SessionInput::WriteFailed => step is Fail && after == (SessionModel {
            waiting: Seq::empty(),
            ..before
        }),
        SessionInput::Outbound(outbound) => {
            &&& after == (SessionModel {
                waiting: if outbound is FetchKp {
                    before.waiting.push(outbound->responder)
                } else {
                    before.waiting
                },
                ..before
            })
            &&& match step {
                ServeStep::Send(f) => is_wire_frame(Some(f), outbound),
                ServeStep::Nothing => is_wire_frame(None, outbound),
                _ => false,
            }
        },
    }
}

impl HubSession {
    /// The session as a value.
    pub open spec fn state(&self) -> SessionModel {
        SessionModel { waiting: self@, replies: self.replies() }
    }

    /// Go on with what came. Whoever still waits when the session ends gets no
    /// answer.
    pub fn serve(&mut self, input: SessionInput) -> (step: ServeStep)
        ensures
            is_served(old(self).state(), final(self).state(), input, step),
    {
        match input {
            SessionInput::Frame { kind, payload } => {
                let ghost before = self.replies();
                let step = self.on_frame(kind, payload.as_slice());
                proof {
                    if kind == HubFrame::KpResponse && old(self)@.len() > 0 {
                        assert(self.replies() =~= before.push(self.replies().last()));
                    }
                }
                match step {
                    HubStep::Delivered { target, body } => ServeStep::Deliver { target, body },
                    HubStep::Ignore | HubStep::Answered => ServeStep::Nothing,
                }
            },
            SessionInput::ReadFailed => {
                self.pending = VecDeque::new();
                assert(self@ =~= Seq::empty());
                ServeStep::End
            },
            SessionInput::WriteFailed => {
                self.pending = VecDeque::new();
                assert(self@ =~= Seq::empty());
                ServeStep::Fail
            },
            SessionInput::Outbound(outbound) => match self.on_outbound(outbound) {
                Some(frame) => ServeStep::Send(frame),
                None => ServeStep::Nothing,
            },
        }
    }
}

/// A run of a session from its start: the calls of [`HubSession::serve`] in order,
/// with the states between them. Nothing comes after what ends the session.
pub open spec fn is_run(
    states: Seq<SessionModel>,
    inputs: Seq<SessionInput>,
    steps: Seq<ServeStep>,
) -> bool {
    &&& states.len() == inputs.len() + 1
    &&& steps.len() == inputs.len()
    &&& states[0] == fresh_session()
    &&& forall|i: int|
        #![trigger inputs[i]]
        0 <= i < inputs.len() ==> is_served(states[i], states[i + 1], inputs[i], steps[i])
    &&& forall|i: int| 0 <= i < inputs.len() - 1 ==> !ends_session(#[trigger] inputs[i])
}

/// Who asked for a key package, in order.
pub open spec fn askers(inputs: Seq<SessionInput>) -> Seq<oneshot::Sender<Option<Vec<u8>>>>
    decreases inputs.len(),
{
    if inputs.len() == 0 {
        Seq::empty()
    } else {
        match inputs.last() {
            SessionInput::Outbound(HubOutbound::FetchKp { responder, .. }) => askers(
                inputs.drop_last(),
            ).push(responder),
            _ => askers(inputs.drop_last()),
        }
    }
}

/// All answers that the hub sent, in order.
pub open spec fn responses(inputs: Seq<SessionInput>) -> Seq<Seq<u8>>
    decreases inputs.len(),
{
    if inputs.len() == 0 {
        Seq::empty()
    } else {
        match inputs.last() {
            SessionInput::Frame { kind: HubFrame::KpResponse, payload } => responses(
                inputs.drop_last(),
            ).push(payload@),
            _ => responses(inputs.drop_last()),
        }
    }
}

/// The answers that the hub sent while a request was open, in order. Others belong
/// to no request.
pub open spec fn answers(inputs: Seq<SessionInput>) -> Seq<Seq<u8>>
    decreases inputs.len(),
{
    if inputs.len() == 0 {
        Seq::empty()
    } else {
        let front = inputs.drop_last();
        match inputs.last() {
            SessionInput::Frame { kind: HubFrame::KpResponse, payload } => if answers(front).len()
                < askers(front).len() {
                answers(front).push(payload@)
            } else {
                answers(front)
            },
            _ => answers(front),
        }
    }
}

/// The envelopes that the hub sent and that are long enough to name a routing id,
/// in order.
pub open spec fn envelopes(inputs: Seq<SessionInput>) -> Seq<Seq<u8>>
    decreases inputs.len(),
{
    if inputs.len() == 0 {
        Seq::empty()
    } else {
        match inputs.last() {
            SessionInput::Frame { kind: HubFrame::Deliver, payload } => if payload@.len() >= 16 {
                envelopes(inputs.drop_last()).push(payload@)
            } else {
                envelopes(inputs.drop_last())
            },
            _ => envelopes(inputs.drop_last()),
        }
    }
}

/// The envelopes that were taken in, in order, each with its routing id before it.
pub open spec fn deliveries(steps: Seq<ServeStep>) -> Seq<Seq<u8>>
    decreases steps.len(),
{
    if steps.len() == 0 {
        Seq::empty()
    } else {
        match steps.last() {
            ServeStep::Deliver { target, body } => deliveries(steps.drop_last()).push(
                target@ + body@,
            ),
            _ => deliveries(steps.drop_last()),
        }
    }
}

/// Whatever a session is asked and whatever the hub sends, in whatever order: the
/// nth answer goes to the nth that asked and says what the hub said, an answer
/// without an open request goes to nobody, every envelope is taken in once and in
/// order, and the end of the hub's stream ends the session without an error.
pub proof fn law_answers_in_order(
    states: Seq<SessionModel>,
    inputs: Seq<SessionInput>,
    steps: Seq<ServeStep>,
)
    requires
        is_run(states, inputs, steps),
    ensures
        states.last().replies.len() == answers(inputs).len() <= askers(inputs).len(),
        forall|i: int|
            0 <= i < answers(inputs).len() ==> (#[trigger] states.last().replies[i]).to
                == askers(inputs)[i] && says_answer(
                states.last().replies[i].value,
                answers(inputs)[i],
            ),
        states.last().waiting == if inputs.len() > 0 && ends_session(inputs.last()) {
            Seq::<oneshot::Sender<Option<Vec<u8>>>>::empty()
        } else {
            askers(inputs).skip(answers(inputs).len() as int)
        },
        deliveries(steps) == envelopes(inputs),
        inputs.len() > 0 && inputs.last() is ReadFailed ==> steps.last() is End,
    decreases inputs.len(),
{
    if inputs.len() > 0 {
        let n = inputs.len() as int;
        let s = states.drop_last();
        let front = inputs.drop_last();
        let t = steps.drop_last();
        assert(is_run(s, front, t)) by {
            assert forall|i: int|
                #![trigger front[i]]
                0 <= i < front.len() implies is_served(s[i], s[i + 1], front[i], t[i]) by {
                assert(front[i] == inputs[i]);
            }
            assert forall|i: int| 0 <= i < front.len() - 1 implies !ends_session(
                #[trigger] front[i],
            ) by {
                assert(front[i] == inputs[i]);
            }
        }
        law_answers_in_order(s, front, t);
        if front.len() > 0 {
            assert(front.last() == inputs[n - 2]);
        }
        assert(inputs[n - 1] == inputs.last());
        assert(is_served(states[n - 1], states[n], inputs[n - 1], steps[n - 1]));
        assert(s.last() == states[n - 1]);
        let before = s.last();
        let after = states.last();
        let a = askers(front);
        let p = answers(front);
        assert(before.waiting == a.skip(p.len() as int));
        assert(before.waiting.len() == a.len() - p.len());
        match inputs.last() {
            SessionInput::Outbound(HubOutbound::FetchKp { responder, .. }) => {
                assert(after.waiting =~= a.push(responder).skip(p.len() as int));
                assert forall|i: int| 0 <= i < p.len() implies (#[trigger] after.replies[i]).to
                    == askers(inputs)[i] by {
                    assert(before.replies[i] == after.replies[i]);
                }
            },
            SessionInput::Frame { kind: HubFrame::KpResponse, .. } if before.waiting.len() > 0 => {
                assert(after.waiting =~= a.skip(p.len() as int + 1));
                assert(before.waiting[0] == a[p.len() as int]);
                assert forall|i: int|
                    0 <= i < answers(inputs).len() implies (#[trigger] after.replies[i]).to
                    == askers(inputs)[i] && says_answer(
                    after.replies[i].value,
                    answers(inputs)[i],
                ) by {
                    if i < p.len() {
                        assert(before.replies[i] == after.replies[i]);
                    }
                }
            },
            _ => {},
        }
    } else {
        assert(askers(inputs).skip(0) =~= Seq::empty());
    }
}

/// As long as the hub sends no more answers than it was asked for, none is lost:
/// every answer goes to a request.
pub proof fn law_no_answer_is_lost(inputs: Seq<SessionInput>)
    requires
        forall|k: int|
            0 <= k <= inputs.len() ==> responses(#[trigger] inputs.take(k)).len() <= askers(
                inputs.take(k),
            ).len(),
    ensures
        answers(inputs) == responses(inputs),
    decreases inputs.len(),
{
    assert(inputs.take(inputs.len() as int) =~= inputs);
    if inputs.len() > 0 {
        let front = inputs.drop_last();
        assert forall|k: int| 0 <= k <= front.len() implies responses(
            #[trigger] front.take(k),
        ).len() <= askers(front.take(k)).len() by {
            assert(front.take(k) =~= inputs.take(k));
        }
        law_no_answer_is_lost(front);
    }
}

/// An answer of one zero byte and a key package is that key package; every other
/// answer, and the empty one, says that there is none.
pub proof fn law_answers_are_read(payload: Seq<u8>, kp: Seq<u8>)
    ensures
        answer_in(seq![0u8] + kp) == Some(kp),
        payload.len() == 0 ==> answer_in(payload) is None,
        payload.len() > 0 && payload[0] != 0 ==> answer_in(payload) is None,
{
    assert((seq![0u8] + kp).skip(1) =~= kp);
}

/// Every action is sent as what it is: an envelope behind the sixteen bytes of its
/// target, a request as the sixteen bytes that it asks for, a cover frame without
/// content, and a subscription unless it names nobody.
pub proof fn law_actions_become_frames(
    before: SessionModel,
    after: SessionModel,
    action: HubOutbound,
    step: ServeStep,
)
    requires
        is_served(before, after, SessionInput::Outbound(action), step),
    ensures
        step is Nothing <==> action is Subscribe && action->Subscribe_0@.len() == 0,
        step is Nothing || step is Send,
        action is Deliver ==> step->Send_0.kind == WireKind::Deliver && step->Send_0.payload@.take(
            16,
        ) == action->target@ && step->Send_0.payload@.skip(16) == action->body@,
        action is FetchKp ==> step->Send_0.kind == WireKind::KpFetch && step->Send_0.payload@
            == action->routing_id@,
        action is Subscribe && step is Send ==> step->Send_0.kind == WireKind::Subscribe
            && step->Send_0.payload@.len() == 16 * action->Subscribe_0@.len(),
        action is Subscribe ==> forall|i: int|
            0 <= i < action->Subscribe_0@.len() ==> step->Send_0.payload@.subrange(
                16 * i,
                16 * i + 16,
            ) == (#[trigger] action->Subscribe_0@[i])@,
        action is Pad ==> step->Send_0.kind == WireKind::Pad && step->Send_0.payload@.len() == 0,
        after.replies == before.replies,
        action is FetchKp ==> after.waiting.len() == before.waiting.len() + 1
            && after.waiting.last() == action->responder,
        !(action is FetchKp) ==> after.waiting == before.waiting,
{
    match action {
        HubOutbound::Deliver { target, body } => {
            assert((target@ + body@).take(16) =~= target@);
            assert((target@ + body@).skip(16) =~= body@);
        },
        HubOutbound::Subscribe(ids) => {
            lemma_subscribe_payload(ids@);
        },
        _ => {},
    }
}

/// Only an envelope is taken in, only an action leads to a frame, and a session
/// ends only where its stream does: without an error where the hub closed it, and
/// with one where nothing could be sent. Nobody is answered then.
pub proof fn law_session_ends(
    before: SessionModel,
    after: SessionModel,
    input: SessionInput,
    step: ServeStep,
)
    requires
        is_served(before, after, input, step),
    ensures
        step is End <==> input is ReadFailed,
        step is Fail <==> input is WriteFailed,
        step is Deliver <==> input is Frame && input->kind == HubFrame::Deliver
            && input->payload@.len() >= 16,
        step is Deliver ==> input->payload@.take(16) == step->target@ && input->payload@.skip(16)
            == step->body@,
        step is Send ==> input is Outbound,
        step is End || step is Fail ==> after.waiting.len() == 0 && after.replies
            == before.replies,
        after.replies == before.replies || input is Frame && input->kind == HubFrame::KpResponse,
{
    if let ServeStep::Deliver { target, body } = step {
        assert((target@ + body@).take(16) =~= target@);
        assert((target@ + body@).skip(16) =~= body@);
    }
}

/// An answer ends the longest wait and no other.
pub proof fn law_answer_ends_one_wait(
    before: SessionModel,
    after: SessionModel,
    payload: Vec<u8>,
    step: ServeStep,
)
    requires
        is_served(
            before,
            after,
            SessionInput::Frame { kind: HubFrame::KpResponse, payload },
            step,
        ),
        before.waiting.len() > 0,
    ensures
        after.waiting.len() == before.waiting.len() - 1,
        forall|i: int|
            0 <= i < after.waiting.len() ==> #[trigger] after.waiting[i] == before.waiting[i + 1],
        after.replies.len() == before.replies.len() + 1,
        after.replies.last().to == before.waiting[0],
        after.replies.last().value is Some <==> payload@.len() > 0 && payload@[0] == 0,
        after.replies.last().value is Some ==> payload@ == seq![0u8]
            + after.replies.last().value->0@,
{
    if after.replies.last().value is Some {
        assert(payload@ =~= seq![0u8] + payload@.skip(1));
    }
}

/// A slot carries what waits, unchanged; a cover frame where nothing waits; and
/// nothing only where nothing will come any more.
pub proof fn law_slot_carries_what_waits(polled: Polled)
    ensures
        polled is Action ==> filled(polled) == Some(polled->Action_0),
        polled is Empty ==> filled(polled) is Some && filled(polled)->0 is Pad,
        filled(polled) is None <==> polled is Closed,
{
}

} // verus!
