//! What a hub does with the frames of a session.
//!
//! The session itself (the handshake, reading and writing frames, waiting) is
//! driven from outside; each function here takes one frame and says what to do.
use vstd::prelude::*;

use crate::bytes::{append_bytes, copy_bytes, copy_range, rows_of};
use crate::codec::to_array;
use crate::hub::gossip::{passed_on, GossipFrame, GossipKind, GossipModel, RoutingId};
use crate::hub::rate_limit::RateKey;
use crate::hub::state::{
    drained, first_frame, forwards, gossip_wires, hub_wf, is_client_delivery, is_delivery,
    is_telling, law_source_skipped, passes_on, published, rate_allows, rate_counted, subscribed,
    ConnId, HubModel, HubState,
};
use crate::list_map::same_array;
use crate::text::{decimal, decimal_text, join3};

verus! {

/// A frame that ends the session.
#[derive(Debug, Clone, Copy, PartialEq, Eq, Structural)]
pub enum FrameError {
    /// A subscription whose length is no multiple of the length of an id.
    SubscribeLength(usize),
    /// An envelope without room for its target.
    DeliverTooShort,
}

impl FrameError {
    /// What the error says.
    pub open spec fn text(self) -> Seq<char> {
        match self {
            FrameError::SubscribeLength(n) => "hub: SUBSCRIBE payload length "@ + decimal(n as nat)
                + " is not a multiple of 16"@,
            FrameError::DeliverTooShort => "hub: DELIVER payload too short for target prefix"@,
        }
    }

    pub fn message(&self) -> (s: String)
        ensures
            s@ == self.text(),
    {
        match self {
            FrameError::SubscribeLength(n) => join3(
                "hub: SUBSCRIBE payload length ",
                decimal_text(*n as u64).as_str(),
                " is not a multiple of 16",
            ),
            FrameError::DeliverTooShort => "hub: DELIVER payload too short for target prefix".to_owned(),
        }
    }
}

/// The routing id that is block `i` of a payload.
pub open spec fn routing_id_at(payload: Seq<u8>, i: int) -> RoutingId {
    choose|id: RoutingId| id@ == payload.subrange(16 * i, 16 * i + 16)
}

/// The routing ids that a payload of whole blocks is made of.
pub open spec fn routing_ids(payload: Seq<u8>) -> Seq<RoutingId> {
    Seq::new((payload.len() / 16) as nat, |i: int| routing_id_at(payload, i))
}

/// A block has one routing id.
pub proof fn lemma_routing_id_at(payload: Seq<u8>, i: int, id: RoutingId)
    requires
        id@ == payload.subrange(16 * i, 16 * i + 16),
    ensures
        routing_id_at(payload, i) == id,
{
    let other = routing_id_at(payload, i);
    assert(other@ == id@);
    assert forall|j: int| 0 <= j < 16 implies other[j] == id[j] by {
        assert(other@[j] == id@[j]);
    }
    assert(other =~= id);
}

/// The routing ids of a subscription: blocks of 16 bytes, one after the other.
pub fn parse_routing_ids(payload: &[u8]) -> (r: Result<Vec<RoutingId>, FrameError>)
    ensures
        match r {
            Ok(ids) => payload@.len() % 16 == 0 && ids@ == routing_ids(payload@),
            Err(e) => payload@.len() % 16 != 0 && e == FrameError::SubscribeLength(
                payload@.len() as usize,
            ),
        },
{
    if payload.len() % 16 != 0 {
        return Err(FrameError::SubscribeLength(payload.len()));
    }
    let n: usize = payload.len() / 16;
    let mut out: Vec<RoutingId> = Vec::new();
    let mut i: usize = 0;
    while i < n
        invariant
            i <= n,
            payload.len() == 16 * n,
            out@.len() == i,
            forall|j: int| 0 <= j < i ==> #[trigger] out@[j] == routing_id_at(payload@, j),
        decreases n - i,
    {
        let block = copy_range(payload, i * 16, i * 16 + 16);
        let id: RoutingId = to_array::<16>(block.as_slice());
        proof {
            lemma_routing_id_at(payload@, i as int, id);
        }
        out.push(id);
        i += 1;
    }
    assert(out@ =~= routing_ids(payload@));
    Ok(out)
}

/// The target of an envelope: its first 16 bytes.
pub fn parse_target_prefix(payload: &[u8]) -> (r: Result<RoutingId, FrameError>)
    ensures
        match r {
            Ok(id) => payload@.len() >= 16 && id@ == payload@.subrange(0, 16) && id
                == routing_id_at(payload@, 0),
            Err(e) => payload@.len() < 16 && e == FrameError::DeliverTooShort,
        },
{
    if payload.len() < 16 {
        return Err(FrameError::DeliverTooShort);
    }
    let block = copy_range(payload, 0, 16);
    let id: RoutingId = to_array::<16>(block.as_slice());
    proof {
        lemma_routing_id_at(payload@, 0, id);
    }
    Ok(id)
}

/// The target of an envelope and its body.
pub fn split_deliver_payload(payload: &[u8]) -> (r: Result<(RoutingId, Vec<u8>), FrameError>)
    ensures
        match r {
            Ok((id, body)) => payload@.len() >= 16 && payload@ == id@ + body@,
            Err(e) => payload@.len() < 16 && e == FrameError::DeliverTooShort,
        },
{
    match parse_target_prefix(payload) {
        Ok(id) => {
            let body = copy_range(payload, 16, payload.len());
            assert(payload@ =~= id@ + body@);
            Ok((id, body))
        },
        Err(e) => Err(e),
    }
}

/// What kind of frame a client sent.
#[derive(Debug, Clone, Copy, PartialEq, Eq, Structural)]
pub enum ClientFrame {
    /// Routing ids that the client wants envelopes for.
    Subscribe,
    /// An envelope for a routing id.
    Deliver,
    /// A key package for the directory.
    KpPublish,
    /// A request for a key package.
    KpFetch,
    /// Cover traffic.
    Pad,
    /// Anything else.
    Other,
}

/// What to do about a client's frame.
#[derive(Debug)]
pub enum ClientAction {
    /// Nothing.
    Ignore,
    /// End the session.
    Close(FrameError),
    /// Send these envelopes to the client.
    Flush(Vec<Vec<u8>>),
    /// The envelope went to so many connections.
    Routed(usize),
    /// Find out whose key package it is, and call
    /// [`on_keypackage_checked`] with the answer.
    CheckKeyPackage {
        routing_id: RoutingId,
        kp: Vec<u8>,
    },
    /// Send this answer to a request for a key package.
    Respond(Vec<u8>),
}

/// The answer to a request for a key package: 0 and the key package, or 1.
pub open spec fn kp_answer(m: HubModel, id: RoutingId) -> Seq<u8> {
    if m.keypackages.dom().contains(id) {
        seq![0u8] + m.keypackages[id]
    } else {
        seq![1u8]
    }
}

/// What a client's frame leads to.
pub open spec fn client_step(
    before: HubModel,
    conn: ConnId,
    key: RateKey,
    kind: ClientFrame,
    payload: Seq<u8>,
    now: nat,
    action: ClientAction,
    after: HubModel,
) -> bool {
    let counted = rate_counted(before, key, now);
    let target = routing_id_at(payload, 0);
    match kind {
        ClientFrame::Subscribe => if payload.len() % 16 != 0 {
            action == ClientAction::Close(FrameError::SubscribeLength(payload.len() as usize))
                && after == before
        } else if payload.len() == 0 {
            action == ClientAction::Ignore && after == before
        } else {
            &&& action is Flush
            &&& rows_of(action->Flush_0@) == drained(before, conn, routing_ids(payload))
            &&& after == subscribed(before, conn, routing_ids(payload))
        },
        ClientFrame::Deliver => if !rate_allows(before, key, now) {
            action == ClientAction::Ignore && after == counted
        } else if payload.len() < 16 {
            action == ClientAction::Close(FrameError::DeliverTooShort) && after == counted
        } else {
            &&& action is Routed
            &&& is_client_delivery(counted, target, payload, action->Routed_0 as nat, after)
        },
        ClientFrame::KpPublish => if !rate_allows(before, key, now) || payload.len() < 16 {
            action == ClientAction::Ignore && after == counted
        } else {
            &&& action is CheckKeyPackage
            &&& action->routing_id == target
            &&& action->kp@ == payload.skip(16)
            &&& after == counted
        },
        ClientFrame::KpFetch => if payload.len() != 16 {
            action == ClientAction::Ignore && after == before
        } else {
            &&& action is Respond
            &&& action->Respond_0@ == kp_answer(before, target)
            &&& after == before
        },
        ClientFrame::Pad | ClientFrame::Other => action == ClientAction::Ignore && after == before,
    }
}

/// Deal with one frame of a client. Envelopes and key packages count against the
/// rate limit of the client's identity; subscriptions, requests and cover
/// traffic do not.
pub fn on_client_frame(
    state: &mut HubState,
    conn: ConnId,
    key: &RateKey,
    kind: ClientFrame,
    payload: Vec<u8>,
    now: u64,
) -> (action: ClientAction)
    requires
        old(state).wf(),
    ensures
        final(state).wf(),
        client_step(
            old(state)@,
            conn,
            *key,
            kind,
            payload@,
            now as nat,
            action,
            final(state)@,
        ),
{
    match kind {
        ClientFrame::Subscribe => match parse_routing_ids(payload.as_slice()) {
            Err(e) => ClientAction::Close(e),
            Ok(ids) => if ids.len() == 0 {
                ClientAction::Ignore
            } else {
                ClientAction::Flush(state.subscribe(conn, ids.as_slice()))
            },
        },
        ClientFrame::Deliver => if !state.check_rate(key, now) {
            ClientAction::Ignore
        } else {
            match parse_target_prefix(payload.as_slice()) {
                Err(e) => ClientAction::Close(e),
                Ok(target) => ClientAction::Routed(state.deliver_from_client(target, payload)),
            }
        },
        ClientFrame::KpPublish => if !state.check_rate(key, now) {
            ClientAction::Ignore
        } else {
            match parse_target_prefix(payload.as_slice()) {
                Err(_) => ClientAction::Ignore,
                Ok(routing_id) => {
                    let kp = copy_range(payload.as_slice(), 16, payload.len());
                    assert(kp@ =~= payload@.skip(16));
                    ClientAction::CheckKeyPackage { routing_id, kp }
                },
            }
        },
        ClientFrame::KpFetch => if payload.len() != 16 {
            ClientAction::Ignore
        } else {
            let id: RoutingId = to_array::<16>(payload.as_slice());
            proof {
                assert(payload@.subrange(0, 16) =~= payload@);
                lemma_routing_id_at(payload@, 0, id);
            }
            ClientAction::Respond(answer_fetch(state, &id))
        },
        ClientFrame::Pad | ClientFrame::Other => ClientAction::Ignore,
    }
}

fn answer_fetch(state: &HubState, id: &RoutingId) -> (out: Vec<u8>)
    requires
        state.wf(),
    ensures
        out@ == kp_answer(state@, *id),
{
    let mut out: Vec<u8> = Vec::new();
    match state.fetch_keypackage(id) {
        Some(kp) => {
            out.push(0);
            append_bytes(&mut out, kp.as_slice());
            assert(out@ =~= seq![0u8] + kp@);
        },
        None => {
            out.push(1);
            assert(out@ =~= seq![1u8]);
        },
    }
    out
}

/// A key package belongs to a routing id: it is well formed, and its signing key
/// leads to that routing id.
pub open spec fn owns(owner: Option<RoutingId>, id: RoutingId) -> bool {
    owner == Some(id)
}

fn is_owner(owner: Option<RoutingId>, id: &RoutingId) -> (r: bool)
    ensures
        r == owns(owner, *id),
{
    match owner {
        Some(o) => same_array(&o, id),
        None => false,
    }
}

/// What the publication of a key package does: the other hubs are told, and it
/// stands in the directory.
pub open spec fn is_publication(
    before: HubModel,
    id: RoutingId,
    kp: Seq<u8>,
    after: HubModel,
) -> bool {
    exists|mid: HubModel, took: nat|
        #[trigger] is_telling(
            before,
            None,
            GossipKind::Publish,
            first_frame(before, id, kp),
            took,
            mid,
        ) && after == published(mid, id, kp)
}

/// What passing a frame on does: the hubs but the one it came from are offered it
/// with one hop less to go.
pub open spec fn is_passing_on(
    before: HubModel,
    source: [u8; 32],
    kind: GossipKind,
    f: GossipModel,
    after: HubModel,
) -> bool {
    exists|took: nat| #[trigger]
        is_telling(before, Some(source), kind, passed_on(f, before.self_hash), took, after)
}

/// Finish the publication of a key package. `owner` is the routing id that its
/// signing key leads to, or nothing where it is no well-formed key package. Only
/// the owner of a routing id can publish there; the other hubs are told.
pub fn on_keypackage_checked(
    state: &mut HubState,
    routing_id: RoutingId,
    kp: Vec<u8>,
    owner: Option<RoutingId>,
) -> (accepted: bool)
    requires
        old(state).wf(),
    ensures
        final(state).wf(),
        accepted == owns(owner, routing_id),
        !accepted ==> final(state)@ == old(state)@,
        accepted ==> is_publication(old(state)@, routing_id, kp@, final(state)@),
{
    if !is_owner(owner, &routing_id) {
        return false;
    }
    let ghost before = state@;
    let ghost row = kp@;
    let took = state.fan_out_kp_to_peers(routing_id, kp.as_slice());
    let ghost mid = state@;
    state.publish_keypackage(routing_id, kp);
    proof {
        assert(is_telling(
            before,
            None,
            GossipKind::Publish,
            first_frame(before, routing_id, row),
            took as nat,
            mid,
        ));
    }
    true
}

/// What became of a gossip frame.
#[derive(Debug, Clone, Copy, PartialEq, Eq, Structural)]
pub enum GossipVerdict {
    /// It was no gossip frame.
    Malformed,
    /// It had been here before.
    Loop,
    /// Its key package does not belong to its routing id.
    NotOwner,
    /// It was taken; whether it is passed on.
    Taken {
        forwarded: bool,
    },
}

/// A frame may go on to further hubs.
pub open spec fn may_travel(f: GossipModel) -> bool {
    f.ttl > 1
}

/// What becomes of a key package from another hub.
pub open spec fn publish_verdict(
    m: HubModel,
    frame: Option<GossipModel>,
    owner: Option<RoutingId>,
) -> GossipVerdict {
    match frame {
        None => GossipVerdict::Malformed,
        Some(f) => if f.seen_by == m.self_hash {
            GossipVerdict::Loop
        } else if !owns(owner, f.routing_id) {
            GossipVerdict::NotOwner
        } else {
            GossipVerdict::Taken { forwarded: may_travel(f) }
        },
    }
}

/// The frame as a value, if there is one.
pub open spec fn frame_view(frame: Option<GossipFrame>) -> Option<GossipModel> {
    match frame {
        Some(f) => Some(f@),
        None => None,
    }
}

/// Deal with a key package that another hub tells of. `frame` is nothing where
/// the payload was no gossip frame; `owner` is as for
/// [`on_keypackage_checked`].
pub fn on_gossip_publish(
    state: &mut HubState,
    frame: Option<GossipFrame>,
    owner: Option<RoutingId>,
    source: &[u8; 32],
) -> (verdict: GossipVerdict)
    requires
        old(state).wf(),
    ensures
        final(state).wf(),
        verdict == publish_verdict(old(state)@, frame_view(frame), owner),
        match verdict {
            GossipVerdict::Taken { forwarded } => {
                let here = published(old(state)@, frame->0.routing_id, frame->0.body@);
                if forwarded {
                    is_passing_on(here, *source, GossipKind::Publish, frame->0@, final(state)@)
                } else {
                    final(state)@ == here
                }
            },
            _ => final(state)@ == old(state)@,
        },
{
    match frame {
        None => GossipVerdict::Malformed,
        Some(f) => {
            let own: [u8; 16] = state.self_hub_hash();
            if same_array(&f.seen_by, &own) {
                return GossipVerdict::Loop;
            }
            if !is_owner(owner, &f.routing_id) {
                return GossipVerdict::NotOwner;
            }
            state.publish_keypackage(f.routing_id, copy_bytes(f.body.as_slice()));
            let forwarded = f.ttl > 1;
            if forwarded {
                pass_on(state, source, GossipKind::Publish, &f);
            }
            GossipVerdict::Taken { forwarded }
        },
    }
}

/// Pass a frame on to the hubs but the one it came from.
fn pass_on(state: &mut HubState, source: &[u8; 32], kind: GossipKind, f: &GossipFrame)
    requires
        old(state).wf(),
        f.ttl > 1,
    ensures
        final(state).wf(),
        is_passing_on(old(state)@, *source, kind, f@, final(state)@),
{
    let ghost before = state@;
    let took = state.fan_out(Some(*source), kind, f.ttl - 1, f.routing_id, f.body.as_slice());
    proof {
        assert(is_telling(
            before,
            Some(*source),
            kind,
            passed_on(f@, before.self_hash),
            took as nat,
            state@,
        ));
    }
}

/// What becomes of an envelope from another hub that `delivered` local
/// connections took.
pub open spec fn deliver_verdict(
    m: HubModel,
    frame: Option<GossipModel>,
    delivered: nat,
) -> GossipVerdict {
    match frame {
        None => GossipVerdict::Malformed,
        Some(f) => if f.seen_by == m.self_hash {
            GossipVerdict::Loop
        } else {
            GossipVerdict::Taken {
                forwarded: may_travel(f) && passes_on(m.gossip_mode, delivered),
            }
        },
    }
}

/// Deal with an envelope that another hub tells of. Returns what became of it
/// and how many local connections took it.
pub fn on_gossip_deliver(
    state: &mut HubState,
    frame: Option<GossipFrame>,
    source: &[u8; 32],
) -> (r: (GossipVerdict, usize))
    requires
        old(state).wf(),
    ensures
        final(state).wf(),
        r.0 == deliver_verdict(old(state)@, frame_view(frame), r.1 as nat),
        match r.0 {
            GossipVerdict::Taken { forwarded } => exists|here: HubModel|
                {
                    &&& #[trigger] is_delivery(
                        old(state)@,
                        frame->0.routing_id,
                        frame->0.body@,
                        r.1 as nat,
                        here,
                    )
                    &&& if forwarded {
                        is_passing_on(here, *source, GossipKind::Deliver, frame->0@, final(state)@)
                    } else {
                        final(state)@ == here
                    }
                },
            _ => r.1 == 0 && final(state)@ == old(state)@,
        },
{
    match frame {
        None => (GossipVerdict::Malformed, 0),
        Some(f) => {
            let own: [u8; 16] = state.self_hub_hash();
            if same_array(&f.seen_by, &own) {
                return (GossipVerdict::Loop, 0);
            }
            let delivered = state.deliver(f.routing_id, copy_bytes(f.body.as_slice()));
            let ghost here = state@;
            let forwarded = f.ttl > 1 && forwards(state.gossip_mode(), delivered);
            if forwarded {
                pass_on(state, source, GossipKind::Deliver, &f);
            }
            proof {
                assert(is_delivery(old(state)@, f.routing_id, f.body@, delivered as nat, here));
            }
            (GossipVerdict::Taken { forwarded }, delivered)
        },
    }
}

/// A frame goes at most as far as its time to live, and not back: whatever is
/// passed on has fewer hops to go and at least one, bears this hub's mark, and
/// goes to a hub with another key than the one it came from.
pub proof fn law_gossip_ends(
    before: HubModel,
    source: [u8; 32],
    kind: GossipKind,
    f: GossipModel,
    after: HubModel,
    i: int,
)
    requires
        hub_wf(before),
        may_travel(f),
        is_passing_on(before, source, kind, f, after),
        before.told.len() <= i < after.told.len(),
    ensures
        1 <= after.told[i].frame.ttl < f.ttl,
        after.told[i].frame == passed_on(f, before.self_hash),
        after.told[i].kind == kind,
        exists|j: int|
            0 <= j < before.peers.len() && #[trigger] before.peers[j] != source
                && before.peer_wires[j] == after.told[i].to,
{
    let took = choose|took: nat| #[trigger]
        is_telling(before, Some(source), kind, passed_on(f, before.self_hash), took, after);
    let offers = after.told.skip(before.told.len() as int);
    let k = i - before.told.len();
    assert(offers[k] == after.told[i]);
    let wires = gossip_wires(before.peers, before.peer_wires, Some(source));
    assert(wires[k] == after.told[i].to);
    law_source_skipped(before.peers, before.peer_wires, source, wires[k]);
}

/// Nobody can overwrite the directory entry of somebody else: a key package that
/// does not lead to the routing id it claims changes nothing, whether a client
/// or a hub brings it.
pub proof fn law_directory_ownership(
    m: HubModel,
    frame: GossipModel,
    owner: Option<RoutingId>,
)
    requires
        owner != Some(frame.routing_id),
    ensures
        !owns(owner, frame.routing_id),
        !(publish_verdict(m, Some(frame), owner) is Taken),
{
}

/// A frame that this hub passed on is dropped when it comes back.
pub proof fn law_loop_dropped(m: HubModel, f: GossipModel, owner: Option<RoutingId>, delivered: nat)
    ensures
        publish_verdict(m, Some(passed_on(f, m.self_hash)), owner)
            == GossipVerdict::Loop,
        deliver_verdict(m, Some(passed_on(f, m.self_hash)), delivered)
            == GossipVerdict::Loop,
{
}

} // verus!
