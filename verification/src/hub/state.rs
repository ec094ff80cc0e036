//! What a hub holds in memory.
use vstd::prelude::*;

use tokio::sync::mpsc;

use crate::bytes::{copy_bytes, rows_of};
use crate::channel::{try_push, Offer, Record};
use crate::clock::{just_started, shown, ticked};
use crate::codec::{blake2b_128, blake2b_16};
use crate::hub::gossip::{
    GossipFrame, GossipKind, GossipMode, GossipModel, GossipOut, RoutingId, GOSSIP_TTL_DEFAULT,
};
use crate::hub::journal::{ops_of, OpModel, StoreOp};
use crate::hub::rate_limit::{
    bucket_for, has_token, limiter_after_frame, limiter_at, limiter_evicted, limiter_forgetting,
    limiter_wf, LimiterModel, RateKey, RateLimiter,
};
use crate::list_map::{same_array, ListMap, MapKey};

verus! {

/// Identifier of a connection, unique in a run of the hub.
pub type ConnId = u64;

/// How many messages wait for a slow client at most.
pub const PER_CONN_MAILBOX: usize = 64;

/// Another hub to gossip with.
#[derive(Debug, Clone, PartialEq, Eq)]
pub struct PeerHubConfig {
    /// `onion:port`, or `onion` for the default port.
    pub onion: String,
    /// The base32 key of the hub; an incoming session with this key is a hub's.
    pub pubkey: String,
}

impl MapKey for u64 {
    type Model = u64;

    open spec fn model(&self) -> u64 {
        *self
    }

    fn same_key(&self, other: &Self) -> (r: bool) {
        *self == *other
    }
}

/// What a hub holds, as a value.
#[verifier::ext_equal]
pub struct HubModel {
    /// The identifier that the next connection gets.
    pub next_conn: nat,
    /// The open connections.
    pub conns: Set<ConnId>,
    /// The channel of each open connection.
    pub wires: Map<ConnId, mpsc::Sender<Vec<u8>>>,
    /// Who wants envelopes for a routing id.
    pub subscribers: Map<RoutingId, Set<ConnId>>,
    /// Envelopes that nobody took yet, the oldest first.
    pub queues: Map<RoutingId, Seq<Seq<u8>>>,
    /// The latest key package of each routing id.
    pub keypackages: Map<RoutingId, Seq<u8>>,
    /// The buckets of the rate limit, if there is one.
    pub limiter: Option<LimiterModel>,
    /// The keys of the hubs to gossip with.
    pub peers: Seq<[u8; 32]>,
    /// The channels to these hubs.
    pub peer_wires: Seq<mpsc::Sender<GossipOut>>,
    /// This hub's own mark in gossip frames.
    pub self_hash: [u8; 16],
    pub gossip_mode: GossipMode,
    /// Queues and key packages are kept in a durable store too.
    pub durable: bool,
    /// What the durable store does not know yet.
    pub unsaved: Seq<OpModel>,
    /// What was offered to connections, in order.
    pub sent: Seq<SentModel>,
    /// What was offered to other hubs, in order.
    pub told: Seq<ToldModel>,
}

/// An envelope that was offered to a connection.
pub struct SentModel {
    pub to: mpsc::Sender<Vec<u8>>,
    pub payload: Seq<u8>,
    pub taken: bool,
}

/// The envelopes of a record.
pub open spec fn sent_of(offers: Seq<Offer<Vec<u8>>>) -> Seq<SentModel> {
    offers.map_values(
        |o: Offer<Vec<u8>>| SentModel { to: o.to, payload: o.message@, taken: o.taken() },
    )
}

/// A gossip frame that was offered to another hub.
pub struct ToldModel {
    pub to: mpsc::Sender<GossipOut>,
    pub kind: GossipKind,
    pub frame: GossipModel,
    pub taken: bool,
}

/// The gossip frames of a record.
pub open spec fn told_of(offers: Seq<Offer<GossipOut>>) -> Seq<ToldModel> {
    offers.map_values(
        |o: Offer<GossipOut>|
            ToldModel { to: o.to, kind: o.message@.0, frame: o.message@.1, taken: o.taken() },
    )
}

/// How many of these envelopes were taken.
pub open spec fn taken_of(offers: Seq<SentModel>) -> nat
    decreases offers.len(),
{
    if offers.len() == 0 {
        0
    } else {
        taken_of(offers.drop_last()) + if offers.last().taken {
            1nat
        } else {
            0nat
        }
    }
}

/// How many of these gossip frames were taken.
pub open spec fn told_taken(offers: Seq<ToldModel>) -> nat
    decreases offers.len(),
{
    if offers.len() == 0 {
        0
    } else {
        told_taken(offers.drop_last()) + if offers.last().taken {
            1nat
        } else {
            0nat
        }
    }
}

/// The hub with a change for the durable store noted, if there is one.
pub open spec fn noted(m: HubModel, op: OpModel) -> HubModel {
    if m.durable {
        HubModel { unsaved: m.unsaved.push(op), ..m }
    } else {
        m
    }
}

/// The subscribers of a routing id.
pub open spec fn subscribers_of(m: HubModel, id: RoutingId) -> Set<ConnId> {
    if m.subscribers.dom().contains(id) {
        m.subscribers[id]
    } else {
        Set::empty()
    }
}

/// The envelopes that wait for a routing id.
pub open spec fn queue_of(m: HubModel, id: RoutingId) -> Seq<Seq<u8>> {
    if m.queues.dom().contains(id) {
        m.queues[id]
    } else {
        Seq::empty()
    }
}

/// The open connections that want envelopes for a routing id.
pub open spec fn live_for(m: HubModel, id: RoutingId) -> Set<ConnId> {
    subscribers_of(m, id).intersect(m.conns)
}

/// The hub with one more envelope waiting.
pub open spec fn enqueued(m: HubModel, id: RoutingId, payload: Seq<u8>) -> HubModel {
    noted(
        HubModel { queues: m.queues.insert(id, queue_of(m, id).push(payload)), ..m },
        OpModel::Enqueue(id, payload),
    )
}

/// The hub after an envelope that `accepted` connections took: it waits where
/// none did.
pub open spec fn settled(m: HubModel, id: RoutingId, payload: Seq<u8>, accepted: nat) -> HubModel {
    if accepted == 0 {
        enqueued(m, id, payload)
    } else {
        m
    }
}

/// These offers are those of one envelope: it was offered to every open
/// connection that wants it, once, and to nobody else.
pub open spec fn offered_to(
    m: HubModel,
    id: RoutingId,
    payload: Seq<u8>,
    order: Seq<ConnId>,
    offers: Seq<SentModel>,
) -> bool {
    &&& order.no_duplicates()
    &&& order.to_set() == live_for(m, id)
    &&& offers.len() == order.len()
    &&& forall|i: int|
        0 <= i < offers.len() ==> (#[trigger] offers[i]).to == m.wires[order[i]]
            && offers[i].payload == payload
}

/// What delivering an envelope does: it is offered to whoever wants it, in some
/// order, `delivered` of them took it, and it waits where none did.
pub open spec fn is_delivery(
    before: HubModel,
    id: RoutingId,
    payload: Seq<u8>,
    delivered: nat,
    after: HubModel,
) -> bool {
    let offers = after.sent.skip(before.sent.len() as int);
    &&& exists|order: Seq<ConnId>| #[trigger] offered_to(before, id, payload, order, offers)
    &&& delivered == taken_of(offers)
    &&& delivered <= live_for(before, id).len()
    &&& after == settled(
        HubModel { sent: before.sent + offers, ..before },
        id,
        payload,
        delivered,
    )
}

/// The channels to the hubs that gossip goes to: all but the one it came from.
pub open spec fn gossip_wires(
    peers: Seq<[u8; 32]>,
    wires: Seq<mpsc::Sender<GossipOut>>,
    source: Option<[u8; 32]>,
) -> Seq<mpsc::Sender<GossipOut>>
    decreases peers.len(),
{
    if peers.len() == 0 {
        Seq::empty()
    } else if source == Some(peers.last()) {
        gossip_wires(peers.drop_last(), wires.drop_last(), source)
    } else {
        gossip_wires(peers.drop_last(), wires.drop_last(), source).push(wires.last())
    }
}

/// What telling the other hubs does: a frame with this hub's mark is offered to
/// each of them but the one it came from, in turn, and `accepted` of them took it.
pub open spec fn is_telling(
    before: HubModel,
    source: Option<[u8; 32]>,
    kind: GossipKind,
    frame: GossipModel,
    accepted: nat,
    after: HubModel,
) -> bool {
    let offers = after.told.skip(before.told.len() as int);
    let wires = gossip_wires(before.peers, before.peer_wires, source);
    &&& offers.len() == wires.len()
    &&& forall|i: int|
        0 <= i < offers.len() ==> (#[trigger] offers[i]).to == wires[i] && offers[i].kind == kind
            && offers[i].frame == frame
    &&& accepted == told_taken(offers)
    &&& accepted <= offers.len()
    &&& after == (HubModel { told: before.told + offers, ..before })
}

/// The frame with which a hub begins to tell the others of something.
pub open spec fn first_frame(m: HubModel, routing_id: RoutingId, body: Seq<u8>) -> GossipModel {
    GossipModel { ttl: GOSSIP_TTL_DEFAULT, seen_by: m.self_hash, routing_id, body }
}

/// What delivering an envelope of a client does: it is delivered here, and the
/// other hubs are told as the gossip mode says.
pub open spec fn is_client_delivery(
    before: HubModel,
    id: RoutingId,
    payload: Seq<u8>,
    delivered: nat,
    after: HubModel,
) -> bool {
    exists|mid: HubModel|
        {
            &&& #[trigger] is_delivery(before, id, payload, delivered, mid)
            &&& if passes_on(before.gossip_mode, delivered) {
                exists|accepted: nat| #[trigger]
                    is_telling(
                        mid,
                        None,
                        GossipKind::Deliver,
                        first_frame(before, id, payload),
                        accepted,
                        after,
                    )
            } else {
                after == mid
            }
        }
}

/// The hub with one more subscriber of a routing id, and nothing waiting for it.
pub open spec fn joined(m: HubModel, conn: ConnId, id: RoutingId) -> HubModel {
    HubModel {
        subscribers: m.subscribers.insert(id, subscribers_of(m, id).insert(conn)),
        queues: m.queues.remove(id),
        ..m
    }
}

/// The hub after a connection subscribed to one routing id: what waited for it
/// is gone.
pub open spec fn subscribed_one(m: HubModel, conn: ConnId, id: RoutingId) -> HubModel {
    let n = joined(m, conn, id);
    if m.queues.dom().contains(id) {
        noted(n, OpModel::Drain(id))
    } else {
        n
    }
}

/// The hub after a connection subscribed to some routing ids.
pub open spec fn subscribed(m: HubModel, conn: ConnId, ids: Seq<RoutingId>) -> HubModel
    decreases ids.len(),
{
    if ids.len() == 0 {
        m
    } else {
        subscribed_one(subscribed(m, conn, ids.drop_last()), conn, ids.last())
    }
}

/// What waited for some routing ids, in the order of the ids.
pub open spec fn drained(m: HubModel, conn: ConnId, ids: Seq<RoutingId>) -> Seq<Seq<u8>>
    decreases ids.len(),
{
    if ids.len() == 0 {
        Seq::empty()
    } else {
        drained(m, conn, ids.drop_last()) + queue_of(
            subscribed(m, conn, ids.drop_last()),
            ids.last(),
        )
    }
}

/// The hub without a connection and its subscriptions.
pub open spec fn without_conn(m: HubModel, conn: ConnId) -> HubModel {
    HubModel {
        conns: m.conns.remove(conn),
        wires: m.wires.remove(conn),
        subscribers: Map::new(
            |id: RoutingId|
                m.subscribers.dom().contains(id) && exists|c: ConnId|
                    c != conn && m.subscribers[id].contains(c),
            |id: RoutingId| m.subscribers[id].remove(conn),
        ),
        ..m
    }
}

/// The hub with a key package published.
pub open spec fn published(m: HubModel, id: RoutingId, kp: Seq<u8>) -> HubModel {
    noted(
        HubModel { keypackages: m.keypackages.insert(id, kp), ..m },
        OpModel::SetKeypackage(id, kp),
    )
}

/// The rate limit lets a frame of `key` pass at `now`.
pub open spec fn rate_allows(m: HubModel, key: RateKey, now: nat) -> bool {
    match m.limiter {
        Some(l) => has_token(bucket_for(l, key, now), now),
        None => true,
    }
}

/// The hub after a frame of `key` was counted at `now`.
pub open spec fn rate_counted(m: HubModel, key: RateKey, now: nat) -> HubModel {
    match m.limiter {
        Some(l) => HubModel { limiter: Some(limiter_after_frame(l, key, now)), ..m },
        None => m,
    }
}

/// Every subscription has a subscriber, every queue an envelope, and the
/// connections were all numbered in turn.
pub open spec fn hub_wf(m: HubModel) -> bool {
    &&& m.next_conn <= u64::MAX
    &&& forall|c: ConnId| #[trigger] m.conns.contains(c) ==> c < m.next_conn
    &&& m.conns.finite()
    &&& m.wires.dom() == m.conns
    &&& m.peer_wires.len() == m.peers.len()
    &&& forall|id: RoutingId|
        #![trigger m.subscribers[id]]
        m.subscribers.dom().contains(id) ==> m.subscribers[id].finite() && exists|c: ConnId|
            m.subscribers[id].contains(c)
    &&& forall|id: RoutingId|
        #![trigger m.queues[id]]
        m.queues.dom().contains(id) ==> m.queues[id].len() > 0
    &&& match m.limiter {
        Some(l) => limiter_wf(l),
        None => true,
    }
}

/// What a durable store kept of an earlier run.
#[derive(Debug)]
pub struct StoredState {
    pub keypackages: Vec<(RoutingId, Vec<u8>)>,
    pub queues: Vec<(RoutingId, Vec<Vec<u8>>)>,
}

/// The directory that stored key packages make up; of two for one id the later
/// counts.
pub open spec fn stored_directory(rows: Seq<(RoutingId, Vec<u8>)>) -> Map<RoutingId, Seq<u8>>
    decreases rows.len(),
{
    if rows.len() == 0 {
        Map::empty()
    } else {
        stored_directory(rows.drop_last()).insert(rows.last().0, rows.last().1@)
    }
}

/// The queues that stored envelopes make up; of two for one id the later counts.
pub open spec fn stored_queues(rows: Seq<(RoutingId, Vec<Vec<u8>>)>) -> Map<
    RoutingId,
    Seq<Seq<u8>>,
>
    decreases rows.len(),
{
    if rows.len() == 0 {
        Map::empty()
    } else {
        stored_queues(rows.drop_last()).insert(rows.last().0, rows_of(rows.last().1@))
    }
}

/// A hub that has nothing yet.
pub open spec fn empty_hub() -> HubModel {
    HubModel {
        next_conn: 0,
        conns: Set::empty(),
        wires: Map::empty(),
        subscribers: Map::empty(),
        queues: Map::empty(),
        keypackages: Map::empty(),
        limiter: None,
        peers: Seq::empty(),
        peer_wires: Seq::empty(),
        self_hash: vstd::array::spec_array_fill_for_copy_type::<u8, 16>(0u8),
        gossip_mode: GossipMode::Lazy,
        durable: false,
        unsaved: Seq::empty(),
        sent: Seq::empty(),
        told: Seq::empty(),
    }
}

/// The hub that starts with what a durable store kept.
pub open spec fn started(stored: StoredState) -> HubModel {
    HubModel {
        keypackages: stored_directory(stored.keypackages@),
        queues: stored_queues(stored.queues@),
        durable: true,
        ..empty_hub()
    }
}

/// A channel to another hub.
#[derive(Debug)]
pub struct PeerOutlet {
    pub key: [u8; 32],
    pub tx: mpsc::Sender<GossipOut>,
}

/// Where a channel to the hub with this key stands.
pub open spec fn outlet_at(outlets: Seq<PeerOutlet>, key: [u8; 32], from: int) -> Option<int>
    decreases outlets.len() - from,
{
    if from < 0 || from >= outlets.len() {
        None
    } else if outlets[from].key == key {
        Some(from)
    } else {
        outlet_at(outlets, key, from + 1)
    }
}

/// No hub has two channels.
pub open spec fn one_each(outlets: Seq<PeerOutlet>) -> bool {
    forall|i: int, j: int|
        #![trigger outlets[i], outlets[j]]
        0 <= i < j < outlets.len() ==> outlets[i].key != outlets[j].key
}

/// Add a channel to another hub, in place of an earlier one to the same hub.
pub fn add_outlet(outlets: &mut Vec<PeerOutlet>, outlet: PeerOutlet)
    ensures
        final(outlets)@ == match outlet_at(old(outlets)@, outlet.key, 0) {
            Some(i) => old(outlets)@.update(i, outlet),
            None => old(outlets)@.push(outlet),
        },
        one_each(old(outlets)@) ==> one_each(final(outlets)@),
{
    let ghost before = outlets@;
    let mut i: usize = 0;
    while i < outlets.len()
        invariant
            i <= outlets@.len(),
            outlets@ == before,
            before == old(outlets)@,
            outlet_at(before, outlet.key, 0) == outlet_at(before, outlet.key, i as int),
            forall|j: int| 0 <= j < i ==> (#[trigger] before[j]).key != outlet.key,
        decreases outlets@.len() - i,
    {
        if same_array(&outlets[i].key, &outlet.key) {
            outlets[i] = outlet;
            return ;
        }
        i += 1;
    }
    outlets.push(outlet);
}

/// What a hub holds in memory.
pub struct HubState {
    next_conn_id: ConnId,
    senders: ListMap<ConnId, mpsc::Sender<Vec<u8>>>,
    subscribers: ListMap<RoutingId, Vec<ConnId>>,
    queues: ListMap<RoutingId, Vec<Vec<u8>>>,
    keypackages: ListMap<RoutingId, Vec<u8>>,
    rate_limiter: Option<RateLimiter>,
    peers: Vec<PeerOutlet>,
    self_hub_hash: [u8; 16],
    gossip_mode: GossipMode,
    durable: bool,
    unsaved: Vec<StoreOp>,
    sent: Record<Offer<Vec<u8>>>,
    told: Record<Offer<GossipOut>>,
}

impl View for HubState {
    type V = HubModel;

    closed spec fn view(&self) -> HubModel {
        HubModel {
            next_conn: self.next_conn_id as nat,
            conns: self.senders@.dom(),
            wires: self.senders@,
            subscribers: self.subscribers@.map_values(|v: Vec<ConnId>| v@.to_set()),
            queues: self.queues@.map_values(|q: Vec<Vec<u8>>| rows_of(q@)),
            keypackages: self.keypackages@.map_values(|k: Vec<u8>| k@),
            limiter: match self.rate_limiter {
                Some(l) => Some(l@),
                None => None,
            },
            peers: self.peers@.map_values(|p: PeerOutlet| p.key),
            peer_wires: self.peers@.map_values(|p: PeerOutlet| p.tx),
            self_hash: self.self_hub_hash,
            gossip_mode: self.gossip_mode,
            durable: self.durable,
            unsaved: ops_of(self.unsaved@),
            sent: sent_of(self.sent@),
            told: told_of(self.told@),
        }
    }
}

impl HubState {
    /// The lists behind the maps are in order.
    pub closed spec fn tables_wf(&self) -> bool {
        &&& self.senders.wf()
        &&& self.subscribers.wf()
        &&& self.queues.wf()
        &&& self.keypackages.wf()
        &&& forall|id: RoutingId|
            #![trigger self.subscribers@[id]]
            self.subscribers@.dom().contains(id) ==> self.subscribers@[id]@.no_duplicates()
        &&& match self.rate_limiter {
            Some(l) => l.wf(),
            None => true,
        }
    }

    pub open spec fn wf(&self) -> bool {
        &&& self.tables_wf()
        &&& hub_wf(self@)
    }

    /// A hub that keeps its state in memory only.
    pub fn new() -> (s: Self)
        ensures
            s.wf(),
            s@ == empty_hub(),
    {
        let s = HubState {
            next_conn_id: 0,
            senders: ListMap::new(),
            subscribers: ListMap::new(),
            queues: ListMap::new(),
            keypackages: ListMap::new(),
            rate_limiter: None,
            peers: Vec::new(),
            self_hub_hash: [0u8;16],
            gossip_mode: GossipMode::Lazy,
            durable: false,
            unsaved: Vec::new(),
            sent: Record::new(),
            told: Record::new(),
        };
        proof {
            assert(s@.unsaved =~= Seq::<OpModel>::empty());
            assert(s@.sent =~= Seq::<SentModel>::empty());
            assert(s@.told =~= Seq::<ToldModel>::empty());
            assert(s@.peer_wires =~= Seq::<mpsc::Sender<GossipOut>>::empty());
            assert(s@ =~= empty_hub());
        }
        s
    }

    /// A hub that starts with what an earlier run left in a durable store.
    pub fn with_store(stored: StoredState) -> (s: Self)
        requires
            forall|i: int|
                0 <= i < stored.queues@.len() ==> (#[trigger] stored.queues@[i]).1@.len() > 0,
        ensures
            s.wf(),
            s@ == started(stored),
    {
        let mut s = HubState::new();
        let mut i: usize = 0;
        proof {
            assert(stored.keypackages@.take(0) =~= Seq::<(RoutingId, Vec<u8>)>::empty());
        }
        while i < stored.keypackages.len()
            invariant
                i <= stored.keypackages@.len(),
                s.wf(),
                s@ == (HubModel {
                    keypackages: stored_directory(stored.keypackages@.take(i as int)),
                    ..empty_hub()
                }),
            decreases stored.keypackages@.len() - i,
        {
            let row = &stored.keypackages[i];
            proof {
                assert(stored.keypackages@.take(i + 1).drop_last() =~= stored.keypackages@.take(
                    i as int,
                ));
            }
            s.publish_keypackage(row.0, copy_bytes(row.1.as_slice()));
            i += 1;
        }
        let ghost directory = stored_directory(stored.keypackages@);
        let mut j: usize = 0;
        proof {
            assert(stored.keypackages@.take(i as int) =~= stored.keypackages@);
            assert(stored.queues@.take(0) =~= Seq::<(RoutingId, Vec<Vec<u8>>)>::empty());
        }
        while j < stored.queues.len()
            invariant
                j <= stored.queues@.len(),
                s.wf(),
                forall|i: int|
                    0 <= i < stored.queues@.len() ==> (#[trigger] stored.queues@[i]).1@.len() > 0,
                s@ == (HubModel {
                    keypackages: directory,
                    queues: stored_queues(stored.queues@.take(j as int)),
                    ..empty_hub()
                }),
            decreases stored.queues@.len() - j,
        {
            let row = &stored.queues[j];
            let ghost before = s@;
            proof {
                assert(stored.queues@[j as int].1@.len() > 0);
                assert(stored.queues@.take(j + 1).drop_last() =~= stored.queues@.take(j as int));
            }
            s.queues.insert(row.0, copy_rows(&row.1));
            proof {
                assert(s@.queues =~= before.queues.insert(row.0, rows_of(row.1@)));
                assert(s@ =~= HubModel {
                    queues: before.queues.insert(row.0, rows_of(row.1@)),
                    ..before
                });
                assert forall|id: RoutingId| #![trigger s@.queues[id]] s@.queues.dom().contains(
                    id,
                ) implies s@.queues[id].len() > 0 by {
                    if id != row.0 {
                        assert(before.queues[id].len() > 0);
                    }
                }
            }
            j += 1;
        }
        let ghost before = s@;
        s.durable = true;
        proof {
            assert(stored.queues@.take(j as int) =~= stored.queues@);
            assert(s@ =~= HubModel { durable: true, ..before });
        }
        s
    }

    /// Note a change for the durable store, if there is one.
    fn note(&mut self, op: StoreOp)
        requires
            old(self).wf(),
        ensures
            final(self).wf(),
            final(self)@ == noted(old(self)@, op@),
    {
        if self.durable {
            let ghost before = self@;
            let ghost o = op@;
            self.unsaved.push(op);
            proof {
                assert(self@.unsaved =~= before.unsaved.push(o));
                assert(self@ =~= noted(before, o));
            }
        }
    }

    /// Take out what is to be written to the durable store, in order.
    pub fn take_store_ops(&mut self) -> (ops: Vec<StoreOp>)
        requires
            old(self).wf(),
        ensures
            final(self).wf(),
            ops_of(ops@) == old(self)@.unsaved,
            final(self)@ == (HubModel { unsaved: Seq::empty(), ..old(self)@ }),
    {
        let ghost before = self@;
        let mut ops: Vec<StoreOp> = Vec::new();
        std::mem::swap(&mut ops, &mut self.unsaved);
        proof {
            assert(self@.unsaved =~= Seq::<OpModel>::empty());
            assert(self@ =~= HubModel { unsaved: Seq::empty(), ..before });
        }
        ops
    }

    /// The same hub with a rate limit of so many frames a minute for each
    /// identity.
    pub fn with_rate_limit(self, frames_per_minute: u32) -> (s: Self)
        requires
            self.wf(),
        ensures
            s.wf(),
            s@.limiter matches Some(l) && l == (LimiterModel {
                buckets: Map::empty(),
                frames_per_minute: frames_per_minute as nat,
                clock: l.clock,
            }) && just_started(l.clock),
            s@ == (HubModel { limiter: s@.limiter, ..self@ }),
    {
        let ghost before = self@;
        let mut s = self;
        s.rate_limiter = Some(RateLimiter::with_frames_per_minute(frames_per_minute));
        proof {
            assert(s@ =~= HubModel { limiter: s@.limiter, ..before });
            assert(s.tables_wf());
            assert(limiter_wf(s@.limiter->0));
            assert(s@.subscribers == before.subscribers);
            assert(s@.queues == before.queues);
            assert(hub_wf(before));
            assert(hub_wf(s@));
        }
        s
    }

    /// Count a frame of an identity; `false` says to drop it. Without a rate
    /// limit every frame passes.
    pub fn check_rate(&mut self, key: &RateKey, now: u64) -> (pass: bool)
        requires
            old(self).wf(),
        ensures
            final(self).wf(),
            pass == rate_allows(old(self)@, *key, now as nat),
            final(self)@ == rate_counted(old(self)@, *key, now as nat),
    {
        let ghost before = self@;
        let mut limiter: Option<RateLimiter> = None;
        std::mem::swap(&mut limiter, &mut self.rate_limiter);
        match limiter {
            Some(mut l) => {
                let pass = l.check_at(*key, now);
                self.rate_limiter = Some(l);
                proof {
                    assert(self@ =~= rate_counted(before, *key, now as nat));
                }
                pass
            },
            None => {
                proof {
                    assert(self@ =~= before);
                }
                true
            },
        }
    }

    /// Store the key package of a routing id in place of an earlier one.
    pub fn publish_keypackage(&mut self, routing_id: RoutingId, bytes: Vec<u8>)
        requires
            old(self).wf(),
        ensures
            final(self).wf(),
            final(self)@ == published(old(self)@, routing_id, bytes@),
    {
        let ghost before = self@;
        let ghost kp = bytes@;
        let copy = copy_bytes(bytes.as_slice());
        self.keypackages.insert(routing_id, bytes);
        proof {
            assert(self@.keypackages =~= before.keypackages.insert(routing_id, kp));
            assert(self@ =~= HubModel {
                keypackages: before.keypackages.insert(routing_id, kp),
                ..before
            });
        }
        self.note(StoreOp::SetKeypackage { routing_id, kp: copy });
    }

    /// The latest key package of a routing id.
    pub fn fetch_keypackage(&self, routing_id: &RoutingId) -> (r: Option<Vec<u8>>)
        requires
            self.wf(),
        ensures
            match r {
                Some(kp) => self@.keypackages.dom().contains(*routing_id)
                    && self@.keypackages[*routing_id] == kp@,
                None => !self@.keypackages.dom().contains(*routing_id),
            },
    {
        match self.keypackages.get(routing_id) {
            Some(kp) => Some(copy_bytes(kp.as_slice())),
            None => None,
        }
    }

    /// How many routing ids have a key package.
    pub fn keypackage_count(&self) -> (n: usize)
        requires
            self.wf(),
        ensures
            n == self@.keypackages.dom().len(),
    {
        assert(self@.keypackages.dom() =~= self.keypackages@.dom());
        self.keypackages.len()
    }

    /// How many connections want envelopes for a routing id.
    pub fn subscriber_count(&self, id: &RoutingId) -> (n: usize)
        requires
            self.wf(),
        ensures
            n == subscribers_of(self@, *id).len(),
    {
        match self.subscribers.get(id) {
            Some(v) => {
                proof {
                    v@.unique_seq_to_set();
                }
                v.len()
            },
            None => 0,
        }
    }

    /// How many envelopes wait for a routing id.
    pub fn queue_len(&self, id: &RoutingId) -> (n: usize)
        requires
            self.wf(),
        ensures
            n == queue_of(self@, *id).len(),
    {
        match self.queues.get(id) {
            Some(q) => q.len(),
            None => 0,
        }
    }

    /// How many connections are open.
    pub fn connection_count(&self) -> (n: usize)
        requires
            self.wf(),
        ensures
            n == self@.conns.len(),
    {
        self.senders.len()
    }

    /// Take up a new connection; envelopes for it go to `sender`.
    pub fn register_conn(&mut self, sender: mpsc::Sender<Vec<u8>>) -> (id: ConnId)
        requires
            old(self).wf(),
            old(self)@.next_conn < u64::MAX,
        ensures
            final(self).wf(),
            id == old(self)@.next_conn,
            !old(self)@.conns.contains(id),
            final(self)@ == (HubModel {
                next_conn: old(self)@.next_conn + 1,
                conns: old(self)@.conns.insert(id),
                wires: old(self)@.wires.insert(id, sender),
                ..old(self)@
            }),
    {
        let ghost before = self@;
        let id: ConnId = self.next_conn_id;
        self.next_conn_id = id + 1;
        self.senders.insert(id, sender);
        proof {
            assert(!before.conns.contains(id));
            assert(self@.conns =~= before.conns.insert(id));
            assert(self@ =~= HubModel {
                next_conn: before.next_conn + 1,
                conns: before.conns.insert(id),
                wires: before.wires.insert(id, sender),
                ..before
            });
        }
        id
    }

    /// Subscribe a connection to routing ids and hand out what waited for them.
    pub fn subscribe(&mut self, conn: ConnId, ids: &[RoutingId]) -> (out: Vec<Vec<u8>>)
        requires
            old(self).wf(),
        ensures
            final(self).wf(),
            final(self)@ == subscribed(old(self)@, conn, ids@),
            rows_of(out@) == drained(old(self)@, conn, ids@),
    {
        let ghost first = self@;
        let mut out: Vec<Vec<u8>> = Vec::new();
        let mut i: usize = 0;
        proof {
            assert(ids@.take(0) =~= Seq::<RoutingId>::empty());
            assert(rows_of(out@) =~= Seq::<Seq<u8>>::empty());
        }
        while i < ids.len()
            invariant
                i <= ids@.len(),
                self.wf(),
                self@ == subscribed(first, conn, ids@.take(i as int)),
                rows_of(out@) == drained(first, conn, ids@.take(i as int)),
            decreases ids@.len() - i,
        {
            proof {
                assert(ids@.take(i + 1).drop_last() =~= ids@.take(i as int));
                assert(ids@.take(i + 1).last() == ids@[i as int]);
            }
            let ghost got = rows_of(out@);
            let mut waiting = self.subscribe_one(conn, &ids[i]);
            let ghost more = rows_of(waiting@);
            out.append(&mut waiting);
            proof {
                assert(rows_of(out@) =~= got + more);
            }
            i += 1;
        }
        proof {
            assert(ids@.take(i as int) =~= ids@);
        }
        out
    }

    /// Subscribe a connection to one routing id and hand out what waited for it.
    fn subscribe_one(&mut self, conn: ConnId, id: &RoutingId) -> (waiting: Vec<Vec<u8>>)
        requires
            old(self).wf(),
        ensures
            final(self).wf(),
            final(self)@ == subscribed_one(old(self)@, conn, *id),
            rows_of(waiting@) == queue_of(old(self)@, *id),
    {
        let ghost before = self@;
        let ghost table = self.subscribers@;
        let mut subs: Vec<ConnId> = match self.subscribers.remove(id) {
            Some(v) => v,
            None => Vec::new(),
        };
        let ghost had = subs@;
        proof {
            assert(had.no_duplicates());
            assert(had.to_set() =~= subscribers_of(before, *id));
        }
        if !holds(&subs, conn) {
            subs.push(conn);
            proof {
                assert(!had.contains(conn));
                lemma_push_set(had, conn);
            }
        } else {
            proof {
                assert(had.to_set().insert(conn) =~= had.to_set());
            }
        }
        let ghost now = subs@;
        self.subscribers.insert(*id, subs);
        let queued = self.queues.contains(id);
        let waiting = match self.queues.remove(id) {
            Some(q) => q,
            None => Vec::new(),
        };
        proof {
            assert(now.to_set() =~= subscribers_of(before, *id).insert(conn));
            assert(self.subscribers@ =~= table.insert(*id, self.subscribers@[*id]));
            assert(self@.subscribers =~= before.subscribers.insert(*id, now.to_set()));
            assert(self@.queues =~= before.queues.remove(*id));
            assert(self@ =~= joined(before, conn, *id));
            assert(rows_of(waiting@) =~= queue_of(before, *id));
            assert(now.to_set().contains(conn)) by {
                assert(subscribers_of(before, *id).insert(conn).contains(conn));
            }
            lemma_joined_wf(before, conn, *id);
            assert forall|k: RoutingId|
                #![trigger self.subscribers@[k]]
                self.subscribers@.dom().contains(
                    k,
                ) implies self.subscribers@[k]@.no_duplicates() by {
                if k != *id {
                    assert(table.dom().contains(k));
                    assert(table[k] == self.subscribers@[k]);
                }
            }
        }
        if queued {
            self.note(StoreOp::Drain { routing_id: *id });
        }
        waiting
    }

    /// The open connections that want envelopes for a routing id, each once.
    pub fn live_targets(&self, target: &RoutingId) -> (r: Vec<ConnId>)
        requires
            self.wf(),
        ensures
            r@.no_duplicates(),
            r@.to_set() == live_for(self@, *target),
            r@.len() == live_for(self@, *target).len(),
    {
        let mut out: Vec<ConnId> = Vec::new();
        match self.subscribers.get(target) {
            None => {
                proof {
                    assert(out@.to_set() =~= live_for(self@, *target));
                    out@.unique_seq_to_set();
                }
                out
            },
            Some(subs) => {
                let mut i: usize = 0;
                proof {
                    assert(self.subscribers@[*target]@.no_duplicates());
                    assert(subs@.take(0).to_set().intersect(self@.conns) =~= out@.to_set());
                }
                while i < subs.len()
                    invariant
                        i <= subs@.len(),
                        self.wf(),
                        subs@.no_duplicates(),
                        out@.no_duplicates(),
                        out@.to_set() == subs@.take(i as int).to_set().intersect(self@.conns),
                    decreases subs@.len() - i,
                {
                    let c: ConnId = subs[i];
                    let ghost before = out@;
                    proof {
                        assert(subs@.take(i + 1) =~= subs@.take(i as int).push(c));
                        lemma_push_set(subs@.take(i as int), c);
                        assert(!subs@.take(i as int).contains(c));
                        assert(!before.to_set().contains(c));
                    }
                    if self.senders.contains(&c) {
                        out.push(c);
                        proof {
                            lemma_push_set(before, c);
                            assert(!before.contains(c));
                        }
                    }
                    proof {
                        assert(out@.to_set() =~= subs@.take(i + 1).to_set().intersect(self@.conns));
                    }
                    i += 1;
                }
                proof {
                    assert(subs@.take(i as int) =~= subs@);
                    out@.unique_seq_to_set();
                }
                out
            },
        }
    }

    /// Take note that `accepted` connections took an envelope: where none did,
    /// it waits for the next subscriber.
    pub fn settle_delivery(&mut self, target: RoutingId, payload: Vec<u8>, accepted: usize)
        requires
            old(self).wf(),
        ensures
            final(self).wf(),
            final(self)@ == settled(old(self)@, target, payload@, accepted as nat),
    {
        if accepted == 0 {
            let ghost before = self@;
            let ghost row = payload@;
            let mut q: Vec<Vec<u8>> = match self.queues.remove(&target) {
                Some(q) => q,
                None => Vec::new(),
            };
            let ghost had = rows_of(q@);
            proof {
                assert(had =~= queue_of(before, target));
            }
            let copy = copy_bytes(payload.as_slice());
            q.push(payload);
            let ghost now = q@;
            self.queues.insert(target, q);
            proof {
                assert(rows_of(now) =~= had.push(row));
                assert(self@.queues =~= before.queues.insert(target, had.push(row)));
                assert(self@ =~= HubModel {
                    queues: before.queues.insert(target, had.push(row)),
                    ..before
                });
                assert forall|id: RoutingId|
                    #![trigger self@.queues[id]]
                    self@.queues.dom().contains(id) implies self@.queues[id].len() > 0 by {
                    if id != target {
                        assert(before.queues[id].len() > 0);
                    }
                }
            }
            self.note(StoreOp::Enqueue { routing_id: target, payload: copy });
        }
    }

    /// Deliver an envelope: offer it to every open connection that wants it, and
    /// keep it for later where none takes it. Returns how many took it. A
    /// connection takes an envelope while its mailbox has room.
    pub fn deliver(&mut self, target: RoutingId, payload: Vec<u8>) -> (delivered: usize)
        requires
            old(self).wf(),
        ensures
            final(self).wf(),
            is_delivery(old(self)@, target, payload@, delivered as nat, final(self)@),
    {
        let targets = self.live_targets(&target);
        let ghost before = self@;
        let ghost mut offers: Seq<SentModel> = Seq::empty();
        let mut delivered: usize = 0;
        let mut i: usize = 0;
        proof {
            assert(before.sent + offers =~= before.sent);
        }
        while i < targets.len()
            invariant
                i <= targets@.len(),
                delivered <= i,
                hub_wf(before),
                self.tables_wf(),
                targets@.to_set() == live_for(before, target),
                offers.len() == i,
                forall|j: int|
                    0 <= j < offers.len() ==> (#[trigger] offers[j]).to == before.wires[targets@[j]]
                        && offers[j].payload == payload@,
                delivered == taken_of(offers),
                self@ == (HubModel { sent: before.sent + offers, ..before }),
            decreases targets@.len() - i,
        {
            let ghost sent = self.sent@;
            let ghost tables = *self;
            proof {
                assert(targets@.to_set().contains(targets@[i as int]));
                assert(before.wires.dom().contains(targets@[i as int]));
            }
            if let Some(tx) = self.senders.get(&targets[i]) {
                let copy = copy_bytes(payload.as_slice());
                let ghost copied = copy;
                let r = try_push(&mut self.sent, tx, copy);
                if r.is_ok() {
                    delivered += 1;
                }
                proof {
                    let offer = Offer { to: before.wires[targets@[i as int]], message: copied, outcome: r };
                    let one = SentModel { to: offer.to, payload: payload@, taken: offer.taken() };
                    assert(self.sent@ == sent.push(offer));
                    assert(sent_of(self.sent@) =~= sent_of(sent).push(one));
                    assert(before.sent + offers.push(one) =~= (before.sent + offers).push(one));
                    assert(offers.push(one).drop_last() =~= offers);
                    offers = offers.push(one);
                    assert(self@ =~= HubModel { sent: before.sent + offers, ..before });
                }
            }
            i += 1;
        }
        let ghost mid = self@;
        let ghost row = payload@;
        proof {
            assert(mid.sent.skip(before.sent.len() as int) =~= offers);
            assert(hub_wf(mid));
        }
        self.settle_delivery(target, payload, delivered);
        proof {
            assert(self@.sent == mid.sent);
            assert(offered_to(before, target, row, targets@, offers));
        }
        delivered
    }

    /// Drop a connection and all its subscriptions.
    pub fn unregister_conn(&mut self, conn: ConnId)
        requires
            old(self).wf(),
        ensures
            final(self).wf(),
            final(self)@ == without_conn(old(self)@, conn),
    {
        let ghost before = self@;
        let _ = self.senders.remove(&conn);
        let kept = subscriptions_without(&self.subscribers, conn);
        proof {
            let model = kept@.map_values(|v: Vec<ConnId>| v@.to_set());
            let want = without_conn(before, conn).subscribers;
            assert forall|id: RoutingId| model.dom().contains(id) == want.dom().contains(id) by {
                if self.subscribers@.dom().contains(id) {
                    assert(before.subscribers[id] == self.subscribers@[id]@.to_set());
                }
            }
            assert forall|id: RoutingId| model.dom().contains(id) implies model[id] == want[id] by {
                assert(before.subscribers[id] == self.subscribers@[id]@.to_set());
            }
            assert(model =~= want);
        }
        self.subscribers = kept;
        proof {
            assert(self@.conns =~= before.conns.remove(conn));
            assert(self@ =~= without_conn(before, conn));
            assert forall|id: RoutingId|
                #![trigger self@.subscribers[id]]
                self@.subscribers.dom().contains(id) implies self@.subscribers[id].finite()
                && exists|c: ConnId| self@.subscribers[id].contains(c) by {
                assert(before.subscribers[id].finite());
                let c = choose|c: ConnId| c != conn && before.subscribers[id].contains(c);
                assert(self@.subscribers[id].contains(c));
            }
        }
    }

    /// Drop the bucket of an identity if it is full.
    pub fn forget_rate_if_full(&mut self, key: &RateKey, now: u64)
        requires
            old(self).wf(),
        ensures
            final(self).wf(),
            final(self)@ == (HubModel {
                limiter: match old(self)@.limiter {
                    Some(l) => Some(limiter_forgetting(l, *key, now as nat)),
                    None => None,
                },
                ..old(self)@
            }),
    {
        let ghost before = self@;
        let mut limiter: Option<RateLimiter> = None;
        std::mem::swap(&mut limiter, &mut self.rate_limiter);
        match limiter {
            Some(mut l) => {
                l.forget_if_full_at(key, now);
                self.rate_limiter = Some(l);
            },
            None => {},
        }
        proof {
            assert(self@ =~= HubModel { limiter: self@.limiter, ..before });
            assert(self.tables_wf());
            assert(hub_wf(self@));
        }
    }

    /// Drop every bucket that is full.
    pub fn evict_full_rates(&mut self, now: u64)
        requires
            old(self).wf(),
        ensures
            final(self).wf(),
            final(self)@ == (HubModel {
                limiter: match old(self)@.limiter {
                    Some(l) => Some(limiter_evicted(l, now as nat)),
                    None => None,
                },
                ..old(self)@
            }),
    {
        let ghost before = self@;
        let mut limiter: Option<RateLimiter> = None;
        std::mem::swap(&mut limiter, &mut self.rate_limiter);
        match limiter {
            Some(mut l) => {
                let _ = l.evict_full_at(now);
                self.rate_limiter = Some(l);
            },
            None => {},
        }
        proof {
            assert(self@ =~= HubModel { limiter: self@.limiter, ..before });
            assert(self.tables_wf());
            assert(hub_wf(self@));
        }
    }

    /// Set the channels to the hubs to gossip with; none means no gossip.
    pub fn set_peer_outbounds(&mut self, peers: Vec<PeerOutlet>)
        requires
            old(self).wf(),
        ensures
            final(self).wf(),
            final(self)@ == (HubModel {
                peers: peers@.map_values(|p: PeerOutlet| p.key),
                peer_wires: peers@.map_values(|p: PeerOutlet| p.tx),
                ..old(self)@
            }),
    {
        let ghost before = self@;
        let ghost keys = peers@.map_values(|p: PeerOutlet| p.key);
        let ghost wires = peers@.map_values(|p: PeerOutlet| p.tx);
        self.peers = peers;
        proof {
            assert(self@ =~= HubModel { peers: keys, peer_wires: wires, ..before });
        }
    }

    /// Set this hub's own mark in gossip frames.
    pub fn set_self_hub_hash(&mut self, hash: [u8; 16])
        requires
            old(self).wf(),
        ensures
            final(self).wf(),
            final(self)@ == (HubModel { self_hash: hash, ..old(self)@ }),
    {
        let ghost before = self@;
        self.self_hub_hash = hash;
        proof {
            assert(self@ =~= HubModel { self_hash: hash, ..before });
        }
    }

    /// Set when envelopes are passed on to other hubs.
    pub fn set_gossip_mode(&mut self, mode: GossipMode)
        requires
            old(self).wf(),
        ensures
            final(self).wf(),
            final(self)@ == (HubModel { gossip_mode: mode, ..old(self)@ }),
    {
        let ghost before = self@;
        self.gossip_mode = mode;
        proof {
            assert(self@ =~= HubModel { gossip_mode: mode, ..before });
        }
    }

    pub fn gossip_mode(&self) -> (mode: GossipMode)
        ensures
            mode == self@.gossip_mode,
    {
        self.gossip_mode
    }

    pub fn self_hub_hash(&self) -> (hash: [u8; 16])
        ensures
            hash == self@.self_hash,
    {
        self.self_hub_hash
    }

    /// Whether a session with this key is a hub's.
    pub fn is_peer_hub(&self, key: &[u8; 32]) -> (r: bool)
        ensures
            r == self@.peers.contains(*key),
    {
        let mut i: usize = 0;
        while i < self.peers.len()
            invariant
                i <= self.peers@.len(),
                forall|j: int| 0 <= j < i ==> #[trigger] self@.peers[j] != *key,
            decreases self.peers@.len() - i,
        {
            if same_array(&self.peers[i].key, key) {
                assert(self@.peers[i as int] == *key);
                return true;
            }
            i += 1;
        }
        false
    }

    /// A hub's mark in gossip frames: the 16-byte BLAKE2b digest of its key.
    pub fn hub_pubkey_to_hash(pubkey_bytes: &[u8; 32]) -> (hash: [u8; 16])
        ensures
            hash@ == blake2b_16(pubkey_bytes@),
    {
        blake2b_128(pubkey_bytes.as_slice())
    }

    /// A gossip frame with this hub's mark on it.
    pub fn gossip_frame(
        &self,
        kind: GossipKind,
        ttl: u8,
        routing_id: RoutingId,
        body: &[u8],
    ) -> (out: GossipOut)
        ensures
            out@ == (
                kind,
                (GossipModel { ttl, seen_by: self@.self_hash, routing_id, body: body@ }),
            ),
    {
        GossipOut {
            kind,
            frame: GossipFrame {
                ttl,
                seen_by: self.self_hub_hash,
                routing_id,
                body: copy_bytes(body),
            },
        }
    }

    /// The positions of the hubs that gossip goes to: all but the one it came
    /// from.
    pub fn gossip_targets(&self, source: Option<[u8; 32]>) -> (r: Vec<usize>)
        requires
            self.wf(),
        ensures
            r@.len() == gossip_wires(self@.peers, self@.peer_wires, source).len(),
            forall|j: int|
                0 <= j < r@.len() ==> (#[trigger] r@[j]) < self@.peers.len()
                    && self@.peer_wires[r@[j] as int] == gossip_wires(
                    self@.peers,
                    self@.peer_wires,
                    source,
                )[j] && source != Some(self@.peers[r@[j] as int]),
    {
        let mut out: Vec<usize> = Vec::new();
        let mut i: usize = 0;
        while i < self.peers.len()
            invariant
                i <= self.peers@.len(),
                out@.len() == gossip_wires(
                    self@.peers.take(i as int),
                    self@.peer_wires.take(i as int),
                    source,
                ).len(),
                forall|j: int|
                    0 <= j < out@.len() ==> (#[trigger] out@[j]) < self@.peers.len()
                        && self@.peer_wires[out@[j] as int] == gossip_wires(
                        self@.peers.take(i as int),
                        self@.peer_wires.take(i as int),
                        source,
                    )[j] && source != Some(self@.peers[out@[j] as int]),
            decreases self.peers@.len() - i,
        {
            let skip = match source {
                Some(k) => same_array(&self.peers[i].key, &k),
                None => false,
            };
            proof {
                assert(self@.peers.take(i + 1).drop_last() =~= self@.peers.take(i as int));
                assert(self@.peers.take(i + 1).last() == self.peers@[i as int].key);
                assert(self@.peer_wires.take(i + 1).drop_last() =~= self@.peer_wires.take(
                    i as int,
                ));
                assert(self@.peer_wires.take(i + 1).last() == self.peers@[i as int].tx);
            }
            if !skip {
                out.push(i);
            }
            i += 1;
        }
        proof {
            assert(self@.peers.take(i as int) =~= self@.peers);
            assert(self@.peer_wires.take(i as int) =~= self@.peer_wires);
        }
        out
    }

    /// Offer a gossip frame to every hub but the one it came from. Returns how
    /// many took it; a hub takes a frame while its mailbox has room.
    pub fn fan_out(
        &mut self,
        source: Option<[u8; 32]>,
        kind: GossipKind,
        ttl: u8,
        routing_id: RoutingId,
        body: &[u8],
    ) -> (accepted: usize)
        requires
            old(self).wf(),
        ensures
            final(self).wf(),
            is_telling(
                old(self)@,
                source,
                kind,
                (GossipModel { ttl, seen_by: old(self)@.self_hash, routing_id, body: body@ }),
                accepted as nat,
                final(self)@,
            ),
    {
        let targets = self.gossip_targets(source);
        let ghost before = self@;
        let ghost wires = gossip_wires(before.peers, before.peer_wires, source);
        let ghost frame = GossipModel {
            ttl,
            seen_by: before.self_hash,
            routing_id,
            body: body@,
        };
        let ghost mut offers: Seq<ToldModel> = Seq::empty();
        let mut accepted: usize = 0;
        let mut i: usize = 0;
        proof {
            assert(before.told + offers =~= before.told);
        }
        while i < targets.len()
            invariant
                i <= targets@.len(),
                accepted <= i,
                hub_wf(before),
                self.tables_wf(),
                frame == (GossipModel {
                    ttl,
                    seen_by: before.self_hash,
                    routing_id,
                    body: body@,
                }),
                wires.len() == targets@.len(),
                forall|j: int|
                    0 <= j < targets@.len() ==> (#[trigger] targets@[j]) < before.peers.len()
                        && before.peer_wires[targets@[j] as int] == wires[j],
                offers.len() == i,
                forall|j: int|
                    0 <= j < offers.len() ==> (#[trigger] offers[j]).to == wires[j]
                        && offers[j].kind == kind && offers[j].frame == frame,
                accepted == told_taken(offers),
                self@ == (HubModel { told: before.told + offers, ..before }),
            decreases targets@.len() - i,
        {
            let out = self.gossip_frame(kind, ttl, routing_id, body);
            let ghost sent = self.told@;
            let ghost copied = out;
            let at: usize = targets[i];
            proof {
                assert(self@.peers.len() == self.peers@.len());
                assert(before.peer_wires[at as int] == self.peers@[at as int].tx);
            }
            let r = try_push(&mut self.told, &self.peers[at].tx, out);
            if r.is_ok() {
                accepted += 1;
            }
            proof {
                let offer = Offer { to: wires[i as int], message: copied, outcome: r };
                let one = ToldModel { to: offer.to, kind, frame, taken: offer.taken() };
                assert(self.told@ == sent.push(offer));
                assert(told_of(self.told@) =~= told_of(sent).push(one));
                assert(before.told + offers.push(one) =~= (before.told + offers).push(one));
                assert(offers.push(one).drop_last() =~= offers);
                offers = offers.push(one);
                assert(self@ =~= HubModel { told: before.told + offers, ..before });
            }
            i += 1;
        }
        proof {
            assert(self@.told.skip(before.told.len() as int) =~= offers);
        }
        accepted
    }

    /// Tell every other hub of a key package that a client published.
    pub fn fan_out_kp_to_peers(&mut self, routing_id: RoutingId, kp_bytes: &[u8]) -> (accepted:
        usize)
        requires
            old(self).wf(),
        ensures
            final(self).wf(),
            is_telling(
                old(self)@,
                None,
                GossipKind::Publish,
                first_frame(old(self)@, routing_id, kp_bytes@),
                accepted as nat,
                final(self)@,
            ),
    {
        self.fan_out(None, GossipKind::Publish, GOSSIP_TTL_DEFAULT, routing_id, kp_bytes)
    }

    /// Deliver an envelope of a client, and pass it on to the other hubs as the
    /// gossip mode says.
    pub fn deliver_from_client(&mut self, target: RoutingId, payload: Vec<u8>) -> (delivered: usize)
        requires
            old(self).wf(),
        ensures
            final(self).wf(),
            is_client_delivery(old(self)@, target, payload@, delivered as nat, final(self)@),
    {
        let body = copy_bytes(payload.as_slice());
        let ghost before = self@;
        let delivered = self.deliver(target, payload);
        let ghost mid = self@;
        if forwards(self.gossip_mode, delivered) {
            let accepted = self.fan_out(
                None,
                GossipKind::Deliver,
                GOSSIP_TTL_DEFAULT,
                target,
                body.as_slice(),
            );
            proof {
                assert(is_telling(
                    mid,
                    None,
                    GossipKind::Deliver,
                    first_frame(before, target, body@),
                    accepted as nat,
                    self@,
                ));
            }
        }
        proof {
            assert(is_delivery(before, target, body@, delivered as nat, mid));
        }
        delivered
    }

    /// The time by the clock of the rate limit, which is read once; 0 where there
    /// is no rate limit.
    pub fn rate_clock(&mut self) -> (now: u64)
        ensures
            old(self).wf() ==> final(self).wf(),
            final(self)@ == (HubModel { limiter: final(self)@.limiter, ..old(self)@ }),
            match old(self)@.limiter {
                Some(l) => {
                    &&& final(self)@.limiter matches Some(after) && after == limiter_at(
                        l,
                        after.clock,
                    ) && ticked(l.clock, after.clock) && now == shown(after.clock)
                },
                None => now == 0 && final(self)@.limiter is None,
            },
    {
        let ghost before = self@;
        let mut limiter: Option<RateLimiter> = None;
        std::mem::swap(&mut limiter, &mut self.rate_limiter);
        let now: u64 = match limiter {
            Some(mut l) => {
                let now: u64 = l.now();
                self.rate_limiter = Some(l);
                now
            },
            None => 0,
        };
        proof {
            assert(self@ =~= HubModel { limiter: self@.limiter, ..before });
        }
        now
    }
}

/// An envelope that `delivered` local connections took is passed on.
pub open spec fn passes_on(mode: GossipMode, delivered: nat) -> bool {
    match mode {
        GossipMode::Eager => true,
        GossipMode::Lazy => delivered == 0,
    }
}

/// Whether an envelope that `delivered` local connections took is passed on to
/// other hubs.
pub fn forwards(mode: GossipMode, delivered: usize) -> (r: bool)
    ensures
        r == passes_on(mode, delivered as nat),
{
    match mode {
        GossipMode::Eager => true,
        GossipMode::Lazy => delivered == 0,
    }
}

/// Gossip never goes back to the hub it came from, and reaches every other: a
/// channel gets the frame exactly if it leads to a hub with another key.
pub proof fn law_source_skipped(
    peers: Seq<[u8; 32]>,
    wires: Seq<mpsc::Sender<GossipOut>>,
    source: [u8; 32],
    wire: mpsc::Sender<GossipOut>,
)
    requires
        wires.len() == peers.len(),
    ensures
        gossip_wires(peers, wires, Some(source)).contains(wire) <==> exists|j: int|
            0 <= j < peers.len() && #[trigger] peers[j] != source && wires[j] == wire,
    decreases peers.len(),
{
    let all = gossip_wires(peers, wires, Some(source));
    if peers.len() > 0 {
        let p = peers.drop_last();
        let w = wires.drop_last();
        let front = gossip_wires(p, w, Some(source));
        let last = peers.len() - 1;
        law_source_skipped(p, w, source, wire);
        if all.contains(wire) {
            let i = choose|i: int| 0 <= i < all.len() && all[i] == wire;
            if i < front.len() {
                assert(front[i] == wire);
                let j = choose|j: int| 0 <= j < p.len() && #[trigger] p[j] != source && w[j] == wire;
                assert(peers[j] != source && wires[j] == wire);
            } else {
                assert(peers[last] != source && wires[last] == wire);
            }
        }
        if exists|j: int| 0 <= j < peers.len() && #[trigger] peers[j] != source && wires[j] == wire {
            let j = choose|j: int|
                0 <= j < peers.len() && #[trigger] peers[j] != source && wires[j] == wire;
            if j < last {
                assert(p[j] != source && w[j] == wire);
                let i = choose|i: int| 0 <= i < front.len() && front[i] == wire;
                assert(all[i] == wire);
            } else {
                assert(all[front.len() as int] == wire);
            }
        }
    }
}

/// The hub after envelopes for a routing id that nobody took.
pub open spec fn enqueued_all(m: HubModel, id: RoutingId, payloads: Seq<Seq<u8>>) -> HubModel
    decreases payloads.len(),
{
    if payloads.len() == 0 {
        m
    } else {
        enqueued(enqueued_all(m, id, payloads.drop_last()), id, payloads.last())
    }
}

/// Envelopes that nobody took are kept: the next subscriber gets all of them,
/// the oldest first, behind those that waited already.
pub proof fn law_queued_then_drained(
    m: HubModel,
    id: RoutingId,
    payloads: Seq<Seq<u8>>,
    conn: ConnId,
)
    ensures
        drained(enqueued_all(m, id, payloads), conn, seq![id]) == queue_of(m, id) + payloads,
{
    let n = enqueued_all(m, id, payloads);
    lemma_enqueued_all(m, id, payloads);
    assert(seq![id].drop_last() =~= Seq::<RoutingId>::empty());
    assert(seq![id].last() == id);
    assert(drained(n, conn, Seq::<RoutingId>::empty()) =~= Seq::<Seq<u8>>::empty());
    assert(subscribed(n, conn, Seq::<RoutingId>::empty()) == n);
    assert(drained(n, conn, seq![id]) =~= queue_of(n, id));
}

proof fn lemma_enqueued_all(m: HubModel, id: RoutingId, payloads: Seq<Seq<u8>>)
    ensures
        queue_of(enqueued_all(m, id, payloads), id) == queue_of(m, id) + payloads,
    decreases payloads.len(),
{
    if payloads.len() == 0 {
        assert(queue_of(m, id) + payloads =~= queue_of(m, id));
    } else {
        let p = payloads.drop_last();
        lemma_enqueued_all(m, id, p);
        assert((queue_of(m, id) + p).push(payloads.last()) =~= queue_of(m, id) + payloads);
    }
}

/// No envelope is lost: a connection took it, or it waits behind those that wait
/// already.
pub proof fn law_no_envelope_lost(
    before: HubModel,
    id: RoutingId,
    payload: Seq<u8>,
    delivered: nat,
    after: HubModel,
)
    requires
        is_delivery(before, id, payload, delivered, after),
    ensures
        queue_of(after, id) == queue_of(before, id).push(payload) || exists|i: int|
            before.sent.len() <= i < after.sent.len() && (#[trigger] after.sent[i]).taken
                && after.sent[i].payload == payload,
{
    if delivered > 0 {
        let offers = after.sent.skip(before.sent.len() as int);
        let order = choose|order: Seq<ConnId>| #[trigger]
            offered_to(before, id, payload, order, offers);
        let i = lemma_some_taken(offers);
        assert(after.sent[before.sent.len() + i] == offers[i]);
    }
}

proof fn lemma_some_taken(offers: Seq<SentModel>) -> (i: int)
    requires
        taken_of(offers) > 0,
    ensures
        0 <= i < offers.len(),
        offers[i].taken,
    decreases offers.len(),
{
    if offers.last().taken {
        offers.len() - 1
    } else {
        lemma_some_taken(offers.drop_last())
    }
}

/// What was handed out once does not come again: after a subscription nothing
/// waits for the routing id.
pub proof fn law_drained_once(m: HubModel, conn: ConnId, ids: Seq<RoutingId>, id: RoutingId)
    requires
        ids.contains(id),
    ensures
        queue_of(subscribed(m, conn, ids), id).len() == 0,
    decreases ids.len(),
{
    if ids.last() != id {
        let i = choose|i: int| 0 <= i < ids.len() && ids[i] == id;
        assert(ids.drop_last()[i] == id);
        law_drained_once(m, conn, ids.drop_last(), id);
    }
}

/// Subscribing takes nothing from routing ids that were not named.
pub proof fn law_other_queues_untouched(
    m: HubModel,
    conn: ConnId,
    ids: Seq<RoutingId>,
    other: RoutingId,
)
    requires
        !ids.contains(other),
    ensures
        queue_of(subscribed(m, conn, ids), other) == queue_of(m, other),
        subscribers_of(subscribed(m, conn, ids), other) == subscribers_of(m, other),
    decreases ids.len(),
{
    if ids.len() > 0 {
        let p = ids.drop_last();
        assert(!p.contains(other)) by {
            if p.contains(other) {
                let i = choose|i: int| 0 <= i < p.len() && p[i] == other;
                assert(ids[i] == other);
            }
        }
        assert(ids[ids.len() - 1] != other);
        law_other_queues_untouched(m, conn, p, other);
    }
}

/// An open connection that subscribed is offered every later envelope.
pub proof fn law_subscriber_is_offered(
    m: HubModel,
    conn: ConnId,
    ids: Seq<RoutingId>,
    id: RoutingId,
    payload: Seq<u8>,
    delivered: nat,
    after: HubModel,
)
    requires
        m.conns.contains(conn),
        ids.contains(id),
        is_delivery(subscribed(m, conn, ids), id, payload, delivered, after),
    ensures
        live_for(subscribed(m, conn, ids), id).contains(conn),
        exists|i: int|
            m.sent.len() <= i < after.sent.len() && (#[trigger] after.sent[i]).to == m.wires[conn]
                && after.sent[i].payload == payload,
{
    let before = subscribed(m, conn, ids);
    lemma_subscribed_conns(m, conn, ids);
    lemma_subscribed_has(m, conn, ids, id);
    let offers = after.sent.skip(before.sent.len() as int);
    let order = choose|order: Seq<ConnId>| #[trigger]
        offered_to(before, id, payload, order, offers);
    assert(order.to_set().contains(conn));
    let i = choose|i: int| 0 <= i < order.len() && order[i] == conn;
    assert(offers[i].to == before.wires[order[i]]);
    assert(after.sent[before.sent.len() + i] == offers[i]);
}

proof fn lemma_subscribed_conns(m: HubModel, conn: ConnId, ids: Seq<RoutingId>)
    ensures
        subscribed(m, conn, ids).conns == m.conns,
        subscribed(m, conn, ids).wires == m.wires,
        subscribed(m, conn, ids).sent == m.sent,
    decreases ids.len(),
{
    if ids.len() > 0 {
        lemma_subscribed_conns(m, conn, ids.drop_last());
    }
}

proof fn lemma_subscribed_has(m: HubModel, conn: ConnId, ids: Seq<RoutingId>, id: RoutingId)
    requires
        ids.contains(id),
    ensures
        subscribers_of(subscribed(m, conn, ids), id).contains(conn),
    decreases ids.len(),
{
    if ids.last() != id {
        let i = choose|i: int| 0 <= i < ids.len() && ids[i] == id;
        assert(ids.drop_last()[i] == id);
        lemma_subscribed_has(m, conn, ids.drop_last(), id);
    }
}

/// A closed connection is offered nothing, and no subscription without a
/// subscriber is left behind.
pub proof fn law_unregistered_is_gone(m: HubModel, conn: ConnId, id: RoutingId)
    requires
        hub_wf(m),
    ensures
        !without_conn(m, conn).conns.contains(conn),
        !subscribers_of(without_conn(m, conn), id).contains(conn),
        subscribers_of(without_conn(m, conn), id) == subscribers_of(m, id).remove(conn),
        without_conn(m, conn).subscribers.dom().contains(id) <==> subscribers_of(m, id).remove(
            conn,
        ).len() > 0,
{
    let n = without_conn(m, conn);
    if m.subscribers.dom().contains(id) {
        let s = m.subscribers[id].remove(conn);
        assert(m.subscribers[id].finite());
        if n.subscribers.dom().contains(id) {
            let c = choose|c: ConnId| c != conn && m.subscribers[id].contains(c);
            assert(s.contains(c));
            if s.len() == 0 {
                assert(s =~= Set::<ConnId>::empty());
            }
        } else {
            assert forall|c: ConnId| !s.contains(c) by {
                if s.contains(c) {
                    assert(c != conn && m.subscribers[id].contains(c));
                }
            }
            assert(s =~= Set::<ConnId>::empty());
        }
        assert(subscribers_of(n, id) =~= s);
    } else {
        assert(subscribers_of(n, id) =~= Set::<ConnId>::empty());
        assert(subscribers_of(m, id).remove(conn) =~= Set::<ConnId>::empty());
    }
}

/// The latest key package counts: publishing twice leaves the second, and no
/// other entry changes.
pub proof fn law_latest_keypackage(
    m: HubModel,
    id: RoutingId,
    first: Seq<u8>,
    second: Seq<u8>,
    other: RoutingId,
)
    requires
        other != id,
    ensures
        published(published(m, id, first), id, second).keypackages == published(
            m,
            id,
            second,
        ).keypackages,
        published(m, id, second).keypackages[id] == second,
        published(m, id, second).keypackages.dom().contains(other)
            == m.keypackages.dom().contains(other),
        m.keypackages.dom().contains(other) ==> published(m, id, second).keypackages[other]
            == m.keypackages[other],
{
    assert(published(published(m, id, first), id, second).keypackages =~= published(
        m,
        id,
        second,
    ).keypackages);
}

/// Whether a connection is in a list.
fn holds(subs: &Vec<ConnId>, conn: ConnId) -> (r: bool)
    ensures
        r == subs@.contains(conn),
{
    let mut i: usize = 0;
    while i < subs.len()
        invariant
            i <= subs@.len(),
            forall|j: int| 0 <= j < i ==> subs@[j] != conn,
        decreases subs@.len() - i,
    {
        if subs[i] == conn {
            return true;
        }
        i += 1;
    }
    false
}

proof fn lemma_push_set<A>(s: Seq<A>, a: A)
    ensures
        s.push(a).to_set() == s.to_set().insert(a),
{
    assert forall|x: A| s.push(a).to_set().contains(x) <==> s.to_set().insert(a).contains(x) by {
        if s.contains(x) {
            let i = choose|i: int| 0 <= i < s.len() && s[i] == x;
            assert(s.push(a)[i] == x);
        }
        if x == a {
            assert(s.push(a)[s.len() as int] == x);
        }
        if s.push(a).contains(x) {
            let i = choose|i: int| 0 <= i < s.push(a).len() && s.push(a)[i] == x;
            if i < s.len() {
                assert(s[i] == x);
            }
        }
    }
    assert(s.push(a).to_set() =~= s.to_set().insert(a));
}

proof fn lemma_joined_wf(m: HubModel, conn: ConnId, id: RoutingId)
    requires
        hub_wf(m),
    ensures
        hub_wf(joined(m, conn, id)),
{
    let n = joined(m, conn, id);
    assert forall|k: RoutingId| #![trigger n.subscribers[k]] n.subscribers.dom().contains(
        k,
    ) implies n.subscribers[k].finite() && exists|c: ConnId| n.subscribers[k].contains(c) by {
        if k == id {
            assert(n.subscribers[k].contains(conn));
            if m.subscribers.dom().contains(id) {
                assert(m.subscribers[id].finite());
            }
        } else {
            assert(m.subscribers[k].finite());
            let c = choose|c: ConnId| m.subscribers[k].contains(c);
            assert(n.subscribers[k].contains(c));
        }
    }
    assert forall|k: RoutingId| #![trigger n.queues[k]] n.queues.dom().contains(k) implies n.queues[k].len()
        > 0 by {
        assert(m.queues[k].len() > 0);
    }
}

/// The subscriptions without a connection; those left without a subscriber are
/// gone.
fn subscriptions_without(
    table: &ListMap<RoutingId, Vec<ConnId>>,
    conn: ConnId,
) -> (kept: ListMap<RoutingId, Vec<ConnId>>)
    requires
        table.wf(),
        forall|id: RoutingId|
            #![trigger table@[id]]
            table@.dom().contains(id) ==> table@[id]@.no_duplicates(),
    ensures
        kept.wf(),
        forall|id: RoutingId|
            #![trigger kept@.dom().contains(id)]
            kept@.dom().contains(id) <==> table@.dom().contains(id) && exists|c: ConnId|
                c != conn && table@[id]@.to_set().contains(c),
        forall|id: RoutingId|
            #![trigger kept@[id]]
            kept@.dom().contains(id) ==> kept@[id]@.no_duplicates() && kept@[id]@.to_set()
                == table@[id]@.to_set().remove(conn),
{
    let mut kept: ListMap<RoutingId, Vec<ConnId>> = ListMap::new();
    let n: usize = table.len();
    let ghost listed = table.listed();
    let mut i: usize = 0;
    while i < n
        invariant
            i <= n,
            n == listed.len(),
            table.wf(),
            listed == table.listed(),
            forall|id: RoutingId|
                #![trigger table@[id]]
                table@.dom().contains(id) ==> table@[id]@.no_duplicates(),
            kept.wf(),
            forall|id: RoutingId|
                #![trigger kept@.dom().contains(id)]
                kept@.dom().contains(id) <==> exists|j: int|
                    0 <= j < i && #[trigger] listed[j].0 == id && exists|c: ConnId|
                        c != conn && table@[id]@.to_set().contains(c),
            forall|id: RoutingId|
                #![trigger kept@[id]]
                kept@.dom().contains(id) ==> table@.dom().contains(id)
                    && kept@[id]@.no_duplicates() && kept@[id]@.to_set()
                    == table@[id]@.to_set().remove(conn),
        decreases n - i,
    {
        let id: RoutingId = *table.key_at(i);
        let ghost before = kept@;
        proof {
            table.lemma_listed();
            assert(listed[i as int].0 == id);
            assert(table@.dom().contains(id));
            assert(table@[id] == listed[i as int].1);
        }
        let left = conns_without(table.value_at(i), conn);
        if left.len() > 0 {
            proof {
                assert(left@.to_set().contains(left@[0]));
                assert(table@[id]@.to_set().remove(conn).contains(left@[0]));
            }
            kept.insert(id, left);
        } else {
            proof {
                assert(left@.to_set() =~= Set::<ConnId>::empty());
                if exists|c: ConnId| c != conn && table@[id]@.to_set().contains(c) {
                    let c = choose|c: ConnId| c != conn && table@[id]@.to_set().contains(c);
                    assert(table@[id]@.to_set().remove(conn).contains(c));
                }
            }
        }
        proof {
            assert forall|k: RoutingId|
                #![trigger kept@.dom().contains(k)]
                kept@.dom().contains(k) <==> exists|j: int|
                    0 <= j < i + 1 && #[trigger] listed[j].0 == k && exists|c: ConnId|
                        c != conn && table@[k]@.to_set().contains(c) by {
                if kept@.dom().contains(k) && k != id {
                    assert(before.dom().contains(k));
                }
                if exists|j: int|
                    0 <= j < i + 1 && #[trigger] listed[j].0 == k && exists|c: ConnId|
                        c != conn && table@[k]@.to_set().contains(c) {
                    let j = choose|j: int|
                        0 <= j < i + 1 && #[trigger] listed[j].0 == k && exists|c: ConnId|
                            c != conn && table@[k]@.to_set().contains(c);
                    if j < i {
                        assert(before.dom().contains(k));
                    }
                }
            }
        }
        i += 1;
    }
    proof {
        table.lemma_listed();
        assert forall|id: RoutingId|
            #![trigger kept@.dom().contains(id)]
            kept@.dom().contains(id) <==> table@.dom().contains(id) && exists|c: ConnId|
                c != conn && table@[id]@.to_set().contains(c) by {
            if kept@.dom().contains(id) {
                let j = choose|j: int|
                    0 <= j < n && #[trigger] listed[j].0 == id && exists|c: ConnId|
                        c != conn && table@[id]@.to_set().contains(c);
                assert(table@.dom().contains(listed[j].0.model()));
            }
            if table@.dom().contains(id) {
                let j = choose|j: int|
                    0 <= j < table.listed().len() && #[trigger] table.listed()[j].0.model() == id;
                assert(listed[j].0 == id);
            }
        }
    }
    kept
}

fn conns_without(subs: &Vec<ConnId>, conn: ConnId) -> (r: Vec<ConnId>)
    requires
        subs@.no_duplicates(),
    ensures
        r@.no_duplicates(),
        r@.to_set() == subs@.to_set().remove(conn),
{
    let mut out: Vec<ConnId> = Vec::new();
    let mut i: usize = 0;
    proof {
        assert(out@.to_set() =~= subs@.take(0).to_set().remove(conn));
    }
    while i < subs.len()
        invariant
            i <= subs@.len(),
            subs@.no_duplicates(),
            out@.no_duplicates(),
            out@.to_set() == subs@.take(i as int).to_set().remove(conn),
        decreases subs@.len() - i,
    {
        let c: ConnId = subs[i];
        let ghost before = out@;
        proof {
            assert(subs@.take(i + 1) =~= subs@.take(i as int).push(c));
            lemma_push_set(subs@.take(i as int), c);
            assert(!subs@.take(i as int).contains(c));
            assert(!before.to_set().contains(c));
        }
        if c != conn {
            out.push(c);
            proof {
                lemma_push_set(before, c);
                assert(!before.contains(c));
            }
        }
        proof {
            assert(out@.to_set() =~= subs@.take(i + 1).to_set().remove(conn));
        }
        i += 1;
    }
    proof {
        assert(subs@.take(i as int) =~= subs@);
    }
    out
}

fn copy_rows(rows: &Vec<Vec<u8>>) -> (r: Vec<Vec<u8>>)
    ensures
        rows_of(r@) == rows_of(rows@),
{
    let mut out: Vec<Vec<u8>> = Vec::new();
    let mut i: usize = 0;
    while i < rows.len()
        invariant
            i <= rows@.len(),
            rows_of(out@) == rows_of(rows@).take(i as int),
        decreases rows@.len() - i,
    {
        let ghost before = rows_of(out@);
        out.push(copy_bytes(rows[i].as_slice()));
        proof {
            assert(rows_of(out@) =~= before.push(rows@[i as int]@));
            assert(rows_of(rows@).take(i + 1) =~= before.push(rows@[i as int]@));
        }
        i += 1;
    }
    proof {
        assert(rows_of(rows@).take(i as int) =~= rows_of(rows@));
    }
    out
}

} // verus!
