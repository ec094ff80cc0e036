//! The conversations that the daemon knows of.
//!
//! One entry stands for each peer with a live session or a recent one. The entry
//! is the bridge between the task that holds the session and the requests of
//! local clients. What happens is broadcast to the clients that listen.
use vstd::prelude::*;
use vstd::string::*;
use vstd::utf8::*;

use std::collections::VecDeque;

use tokio::sync::{broadcast, mpsc};

use crate::channel::{
    broadcaster, listen, mailbox, publish, same_sender, Ends, Listener, Record, Station,
    Telling,
};
use crate::clock::{now_unix_ms, stamp, WallReading};
use crate::codec::{encodable, short_id_of, short_id_of_group, short_label};
use crate::files::names::room_key;
use crate::list_map::{keys_of, same_array, ListMap, MapKey};
use crate::room::RoomAppMessage;
use crate::text::{join2, same_text};

verus! {

/// How many messages wait for a peer's session at most.
pub const OUTBOUND_MAILBOX: usize = 32;

/// How many of the latest messages are kept for each peer.
pub const RING_CAPACITY: usize = 200;

/// How many events a slow listener may lag behind.
pub const EVENT_BROADCAST_CAPACITY: usize = 1024;

/// What a peer's session is asked to send.
#[derive(Debug)]
pub enum PeerOutbound {
    /// A text for the peer, to be encrypted by the session.
    Dm(String),
    /// An application message for the peer, to be encrypted by the session.
    DmFrame(RoomAppMessage),
    /// A ciphertext of a room, to be sent as it is.
    RoomFrame(Vec<u8>),
}

/// Who wrote a message.
#[derive(Debug, Clone, Copy, PartialEq, Eq, Structural)]
pub enum MessageDirection {
    Incoming,
    Outgoing,
}

/// A line of a conversation.
#[derive(Debug)]
pub struct ChatLine {
    pub direction: MessageDirection,
    pub text: String,
    pub ts_unix_ms: u64,
    /// The message came through a hub rather than a direct session.
    pub via_hub: bool,
}

/// A line as a value.
pub struct LineModel {
    pub direction: MessageDirection,
    pub text: Seq<char>,
    pub ts_unix_ms: u64,
    pub via_hub: bool,
}

impl View for ChatLine {
    type V = LineModel;

    open spec fn view(&self) -> LineModel {
        LineModel {
            direction: self.direction,
            text: self.text@,
            ts_unix_ms: self.ts_unix_ms,
            via_hub: self.via_hub,
        }
    }
}

impl ChatLine {
    /// A copy of the line.
    pub fn duplicate(&self) -> (l: Self)
        ensures
            l@ == self@,
    {
        ChatLine {
            direction: self.direction,
            text: self.text.clone(),
            ts_unix_ms: self.ts_unix_ms,
            via_hub: self.via_hub,
        }
    }
}

/// What is known of a peer, for clients.
#[derive(Debug)]
pub struct PeerInfo {
    pub short_id: String,
    pub pubkey_b32: String,
    pub fingerprint: String,
    pub connected: bool,
    pub last_message_preview: Option<String>,
    pub last_active_unix_ms: u64,
}

/// An event for the clients that listen.
#[derive(Debug)]
pub enum ApiEvent {
    PeerConnected {
        peer: PeerInfo,
    },
    PeerDisconnected {
        peer_short: String,
    },
    Message {
        peer_short: String,
        direction: MessageDirection,
        text: String,
        ts_unix_ms: u64,
        via_hub: bool,
    },
}

/// What clients are told of a peer, as a value.
pub struct InfoModel {
    pub short_id: Seq<char>,
    pub pubkey_b32: Seq<char>,
    pub fingerprint: Seq<char>,
    pub connected: bool,
    pub preview: Option<Seq<char>>,
    pub last_active: u64,
}

impl View for PeerInfo {
    type V = InfoModel;

    open spec fn view(&self) -> InfoModel {
        InfoModel {
            short_id: self.short_id@,
            pubkey_b32: self.pubkey_b32@,
            fingerprint: self.fingerprint@,
            connected: self.connected,
            preview: match self.last_message_preview {
                Some(s) => Some(s@),
                None => None,
            },
            last_active: self.last_active_unix_ms,
        }
    }
}

/// An event as a value.
pub enum EventModel {
    PeerConnected(InfoModel),
    /// The label of the peer.
    PeerDisconnected(Seq<char>),
    /// The label of the conversation, and the message.
    Message(Seq<char>, LineModel),
}

impl View for ApiEvent {
    type V = EventModel;

    open spec fn view(&self) -> EventModel {
        match *self {
            ApiEvent::PeerConnected { peer } => EventModel::PeerConnected(peer@),
            ApiEvent::PeerDisconnected { peer_short } => EventModel::PeerDisconnected(peer_short@),
            ApiEvent::Message { peer_short, direction, text, ts_unix_ms, via_hub } =>
            EventModel::Message(
                peer_short@,
                LineModel { direction, text: text@, ts_unix_ms, via_hub },
            ),
        }
    }
}

/// Copies for the listeners of a broadcast.
impl Clone for PeerInfo {
    fn clone(&self) -> (p: Self)
        ensures
            p@ == self@,
    {
        PeerInfo {
            short_id: self.short_id.clone(),
            pubkey_b32: self.pubkey_b32.clone(),
            fingerprint: self.fingerprint.clone(),
            connected: self.connected,
            last_message_preview: match &self.last_message_preview {
                Some(s) => Some(s.clone()),
                None => None,
            },
            last_active_unix_ms: self.last_active_unix_ms,
        }
    }
}

impl Clone for ApiEvent {
    fn clone(&self) -> (e: Self)
        ensures
            e@ == self@,
    {
        match self {
            ApiEvent::PeerConnected { peer } => ApiEvent::PeerConnected { peer: peer.clone() },
            ApiEvent::PeerDisconnected { peer_short } => ApiEvent::PeerDisconnected {
                peer_short: peer_short.clone(),
            },
            ApiEvent::Message { peer_short, direction, text, ts_unix_ms, via_hub } =>
            ApiEvent::Message {
                peer_short: peer_short.clone(),
                direction: *direction,
                text: text.clone(),
                ts_unix_ms: *ts_unix_ms,
                via_hub: *via_hub,
            },
        }
    }
}

/// The peer and the channel to its session.
#[derive(Debug)]
pub struct ConversationHandle {
    pub peer_pub: [u8; 32],
    pub short_id: String,
    pub pubkey_b32: String,
    pub fingerprint: String,
    /// What to send goes here.
    pub outbound_tx: mpsc::Sender<PeerOutbound>,
}

impl ConversationHandle {
    /// Another handle to the same conversation.
    pub fn duplicate(&self) -> (h: Self)
        ensures
            h.peer_pub == self.peer_pub,
            h.short_id@ == self.short_id@,
            h.pubkey_b32@ == self.pubkey_b32@,
            h.fingerprint@ == self.fingerprint@,
            h.outbound_tx == self.outbound_tx,
    {
        ConversationHandle {
            peer_pub: self.peer_pub,
            short_id: self.short_id.clone(),
            pubkey_b32: self.pubkey_b32.clone(),
            fingerprint: self.fingerprint.clone(),
            outbound_tx: same_sender(&self.outbound_tx),
        }
    }
}

/// What is known of a peer.
#[verifier::ext_equal]
pub struct PeerModel {
    pub short_id: Seq<char>,
    pub pubkey_b32: Seq<char>,
    pub fingerprint: Seq<char>,
    pub outbound_tx: mpsc::Sender<PeerOutbound>,
    pub connected: bool,
    /// The latest messages, the oldest first.
    pub ring: Seq<LineModel>,
    pub last_active: u64,
}

/// What the registry knows.
#[verifier::ext_equal]
pub struct RegistryModel {
    pub peers: Map<[u8; 32], PeerModel>,
    /// Which peer a label stands for.
    pub short: Map<Seq<char>, [u8; 32]>,
    /// The channel on which the clients that listen are told of events.
    pub events: broadcast::Sender<ApiEvent>,
    /// The receivers that were made for clients that listen, in order.
    pub listeners: Seq<Listener<ApiEvent>>,
    /// What the clients that listen were told, in order.
    pub told: Seq<EventModel>,
}

/// A handle is that of a peer.
pub open spec fn is_handle(h: ConversationHandle, peer: [u8; 32], p: PeerModel) -> bool {
    &&& h.peer_pub == peer
    &&& h.short_id@ == p.short_id
    &&& h.pubkey_b32@ == p.pubkey_b32
    &&& h.fingerprint@ == p.fingerprint
    &&& h.outbound_tx == p.outbound_tx
}

/// A handle to a connected peer with this fingerprint, if there is such a peer.
pub open spec fn is_direct(
    m: RegistryModel,
    fingerprint: Seq<char>,
    r: Option<ConversationHandle>,
) -> bool {
    match r {
        Some(h) => m.peers.dom().contains(h.peer_pub) && is_handle(
            h,
            h.peer_pub,
            m.peers[h.peer_pub],
        ) && m.peers[h.peer_pub].connected && h.fingerprint@ == fingerprint,
        None => forall|k: [u8; 32]|
            #![trigger m.peers[k]]
            m.peers.dom().contains(k) ==> !(m.peers[k].connected && m.peers[k].fingerprint
                == fingerprint),
    }
}

/// The labels after a peer was registered: a label stays with the peer that had
/// it first.
pub open spec fn labelled(short: Map<Seq<char>, [u8; 32]>, label: Seq<char>, peer: [u8; 32]) -> Map<
    Seq<char>,
    [u8; 32],
> {
    if short.dom().contains(label) && short[label] != peer {
        short
    } else {
        short.insert(label, peer)
    }
}

/// The registry with a peer registered anew, of which the clients that listen were
/// told.
pub open spec fn registered(
    m: RegistryModel,
    peer: [u8; 32],
    pubkey_b32: Seq<char>,
    fingerprint: Seq<char>,
    tx: mpsc::Sender<PeerOutbound>,
    connected: bool,
    now_ms: u64,
) -> RegistryModel {
    RegistryModel {
        peers: m.peers.insert(
            peer,
            PeerModel {
                short_id: short_label(pubkey_b32),
                pubkey_b32,
                fingerprint,
                outbound_tx: tx,
                connected,
                ring: Seq::empty(),
                last_active: now_ms,
            },
        ),
        short: labelled(m.short, short_label(pubkey_b32), peer),
        told: m.told.push(
            EventModel::PeerConnected(
                InfoModel {
                    short_id: short_label(pubkey_b32),
                    pubkey_b32,
                    fingerprint,
                    connected,
                    preview: None,
                    last_active: now_ms,
                },
            ),
        ),
        ..m
    }
}

/// The latest messages with one more: the oldest goes where there is no room.
pub open spec fn ring_pushed(ring: Seq<LineModel>, line: LineModel) -> Seq<LineModel> {
    if ring.len() == RING_CAPACITY {
        ring.skip(1).push(line)
    } else {
        ring.push(line)
    }
}

/// The registry with one more message of a known peer, of which the clients that
/// listen were told.
pub open spec fn with_line(m: RegistryModel, peer: [u8; 32], line: LineModel) -> RegistryModel {
    RegistryModel {
        peers: m.peers.insert(
            peer,
            PeerModel {
                ring: ring_pushed(m.peers[peer].ring, line),
                last_active: line.ts_unix_ms,
                ..m.peers[peer]
            },
        ),
        told: m.told.push(EventModel::Message(m.peers[peer].short_id, line)),
        ..m
    }
}

/// The event of a message in a room.
pub open spec fn room_event_of(group_id: Seq<u8>, text: Seq<char>, now_ms: u64) -> EventModel {
    EventModel::Message(
        room_key(group_id),
        LineModel {
            direction: MessageDirection::Incoming,
            text,
            ts_unix_ms: now_ms,
            via_hub: false,
        },
    )
}

/// The registry after the clients that listen were told of a message in a room.
pub open spec fn with_room_line(
    m: RegistryModel,
    group_id: Seq<u8>,
    text: Seq<char>,
    now_ms: u64,
) -> RegistryModel {
    RegistryModel { told: m.told.push(room_event_of(group_id, text, now_ms)), ..m }
}

/// The registry after the session of a peer ended.
pub open spec fn disconnected(m: RegistryModel, peer: [u8; 32], now_ms: u64) -> RegistryModel {
    if m.peers.dom().contains(peer) {
        RegistryModel {
            peers: m.peers.insert(
                peer,
                PeerModel { connected: false, last_active: now_ms, ..m.peers[peer] },
            ),
            told: m.told.push(EventModel::PeerDisconnected(m.peers[peer].short_id)),
            ..m
        }
    } else {
        m
    }
}

/// Rings are within bounds, every label stands for a known peer, and whoever
/// listens does so on the channel for events.
pub open spec fn registry_wf(m: RegistryModel) -> bool {
    &&& forall|k: [u8; 32]|
        #![trigger m.peers[k]]
        m.peers.dom().contains(k) ==> m.peers[k].ring.len() <= RING_CAPACITY
    &&& forall|s: Seq<char>|
        #![trigger m.short[s]]
        m.short.dom().contains(s) ==> m.peers.dom().contains(m.short[s])
    &&& forall|i: int| 0 <= i < m.listeners.len() ==> (#[trigger] m.listeners[i]).on == m.events
}

/// The peer that a label stands for.
pub open spec fn peer_labelled(m: RegistryModel, label: Seq<char>) -> Option<[u8; 32]> {
    if m.short.dom().contains(label) {
        Some(m.short[label])
    } else {
        None
    }
}

/// The latest `limit` messages, the oldest first.
pub open spec fn latest(ring: Seq<LineModel>, limit: nat) -> Seq<LineModel> {
    if ring.len() <= limit {
        ring
    } else {
        ring.skip(ring.len() - limit)
    }
}

/// The lines of a list.
pub open spec fn lines_of(v: Seq<ChatLine>) -> Seq<LineModel> {
    v.map_values(|l: ChatLine| l@)
}

/// A text of more than 64 bytes has a character that begins at byte 64.
pub open spec fn can_preview(text: Seq<char>) -> bool {
    encode_utf8(text).len() > 64 ==> is_char_boundary(encode_utf8(text), 64)
}

/// What is shown of a text: all of it up to 64 bytes, else the first 64 bytes
/// and an ellipsis.
pub open spec fn is_preview(text: Seq<char>, shown: Seq<char>) -> bool {
    if encode_utf8(text).len() <= 64 {
        shown == text
    } else {
        exists|head: Seq<char>|
            #![trigger encode_utf8(head)]
            encode_utf8(head) == encode_utf8(text).subrange(0, 64) && shown == head.push('…')
    }
}

/// What clients are told of a peer.
pub open spec fn is_info(i: PeerInfo, p: PeerModel) -> bool {
    &&& i.short_id@ == p.short_id
    &&& i.pubkey_b32@ == p.pubkey_b32
    &&& i.fingerprint@ == p.fingerprint
    &&& i.connected == p.connected
    &&& i.last_active_unix_ms == p.last_active
    &&& match i.last_message_preview {
        Some(s) => p.ring.len() > 0 && is_preview(p.ring.last().text, s@),
        None => p.ring.len() == 0,
    }
}

/// The last message of every peer can be shown.
pub open spec fn can_list(m: RegistryModel) -> bool {
    forall|k: [u8; 32]|
        #![trigger m.peers[k]]
        m.peers.dom().contains(k) && m.peers[k].ring.len() > 0 ==> can_preview(
            m.peers[k].ring.last().text,
        )
}

/// What is kept of a peer.
#[derive(Debug)]
struct ConversationState {
    handle: ConversationHandle,
    connected: bool,
    ring: VecDeque<ChatLine>,
    last_active_unix_ms: u64,
}

impl View for ConversationState {
    type V = PeerModel;

    closed spec fn view(&self) -> PeerModel {
        PeerModel {
            short_id: self.handle.short_id@,
            pubkey_b32: self.handle.pubkey_b32@,
            fingerprint: self.handle.fingerprint@,
            outbound_tx: self.handle.outbound_tx,
            connected: self.connected,
            ring: lines_of(self.ring@),
            last_active: self.last_active_unix_ms,
        }
    }
}

/// The conversations that the daemon knows of.
pub struct ConversationRegistry {
    by_peer: ListMap<[u8; 32], ConversationState>,
    by_short: ListMap<String, [u8; 32]>,
    events_tx: broadcast::Sender<ApiEvent>,
    told: Record<Telling<ApiEvent>>,
    heard: Record<Listener<ApiEvent>>,
    made: Record<Ends<PeerOutbound>>,
    opened: Record<Station<ApiEvent>>,
    read: Record<WallReading>,
}

/// Whatever was sent was sent on this channel.
pub open spec fn all_sent_on(
    tellings: Seq<Telling<ApiEvent>>,
    events: broadcast::Sender<ApiEvent>,
) -> bool {
    forall|i: int| 0 <= i < tellings.len() ==> (#[trigger] tellings[i]).on == events
}

/// What was sent, as values.
pub open spec fn events_of(v: Seq<Telling<ApiEvent>>) -> Seq<EventModel> {
    v.map_values(|t: Telling<ApiEvent>| t.message@)
}

impl View for ConversationRegistry {
    type V = RegistryModel;

    closed spec fn view(&self) -> RegistryModel {
        RegistryModel {
            peers: self.by_peer@.map_values(|s: ConversationState| s@),
            short: self.by_short@,
            events: self.events_tx,
            listeners: self.heard@,
            told: events_of(self.told@),
        }
    }
}

impl ConversationRegistry {
    /// The lists behind the maps are in order.
    pub closed spec fn tables_wf(&self) -> bool {
        &&& self.by_peer.wf()
        &&& self.by_short.wf()
        &&& forall|k: [u8; 32]|
            #![trigger self.by_peer@[k]]
            self.by_peer@.dom().contains(k) ==> self.by_peer@[k].handle.peer_pub == k
        &&& all_sent_on(self.tellings(), self.events_tx)
    }

    pub open spec fn wf(&self) -> bool {
        &&& self.tables_wf()
        &&& registry_wf(self@)
    }

    pub fn new() -> (r: Self)
        ensures
            r.wf(),
            r@.peers == Map::<[u8; 32], PeerModel>::empty(),
            r@.short == Map::<Seq<char>, [u8; 32]>::empty(),
            r@.told == Seq::<EventModel>::empty(),
            r.stations() == seq![
                Station { tx: r@.events, capacity: 1024 },
            ],
            r.tellings() == Seq::<Telling<ApiEvent>>::empty(),
            r@.listeners == Seq::<Listener<ApiEvent>>::empty(),
            r.mailboxes() == Seq::<Ends<PeerOutbound>>::empty(),
            r.readings() == Seq::<WallReading>::empty(),
    {
        let mut opened: Record<Station<ApiEvent>> = Record::new();
        let events_tx = broadcaster(&mut opened, EVENT_BROADCAST_CAPACITY);
        let r = ConversationRegistry {
            by_peer: ListMap::new(),
            by_short: ListMap::new(),
            events_tx,
            told: Record::new(),
            heard: Record::new(),
            made: Record::new(),
            opened,
            read: Record::new(),
        };
        assert(r.stations() =~= seq![
            Station { tx: r@.events, capacity: 1024 },
        ]);
        assert(r@.told =~= Seq::<EventModel>::empty());
        assert(r@.peers =~= Map::<[u8; 32], PeerModel>::empty());
        r
    }

    /// The channels that were made for sessions, in order.
    pub closed spec fn mailboxes(&self) -> Seq<Ends<PeerOutbound>> {
        self.made@
    }

    /// The broadcast channels that were made: the one for events.
    pub closed spec fn stations(&self) -> Seq<Station<ApiEvent>> {
        self.opened@
    }

    /// What was sent to the clients that listen, in order, and on which channel.
    pub closed spec fn tellings(&self) -> Seq<Telling<ApiEvent>> {
        self.told@
    }

    /// What the wall clock said when a time stamp was needed, in order.
    pub closed spec fn readings(&self) -> Seq<WallReading> {
        self.read@
    }

    /// Listen to what happens from now on: a receiver of the channel on which
    /// events are told.
    pub fn subscribe_events(&mut self) -> (rx: broadcast::Receiver<ApiEvent>)
        ensures
            old(self).wf() ==> final(self).wf(),
            final(self)@ == (RegistryModel {
                listeners: old(self)@.listeners.push(Listener { on: old(self)@.events, rx }),
                ..old(self)@
            }),
            final(self).tellings() == old(self).tellings(),
            final(self).mailboxes() == old(self).mailboxes(),
            final(self).readings() == old(self).readings(),
    {
        listen(&mut self.heard, &self.events_tx)
    }

    /// Tell the clients that listen of an event.
    fn tell(&mut self, event: ApiEvent)
        requires
            old(self).wf(),
        ensures
            final(self).wf(),
            final(self)@ == (RegistryModel { told: old(self)@.told.push(event@), ..old(self)@ }),
            final(self).mailboxes() == old(self).mailboxes(),
            final(self).readings() == old(self).readings(),
    {
        let ghost before = self@;
        let ghost e = event@;
        publish(&mut self.told, &self.events_tx, event);
        proof {
            assert(self@.told =~= before.told.push(e));
            assert(self@ =~= RegistryModel { told: before.told.push(e), ..before });
        }
    }

    /// File a label for a peer, unless another peer has it: a label is short
    /// enough to be matched on purpose, and what is sent to it must not go
    /// astray.
    fn insert_short_id(&mut self, short_id: String, peer_pub: [u8; 32])
        requires
            old(self).by_peer.wf(),
            old(self).by_short.wf(),
        ensures
            final(self).by_peer == old(self).by_peer,
            final(self).by_short.wf(),
            final(self)@.short == labelled(old(self)@.short, short_id@, peer_pub),
            final(self)@.told == old(self)@.told,
            final(self)@.events == old(self)@.events,
            final(self)@.listeners == old(self)@.listeners,
            final(self).tellings() == old(self).tellings(),
            final(self).mailboxes() == old(self).mailboxes(),
            final(self).readings() == old(self).readings(),
    {
        let taken = match self.by_short.get(&short_id) {
            Some(owner) => !same_array(owner, &peer_pub),
            None => false,
        };
        if !taken {
            self.by_short.insert(short_id, peer_pub);
        }
    }

    /// Take up a peer whose session, if it is connected, reads from the other end
    /// of `tx`, and tell the clients that listen.
    pub fn take_up(
        &mut self,
        peer_pub: [u8; 32],
        pubkey_b32: &str,
        fingerprint: String,
        tx: mpsc::Sender<PeerOutbound>,
        connected: bool,
        now_ms: u64,
    )
        requires
            old(self).wf(),
        ensures
            final(self).wf(),
            final(self)@ == registered(
                old(self)@,
                peer_pub,
                pubkey_b32@,
                fingerprint@,
                tx,
                connected,
                now_ms,
            ),
            final(self).mailboxes() == old(self).mailboxes(),
            final(self).readings() == old(self).readings(),
    {
        let ghost before = self@;
        let ghost fp = fingerprint@;
        let ghost table = self.by_peer@;
        let short_id = short_id_of(pubkey_b32);
        let event = ApiEvent::PeerConnected {
            peer: PeerInfo {
                short_id: short_id.clone(),
                pubkey_b32: pubkey_b32.to_owned(),
                fingerprint: fingerprint.clone(),
                connected,
                last_message_preview: None,
                last_active_unix_ms: now_ms,
            },
        };
        let handle = ConversationHandle {
            peer_pub,
            short_id: short_id.clone(),
            pubkey_b32: pubkey_b32.to_owned(),
            fingerprint,
            outbound_tx: tx,
        };
        self.insert_short_id(short_id, peer_pub);
        let state = ConversationState {
            handle,
            connected,
            ring: VecDeque::new(),
            last_active_unix_ms: now_ms,
        };
        let ghost p = state@;
        self.by_peer.insert(peer_pub, state);
        proof {
            assert(p.ring =~= Seq::<LineModel>::empty());
            let want = registered(before, peer_pub, pubkey_b32@, fp, tx, connected, now_ms);
            assert(self@.peers =~= want.peers);
            assert(self@ =~= RegistryModel { told: before.told, ..want });
            assert forall|s: Seq<char>| #![trigger self@.short[s]] self@.short.dom().contains(
                s,
            ) implies self@.peers.dom().contains(self@.short[s]) by {
                if before.short.dom().contains(s) {
                    assert(before.peers.dom().contains(before.short[s]));
                }
            }
            assert forall|k: [u8; 32]| #![trigger self@.peers[k]] self@.peers.dom().contains(
                k,
            ) implies self@.peers[k].ring.len() <= RING_CAPACITY by {
                if k != peer_pub {
                    assert(before.peers[k].ring.len() <= RING_CAPACITY);
                }
            }
            assert forall|k: [u8; 32]|
                #![trigger self.by_peer@[k]]
                self.by_peer@.dom().contains(k) implies self.by_peer@[k].handle.peer_pub == k by {
                if k != peer_pub {
                    assert(table[k] == self.by_peer@[k]);
                }
            }
        }
        self.tell(event);
    }

    /// Register a peer with a live session. The session reads from the receiver.
    pub fn register(&mut self, peer_pub: [u8; 32], pubkey_b32: &str, fingerprint: String) -> (r: (
        ConversationHandle,
        mpsc::Receiver<PeerOutbound>,
    ))
        requires
            old(self).wf(),
        ensures
            final(self).wf(),
            final(self).readings() == old(self).readings().push(final(self).readings().last()),
            final(self)@ == registered(
                old(self)@,
                peer_pub,
                pubkey_b32@,
                fingerprint@,
                r.0.outbound_tx,
                true,
                stamp(final(self).readings().last()),
            ),
            is_handle(r.0, peer_pub, final(self)@.peers[peer_pub]),
            final(self).mailboxes() == old(self).mailboxes().push(
                Ends { tx: r.0.outbound_tx, rx: r.1, capacity: 32 },
            ),
    {
        let (tx, rx) = mailbox(&mut self.made, OUTBOUND_MAILBOX);
        let now_ms: u64 = now_unix_ms(&mut self.read);
        let handle = ConversationHandle {
            peer_pub,
            short_id: short_id_of(pubkey_b32),
            pubkey_b32: pubkey_b32.to_owned(),
            fingerprint: fingerprint.clone(),
            outbound_tx: same_sender(&tx),
        };
        self.take_up(peer_pub, pubkey_b32, fingerprint, tx, true, now_ms);
        (handle, rx)
    }

    /// Register a peer that was only heard of through a hub, without a session;
    /// a peer that is known already stays as it is.
    pub fn register_hub_only(
        &mut self,
        peer_pub: [u8; 32],
        pubkey_b32: &str,
        fingerprint: String,
    ) -> (h: ConversationHandle)
        requires
            old(self).wf(),
        ensures
            final(self).wf(),
            old(self)@.peers.dom().contains(peer_pub) ==> final(self)@ == old(self)@,
            !old(self)@.peers.dom().contains(peer_pub) ==> final(self)@ == registered(
                old(self)@,
                peer_pub,
                pubkey_b32@,
                fingerprint@,
                h.outbound_tx,
                false,
                stamp(final(self).readings().last()),
            ),
            final(self).readings() == if old(self)@.peers.dom().contains(peer_pub) {
                old(self).readings()
            } else {
                old(self).readings().push(final(self).readings().last())
            },
            is_handle(h, peer_pub, final(self)@.peers[peer_pub]),
            old(self)@.peers.dom().contains(peer_pub) ==> final(self).mailboxes() == old(
                self,
            ).mailboxes(),
            !old(self)@.peers.dom().contains(peer_pub) ==> {
                &&& final(self).mailboxes().len() == old(self).mailboxes().len() + 1
                &&& final(self).mailboxes().drop_last() == old(self).mailboxes()
                &&& final(self).mailboxes().last().tx == h.outbound_tx
                &&& final(self).mailboxes().last().capacity == 1
            },
    {
        if let Some(existing) = self.by_peer.get(&peer_pub) {
            return existing.handle.duplicate();
        }
        let ghost made = self.made@;
        let (tx, _rx) = mailbox(&mut self.made, 1);
        proof {
            assert(self.made@.drop_last() =~= made);
        }
        let now_ms: u64 = now_unix_ms(&mut self.read);
        let handle = ConversationHandle {
            peer_pub,
            short_id: short_id_of(pubkey_b32),
            pubkey_b32: pubkey_b32.to_owned(),
            fingerprint: fingerprint.clone(),
            outbound_tx: same_sender(&tx),
        };
        self.take_up(peer_pub, pubkey_b32, fingerprint, tx, false, now_ms);
        handle
    }

    /// Take note that a peer's session ended, and tell the clients that listen;
    /// `false` where the peer is not known.
    pub fn drop_session(&mut self, peer_pub: &[u8; 32], now_ms: u64) -> (known: bool)
        requires
            old(self).wf(),
        ensures
            final(self).wf(),
            known == old(self)@.peers.dom().contains(*peer_pub),
            final(self)@ == disconnected(old(self)@, *peer_pub, now_ms),
            final(self).mailboxes() == old(self).mailboxes(),
            final(self).readings() == old(self).readings(),
    {
        let ghost before = self@;
        let ghost table = self.by_peer@;
        match self.by_peer.remove(peer_pub) {
            None => {
                proof {
                    assert(self.by_peer@ =~= table);
                    assert(self@ =~= before);
                }
                false
            },
            Some(mut state) => {
                state.connected = false;
                state.last_active_unix_ms = now_ms;
                let peer_short = state.handle.short_id.clone();
                let ghost p = state@;
                self.by_peer.insert(*peer_pub, state);
                proof {
                    assert(p == (PeerModel {
                        connected: false,
                        last_active: now_ms,
                        ..before.peers[*peer_pub]
                    }));
                    self.lemma_replaced(before, table, *peer_pub, p);
                }
                self.tell(ApiEvent::PeerDisconnected { peer_short });
                true
            },
        }
    }

    proof fn lemma_replaced(
        &self,
        before: RegistryModel,
        table: Map<[u8; 32], ConversationState>,
        peer: [u8; 32],
        p: PeerModel,
    )
        requires
            registry_wf(before),
            before.peers == table.map_values(|s: ConversationState| s@),
            table.dom().contains(peer),
            forall|k: [u8; 32]|
                #![trigger table[k]]
                table.dom().contains(k) ==> table[k].handle.peer_pub == k,
            self.by_peer.wf(),
            self.by_short.wf(),
            self.by_short@ == before.short,
            events_of(self.told@) == before.told,
            self.events_tx == before.events,
            self.heard@ == before.listeners,
            all_sent_on(self.tellings(), self.events_tx),
            self.by_peer@.dom().contains(peer),
            self.by_peer@[peer]@ == p,
            self.by_peer@[peer].handle.peer_pub == peer,
            self.by_peer@ == table.remove(peer).insert(peer, self.by_peer@[peer]),
            p.ring.len() <= RING_CAPACITY,
        ensures
            self.wf(),
            self@ == (RegistryModel { peers: before.peers.insert(peer, p), ..before }),
    {
        assert(self@.peers =~= before.peers.insert(peer, p));
        assert forall|k: [u8; 32]| #![trigger self@.peers[k]] self@.peers.dom().contains(
            k,
        ) implies self@.peers[k].ring.len() <= RING_CAPACITY by {
            if k != peer {
                assert(before.peers[k].ring.len() <= RING_CAPACITY);
            }
        }
        assert forall|k: [u8; 32]|
            #![trigger self.by_peer@[k]]
            self.by_peer@.dom().contains(k) implies self.by_peer@[k].handle.peer_pub == k by {
            if k != peer {
                assert(table[k] == self.by_peer@[k]);
            }
        }
        assert forall|s: Seq<char>| #![trigger self@.short[s]] self@.short.dom().contains(
            s,
        ) implies self@.peers.dom().contains(self@.short[s]) by {
            assert(before.peers.dom().contains(before.short[s]));
        }
    }

    /// Take note that a peer's session ended, and tell the clients that listen.
    pub fn mark_disconnected(&mut self, peer_pub: &[u8; 32])
        requires
            old(self).wf(),
        ensures
            final(self).wf(),
            final(self)@ == disconnected(
                old(self)@,
                *peer_pub,
                stamp(final(self).readings().last()),
            ),
            final(self).mailboxes() == old(self).mailboxes(),
            final(self).readings() == if old(self)@.peers.dom().contains(*peer_pub) {
                old(self).readings().push(final(self).readings().last())
            } else {
                old(self).readings()
            },
    {
        if self.by_peer.contains(peer_pub) {
            let now_ms: u64 = now_unix_ms(&mut self.read);
            let _ = self.drop_session(peer_pub, now_ms);
        }
    }

    /// Append a message to a peer's ring, and tell the clients that listen; `false`
    /// where the peer is not known.
    pub fn push_line(
        &mut self,
        peer_pub: &[u8; 32],
        direction: MessageDirection,
        text: String,
        via_hub: bool,
        now_ms: u64,
    ) -> (known: bool)
        requires
            old(self).wf(),
        ensures
            final(self).wf(),
            known == old(self)@.peers.dom().contains(*peer_pub),
            final(self)@ == if known {
                with_line(
                    old(self)@,
                    *peer_pub,
                    (LineModel { direction, text: text@, ts_unix_ms: now_ms, via_hub }),
                )
            } else {
                old(self)@
            },
            final(self).mailboxes() == old(self).mailboxes(),
            final(self).readings() == old(self).readings(),
    {
        let ghost before = self@;
        let ghost table = self.by_peer@;
        match self.by_peer.remove(peer_pub) {
            None => {
                proof {
                    assert(self.by_peer@ =~= table);
                    assert(self@ =~= before);
                }
                false
            },
            Some(mut state) => {
                let ghost ring = lines_of(state.ring@);
                proof {
                    assert(before.peers[*peer_pub].ring == ring);
                }
                if state.ring.len() == RING_CAPACITY {
                    let _ = state.ring.pop_front();
                    proof {
                        assert(lines_of(state.ring@) =~= ring.skip(1));
                    }
                }
                let ghost kept = lines_of(state.ring@);
                let line = ChatLine {
                    direction,
                    text: text.clone(),
                    ts_unix_ms: now_ms,
                    via_hub,
                };
                let ghost l = line@;
                state.ring.push_back(line);
                state.last_active_unix_ms = now_ms;
                let peer_short = state.handle.short_id.clone();
                let ghost p = state@;
                self.by_peer.insert(*peer_pub, state);
                proof {
                    assert(p.ring =~= kept.push(l));
                    assert(p.ring =~= ring_pushed(ring, l));
                    assert(p == (PeerModel {
                        ring: ring_pushed(ring, l),
                        last_active: now_ms,
                        ..before.peers[*peer_pub]
                    }));
                    self.lemma_replaced(before, table, *peer_pub, p);
                }
                self.tell(
                    ApiEvent::Message { peer_short, direction, text, ts_unix_ms: now_ms, via_hub },
                );
                true
            },
        }
    }

    fn push_message_inner(
        &mut self,
        peer_pub: &[u8; 32],
        direction: MessageDirection,
        text: String,
        via_hub: bool,
    ) -> (known: bool)
        requires
            old(self).wf(),
        ensures
            final(self).wf(),
            known == old(self)@.peers.dom().contains(*peer_pub),
            !known ==> final(self)@ == old(self)@,
            final(self).readings() == old(self).readings().push(final(self).readings().last()),
            final(self).mailboxes() == old(self).mailboxes(),
            known ==> final(self)@ == with_line(
                old(self)@,
                *peer_pub,
                (LineModel {
                    direction,
                    text: text@,
                    ts_unix_ms: stamp(final(self).readings().last()),
                    via_hub,
                }),
            ),
    {
        let now_ms: u64 = now_unix_ms(&mut self.read);
        self.push_line(peer_pub, direction, text, via_hub, now_ms)
    }

    /// Append a message of a direct session, and tell the clients that listen;
    /// `false` where the peer is not known.
    pub fn push_message(
        &mut self,
        peer_pub: &[u8; 32],
        direction: MessageDirection,
        text: String,
    ) -> (known: bool)
        requires
            old(self).wf(),
        ensures
            final(self).wf(),
            known == old(self)@.peers.dom().contains(*peer_pub),
            !known ==> final(self)@ == old(self)@,
            final(self).readings() == old(self).readings().push(final(self).readings().last()),
            final(self).mailboxes() == old(self).mailboxes(),
            known ==> final(self)@ == with_line(
                old(self)@,
                *peer_pub,
                (LineModel {
                    direction,
                    text: text@,
                    ts_unix_ms: stamp(final(self).readings().last()),
                    via_hub: false,
                }),
            ),
    {
        self.push_message_inner(peer_pub, direction, text, false)
    }

    /// Append a message that came through a hub, and tell the clients that
    /// listen; `false` where the peer is not known.
    pub fn push_message_via_hub(
        &mut self,
        peer_pub: &[u8; 32],
        direction: MessageDirection,
        text: String,
    ) -> (known: bool)
        requires
            old(self).wf(),
        ensures
            final(self).wf(),
            known == old(self)@.peers.dom().contains(*peer_pub),
            !known ==> final(self)@ == old(self)@,
            final(self).readings() == old(self).readings().push(final(self).readings().last()),
            final(self).mailboxes() == old(self).mailboxes(),
            known ==> final(self)@ == with_line(
                old(self)@,
                *peer_pub,
                (LineModel {
                    direction,
                    text: text@,
                    ts_unix_ms: stamp(final(self).readings().last()),
                    via_hub: true,
                }),
            ),
    {
        self.push_message_inner(peer_pub, direction, text, true)
    }

    /// Tell the clients that listen of a message in a room. Rooms have no ring.
    pub fn push_room_message(
        &mut self,
        group_id: &[u8],
        _sender_peer_pub: [u8; 32],
        text: String,
    ) -> (told: bool)
        requires
            old(self).wf(),
            encodable(group_id@.len()),
        ensures
            final(self).wf(),
            final(self).readings() == old(self).readings().push(final(self).readings().last()),
            final(self)@ == with_room_line(
                old(self)@,
                group_id@,
                text@,
                stamp(final(self).readings().last()),
            ),
            final(self).mailboxes() == old(self).mailboxes(),
            told,
    {
        let now_ms: u64 = now_unix_ms(&mut self.read);
        self.tell(room_event(group_id, text, now_ms));
        true
    }

    /// A handle to a connected peer with this fingerprint.
    pub fn handle_for_fingerprint(&self, fingerprint: &str) -> (r: Option<ConversationHandle>)
        requires
            self.wf(),
        ensures
            is_direct(self@, fingerprint@, r),
    {
        let n: usize = self.by_peer.len();
        let mut i: usize = 0;
        while i < n
            invariant
                i <= n,
                self.wf(),
                n == self.by_peer.listed().len(),
                forall|j: int|
                    #![trigger self.by_peer.listed()[j]]
                    0 <= j < i ==> !(self.by_peer.listed()[j].1@.connected
                        && self.by_peer.listed()[j].1@.fingerprint == fingerprint@),
            decreases n - i,
        {
            let state = self.by_peer.value_at(i);
            if state.connected && same_text(state.handle.fingerprint.as_str(), fingerprint) {
                proof {
                    self.by_peer.lemma_listed();
                    let k = self.by_peer.listed()[i as int].0;
                    assert(self.by_peer@.dom().contains(k));
                    assert(self.by_peer@[k] == *state);
                    assert(self@.peers[k] == state@);
                }
                return Some(state.handle.duplicate());
            }
            i += 1;
        }
        proof {
            self.by_peer.lemma_listed();
            assert forall|k: [u8; 32]| #![trigger self@.peers[k]] self@.peers.dom().contains(
                k,
            ) implies !(self@.peers[k].connected && self@.peers[k].fingerprint == fingerprint@) by {
                assert(self.by_peer@.dom().contains(k));
                let j = choose|j: int|
                    0 <= j < self.by_peer.listed().len() && #[trigger] self.by_peer.listed()[j].0.model()
                        == k;
                assert(self.by_peer@[k] == self.by_peer.listed()[j].1);
            }
        }
        None
    }

    fn labelled_peer(&self, short_id: &str) -> (r: Option<[u8; 32]>)
        requires
            self.wf(),
        ensures
            r == peer_labelled(self@, short_id@),
    {
        let key = short_id.to_owned();
        match self.by_short.get(&key) {
            Some(k) => Some(*k),
            None => None,
        }
    }

    /// A handle to the peer that a label stands for, if its session lives.
    pub fn handle_for_short(&self, short_id: &str) -> (r: Option<ConversationHandle>)
        requires
            self.wf(),
        ensures
            match peer_labelled(self@, short_id@) {
                Some(k) => if self@.peers[k].connected {
                    r matches Some(h) && is_handle(h, k, self@.peers[k])
                } else {
                    r is None
                },
                None => r is None,
            },
    {
        let peer = match self.labelled_peer(short_id) {
            Some(k) => k,
            None => {
                return None;
            },
        };
        match self.by_peer.get(&peer) {
            Some(state) => if state.connected {
                Some(state.handle.duplicate())
            } else {
                None
            },
            None => None,
        }
    }

    /// The latest `limit` messages of the peer that a label stands for, the
    /// oldest first; nothing where no peer has the label.
    pub fn history(&self, short_id: &str, limit: usize) -> (r: Option<Vec<ChatLine>>)
        requires
            self.wf(),
        ensures
            match peer_labelled(self@, short_id@) {
                Some(k) => r matches Some(v) && lines_of(v@) == latest(
                    self@.peers[k].ring,
                    limit as nat,
                ),
                None => r is None,
            },
    {
        let peer = match self.labelled_peer(short_id) {
            Some(k) => k,
            None => {
                return None;
            },
        };
        match self.by_peer.get(&peer) {
            None => None,
            Some(state) => {
                let total: usize = state.ring.len();
                let from: usize = if total > limit {
                    total - limit
                } else {
                    0
                };
                let mut out: Vec<ChatLine> = Vec::new();
                let mut i: usize = from;
                let ghost ring = lines_of(state.ring@);
                while i < total
                    invariant
                        from <= i <= total,
                        total == state.ring@.len(),
                        ring == lines_of(state.ring@),
                        lines_of(out@) == ring.subrange(from as int, i as int),
                    decreases total - i,
                {
                    let ghost before = lines_of(out@);
                    let line = state.ring[i].duplicate();
                    let ghost l = line@;
                    out.push(line);
                    proof {
                        assert(lines_of(out@) =~= before.push(l));
                        assert(ring[i as int] == l);
                        assert(ring.subrange(from as int, i + 1) =~= before.push(l));
                    }
                    i += 1;
                }
                proof {
                    assert(self@.peers[peer].ring == ring);
                    assert(ring.subrange(from as int, total as int) =~= latest(ring, limit as nat));
                }
                Some(out)
            },
        }
    }

    /// Whether the last message of every peer can be shown.
    pub fn previews_fit(&self) -> (r: bool)
        requires
            self.wf(),
        ensures
            r == can_list(self@),
    {
        let n: usize = self.by_peer.len();
        let mut i: usize = 0;
        while i < n
            invariant
                i <= n,
                self.wf(),
                n == self.by_peer.listed().len(),
                forall|j: int|
                    #![trigger self.by_peer.listed()[j]]
                    0 <= j < i && self.by_peer.listed()[j].1@.ring.len() > 0 ==> can_preview(
                        self.by_peer.listed()[j].1@.ring.last().text,
                    ),
            decreases n - i,
        {
            let state = self.by_peer.value_at(i);
            let len: usize = state.ring.len();
            if len > 0 {
                let text = state.ring[len - 1].text.as_str();
                proof {
                    assert(state@.ring.last().text == text@);
                }
                if text.as_bytes().len() > 64 && !text.is_char_boundary(64) {
                    proof {
                        self.by_peer.lemma_listed();
                        let k = self.by_peer.listed()[i as int].0;
                        assert(self.by_peer@[k] == *state);
                        assert(self@.peers[k] == state@);
                    }
                    return false;
                }
            }
            i += 1;
        }
        proof {
            self.by_peer.lemma_listed();
            assert forall|k: [u8; 32]| #![trigger self@.peers[k]] self@.peers.dom().contains(k)
                && self@.peers[k].ring.len() > 0 implies can_preview(
                self@.peers[k].ring.last().text,
            ) by {
                assert(self.by_peer@.dom().contains(k));
                let j = choose|j: int|
                    0 <= j < self.by_peer.listed().len() && #[trigger] self.by_peer.listed()[j].0.model()
                        == k;
                assert(self.by_peer@[k] == self.by_peer.listed()[j].1);
            }
        }
        true
    }

    /// The keys of the known peers, each once.
    pub closed spec fn roster(&self) -> Seq<[u8; 32]> {
        keys_of(self.by_peer.listed())
    }

    /// What is known of every peer, live or not.
    pub fn list(&self) -> (out: Vec<PeerInfo>)
        requires
            self.wf(),
            can_list(self@),
        ensures
            self.roster().no_duplicates(),
            self.roster().to_set() == self@.peers.dom(),
            out@.len() == self.roster().len(),
            forall|i: int|
                0 <= i < out@.len() ==> is_info(#[trigger] out@[i], self@.peers[self.roster()[i]]),
    {
        let n: usize = self.by_peer.len();
        let mut out: Vec<PeerInfo> = Vec::new();
        let mut i: usize = 0;
        proof {
            self.by_peer.lemma_listed();
            assert(self.roster().to_set() =~= self@.peers.dom()) by {
                assert forall|k: [u8; 32]| self.roster().to_set().contains(k)
                    <==> self@.peers.dom().contains(k) by {
                    if self.roster().contains(k) {
                        let j = choose|j: int| 0 <= j < self.roster().len() && self.roster()[j] == k;
                        assert(self.by_peer.listed()[j].0.model() == k);
                    }
                    if self@.peers.dom().contains(k) {
                        assert(self.by_peer@.dom().contains(k));
                        let j = choose|j: int|
                            0 <= j < self.by_peer.listed().len()
                                && #[trigger] self.by_peer.listed()[j].0.model() == k;
                        assert(self.roster()[j] == k);
                    }
                }
            }
        }
        while i < n
            invariant
                i <= n,
                self.wf(),
                can_list(self@),
                n == self.by_peer.listed().len(),
                out@.len() == i,
                forall|j: int|
                    0 <= j < i ==> is_info(#[trigger] out@[j], self@.peers[self.roster()[j]]),
            decreases n - i,
        {
            let state = self.by_peer.value_at(i);
            proof {
                self.by_peer.lemma_listed();
                let k = self.by_peer.listed()[i as int].0;
                assert(self.roster()[i as int] == k);
                assert(self.by_peer@.dom().contains(k));
                assert(self.by_peer@[k] == *state);
                assert(self@.peers[k] == state@);
            }
            out.push(info_of(state));
            i += 1;
        }
        out
    }
}

/// What clients are told of a peer.
fn info_of(state: &ConversationState) -> (i: PeerInfo)
    requires
        state@.ring.len() > 0 ==> can_preview(state@.ring.last().text),
    ensures
        is_info(i, state@),
{
    let len: usize = state.ring.len();
    let last_message_preview = if len == 0 {
        None
    } else {
        proof {
            assert(state@.ring.last().text == state.ring@[len - 1].text@);
        }
        Some(preview(state.ring[len - 1].text.as_str()))
    };
    PeerInfo {
        short_id: state.handle.short_id.clone(),
        pubkey_b32: state.handle.pubkey_b32.clone(),
        fingerprint: state.handle.fingerprint.clone(),
        connected: state.connected,
        last_message_preview,
        last_active_unix_ms: state.last_active_unix_ms,
    }
}

/// The first 64 bytes of a text and an ellipsis, or all of a shorter text.
fn preview(text: &str) -> (s: String)
    requires
        can_preview(text@),
    ensures
        is_preview(text@, s@),
{
    if text.as_bytes().len() > 64 {
        let (head, _) = text.split_at(64);
        let mut s = head.to_owned();
        s.push('…');
        assert(encode_utf8(head@) == encode_utf8(text@).subrange(0, 64));
        s
    } else {
        text.to_owned()
    }
}

/// The event of a message in a room.
pub fn room_event(group_id: &[u8], text: String, now_ms: u64) -> (e: ApiEvent)
    requires
        encodable(group_id@.len()),
    ensures
        e@ == room_event_of(group_id@, text@, now_ms),
{
    ApiEvent::Message {
        peer_short: join2("room/", short_id_of_group(group_id).as_str()),
        direction: MessageDirection::Incoming,
        text,
        ts_unix_ms: now_ms,
        via_hub: false,
    }
}

impl Default for ConversationRegistry {
    fn default() -> (r: Self)
        ensures
            r.wf(),
            r@.peers == Map::<[u8; 32], PeerModel>::empty(),
            r@.short == Map::<Seq<char>, [u8; 32]>::empty(),
            r@.told == Seq::<EventModel>::empty(),
            r.stations() == seq![
                Station { tx: r@.events, capacity: 1024 },
            ],
            r.tellings() == Seq::<Telling<ApiEvent>>::empty(),
            r@.listeners == Seq::<Listener<ApiEvent>>::empty(),
            r.mailboxes() == Seq::<Ends<PeerOutbound>>::empty(),
            r.readings() == Seq::<WallReading>::empty(),
    {
        Self::new()
    }
}

/// Whoever listens is on the channel that events are told on: every receiver that
/// was made, and every event that was sent, is on the one channel of the registry.
pub proof fn law_one_channel(r: &ConversationRegistry, i: int, j: int)
    requires
        r.wf(),
        0 <= i < r@.listeners.len(),
        0 <= j < r@.told.len(),
    ensures
        events_of(r.tellings()) == r@.told,
        r@.listeners[i].on == r.tellings()[j].on,
{
}

/// A label cannot be taken over: once it stands for a peer, registering others
/// leaves it with that peer.
pub proof fn law_label_stays(
    m: RegistryModel,
    other: [u8; 32],
    pubkey_b32: Seq<char>,
    fingerprint: Seq<char>,
    tx: mpsc::Sender<PeerOutbound>,
    connected: bool,
    now_ms: u64,
    label: Seq<char>,
)
    requires
        peer_labelled(m, label) is Some,
    ensures
        peer_labelled(registered(m, other, pubkey_b32, fingerprint, tx, connected, now_ms), label)
            == peer_labelled(m, label),
        registered(m, other, pubkey_b32, fingerprint, tx, connected, now_ms).peers.dom().contains(
            other,
        ),
{
}

/// The ring after messages came one after the other.
pub open spec fn ring_after(ring: Seq<LineModel>, lines: Seq<LineModel>) -> Seq<LineModel>
    decreases lines.len(),
{
    if lines.len() == 0 {
        ring
    } else {
        ring_pushed(ring_after(ring, lines.drop_last()), lines.last())
    }
}

/// The ring holds the latest messages and nothing else: whatever came, it is the
/// last of it, in order, up to the capacity.
pub proof fn law_ring_holds_latest(lines: Seq<LineModel>)
    ensures
        ring_after(Seq::empty(), lines) == latest(lines, RING_CAPACITY as nat),
        ring_after(Seq::empty(), lines).len() <= RING_CAPACITY,
    decreases lines.len(),
{
    if lines.len() > 0 {
        let p = lines.drop_last();
        law_ring_holds_latest(p);
        let r = ring_after(Seq::empty(), p);
        assert(ring_pushed(r, lines.last()) =~= latest(lines, RING_CAPACITY as nat));
    } else {
        assert(latest(lines, RING_CAPACITY as nat) =~= Seq::<LineModel>::empty());
    }
}

/// The end of a session loses nothing: the peer, its label and its messages stay,
/// only nothing can be sent to it.
pub proof fn law_disconnect_keeps_history(m: RegistryModel, peer: [u8; 32], now_ms: u64)
    requires
        m.peers.dom().contains(peer),
    ensures
        disconnected(m, peer, now_ms).short == m.short,
        disconnected(m, peer, now_ms).peers.dom() == m.peers.dom(),
        disconnected(m, peer, now_ms).peers[peer].ring == m.peers[peer].ring,
        !disconnected(m, peer, now_ms).peers[peer].connected,
{
    assert(disconnected(m, peer, now_ms).peers.dom() =~= m.peers.dom());
}

/// Whether a message came through a hub is kept with it: what was appended last
/// is the last line of the history, with its mark, and the last that the clients
/// were told.
pub proof fn law_last_line_is_kept(m: RegistryModel, peer: [u8; 32], line: LineModel, limit: nat)
    requires
        m.peers.dom().contains(peer),
        limit > 0,
    ensures
        latest(with_line(m, peer, line).peers[peer].ring, limit).len() > 0,
        latest(with_line(m, peer, line).peers[peer].ring, limit).last() == line,
        with_line(m, peer, line).told.last() == EventModel::Message(m.peers[peer].short_id, line),
{
}

/// A peer that is registered is known by its key with the first eight characters of that
/// key as its label, as its session is, without messages yet; the clients that listen
/// are told. Its label leads to it unless it led to another peer before. Other peers
/// stay as they are.
pub proof fn law_registering(
    m: RegistryModel,
    peer: [u8; 32],
    pubkey_b32: Seq<char>,
    fingerprint: Seq<char>,
    tx: mpsc::Sender<PeerOutbound>,
    connected: bool,
    now_ms: u64,
    other: [u8; 32],
)
    requires
        pubkey_b32.len() >= 8,
        other != peer,
    ensures
        ({
            let n = registered(m, peer, pubkey_b32, fingerprint, tx, connected, now_ms);
            let p = n.peers[peer];
            let label = pubkey_b32.take(8);
            &&& n.peers.dom().contains(peer)
            &&& p.short_id == label
            &&& p.pubkey_b32 == pubkey_b32
            &&& p.fingerprint == fingerprint
            &&& p.outbound_tx == tx
            &&& p.connected == connected
            &&& p.ring.len() == 0
            &&& p.last_active == now_ms
            &&& n.short.dom().contains(label)
            &&& n.short[label] == (if m.short.dom().contains(label) {
                m.short[label]
            } else {
                peer
            })
            &&& n.peers.dom().contains(other) == m.peers.dom().contains(other)
            &&& m.peers.dom().contains(other) ==> n.peers[other] == m.peers[other]
            &&& n.told.len() == m.told.len() + 1
            &&& n.told.drop_last() == m.told
            &&& n.told.last() matches EventModel::PeerConnected(i)
            &&& i.short_id == label && i.pubkey_b32 == pubkey_b32 && i.fingerprint == fingerprint
                && i.connected == connected && i.last_active == now_ms && i.preview is None
        }),
{
    let n = registered(m, peer, pubkey_b32, fingerprint, tx, connected, now_ms);
    assert(short_label(pubkey_b32) =~= pubkey_b32.take(8));
    assert(n.told.drop_last() =~= m.told);
}

/// A message goes into the ring of its peer, behind those that are there, and the oldest
/// goes once there are two hundred; nothing else of the peer changes but when it was last
/// active, and no other peer changes at all.
pub proof fn law_message_goes_to_its_peer(
    m: RegistryModel,
    peer: [u8; 32],
    line: LineModel,
    other: [u8; 32],
)
    requires
        registry_wf(m),
        m.peers.dom().contains(peer),
        other != peer,
    ensures
        ({
            let n = with_line(m, peer, line);
            let had = m.peers[peer];
            let has = n.peers[peer];
            &&& has.ring.len() == (if had.ring.len() < 200 {
                had.ring.len() + 1
            } else {
                200
            })
            &&& has.ring.last() == line
            &&& forall|i: int|
                0 <= i < has.ring.len() - 1 ==> #[trigger] has.ring[i] == had.ring[i + (
                had.ring.len() + 1 - has.ring.len())]
            &&& has.last_active == line.ts_unix_ms
            &&& has.connected == had.connected
            &&& has.short_id == had.short_id
            &&& has.fingerprint == had.fingerprint
            &&& has.outbound_tx == had.outbound_tx
            &&& n.short == m.short
            &&& n.peers.dom().contains(other) == m.peers.dom().contains(other)
            &&& m.peers.dom().contains(other) ==> n.peers[other] == m.peers[other]
            &&& n.told == m.told.push(EventModel::Message(had.short_id, line))
        }),
{
    assert(m.peers[peer].ring.len() <= 200);
}

/// The end of a session marks its peer as gone and tells the clients that listen; other
/// peers stay as they are, and an unknown peer changes nothing.
pub proof fn law_session_ends(m: RegistryModel, peer: [u8; 32], now_ms: u64, other: [u8; 32])
    requires
        other != peer,
    ensures
        ({
            let n = disconnected(m, peer, now_ms);
            &&& !m.peers.dom().contains(peer) ==> n == m
            &&& m.peers.dom().contains(peer) ==> !n.peers[peer].connected
                && n.peers[peer].last_active == now_ms && n.peers[peer].fingerprint
                == m.peers[peer].fingerprint && n.told == m.told.push(
                EventModel::PeerDisconnected(m.peers[peer].short_id),
            )
            &&& n.peers.dom().contains(other) == m.peers.dom().contains(other)
            &&& m.peers.dom().contains(other) ==> n.peers[other] == m.peers[other]
        }),
{
}

/// A history of at most so many messages is the end of what is kept, in order: all of it
/// if it is no longer, and else exactly so many.
pub proof fn law_latest_messages(ring: Seq<LineModel>, limit: nat, i: int)
    requires
        0 <= i < latest(ring, limit).len(),
    ensures
        latest(ring, limit).len() == (if ring.len() < limit {
            ring.len()
        } else {
            limit
        }),
        latest(ring, limit)[i] == ring[ring.len() - latest(ring, limit).len() + i],
{
}

/// A history of no messages is empty, and one that may hold all holds all.
pub proof fn law_history_limits(ring: Seq<LineModel>)
    ensures
        latest(ring, 0) == Seq::<LineModel>::empty(),
        latest(ring, ring.len()) == ring,
{
    assert(latest(ring, 0) =~= Seq::<LineModel>::empty());
}

/// A message in a room is told under the room's key as an incoming one, with its text and
/// time, and is put into no peer's ring.
pub proof fn law_room_message_is_told(
    m: RegistryModel,
    group_id: Seq<u8>,
    text: Seq<char>,
    now_ms: u64,
)
    ensures
        ({
            let n = with_room_line(m, group_id, text, now_ms);
            &&& n.peers == m.peers
            &&& n.short == m.short
            &&& n.told.len() == m.told.len() + 1
            &&& n.told.drop_last() == m.told
            &&& n.told.last() matches EventModel::Message(key, line)
            &&& key == "room/"@ + short_label(crate::codec::b32_encoded(group_id))
            &&& line.direction == MessageDirection::Incoming
            &&& line.text == text
            &&& line.ts_unix_ms == now_ms
            &&& !line.via_hub
        }),
{
    assert(with_room_line(m, group_id, text, now_ms).told.drop_last() =~= m.told);
}

/// The session that is found for a fingerprint is one of a peer with that fingerprint that
/// is connected; none is found only where there is no such peer.
pub proof fn law_direct_session(
    m: RegistryModel,
    fingerprint: Seq<char>,
    r: Option<ConversationHandle>,
    peer: [u8; 32],
)
    requires
        is_direct(m, fingerprint, r),
        m.peers.dom().contains(peer),
        m.peers[peer].connected,
        m.peers[peer].fingerprint == fingerprint,
    ensures
        r matches Some(h) && m.peers.dom().contains(h.peer_pub) && m.peers[h.peer_pub].connected
            && m.peers[h.peer_pub].fingerprint == fingerprint && h.outbound_tx
            == m.peers[h.peer_pub].outbound_tx,
{
}

/// What clients are shown of a peer is what is known of it, with the beginning of the last
/// message: all of it up to 64 bytes, else its first 64 bytes and an ellipsis.
pub proof fn law_peer_is_shown(i: PeerInfo, p: PeerModel)
    requires
        is_info(i, p),
    ensures
        i.short_id@ == p.short_id,
        i.pubkey_b32@ == p.pubkey_b32,
        i.fingerprint@ == p.fingerprint,
        i.connected <==> p.connected,
        i.last_active_unix_ms == p.last_active,
        i.last_message_preview is None <==> p.ring.len() == 0,
        i.last_message_preview matches Some(s) ==> {
            let text = p.ring[p.ring.len() - 1].text;
            &&& encode_utf8(text).len() <= 64 ==> s@ == text
            &&& encode_utf8(text).len() > 64 ==> s@.len() > 0 && s@.last() == '…' && encode_utf8(
                s@.drop_last(),
            ) == encode_utf8(text).take(64)
        },
{
    if let Some(s) = i.last_message_preview {
        let text = p.ring.last().text;
        if encode_utf8(text).len() > 64 {
            let head = choose|head: Seq<char>|
                #![trigger encode_utf8(head)]
                encode_utf8(head) == encode_utf8(text).subrange(0, 64) && s@ == head.push('…');
            assert(s@.drop_last() =~= head);
            assert(encode_utf8(text).subrange(0, 64) =~= encode_utf8(text).take(64));
        }
    }
}

/// A handle to a peer names the peer itself, and leads to its session.
pub proof fn law_handles(h: ConversationHandle, peer: [u8; 32], p: PeerModel)
    requires
        is_handle(h, peer, p),
    ensures
        h.peer_pub == peer,
        h.short_id@ == p.short_id,
        h.pubkey_b32@ == p.pubkey_b32,
        h.fingerprint@ == p.fingerprint,
        h.outbound_tx == p.outbound_tx,
{
}

} // verus!
