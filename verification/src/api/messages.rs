//! Texts: to a peer with a session, to a room, and to someone for the first time.
use vstd::prelude::*;

use tokio::sync::mpsc;

use crate::api::contact::{changed_key_text, is_blocked, pin_block};
use crate::api::error::{malformed, not_ready, ApiError, ApiErrorCode};
use crate::api::fanout::{
    fan_out_deliver, is_outcome, is_push, member_list, new_outcomes, others, recipients,
};
use crate::channel::{try_push, Offer, PushError, Record};
use crate::clock::stamp;
use crate::conversations::{
    is_handle, latest, lines_of, peer_labelled, with_line, ChatLine, ConversationHandle,
    ConversationRegistry, EventModel, LineModel, MessageDirection, PeerOutbound, RegistryModel,
    RING_CAPACITY,
};
use crate::daemon::HubConfig;
use crate::hub::gossip::RoutingId;
use crate::hub_client::HubOutbound;
use crate::roster::{find_row, law_row_is_found, row_of, RoomRow};
use crate::text::{join2, join3, nonempty_pieces, same_text, texts};

verus! {

/// A hub as clients are shown it.
pub open spec fn hub_line(h: HubConfig) -> Seq<char> {
    h.onion@ + ","@ + h.pubkey@
}

/// The hubs as clients are shown them, in the order of the settings.
pub fn hub_lines(hubs: &Vec<HubConfig>) -> (v: Vec<String>)
    ensures
        v@.len() == hubs@.len(),
        forall|i: int| 0 <= i < v@.len() ==> (#[trigger] v@[i])@ == hub_line(hubs@[i]),
{
    let mut v: Vec<String> = Vec::new();
    let mut i: usize = 0;
    while i < hubs.len()
        invariant
            i <= hubs@.len(),
            v@.len() == i,
            forall|j: int| 0 <= j < v@.len() ==> (#[trigger] v@[j])@ == hub_line(hubs@[j]),
        decreases hubs@.len() - i,
    {
        v.push(join3(hubs[i].onion.as_str(), ",", hubs[i].pubkey.as_str()));
        i += 1;
    }
    v
}

/// The latest messages with a peer, no more than are kept.
pub fn history(registry: &ConversationRegistry, peer_short: &str, limit: u32) -> (r: Result<
    Vec<ChatLine>,
    ApiError,
>)
    requires
        registry.wf(),
    ensures
        match peer_labelled(registry@, peer_short@) {
            Some(k) => r matches Ok(v) && lines_of(v@) == latest(
                registry@.peers[k].ring,
                limit as nat,
            ),
            None => r matches Err(e) && e@ == (
                ApiErrorCode::NotReady,
                "no peer with short_id "@ + peer_short@,
            ),
        },
{
    let clamped: usize = if limit < RING_CAPACITY as u32 {
        limit as usize
    } else {
        RING_CAPACITY
    };
    match registry.history(peer_short, clamped) {
        Some(v) => {
            proof {
                let k = peer_labelled(registry@, peer_short@)->0;
                assert(registry@.peers[k].ring.len() <= RING_CAPACITY);
            }
            Ok(v)
        },
        None => Err(not_ready(join2("no peer with short_id ", peer_short).as_str())),
    }
}

/// A handle to the peer that a label stands for, or what is said where there is
/// none.
pub open spec fn is_live_peer(
    r: Result<ConversationHandle, ApiError>,
    registry: crate::conversations::RegistryModel,
    label: Seq<char>,
    otherwise: Seq<char>,
) -> bool {
    match peer_labelled(registry, label) {
        Some(k) => if registry.peers[k].connected {
            r matches Ok(h) && is_handle(h, k, registry.peers[k])
        } else {
            r matches Err(e) && e@ == (ApiErrorCode::NotReady, otherwise)
        },
        None => r matches Err(e) && e@ == (ApiErrorCode::NotReady, otherwise),
    }
}

/// The peer to send a text to.
pub fn live_peer(registry: &ConversationRegistry, peer_short: &str) -> (r: Result<
    ConversationHandle,
    ApiError,
>)
    requires
        registry.wf(),
    ensures
        is_live_peer(
            r,
            registry@,
            peer_short@,
            "no live conversation with peer "@ + peer_short@,
        ),
{
    match registry.handle_for_short(peer_short) {
        Some(h) => Ok(h),
        None => Err(not_ready(join2("no live conversation with peer ", peer_short).as_str())),
    }
}

/// What is said of a text that a session did or did not take.
pub open spec fn push_refusal(e: PushError, peer_short: Seq<char>) -> Seq<char> {
    match e {
        PushError::Full => "outbound queue full for peer "@ + peer_short,
        PushError::Closed => "peer "@ + peer_short + " disconnected before send"@,
    }
}

/// Answer for a text that a session did or did not take.
pub fn push_answer(pushed: Result<(), PushError>, peer_short: &str) -> (r: Result<(), ApiError>)
    ensures
        match pushed {
            Ok(_) => r is Ok,
            Err(why) => r matches Err(e) && e@ == (
                ApiErrorCode::NotReady,
                push_refusal(why, peer_short@),
            ),
        },
{
    match pushed {
        Ok(_) => Ok(()),
        Err(PushError::Full) => Err(
            not_ready(join2("outbound queue full for peer ", peer_short).as_str()),
        ),
        Err(PushError::Closed) => Err(
            not_ready(join3("peer ", peer_short, " disconnected before send").as_str()),
        ),
    }
}

/// This text was offered to this session.
pub open spec fn is_text(
    o: Offer<PeerOutbound>,
    to: mpsc::Sender<PeerOutbound>,
    text: Seq<char>,
) -> bool {
    &&& o.to == to
    &&& o.message matches PeerOutbound::Dm(s) && s@ == text
}

/// The registry after a text of ours was sent to a peer.
pub open spec fn with_sent_text(
    m: RegistryModel,
    peer: [u8; 32],
    text: Seq<char>,
    ts_unix_ms: u64,
) -> RegistryModel {
    if m.peers.dom().contains(peer) {
        with_line(
            m,
            peer,
            LineModel { direction: MessageDirection::Outgoing, text, ts_unix_ms, via_hub: false },
        )
    } else {
        m
    }
}

/// Send a text to a peer with a session. It is put into the peer's ring exactly
/// if the session took it; nothing is sent to a contact whose key has changed.
pub fn send_text(
    sent: &mut Record<Offer<PeerOutbound>>,
    registry: &mut ConversationRegistry,
    peer_short: &str,
    handle: &ConversationHandle,
    changed: Option<bool>,
    text: &str,
) -> (r: Result<(), ApiError>)
    requires
        old(registry).wf(),
    ensures
        final(registry).wf(),
        is_blocked(handle.fingerprint@, changed) ==> final(sent)@ == old(sent)@ && (r matches Err(
            e,
        ) && e@ == (ApiErrorCode::Malformed, changed_key_text(handle.fingerprint@))),
        !is_blocked(handle.fingerprint@, changed) ==> {
            &&& final(sent)@.len() == old(sent)@.len() + 1
            &&& final(sent)@.drop_last() == old(sent)@
            &&& is_text(final(sent)@.last(), handle.outbound_tx, text@)
            &&& match final(sent)@.last().outcome {
                Ok(_) => r is Ok,
                Err(why) => r matches Err(e) && e@ == (
                    ApiErrorCode::NotReady,
                    push_refusal(why, peer_short@),
                ),
            }
        },
        r is Err ==> final(registry)@ == old(registry)@,
        final(registry).readings() == if r is Ok {
            old(registry).readings().push(final(registry).readings().last())
        } else {
            old(registry).readings()
        },
        r is Ok ==> final(registry)@ == with_sent_text(
            old(registry)@,
            handle.peer_pub,
            text@,
            stamp(final(registry).readings().last()),
        ),
{
    if let Some(e) = pin_block(handle.fingerprint.as_str(), changed) {
        return Err(e);
    }
    let ghost before = sent@;
    let pushed = try_push(sent, &handle.outbound_tx, PeerOutbound::Dm(text.to_owned()));
    proof {
        assert(sent@.drop_last() =~= before);
    }
    match push_answer(pushed, peer_short) {
        Err(e) => Err(e),
        Ok(_) => {
            let _ = registry.push_message(
                &handle.peer_pub,
                MessageDirection::Outgoing,
                text.to_owned(),
            );
            Ok(())
        },
    }
}

/// The row of a room that something is sent to.
pub fn room_to_send(rows: &Vec<RoomRow>, group_id: &[u8]) -> (r: Result<usize, ApiError>)
    ensures
        match row_of(rows@, group_id@, 0) {
            Some(i) => r matches Ok(k) && k == i && k < rows@.len(),
            None => r matches Err(e) && e@ == (
                ApiErrorCode::Malformed,
                "no room with that group_id"@,
            ),
        },
{
    match find_row(rows, group_id) {
        Some(i) => Ok(i),
        None => Err(malformed("no room with that group_id")),
    }
}

/// What is said where a room has a row and no group.
pub fn no_group_state() -> (e: ApiError)
    ensures
        e@ == (
            ApiErrorCode::Malformed,
            "MLS state has no group with that group_id (vault drift?)"@,
        ),
{
    malformed("MLS state has no group with that group_id (vault drift?)")
}

/// The first member other than ourselves that nothing may be sent to.
pub open spec fn first_blocked(
    members: Seq<Seq<char>>,
    ours: Seq<char>,
    changed: Seq<Option<bool>>,
    from: int,
) -> Option<int>
    decreases members.len() - from,
{
    if from < 0 || from >= members.len() {
        None
    } else if members[from] != ours && is_blocked(members[from], changed[from]) {
        Some(from)
    } else {
        first_blocked(members, ours, changed, from + 1)
    }
}

/// Refuse to send to a room if the key of a member has changed. `changed` says so
/// of each member, as far as it could be read.
pub fn check_members(members: &Vec<String>, our_fp: &str, changed: &Vec<Option<bool>>) -> (r:
    Result<(), ApiError>)
    requires
        changed@.len() == members@.len(),
    ensures
        match first_blocked(texts(members@), our_fp@, changed@, 0) {
            Some(i) => r matches Err(e) && e@ == (
                ApiErrorCode::Malformed,
                changed_key_text(members@[i]@),
            ),
            None => r is Ok,
        },
{
    let mut i: usize = 0;
    while i < members.len()
        invariant
            i <= members@.len(),
            changed@.len() == members@.len(),
            first_blocked(texts(members@), our_fp@, changed@, 0) == first_blocked(
                texts(members@),
                our_fp@,
                changed@,
                i as int,
            ),
        decreases members@.len() - i,
    {
        if !same_text(members[i].as_str(), our_fp) {
            if let Some(e) = pin_block(members[i].as_str(), changed[i]) {
                return Err(e);
            }
        }
        i += 1;
    }
    Ok(())
}

/// The names of those in a room.
pub open spec fn names_in(row: RoomRow) -> Seq<Seq<char>> {
    nonempty_pieces(row.members_b32@, ',')
}

/// The members of a room that something is sent to: of each of them it has to be read
/// whether its key has changed.
pub fn room_members(rows: &Vec<RoomRow>, group_id: &[u8]) -> (r: Result<Vec<String>, ApiError>)
    ensures
        match row_of(rows@, group_id@, 0) {
            Some(i) => r matches Ok(v) && texts(v@) == names_in(rows@[i]),
            None => r matches Err(e) && e@ == (
                ApiErrorCode::Malformed,
                "no room with that group_id"@,
            ),
        },
{
    match room_to_send(rows, group_id) {
        Ok(i) => Ok(member_list(rows[i].members_b32.as_str())),
        Err(e) => Err(e),
    }
}

/// Why nothing is sent to a room, if so.
pub open spec fn refusal(
    rows: Seq<RoomRow>,
    group_id: Seq<u8>,
    ours: Seq<char>,
    changed: Seq<Option<bool>>,
) -> Option<(ApiErrorCode, Seq<char>)> {
    match row_of(rows, group_id, 0) {
        None => Some((ApiErrorCode::Malformed, "no room with that group_id"@)),
        Some(i) => match first_blocked(names_in(rows[i]), ours, changed, 0) {
            Some(k) => Some((ApiErrorCode::Malformed, changed_key_text(names_in(rows[i])[k]))),
            None => None,
        },
    }
}

/// To whom something for a room goes, if anything may be sent to it: to everyone in it
/// but ourselves. `changed` says of each member whether its key has changed, as far as
/// that could be read.
pub fn room_recipients(
    rows: &Vec<RoomRow>,
    group_id: &[u8],
    our_fp: &str,
    changed: &Vec<Option<bool>>,
) -> (r: Result<Vec<String>, ApiError>)
    requires
        row_of(rows@, group_id@, 0) matches Some(i) ==> changed@.len() == names_in(rows@[i]).len(),
    ensures
        match refusal(rows@, group_id@, our_fp@, changed@) {
            Some(why) => r matches Err(e) && e@ == why,
            None => r matches Ok(v) && texts(v@) == others(
                names_in(rows@[row_of(rows@, group_id@, 0)->0]),
                our_fp@,
                None,
            ),
        },
{
    match room_to_send(rows, group_id) {
        Err(e) => Err(e),
        Ok(i) => {
            let members = member_list(rows[i].members_b32.as_str());
            proof {
                assert(texts(members@).len() == members@.len());
            }
            match check_members(&members, our_fp, changed) {
                Err(e) => {
                    proof {
                        lemma_first_blocked(texts(members@), our_fp@, changed@, 0);
                    }
                    Err(e)
                },
                Ok(_) => Ok(recipients(rows[i].members_b32.as_str(), our_fp, None)),
            }
        },
    }
}

proof fn lemma_first_blocked(
    members: Seq<Seq<char>>,
    ours: Seq<char>,
    changed: Seq<Option<bool>>,
    from: int,
)
    ensures
        first_blocked(members, ours, changed, from) matches Some(i) ==> 0 <= i < members.len(),
    decreases members.len() - from,
{
    if 0 <= from < members.len() {
        lemma_first_blocked(members, ours, changed, from + 1);
    }
}

/// A room message is refused as a whole if the key of any other member has
/// changed: nothing goes to those whose keys have not.
pub proof fn law_one_changed_key_stops_all(
    members: Seq<Seq<char>>,
    ours: Seq<char>,
    changed: Seq<Option<bool>>,
    from: int,
    i: int,
)
    requires
        0 <= from <= i < members.len(),
        members[i] != ours,
        is_blocked(members[i], changed[i]),
    ensures
        first_blocked(members, ours, changed, from) is Some,
    decreases i - from,
{
    if from < i {
        law_one_changed_key_stops_all(members, ours, changed, from + 1, i);
    }
}

/// Send a first message: one hub that takes it is enough.
pub fn send_first_message(
    sent: &mut Record<Offer<HubOutbound>>,
    hubs: &Vec<mpsc::Sender<HubOutbound>>,
    target: RoutingId,
    sealed: &[u8],
) -> (r: Result<usize, ApiError>)
    ensures
        is_push(old(sent)@, final(sent)@, hubs@, target, sealed@),
        is_outcome(r, new_outcomes(old(sent)@, final(sent)@), "no hub accepted the delivery"@),
{
    fan_out_deliver(sent, hubs, target, sealed, "no hub accepted the delivery")
}

/// Send an invitation: one hub that takes it is enough.
pub fn send_welcome(
    sent: &mut Record<Offer<HubOutbound>>,
    hubs: &Vec<mpsc::Sender<HubOutbound>>,
    target: RoutingId,
    sealed: &[u8],
) -> (r: Result<usize, ApiError>)
    ensures
        is_push(old(sent)@, final(sent)@, hubs@, target, sealed@),
        is_outcome(r, new_outcomes(old(sent)@, final(sent)@), "no hub accepted the Welcome envelope"@),
{
    fan_out_deliver(sent, hubs, target, sealed, "no hub accepted the Welcome envelope")
}

/// A text that was sent is the last of the peer's messages, as one of our own that did not
/// go through a hub, and the clients that listen are told of it.
pub proof fn law_sent_text_is_kept(
    m: RegistryModel,
    peer: [u8; 32],
    text: Seq<char>,
    ts_unix_ms: u64,
)
    requires
        m.peers.dom().contains(peer),
    ensures
        ({
            let n = with_sent_text(m, peer, text, ts_unix_ms);
            let line = n.peers[peer].ring.last();
            &&& n.peers[peer].ring.len() > 0
            &&& line.direction == MessageDirection::Outgoing
            &&& line.text == text
            &&& line.ts_unix_ms == ts_unix_ms
            &&& !line.via_hub
            &&& n.told.last() matches EventModel::Message(_, told)
            &&& told == line
        }),
{
}

/// A label leads to a session exactly if it stands for a peer that is connected, and then
/// to that peer's.
pub proof fn law_live_peer(
    r: Result<ConversationHandle, ApiError>,
    m: RegistryModel,
    label: Seq<char>,
    otherwise: Seq<char>,
)
    requires
        is_live_peer(r, m, label, otherwise),
    ensures
        r is Ok <==> m.short.dom().contains(label) && m.peers[m.short[label]].connected,
        r matches Ok(h) ==> h.peer_pub == m.short[label] && h.outbound_tx
            == m.peers[h.peer_pub].outbound_tx && h.fingerprint@ == m.peers[h.peer_pub].fingerprint,
        r matches Err(e) ==> e@ == (ApiErrorCode::NotReady, otherwise),
{
}

/// Something is sent to a room exactly if the room has a row and no member of it but
/// ourselves has a key that is known to have changed.
pub proof fn law_room_may_be_sent_to(
    rows: Seq<RoomRow>,
    group_id: Seq<u8>,
    ours: Seq<char>,
    changed: Seq<Option<bool>>,
)
    ensures
        refusal(rows, group_id, ours, changed) is None <==> exists|i: int|
            {
                &&& 0 <= i < rows.len()
                &&& (#[trigger] rows[i]).group_id@ == group_id
                &&& forall|j: int| 0 <= j < i ==> (#[trigger] rows[j]).group_id@ != group_id
                &&& forall|k: int|
                    0 <= k < names_in(rows[i]).len() && #[trigger] names_in(rows[i])[k] != ours
                        ==> !is_blocked(names_in(rows[i])[k], changed[k])
            },
        refusal(rows, group_id, ours, changed) matches Some(why) ==> why.0
            == ApiErrorCode::Malformed,
{
    law_row_is_found(rows, group_id, 0);
    if let Some(i) = row_of(rows, group_id, 0) {
        let names = names_in(rows[i]);
        lemma_blocked(names, ours, changed, 0);
        assert forall|m: int|
            0 <= m < rows.len() && (#[trigger] rows[m]).group_id@ == group_id && (forall|j: int|
                0 <= j < m ==> (#[trigger] rows[j]).group_id@ != group_id) implies m == i by {
            if i < m {
                assert(rows[i].group_id@ == group_id);
            }
        }
    }
}

/// The member that is named where sending is refused is one whose key has changed, and no
/// earlier one is.
proof fn lemma_blocked(
    members: Seq<Seq<char>>,
    ours: Seq<char>,
    changed: Seq<Option<bool>>,
    from: int,
)
    requires
        0 <= from,
    ensures
        match first_blocked(members, ours, changed, from) {
            Some(i) => from <= i < members.len() && members[i] != ours && is_blocked(
                members[i],
                changed[i],
            ),
            None => forall|k: int|
                from <= k < members.len() && #[trigger] members[k] != ours ==> !is_blocked(
                    members[k],
                    changed[k],
                ),
        },
    decreases members.len() - from,
{
    if from < members.len() {
        lemma_blocked(members, ours, changed, from + 1);
    }
}

/// A text that a session did not take is answered with whether it is worth trying again.
pub proof fn law_push_refusals_differ(peer_short: Seq<char>)
    ensures
        push_refusal(PushError::Full, peer_short) == "outbound queue full for peer "@ + peer_short,
        push_refusal(PushError::Closed, peer_short) == "peer "@ + peer_short
            + " disconnected before send"@,
{
}

/// A hub is shown as its address and its key with a comma between them.
pub proof fn law_hub_is_shown(h: HubConfig)
    ensures
        hub_line(h).len() == h.onion@.len() + 1 + h.pubkey@.len(),
        hub_line(h).take(h.onion@.len() as int) == h.onion@,
        hub_line(h)[h.onion@.len() as int] == ',',
        hub_line(h).skip(h.onion@.len() as int + 1) == h.pubkey@,
{
    reveal_strlit(",");
    assert(hub_line(h).take(h.onion@.len() as int) =~= h.onion@);
    assert(hub_line(h).skip(h.onion@.len() as int + 1) =~= h.pubkey@);
}

/// A text is offered to the peer's session as a direct message, as it is.
pub proof fn law_text_is_offered(
    o: Offer<PeerOutbound>,
    to: mpsc::Sender<PeerOutbound>,
    text: Seq<char>,
)
    requires
        is_text(o, to, text),
    ensures
        o.to == to,
        o.message is Dm,
        o.message->Dm_0@ == text,
{
}

} // verus!
