//! Sending to many: the same envelope to every hub, and the same ciphertext to
//! every member of a room.
use vstd::prelude::*;

use tokio::sync::mpsc;

use crate::api::error::{not_ready, ApiError, ApiErrorCode};
use crate::bytes::copy_bytes;
use crate::channel::{outcomes, try_push, Offer, PushError, Record};
use crate::conversations::{is_direct, ConversationHandle, ConversationRegistry, PeerOutbound};
use crate::hub::gossip::RoutingId;
use crate::hub_client::HubOutbound;
use crate::text::{decimal, decimal_text, join3, nonempty_pieces, same_text, split_nonempty, texts};

verus! {

/// How many took the envelope.
pub open spec fn accepted(results: Seq<Result<(), PushError>>) -> nat
    decreases results.len(),
{
    if results.len() == 0 {
        0
    } else {
        accepted(results.drop_last()) + if results.last() is Ok {
            1nat
        } else {
            0nat
        }
    }
}

/// The last that did not take the envelope, and why.
pub open spec fn last_refusal(results: Seq<Result<(), PushError>>) -> Option<(int, PushError)>
    decreases results.len(),
{
    if results.len() == 0 {
        None
    } else {
        match results.last() {
            Err(e) => Some((results.len() - 1, e)),
            Ok(_) => last_refusal(results.drop_last()),
        }
    }
}

/// Why a hub did not take an envelope.
pub open spec fn refusal_text(hub: int, e: PushError) -> Seq<char> {
    match e {
        PushError::Full => "hub #"@ + decimal(hub as nat) + " outbound queue is full"@,
        PushError::Closed => "hub #"@ + decimal(hub as nat) + " client task has ended"@,
    }
}

/// What became of an envelope: the number of hubs that took it, or an error where
/// none did.
pub open spec fn is_outcome(
    r: Result<usize, ApiError>,
    results: Seq<Result<(), PushError>>,
    otherwise: Seq<char>,
) -> bool {
    match r {
        Ok(n) => n > 0 && n == accepted(results),
        Err(e) => accepted(results) == 0 && e@ == (
            ApiErrorCode::NotReady,
            match last_refusal(results) {
                Some((hub, why)) => refusal_text(hub, why),
                None => otherwise,
            },
        ),
    }
}

/// Sum up what became of an envelope.
pub fn fan_out_outcome(results: &Vec<Result<(), PushError>>, otherwise: &str) -> (r: Result<
    usize,
    ApiError,
>)
    ensures
        is_outcome(r, results@, otherwise@),
{
    let mut n: usize = 0;
    let mut last: Option<(usize, PushError)> = None;
    let mut i: usize = 0;
    proof {
        assert(results@.take(0) =~= Seq::<Result<(), PushError>>::empty());
    }
    while i < results.len()
        invariant
            i <= results@.len(),
            n <= i,
            n == accepted(results@.take(i as int)),
            match last {
                Some((hub, why)) => last_refusal(results@.take(i as int)) == Some(
                    (hub as int, why),
                ),
                None => last_refusal(results@.take(i as int)) is None,
            },
        decreases results@.len() - i,
    {
        proof {
            assert(results@.take(i + 1).drop_last() =~= results@.take(i as int));
            assert(results@.take(i + 1).last() == results@[i as int]);
        }
        match results[i] {
            Ok(_) => {
                n += 1;
            },
            Err(why) => {
                last = Some((i, why));
            },
        }
        i += 1;
    }
    proof {
        assert(results@.take(i as int) =~= results@);
    }
    if n > 0 {
        return Ok(n);
    }
    match last {
        Some((hub, PushError::Full)) => {
            let message = join3(
                "hub #",
                decimal_text(hub as u64).as_str(),
                " outbound queue is full",
            );
            Err(not_ready(message.as_str()))
        },
        Some((hub, PushError::Closed)) => {
            let message = join3(
                "hub #",
                decimal_text(hub as u64).as_str(),
                " client task has ended",
            );
            Err(not_ready(message.as_str()))
        },
        None => Err(not_ready(otherwise)),
    }
}

/// This envelope was offered to this session.
pub open spec fn is_envelope(
    o: Offer<HubOutbound>,
    to: mpsc::Sender<HubOutbound>,
    target: RoutingId,
    sealed: Seq<u8>,
) -> bool {
    &&& o.to == to
    &&& o.message matches HubOutbound::Deliver { target: t, body } && t == target && body@ == sealed
}

/// An envelope was offered to every hub's session, once and in order, and nothing
/// else went out.
pub open spec fn is_push(
    before: Seq<Offer<HubOutbound>>,
    after: Seq<Offer<HubOutbound>>,
    hubs: Seq<mpsc::Sender<HubOutbound>>,
    target: RoutingId,
    sealed: Seq<u8>,
) -> bool {
    let new = after.skip(before.len() as int);
    &&& after.len() == before.len() + hubs.len()
    &&& after.take(before.len() as int) == before
    &&& forall|i: int|
        0 <= i < new.len() ==> is_envelope(#[trigger] new[i], hubs[i], target, sealed)
}

/// What became of the offers that came after these.
pub open spec fn new_outcomes<T>(before: Seq<Offer<T>>, after: Seq<Offer<T>>) -> Seq<
    Result<(), PushError>,
> {
    outcomes(after.skip(before.len() as int))
}

/// Hand an envelope to every hub's session, in order. What each session does is
/// its own; the result says what became of each hand-over.
pub fn push_to_hubs(
    sent: &mut Record<Offer<HubOutbound>>,
    hubs: &Vec<mpsc::Sender<HubOutbound>>,
    target: RoutingId,
    sealed: &[u8],
) -> (results: Vec<Result<(), PushError>>)
    ensures
        is_push(old(sent)@, final(sent)@, hubs@, target, sealed@),
        results@ == new_outcomes(old(sent)@, final(sent)@),
{
    let ghost before = sent@;
    let mut results: Vec<Result<(), PushError>> = Vec::new();
    let mut i: usize = 0;
    proof {
        assert(sent@.take(before.len() as int) =~= before);
    }
    while i < hubs.len()
        invariant
            i <= hubs@.len(),
            results@.len() == i,
            before == old(sent)@,
            sent@.len() == before.len() + i,
            sent@.take(before.len() as int) == before,
            forall|j: int|
                #![trigger sent@.skip(before.len() as int)[j]]
                0 <= j < i ==> is_envelope(
                    sent@.skip(before.len() as int)[j],
                    hubs@[j],
                    target,
                    sealed@,
                ) && sent@.skip(before.len() as int)[j].outcome == results@[j],
        decreases hubs@.len() - i,
    {
        let ghost had = sent@;
        let message = HubOutbound::deliver(target, copy_bytes(sealed));
        let ghost m = message;
        let r = try_push(sent, &hubs[i], message);
        results.push(r);
        proof {
            assert(sent@ == had.push(Offer { to: hubs@[i as int], message: m, outcome: r }));
            assert(sent@.take(before.len() as int) =~= had.take(before.len() as int));
            let old_new = had.skip(before.len() as int);
            let new = sent@.skip(before.len() as int);
            assert forall|j: int| #![trigger new[j]] 0 <= j < i + 1 implies is_envelope(
                new[j],
                hubs@[j],
                target,
                sealed@,
            ) && new[j].outcome == results@[j] by {
                if j < i {
                    assert(new[j] == old_new[j]);
                }
            }
        }
        i += 1;
    }
    proof {
        assert(results@ =~= new_outcomes(before, sent@));
    }
    results
}

/// Hand an envelope to every hub's session: it counts as sent if one took it. The
/// recipient drops what arrives twice.
pub fn fan_out_deliver(
    sent: &mut Record<Offer<HubOutbound>>,
    hubs: &Vec<mpsc::Sender<HubOutbound>>,
    target: RoutingId,
    sealed: &[u8],
    otherwise: &str,
) -> (r: Result<usize, ApiError>)
    ensures
        is_push(old(sent)@, final(sent)@, hubs@, target, sealed@),
        is_outcome(r, new_outcomes(old(sent)@, final(sent)@), otherwise@),
        hubs@.len() == 0 ==> (r matches Err(e) && e@ == (ApiErrorCode::NotReady, otherwise@)),
        r matches Ok(n) ==> n <= hubs@.len(),
{
    let results = push_to_hubs(sent, hubs, target, sealed);
    let r = fan_out_outcome(&results, otherwise);
    proof {
        lemma_accepted_bound(results@);
    }
    r
}

proof fn lemma_accepted_bound(results: Seq<Result<(), PushError>>)
    ensures
        accepted(results) <= results.len(),
    decreases results.len(),
{
    if results.len() > 0 {
        lemma_accepted_bound(results.drop_last());
    }
}

/// An envelope counts as sent exactly if a hub took it.
pub proof fn law_one_hub_is_enough(results: Seq<Result<(), PushError>>)
    ensures
        accepted(results) > 0 <==> exists|i: int|
            0 <= i < results.len() && (#[trigger] results[i]) is Ok,
    decreases results.len(),
{
    if results.len() > 0 {
        let front = results.drop_last();
        law_one_hub_is_enough(front);
        if results.last() is Ok {
            assert(results[results.len() - 1] is Ok);
        }
        if exists|i: int| 0 <= i < front.len() && (#[trigger] front[i]) is Ok {
            let i = choose|i: int| 0 <= i < front.len() && (#[trigger] front[i]) is Ok;
            assert(results[i] == front[i]);
        }
        if exists|i: int| 0 <= i < results.len() && (#[trigger] results[i]) is Ok {
            let i = choose|i: int| 0 <= i < results.len() && (#[trigger] results[i]) is Ok;
            if i < front.len() {
                assert(front[i] == results[i]);
            }
        }
    }
}

/// This session was asked to subscribe to this routing id.
pub open spec fn is_subscription(
    o: Offer<HubOutbound>,
    to: mpsc::Sender<HubOutbound>,
    token: RoutingId,
) -> bool {
    &&& o.to == to
    &&& o.message matches HubOutbound::Subscribe(ids) && ids@ == seq![token]
}

/// Tell every hub's session to subscribe to the routing id that a room has now.
/// Nothing is told where it is not known: the next session begins with it.
pub fn announce_room_subscribe(
    sent: &mut Record<Offer<HubOutbound>>,
    hubs: &Vec<mpsc::Sender<HubOutbound>>,
    token: Option<RoutingId>,
) -> (results: Vec<Result<(), PushError>>)
    ensures
        results@.len() == if token is Some {
            hubs@.len()
        } else {
            0
        },
        final(sent)@.len() == old(sent)@.len() + results@.len(),
        final(sent)@.take(old(sent)@.len() as int) == old(sent)@,
        forall|i: int|
            #![trigger final(sent)@.skip(old(sent)@.len() as int)[i]]
            0 <= i < results@.len() ==> is_subscription(
                final(sent)@.skip(old(sent)@.len() as int)[i],
                hubs@[i],
                token->0,
            ) && final(sent)@.skip(old(sent)@.len() as int)[i].outcome == results@[i],
{
    let ghost before = sent@;
    let mut results: Vec<Result<(), PushError>> = Vec::new();
    proof {
        assert(sent@.take(before.len() as int) =~= before);
    }
    if let Some(t) = token {
        let mut i: usize = 0;
        while i < hubs.len()
            invariant
                i <= hubs@.len(),
                results@.len() == i,
                before == old(sent)@,
                sent@.len() == before.len() + i,
                sent@.take(before.len() as int) == before,
                forall|j: int|
                    #![trigger sent@.skip(before.len() as int)[j]]
                    0 <= j < i ==> is_subscription(
                        sent@.skip(before.len() as int)[j],
                        hubs@[j],
                        t,
                    ) && sent@.skip(before.len() as int)[j].outcome == results@[j],
            decreases hubs@.len() - i,
        {
            let mut ids: Vec<RoutingId> = Vec::new();
            ids.push(t);
            let ghost had = sent@;
            let message = HubOutbound::Subscribe(ids);
            let ghost m = message;
            let r = try_push(sent, &hubs[i], message);
            results.push(r);
            proof {
                assert(ids_of(m) =~= seq![t]);
                assert(sent@ == had.push(
                    Offer { to: hubs@[i as int], message: m, outcome: r },
                ));
                assert(sent@.take(before.len() as int) =~= had.take(before.len() as int));
                let old_new = had.skip(before.len() as int);
                let new = sent@.skip(before.len() as int);
                assert forall|j: int| #![trigger new[j]] 0 <= j < i + 1 implies is_subscription(
                    new[j],
                    hubs@[j],
                    t,
                ) && new[j].outcome == results@[j] by {
                    if j < i {
                        assert(new[j] == old_new[j]);
                    }
                }
            }
            i += 1;
        }
    }
    results
}

/// The routing ids of a subscription.
spec fn ids_of(m: HubOutbound) -> Seq<RoutingId> {
    match m {
        HubOutbound::Subscribe(ids) => ids@,
        _ => Seq::empty(),
    }
}

/// The members of a list without ourselves and, where there is one, the other.
pub open spec fn others(
    members: Seq<Seq<char>>,
    ours: Seq<char>,
    also: Option<Seq<char>>,
) -> Seq<Seq<char>>
    decreases members.len(),
{
    if members.len() == 0 {
        Seq::empty()
    } else if members.last() == ours || also == Some(members.last()) {
        others(members.drop_last(), ours, also)
    } else {
        others(members.drop_last(), ours, also).push(members.last())
    }
}

/// The members that a room's list names.
pub fn member_list(members_b32: &str) -> (v: Vec<String>)
    ensures
        texts(v@) == nonempty_pieces(members_b32@, ','),
{
    split_nonempty(members_b32, ',')
}

/// Those of a room's members that something is sent to.
pub fn recipients(members_b32: &str, our_fp: &str, also: Option<&str>) -> (v: Vec<String>)
    ensures
        texts(v@) == others(
            nonempty_pieces(members_b32@, ','),
            our_fp@,
            match also {
                Some(a) => Some(a@),
                None => None,
            },
        ),
{
    let all = member_list(members_b32);
    let ghost names = texts(all@);
    let ghost also_name = match also {
        Some(a) => Some(a@),
        None => None,
    };
    let mut out: Vec<String> = Vec::new();
    let mut i: usize = 0;
    proof {
        assert(names.take(0) =~= Seq::<Seq<char>>::empty());
        assert(texts(out@) =~= Seq::<Seq<char>>::empty());
    }
    while i < all.len()
        invariant
            i <= all@.len(),
            names == texts(all@),
            also_name == match also {
                Some(a) => Some(a@),
                None => None,
            },
            texts(out@) == others(names.take(i as int), our_fp@, also_name),
        decreases all@.len() - i,
    {
        let ghost before = texts(out@);
        let name = &all[i];
        proof {
            assert(names.take(i + 1).drop_last() =~= names.take(i as int));
            assert(names.take(i + 1).last() == name@);
        }
        let excluded = same_text(name.as_str(), our_fp) || match also {
            Some(a) => same_text(name.as_str(), a),
            None => false,
        };
        if !excluded {
            out.push(name.clone());
            proof {
                assert(texts(out@) =~= before.push(name@));
            }
        }
        i += 1;
    }
    proof {
        assert(names.take(i as int) =~= names);
    }
    out
}

/// Who is sent something: every member but ourselves and the one left out, and
/// nobody else.
pub proof fn law_recipients(
    members: Seq<Seq<char>>,
    ours: Seq<char>,
    also: Option<Seq<char>>,
    who: Seq<char>,
)
    ensures
        others(members, ours, also).contains(who) <==> members.contains(who) && who != ours
            && also != Some(who),
    decreases members.len(),
{
    if members.len() > 0 {
        let front = members.drop_last();
        let last = members.last();
        law_recipients(front, ours, also, who);
        let r = others(members, ours, also);
        let rf = others(front, ours, also);
        if members.contains(who) {
            let i = choose|i: int| 0 <= i < members.len() && members[i] == who;
            if i < front.len() {
                assert(front[i] == who);
            }
        }
        if front.contains(who) {
            let i = choose|i: int| 0 <= i < front.len() && front[i] == who;
            assert(members[i] == who);
        }
        if who == last {
            assert(members[members.len() - 1] == who);
        }
        if !(last == ours || also == Some(last)) {
            assert(r == rf.push(last));
            if rf.contains(who) {
                let i = choose|i: int| 0 <= i < rf.len() && rf[i] == who;
                assert(r[i] == who);
            }
            if who == last {
                assert(r[rf.len() as int] == who);
            }
            if r.contains(who) {
                let i = choose|i: int| 0 <= i < r.len() && r[i] == who;
                if i < rf.len() {
                    assert(rf[i] == who);
                }
            }
        }
    }
}

/// The sessions of those members that have one.
pub fn direct_targets(registry: &ConversationRegistry, members: &Vec<String>) -> (v: Vec<
    Option<ConversationHandle>,
>)
    requires
        registry.wf(),
    ensures
        v@.len() == members@.len(),
        forall|i: int|
            0 <= i < v@.len() ==> is_direct(registry@, members@[i]@, #[trigger] v@[i]),
{
    let mut v: Vec<Option<ConversationHandle>> = Vec::new();
    let mut i: usize = 0;
    while i < members.len()
        invariant
            i <= members@.len(),
            v@.len() == i,
            registry.wf(),
            forall|j: int|
                0 <= j < v@.len() ==> is_direct(registry@, members@[j]@, #[trigger] v@[j]),
        decreases members@.len() - i,
    {
        v.push(registry.handle_for_fingerprint(members[i].as_str()));
        i += 1;
    }
    v
}

/// How a member was reached.
#[derive(Debug, Clone, Copy, PartialEq, Eq, Structural)]
pub enum Reached {
    /// By its session.
    Direct,
    /// By a hub.
    Hub,
    /// Not at all: there is no way to seal or to address an envelope.
    NoKey,
    /// Not at all: sealing failed, or no hub took the envelope.
    Lost,
}

/// This ciphertext was offered to this session.
pub open spec fn is_room_frame(
    o: Offer<PeerOutbound>,
    to: mpsc::Sender<PeerOutbound>,
    ciphertext: Seq<u8>,
) -> bool {
    &&& o.to == to
    &&& o.message matches PeerOutbound::RoomFrame(b) && b@ == ciphertext
}

/// Try a member's session, if it has one.
pub fn reach_direct(
    sent: &mut Record<Offer<PeerOutbound>>,
    handle: &Option<ConversationHandle>,
    ciphertext: &[u8],
) -> (reached: bool)
    ensures
        match *handle {
            None => !reached && final(sent)@ == old(sent)@,
            Some(h) => {
                &&& final(sent)@.len() == old(sent)@.len() + 1
                &&& final(sent)@.drop_last() == old(sent)@
                &&& is_room_frame(final(sent)@.last(), h.outbound_tx, ciphertext@)
                &&& final(sent)@.last().taken() == reached
            },
        },
{
    match handle {
        Some(h) => {
            let ghost before = sent@;
            let r = try_push(
                sent,
                &h.outbound_tx,
                PeerOutbound::RoomFrame(copy_bytes(ciphertext)),
            );
            proof {
                assert(sent@.drop_last() =~= before);
            }
            r.is_ok()
        },
        None => false,
    }
}

/// How a member is reached by hubs.
#[derive(Debug, Clone, Copy, PartialEq, Eq)]
pub enum HubRoute {
    /// Not at all.
    NoKey,
    /// Seal the ciphertext to the member's key, then send it here.
    Seal(RoutingId),
}

/// The way to a member by hubs. `kem_is_key` is nothing where no key of the member
/// is known, and else says whether it is a key; the room's routing id goes before
/// the member's own inbox, which is nothing where its fingerprint does not parse.
pub open spec fn hub_route_of(
    kem_is_key: Option<bool>,
    room_target: Option<RoutingId>,
    inbox: Option<RoutingId>,
) -> HubRoute {
    if kem_is_key != Some(true) {
        HubRoute::NoKey
    } else if room_target is Some {
        HubRoute::Seal(room_target->0)
    } else if inbox is Some {
        HubRoute::Seal(inbox->0)
    } else {
        HubRoute::NoKey
    }
}

pub fn hub_route(
    kem_is_key: Option<bool>,
    room_target: Option<RoutingId>,
    inbox: Option<RoutingId>,
) -> (r: HubRoute)
    ensures
        r == hub_route_of(kem_is_key, room_target, inbox),
{
    match kem_is_key {
        Some(true) => match room_target {
            Some(t) => HubRoute::Seal(t),
            None => match inbox {
                Some(t) => HubRoute::Seal(t),
                None => HubRoute::NoKey,
            },
        },
        _ => HubRoute::NoKey,
    }
}

/// The routing id of a room's copies: the one that was asked for, else the one
/// that the room has now.
pub fn room_target(asked: Option<RoutingId>, current: Option<RoutingId>) -> (r: Option<RoutingId>)
    ensures
        r == if asked is Some {
            asked
        } else {
            current
        },
{
    match asked {
        Some(t) => Some(t),
        None => current,
    }
}

/// How a member was reached, from what became of each attempt.
pub fn settle(results: &Vec<Result<(), PushError>>) -> (r: Reached)
    ensures
        r == settled_as(results@),
{
    match fan_out_outcome(results, "") {
        Ok(_) => Reached::Hub,
        Err(_) => Reached::Lost,
    }
}

/// How a member was reached, given what became of each attempt.
pub open spec fn settled_as(results: Seq<Result<(), PushError>>) -> Reached {
    if accepted(results) > 0 {
        Reached::Hub
    } else {
        Reached::Lost
    }
}

/// Sending a member's envelope: to every hub if it could be sealed, else nowhere.
pub open spec fn is_hub_attempt(
    before: Seq<Offer<HubOutbound>>,
    after: Seq<Offer<HubOutbound>>,
    hubs: Seq<mpsc::Sender<HubOutbound>>,
    target: RoutingId,
    sealed: Option<Vec<u8>>,
    r: Reached,
) -> bool {
    match sealed {
        None => r is Lost && after == before,
        Some(s) => is_push(before, after, hubs, target, s@) && r == settled_as(
            new_outcomes(before, after),
        ),
    }
}

/// Send a member's envelope, if it could be sealed, to every hub.
pub fn reach_via_hubs(
    sent: &mut Record<Offer<HubOutbound>>,
    hubs: &Vec<mpsc::Sender<HubOutbound>>,
    target: RoutingId,
    sealed: &Option<Vec<u8>>,
) -> (r: Reached)
    ensures
        is_hub_attempt(old(sent)@, final(sent)@, hubs@, target, *sealed, r),
{
    match sealed {
        Some(s) => {
            let results = push_to_hubs(sent, hubs, target, s.as_slice());
            settle(&results)
        },
        None => Reached::Lost,
    }
}

/// How many members were reached.
#[derive(Debug, Clone, Copy, PartialEq, Eq, Structural)]
pub struct Tally {
    pub delivered_to_direct: u32,
    pub delivered_to_hub: u32,
    pub skipped_no_kem: u32,
    pub total_members: u32,
}

/// How many of a list were reached in this way.
pub open spec fn count_reached(s: Seq<Reached>, r: Reached) -> nat
    decreases s.len(),
{
    if s.len() == 0 {
        0
    } else {
        count_reached(s.drop_last(), r) + if s.last() == r {
            1nat
        } else {
            0nat
        }
    }
}

/// The tally of a list.
pub open spec fn is_tally(t: Tally, s: Seq<Reached>) -> bool {
    &&& t.delivered_to_direct == count_reached(s, Reached::Direct)
    &&& t.delivered_to_hub == count_reached(s, Reached::Hub)
    &&& t.skipped_no_kem == count_reached(s, Reached::NoKey)
    &&& t.total_members == s.len()
}

/// Count how the members of a room were reached.
pub fn tally(reached: &Vec<Reached>) -> (t: Tally)
    requires
        reached@.len() <= u32::MAX,
    ensures
        is_tally(t, reached@),
{
    let mut t = Tally {
        delivered_to_direct: 0,
        delivered_to_hub: 0,
        skipped_no_kem: 0,
        total_members: 0,
    };
    let mut i: usize = 0;
    proof {
        assert(reached@.take(0) =~= Seq::<Reached>::empty());
    }
    while i < reached.len()
        invariant
            i <= reached@.len() <= u32::MAX,
            is_tally(t, reached@.take(i as int)),
        decreases reached@.len() - i,
    {
        proof {
            assert(reached@.take(i + 1).drop_last() =~= reached@.take(i as int));
            assert(reached@.take(i + 1).last() == reached@[i as int]);
            law_tally_adds_up(reached@.take(i as int));
        }
        match reached[i] {
            Reached::Direct => {
                t.delivered_to_direct = t.delivered_to_direct + 1;
            },
            Reached::Hub => {
                t.delivered_to_hub = t.delivered_to_hub + 1;
            },
            Reached::NoKey => {
                t.skipped_no_kem = t.skipped_no_kem + 1;
            },
            Reached::Lost => {},
        }
        t.total_members = t.total_members + 1;
        i += 1;
    }
    proof {
        assert(reached@.take(i as int) =~= reached@);
    }
    t
}

/// Every member is counted once: directly, by a hub, without a key, or lost.
pub proof fn law_tally_adds_up(s: Seq<Reached>)
    ensures
        count_reached(s, Reached::Direct) + count_reached(s, Reached::Hub) + count_reached(
            s,
            Reached::NoKey,
        ) + count_reached(s, Reached::Lost) == s.len(),
    decreases s.len(),
{
    if s.len() > 0 {
        law_tally_adds_up(s.drop_last());
    }
}

/// What sending to a room's members waits for.
#[derive(Debug)]
pub enum FanStep {
    /// This member has no session that took the ciphertext: look its key up.
    LookUpKey(usize),
    /// Every member was dealt with.
    Done(Tally),
}

/// Sending one ciphertext to every member of a room, one member after the other.
pub struct RoomFanOut {
    handles: Vec<Option<ConversationHandle>>,
    ciphertext: Vec<u8>,
    target: Option<RoutingId>,
    route: Option<RoutingId>,
    reached: Vec<Reached>,
    direct: Record<Offer<PeerOutbound>>,
    by_hub: Record<Offer<HubOutbound>>,
}

/// The state of sending as a value.
#[verifier::ext_equal]
pub struct FanOutModel {
    /// The members' sessions, in order.
    pub handles: Seq<Option<ConversationHandle>>,
    pub ciphertext: Seq<u8>,
    /// Where the copies for hubs go, if the room has a routing id.
    pub target: Option<RoutingId>,
    /// Where the envelope goes that is to be sealed now.
    pub route: Option<RoutingId>,
    /// How the members dealt with were reached.
    pub reached: Seq<Reached>,
    /// What was offered to the members' sessions.
    pub direct: Seq<Offer<PeerOutbound>>,
    /// What was offered to the hubs' sessions.
    pub by_hub: Seq<Offer<HubOutbound>>,
}

impl View for RoomFanOut {
    type V = FanOutModel;

    closed spec fn view(&self) -> FanOutModel {
        FanOutModel {
            handles: self.handles@,
            ciphertext: self.ciphertext@,
            target: self.target,
            route: self.route,
            reached: self.reached@,
            direct: self.direct@,
            by_hub: self.by_hub@,
        }
    }
}

/// Going on with the members' sessions: the members between the two states were
/// all reached by their sessions, each of which was offered the ciphertext once.
/// Where sending stopped at a member, its session, if it has one, was offered the
/// ciphertext too and did not take it.
pub open spec fn is_direct_run(before: FanOutModel, after: FanOutModel) -> bool {
    let done = before.reached.len();
    let new = after.direct.skip(before.direct.len() as int);
    &&& after == (FanOutModel { reached: after.reached, direct: after.direct, ..before })
    &&& done <= after.reached.len() <= after.handles.len()
    &&& after.reached.take(done as int) == before.reached
    &&& forall|i: int|
        done <= i < after.reached.len() ==> (#[trigger] after.reached[i]) is Direct
            && after.handles[i] is Some
    &&& after.direct.len() == before.direct.len() + (after.reached.len() - done)
        + tried_in_vain(after)
    &&& after.direct.take(before.direct.len() as int) == before.direct
    &&& forall|j: int|
        0 <= j < new.len() ==> is_room_frame(
            #[trigger] new[j],
            after.handles[done + j]->0.outbound_tx,
            before.ciphertext,
        ) && new[j].taken() == (done + j < after.reached.len())
}

/// How many sessions were tried for the member at which sending stopped.
pub open spec fn tried_in_vain(m: FanOutModel) -> int {
    if m.reached.len() < m.handles.len() && m.handles[m.reached.len() as int] is Some {
        1
    } else {
        0
    }
}

impl RoomFanOut {
    pub open spec fn wf(&self) -> bool {
        &&& self@.reached.len() <= self@.handles.len()
        &&& self@.handles.len() <= u32::MAX
    }

    /// Begin to send a ciphertext to members with these sessions.
    pub fn new(
        handles: Vec<Option<ConversationHandle>>,
        ciphertext: Vec<u8>,
        target: Option<RoutingId>,
    ) -> (f: Self)
        requires
            handles@.len() <= u32::MAX,
        ensures
            f.wf(),
            f@ == (FanOutModel {
                handles: handles@,
                ciphertext: ciphertext@,
                target,
                route: None,
                reached: Seq::empty(),
                direct: Seq::empty(),
                by_hub: Seq::empty(),
            }),
    {
        RoomFanOut {
            handles,
            ciphertext,
            target,
            route: None,
            reached: Vec::new(),
            direct: Record::new(),
            by_hub: Record::new(),
        }
    }

    /// Go on with the members that a session takes the ciphertext for, up to the
    /// first that none does.
    pub fn next(&mut self) -> (step: FanStep)
        requires
            old(self).wf(),
        ensures
            final(self).wf(),
            is_direct_run(old(self)@, final(self)@),
            match step {
                FanStep::LookUpKey(i) => i < old(self)@.handles.len() && i
                    == final(self)@.reached.len(),
                FanStep::Done(t) => final(self)@.reached.len() == final(self)@.handles.len()
                    && is_tally(t, final(self)@.reached),
            },
    {
        let ghost before = self@;
        let ghost done = before.reached.len();
        let ghost base = before.direct.len();
        proof {
            assert(self@.reached.take(done as int) =~= before.reached);
            assert(self@.direct.take(base as int) =~= before.direct);
        }
        while self.reached.len() < self.handles.len()
            invariant
                self.wf(),
                before == old(self)@,
                done == before.reached.len(),
                base == before.direct.len(),
                self@ == (FanOutModel {
                    reached: self@.reached,
                    direct: self@.direct,
                    ..before
                }),
                done <= self@.reached.len(),
                self@.reached.take(done as int) == before.reached,
                forall|i: int|
                    done <= i < self@.reached.len() ==> (#[trigger] self@.reached[i]) is Direct
                        && before.handles[i] is Some,
                self@.direct.len() == base + (self@.reached.len() - done),
                self@.direct.take(base as int) == before.direct,
                forall|j: int|
                    #![trigger self@.direct.skip(base as int)[j]]
                    0 <= j < self@.direct.len() - base ==> is_room_frame(
                        self@.direct.skip(base as int)[j],
                        before.handles[done + j]->0.outbound_tx,
                        before.ciphertext,
                    ) && self@.direct.skip(base as int)[j].taken(),
            decreases self@.handles.len() - self@.reached.len(),
        {
            let i: usize = self.reached.len();
            let ghost had = self@;
            let reached = reach_direct(
                &mut self.direct,
                &self.handles[i],
                self.ciphertext.as_slice(),
            );
            proof {
                let old_new = had.direct.skip(base as int);
                let new = self@.direct.skip(base as int);
                assert(self@.direct.take(base as int) =~= before.direct) by {
                    assert(had.direct.take(base as int) =~= before.direct);
                    assert forall|k: int| 0 <= k < base implies self@.direct[k]
                        == before.direct[k] by {
                        assert(had.direct.take(base as int)[k] == before.direct[k]);
                        if before.handles[i as int] is Some {
                            assert(self@.direct.drop_last()[k] == had.direct[k]);
                        }
                    }
                }
                assert forall|j: int| #![trigger new[j]] 0 <= j < new.len() implies is_room_frame(
                    new[j],
                    before.handles[done + j]->0.outbound_tx,
                    before.ciphertext,
                ) && new[j].taken() == (done + j < i || reached) by {
                    if j < old_new.len() {
                        assert(new[j] == self@.direct[base + j]);
                        if before.handles[i as int] is Some {
                            assert(self@.direct.drop_last()[base + j] == had.direct[base + j]);
                        }
                        assert(new[j] == old_new[j]);
                    } else {
                        assert(new[j] == self@.direct.last());
                    }
                }
            }
            if !reached {
                return FanStep::LookUpKey(i);
            }
            let ghost mid = self@;
            self.reached.push(Reached::Direct);
            proof {
                assert(self@.reached == mid.reached.push(Reached::Direct));
                assert(self@.reached.take(done as int) =~= mid.reached.take(done as int));
                assert(self@.direct == mid.direct);
            }
        }
        FanStep::Done(tally(&self.reached))
    }

    /// Go on with what is known of the member's key: says where its envelope goes,
    /// or counts the member as one without a key.
    pub fn on_key(&mut self, kem_is_key: Option<bool>, inbox: Option<RoutingId>) -> (r: HubRoute)
        requires
            old(self).wf(),
            old(self)@.reached.len() < old(self)@.handles.len(),
        ensures
            final(self).wf(),
            r == hub_route_of(kem_is_key, old(self)@.target, inbox),
            final(self)@ == match r {
                HubRoute::NoKey => FanOutModel {
                    route: None,
                    reached: old(self)@.reached.push(Reached::NoKey),
                    ..old(self)@
                },
                HubRoute::Seal(t) => FanOutModel { route: Some(t), ..old(self)@ },
            },
    {
        let r = hub_route(kem_is_key, self.target, inbox);
        match r {
            HubRoute::NoKey => {
                self.route = None;
                self.reached.push(Reached::NoKey);
            },
            HubRoute::Seal(t) => {
                self.route = Some(t);
            },
        }
        r
    }

    /// Go on with the member's envelope, if it could be sealed. It goes where
    /// [`RoomFanOut::on_key`] said; without such a place it is lost.
    pub fn on_sealed(
        &mut self,
        hubs: &Vec<mpsc::Sender<HubOutbound>>,
        sealed: &Option<Vec<u8>>,
    )
        requires
            old(self).wf(),
            old(self)@.reached.len() < old(self)@.handles.len(),
        ensures
            final(self).wf(),
            final(self)@ == (FanOutModel {
                route: None,
                reached: old(self)@.reached.push(final(self)@.reached.last()),
                by_hub: final(self)@.by_hub,
                ..old(self)@
            }),
            match old(self)@.route {
                Some(target) => is_hub_attempt(
                    old(self)@.by_hub,
                    final(self)@.by_hub,
                    hubs@,
                    target,
                    *sealed,
                    final(self)@.reached.last(),
                ),
                None => final(self)@.reached.last() is Lost && final(self)@.by_hub == old(
                    self,
                )@.by_hub,
            },
    {
        let r = match self.route {
            Some(target) => reach_via_hubs(&mut self.by_hub, hubs, target, sealed),
            None => Reached::Lost,
        };
        self.route = None;
        self.reached.push(r);
    }
}

/// Those who are sent something stand in the order of the members, each as often as in
/// their list.
pub proof fn law_recipients_in_order(
    members: Seq<Seq<char>>,
    ours: Seq<char>,
    also: Option<Seq<char>>,
    who: Seq<char>,
)
    ensures
        others(Seq::empty(), ours, also) == Seq::<Seq<char>>::empty(),
        who == ours || also == Some(who) ==> others(members.push(who), ours, also) == others(
            members,
            ours,
            also,
        ),
        who != ours && also != Some(who) ==> others(members.push(who), ours, also) == others(
            members,
            ours,
            also,
        ).push(who),
{
    assert(members.push(who).drop_last() =~= members);
}

/// One hub that takes an envelope is enough: the outcome is an error exactly if no hub
/// took it, and else the number of those that did.
pub proof fn law_outcome_of_hubs(
    r: Result<usize, ApiError>,
    results: Seq<Result<(), PushError>>,
    otherwise: Seq<char>,
)
    requires
        is_outcome(r, results, otherwise),
    ensures
        r is Ok <==> exists|i: int| 0 <= i < results.len() && #[trigger] results[i] is Ok,
        r matches Ok(n) ==> n <= results.len(),
        r matches Ok(n) ==> (n == results.len() <==> forall|i: int|
            0 <= i < results.len() ==> #[trigger] results[i] is Ok),
        r matches Err(e) ==> e@.0 == ApiErrorCode::NotReady && (results.len() == 0 ==> e@.1
            == otherwise),
{
    lemma_accepted(results);
}

proof fn lemma_accepted(results: Seq<Result<(), PushError>>)
    ensures
        accepted(results) <= results.len(),
        accepted(results) > 0 <==> exists|i: int| 0 <= i < results.len() && #[trigger] results[i] is Ok,
        accepted(results) == results.len() <==> forall|i: int|
            0 <= i < results.len() ==> #[trigger] results[i] is Ok,
    decreases results.len(),
{
    if results.len() > 0 {
        let front = results.drop_last();
        lemma_accepted(front);
        assert(results[results.len() - 1] == results.last());
        assert forall|i: int| 0 <= i < front.len() implies front[i] == #[trigger] results[i] by {}
        if exists|i: int| 0 <= i < front.len() && #[trigger] front[i] is Ok {
            let i = choose|i: int| 0 <= i < front.len() && #[trigger] front[i] is Ok;
            assert(results[i] is Ok);
        }
        if exists|i: int| 0 <= i < results.len() && #[trigger] results[i] is Ok {
            let i = choose|i: int| 0 <= i < results.len() && #[trigger] results[i] is Ok;
            if i < front.len() {
                assert(front[i] is Ok);
            }
        }
        if accepted(results) == results.len() {
            assert forall|i: int| 0 <= i < results.len() implies #[trigger] results[i] is Ok by {
                if i < front.len() {
                    assert(front[i] is Ok);
                }
            }
        }
        if forall|i: int| 0 <= i < results.len() ==> #[trigger] results[i] is Ok {
            assert forall|i: int| 0 <= i < front.len() implies #[trigger] front[i] is Ok by {
                assert(results[i] is Ok);
            }
        }
    }
}

/// Where nobody took an envelope, the reason that is given is that of the last hub.
pub proof fn law_last_reason_counts(results: Seq<Result<(), PushError>>, e: PushError)
    ensures
        last_refusal(results.push(Err(e))) == Some((results.len() as int, e)),
        last_refusal(results.push(Ok(()))) == last_refusal(results),
        last_refusal(Seq::empty()) is None,
{
    assert(results.push(Err(e)).drop_last() =~= results);
    assert(results.push(Ok(())).drop_last() =~= results);
}

/// An envelope for a room member is offered to each hub once, in order, for this target
/// and with this content; what was offered before stays.
pub proof fn law_envelope_to_every_hub(
    before: Seq<Offer<HubOutbound>>,
    after: Seq<Offer<HubOutbound>>,
    hubs: Seq<mpsc::Sender<HubOutbound>>,
    target: RoutingId,
    sealed: Seq<u8>,
    i: int,
)
    requires
        is_push(before, after, hubs, target, sealed),
        0 <= i < hubs.len(),
    ensures
        after.len() == before.len() + hubs.len(),
        ({
            let o = after[before.len() + i];
            &&& o.to == hubs[i]
            &&& o.message matches HubOutbound::Deliver { target: t, body }
            &&& t == target
            &&& body@ == sealed
        }),
        after.take(before.len() as int) == before,
{
    assert(after.skip(before.len() as int)[i] == after[before.len() + i]);
}

/// How an envelope for a member goes through the hubs: not at all without a key that is
/// one, else under the room's routing id if there is one, else to the member's inbox.
pub proof fn law_hub_route(
    kem_is_key: Option<bool>,
    room_target: Option<RoutingId>,
    inbox: Option<RoutingId>,
)
    ensures
        hub_route_of(kem_is_key, room_target, inbox) is NoKey <==> !(kem_is_key is Some
            && kem_is_key->0) || (room_target is None && inbox is None),
        hub_route_of(kem_is_key, room_target, inbox) matches HubRoute::Seal(t) ==> Some(t) == (
        if room_target is Some {
            room_target
        } else {
            inbox
        }),
{
}

/// A member whose envelope goes through the hubs is reached exactly if it could be sealed
/// and a hub took it; what could not be sealed goes nowhere.
pub proof fn law_hub_attempt(
    before: Seq<Offer<HubOutbound>>,
    after: Seq<Offer<HubOutbound>>,
    hubs: Seq<mpsc::Sender<HubOutbound>>,
    target: RoutingId,
    sealed: Option<Vec<u8>>,
    r: Reached,
)
    requires
        is_hub_attempt(before, after, hubs, target, sealed, r),
    ensures
        r is Hub <==> sealed is Some && exists|i: int|
            before.len() <= i < after.len() && (#[trigger] after[i]).outcome is Ok,
        r is Hub || r is Lost,
        sealed is None ==> after == before,
        sealed is Some ==> after.len() == before.len() + hubs.len(),
{
    let new = after.skip(before.len() as int);
    let results = new_outcomes(before, after);
    lemma_accepted(results);
    if sealed is Some {
        assert(results.len() == new.len());
        assert forall|i: int| 0 <= i < results.len() implies #[trigger] results[i]
            == new[i].outcome by {}
        if exists|i: int| 0 <= i < results.len() && #[trigger] results[i] is Ok {
            let i = choose|i: int| 0 <= i < results.len() && #[trigger] results[i] is Ok;
            assert(after[before.len() + i] == new[i]);
        }
        if exists|i: int| before.len() <= i < after.len() && (#[trigger] after[i]).outcome is Ok {
            let i = choose|i: int|
                before.len() <= i < after.len() && (#[trigger] after[i]).outcome is Ok;
            assert(results[i - before.len()] == after[i].outcome);
        }
    }
}

/// The numbers that a room message is answered with: one more member that was reached in
/// some way counts there and in the total, and nowhere else.
pub proof fn law_tally_counts(t: Tally, u: Tally, s: Seq<Reached>, r: Reached)
    requires
        is_tally(t, s),
        is_tally(u, s.push(r)),
    ensures
        u.total_members == t.total_members + 1,
        u.delivered_to_direct == t.delivered_to_direct + if r is Direct {
            1int
        } else {
            0int
        },
        u.delivered_to_hub == t.delivered_to_hub + if r is Hub {
            1int
        } else {
            0int
        },
        u.skipped_no_kem == t.skipped_no_kem + if r is NoKey {
            1int
        } else {
            0int
        },
{
    assert(s.push(r).drop_last() =~= s);
}

/// A run over the members' sessions: each member that it counts as reached was offered the
/// ciphertext on its own session, which took it; it stops at the first whose session does not
/// take it or who has none; and nothing goes to a hub meanwhile.
pub proof fn law_direct_run(before: FanOutModel, after: FanOutModel, i: int)
    requires
        is_direct_run(before, after),
        before.reached.len() <= i < after.reached.len(),
    ensures
        after.reached[i] is Direct,
        after.reached.take(before.reached.len() as int) == before.reached,
        after.direct.take(before.direct.len() as int) == before.direct,
        after.handles == before.handles,
        after.by_hub == before.by_hub,
        before.handles[i] is Some,
        ({
            let o = after.direct[before.direct.len() + i - before.reached.len()];
            &&& o.to == before.handles[i]->0.outbound_tx
            &&& o.message is RoomFrame
            &&& o.message->RoomFrame_0@ == before.ciphertext
            &&& o.outcome is Ok
        }),
{
    let j = i - before.reached.len();
    let new = after.direct.skip(before.direct.len() as int);
    assert(new[j] == after.direct[before.direct.len() + j]);
}

/// Where a run stops before the end, the member it stops at was tried if it has a session,
/// and the session did not take the ciphertext; further members were not tried.
pub proof fn law_run_stops_at_the_unreached(before: FanOutModel, after: FanOutModel)
    requires
        is_direct_run(before, after),
        after.reached.len() < after.handles.len(),
    ensures
        ({
            let n = after.reached.len() as int;
            let tried = after.direct.len() - before.direct.len();
            if before.handles[n] is Some {
                &&& tried == n - before.reached.len() + 1
                &&& after.direct.last().to == before.handles[n]->0.outbound_tx
                &&& after.direct.last().outcome is Err
            } else {
                tried == n - before.reached.len()
            }
        }),
{
    let n = after.reached.len() as int;
    let new = after.direct.skip(before.direct.len() as int);
    if before.handles[n] is Some {
        assert(new[n - before.reached.len()] == after.direct.last());
    }
}

/// A hub that is told of a room is asked for its one routing id.
pub proof fn law_room_is_subscribed(
    o: Offer<HubOutbound>,
    to: mpsc::Sender<HubOutbound>,
    token: RoutingId,
)
    requires
        is_subscription(o, to, token),
    ensures
        o.to == to,
        o.message is Subscribe,
        o.message->Subscribe_0@.len() == 1,
        o.message->Subscribe_0@[0] == token,
{
}

/// Nobody is counted where nobody was to be reached, and never more than there were.
pub proof fn law_tally_of_nobody(t: Tally, s: Seq<Reached>)
    requires
        is_tally(t, s),
    ensures
        t.total_members == s.len(),
        s.len() == 0 ==> t.delivered_to_direct == 0 && t.delivered_to_hub == 0 && t.skipped_no_kem
            == 0,
        t.delivered_to_direct + t.delivered_to_hub + t.skipped_no_kem <= s.len(),
{
    lemma_counts(s);
}

proof fn lemma_counts(s: Seq<Reached>)
    ensures
        count_reached(s, Reached::Direct) + count_reached(s, Reached::Hub) + count_reached(
            s,
            Reached::NoKey,
        ) <= s.len(),
    decreases s.len(),
{
    if s.len() > 0 {
        lemma_counts(s.drop_last());
    }
}

/// A run that comes to the end tried every member that was left exactly once.
pub proof fn law_run_to_the_end(before: FanOutModel, after: FanOutModel)
    requires
        is_direct_run(before, after),
        after.reached.len() == after.handles.len(),
    ensures
        after.direct.len() - before.direct.len() == before.handles.len() - before.reached.len(),
{
}

} // verus!
