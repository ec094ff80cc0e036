//! Rooms: making, listing, inviting, removing, leaving.
use vstd::prelude::*;

use crate::api::contact::{
    no_hubs, parse_contact, parse_group_id, require_hubs, Contact, VerifiedContact,
};
use crate::api::error::{malformed, ApiError, ApiErrorCode};
use crate::api::fanout::{member_list, others, recipients};
use crate::bytes::copy_bytes;
use crate::codec::{b32_decoded, b32_encoded, encodable, encode_b32, law_b32_round_trip};
use crate::conversations::MessageDirection;
use crate::hub::gossip::RoutingId;
use crate::room::RoomAppMessage;
use crate::roster::{
    find_row, fingerprints, joined, law_members_round_trip, law_row_is_found, members_b32, row_of,
    Member, RoomRow,
};
use crate::text::{nonempty_pieces, same_text, texts};

verus! {

/// A point in time without a sign: one before the epoch counts as the epoch.
pub open spec fn unsigned_ms(ms: i64) -> u64 {
    if ms < 0 {
        0
    } else {
        ms as u64
    }
}

pub fn to_unsigned_ms(ms: i64) -> (r: u64)
    ensures
        r == unsigned_ms(ms),
{
    if ms < 0 {
        0
    } else {
        ms as u64
    }
}

/// The row of a room that was just made: we are its only member.
pub open spec fn is_new_row(
    row: RoomRow,
    group_id: Seq<u8>,
    name: Seq<char>,
    our_fp: Seq<char>,
    now_ms: i64,
) -> bool {
    &&& row.group_id@ == group_id
    &&& row.name@ == name
    &&& row.members_b32@ == our_fp
    &&& row.created_at_ms == now_ms
}

/// Make the row of a room that was just made.
pub fn new_room(group_id: &[u8], name: &str, our_fp: &str, now_ms: i64) -> (row: RoomRow)
    ensures
        is_new_row(row, group_id@, name@, our_fp@, now_ms),
{
    RoomRow {
        group_id: copy_bytes(group_id),
        name: name.to_owned(),
        members_b32: our_fp.to_owned(),
        created_at_ms: now_ms,
    }
}

/// A room as clients are shown it.
#[derive(Debug)]
pub struct RoomInfo {
    pub name: String,
    pub group_id_b32: String,
    pub members: Vec<String>,
    pub created_at_ms: u64,
}

/// What clients are shown of a row.
pub open spec fn is_room_info(i: RoomInfo, row: RoomRow) -> bool {
    &&& i.name@ == row.name@
    &&& i.group_id_b32@ == b32_encoded(row.group_id@)
    &&& texts(i.members@) == nonempty_pieces(row.members_b32@, ',')
    &&& i.created_at_ms == unsigned_ms(row.created_at_ms)
}

/// The rooms as clients are shown them.
pub fn list_rooms(rows: &Vec<RoomRow>) -> (v: Vec<RoomInfo>)
    requires
        forall|i: int| 0 <= i < rows@.len() ==> encodable((#[trigger] rows@[i]).group_id@.len()),
    ensures
        v@.len() == rows@.len(),
        forall|i: int| 0 <= i < v@.len() ==> is_room_info(#[trigger] v@[i], rows@[i]),
{
    let mut v: Vec<RoomInfo> = Vec::new();
    let mut i: usize = 0;
    while i < rows.len()
        invariant
            i <= rows@.len(),
            v@.len() == i,
            forall|j: int|
                0 <= j < rows@.len() ==> encodable((#[trigger] rows@[j]).group_id@.len()),
            forall|j: int| 0 <= j < v@.len() ==> is_room_info(#[trigger] v@[j], rows@[j]),
        decreases rows@.len() - i,
    {
        let row = &rows[i];
        assert(encodable(rows@[i as int].group_id@.len()));
        v.push(
            RoomInfo {
                name: row.name.clone(),
                group_id_b32: encode_b32(row.group_id.as_slice()),
                members: member_list(row.members_b32.as_str()),
                created_at_ms: to_unsigned_ms(row.created_at_ms),
            },
        );
        i += 1;
    }
    v
}

/// A message of a room as it is kept.
#[derive(Debug)]
pub struct RoomMessageRow {
    pub outgoing: bool,
    pub sender_fp: String,
    pub text: String,
    pub created_at_ms: i64,
}

/// A message of a room as clients are shown it.
#[derive(Debug)]
pub struct RoomHistoryEntry {
    pub direction: MessageDirection,
    pub sender_fp: String,
    pub text: String,
    pub ts_unix_ms: u64,
}

/// What clients are shown of a message.
pub open spec fn is_history_entry(e: RoomHistoryEntry, row: RoomMessageRow) -> bool {
    &&& e.direction == if row.outgoing {
        MessageDirection::Outgoing
    } else {
        MessageDirection::Incoming
    }
    &&& e.sender_fp@ == row.sender_fp@
    &&& e.text@ == row.text@
    &&& e.ts_unix_ms == unsigned_ms(row.created_at_ms)
}

/// The messages of a room as clients are shown them.
pub fn room_history(rows: &Vec<RoomMessageRow>) -> (v: Vec<RoomHistoryEntry>)
    ensures
        v@.len() == rows@.len(),
        forall|i: int| 0 <= i < v@.len() ==> is_history_entry(#[trigger] v@[i], rows@[i]),
{
    let mut v: Vec<RoomHistoryEntry> = Vec::new();
    let mut i: usize = 0;
    while i < rows.len()
        invariant
            i <= rows@.len(),
            v@.len() == i,
            forall|j: int| 0 <= j < v@.len() ==> is_history_entry(#[trigger] v@[j], rows@[j]),
        decreases rows@.len() - i,
    {
        let row = &rows[i];
        let direction = if row.outgoing {
            MessageDirection::Outgoing
        } else {
            MessageDirection::Incoming
        };
        v.push(
            RoomHistoryEntry {
                direction,
                sender_fp: row.sender_fp.clone(),
                text: row.text.clone(),
                ts_unix_ms: to_unsigned_ms(row.created_at_ms),
            },
        );
        i += 1;
    }
    v
}

/// Begin an invitation to a room: there must be a hub, then the room's id, then
/// the peer must be readable.
pub fn begin_invite(
    hubs: usize,
    group_id_b32: &str,
    fingerprint: Option<[u8; 32]>,
    peer_kem_pub_b32: &str,
) -> (r: Result<(Vec<u8>, Contact), ApiError>)
    requires
        encodable(group_id_b32@.len()),
        encodable(peer_kem_pub_b32@.len()),
    ensures
        if hubs == 0 {
            r matches Err(e) && e@ == no_hubs()
        } else if b32_decoded(group_id_b32@) is None {
            r matches Err(e) && e@ == (
                ApiErrorCode::Malformed,
                "group_id_b32 is not valid base32"@,
            )
        } else if fingerprint is None {
            r matches Err(e) && e@ == (ApiErrorCode::Malformed, "peer_fingerprint did not parse"@)
        } else if b32_decoded(peer_kem_pub_b32@) is None {
            r matches Err(e) && e@ == (
                ApiErrorCode::Malformed,
                "peer_kem_pub_b32 is not valid base32"@,
            )
        } else {
            r matches Ok((id, c)) && Some(id@) == b32_decoded(group_id_b32@) && c@.fingerprint
                == fingerprint->0 && Some(c@.kem) == b32_decoded(peer_kem_pub_b32@)
        },
{
    if let Err(e) = require_hubs(hubs) {
        return Err(e);
    }
    match parse_group_id(group_id_b32) {
        Err(e) => Err(e),
        Ok(id) => match parse_contact(fingerprint, peer_kem_pub_b32) {
            Err(e) => Err(e),
            Ok(c) => Ok((id, c)),
        },
    }
}

/// The row of the room that a verified peer is invited to. A room without a row
/// has no name to invite to.
pub fn room_to_invite(
    _peer: &VerifiedContact,
    rows: &Vec<RoomRow>,
    group_id: &[u8],
) -> (r: Result<usize, ApiError>)
    ensures
        match row_of(rows@, group_id@, 0) {
            Some(i) => r matches Ok(k) && k == i && k < rows@.len(),
            None => r matches Err(e) && e@ == (
                ApiErrorCode::Malformed,
                "no room with that group_id (create one first with CreateRoom)"@,
            ),
        },
{
    match find_row(rows, group_id) {
        Some(i) => Ok(i),
        None => Err(malformed("no room with that group_id (create one first with CreateRoom)")),
    }
}

/// What follows from a commit that adds a member.
#[derive(Debug)]
pub struct InvitePlan {
    /// The room's row, with the new members.
    pub row: RoomRow,
    /// Who was in the room before: the commit goes to them, under the routing id
    /// that the room had before, and then the new member's key, under the one
    /// that it has now.
    pub pre_existing: Vec<String>,
    /// Whose keys are looked up for the new member.
    pub known_to: Vec<String>,
    /// The members, for the answer.
    pub members: Vec<String>,
}

/// What follows from a commit that adds `peer_fp` to a room.
pub open spec fn is_invite_plan(
    plan: InvitePlan,
    room: RoomRow,
    our_fp: Seq<char>,
    peer_fp: Seq<char>,
    before: Seq<Member>,
    after: Seq<Member>,
) -> bool {
    let names = nonempty_pieces(joined(fingerprints(after), ','), ',');
    &&& plan.row.group_id@ == room.group_id@
    &&& plan.row.name@ == room.name@
    &&& plan.row.created_at_ms == room.created_at_ms
    &&& plan.row.members_b32@ == joined(fingerprints(after), ',')
    &&& texts(plan.pre_existing@) == others(
        nonempty_pieces(joined(fingerprints(before), ','), ','),
        our_fp,
        Some(peer_fp),
    )
    &&& texts(plan.known_to@) == others(names, our_fp, Some(peer_fp))
    &&& texts(plan.members@) == names
}

/// Plan what follows from a commit that adds `peer_fp` to a room.
pub fn plan_invite(
    room: &RoomRow,
    our_fp: &str,
    peer_fp: &str,
    before: &Vec<Member>,
    after: &Vec<Member>,
) -> (plan: InvitePlan)
    ensures
        is_invite_plan(plan, *room, our_fp@, peer_fp@, before@, after@),
{
    let list_before = members_b32(before);
    let list_after = members_b32(after);
    let pre_existing = recipients(list_before.as_str(), our_fp, Some(peer_fp));
    let known_to = recipients(list_after.as_str(), our_fp, Some(peer_fp));
    let members = member_list(list_after.as_str());
    InvitePlan {
        row: RoomRow {
            group_id: copy_bytes(room.group_id.as_slice()),
            name: room.name.clone(),
            members_b32: list_after,
            created_at_ms: room.created_at_ms,
        },
        pre_existing,
        known_to,
        members,
    }
}

/// A member's key for envelopes.
#[derive(Debug)]
pub struct MemberKem {
    pub fingerprint: String,
    pub kem_pub: Vec<u8>,
}

/// A member's key as a value.
pub struct KemModel {
    pub fingerprint: Seq<char>,
    pub kem_pub: Seq<u8>,
}

impl View for MemberKem {
    type V = KemModel;

    open spec fn view(&self) -> KemModel {
        KemModel { fingerprint: self.fingerprint@, kem_pub: self.kem_pub@ }
    }
}

/// The keys of a list.
pub open spec fn kems_of(v: Seq<MemberKem>) -> Seq<KemModel> {
    v.map_values(|k: MemberKem| k@)
}

/// The keys of those members whose key is known.
pub open spec fn known_kems(names: Seq<Seq<char>>, kems: Seq<Option<Vec<u8>>>) -> Seq<KemModel>
    decreases names.len(),
{
    if names.len() == 0 {
        Seq::empty()
    } else {
        let front = known_kems(names.drop_last(), kems);
        match kems[names.len() - 1] {
            Some(k) => front.push(KemModel { fingerprint: names.last(), kem_pub: k@ }),
            None => front,
        }
    }
}

/// The keys that a new member is told: our own first, then those of the other
/// members as far as they are known, then its own.
pub open spec fn told_kems(
    ours: KemModel,
    names: Seq<Seq<char>>,
    kems: Seq<Option<Vec<u8>>>,
    peer: KemModel,
) -> Seq<KemModel> {
    seq![ours] + known_kems(names, kems) + seq![peer]
}

/// List the keys that a new member is told.
pub fn member_kems(
    our_fp: &str,
    our_kem: &[u8],
    known_to: &Vec<String>,
    kems: &Vec<Option<Vec<u8>>>,
    peer_fp: &str,
    peer_kem: &[u8],
) -> (v: Vec<MemberKem>)
    requires
        kems@.len() == known_to@.len(),
    ensures
        kems_of(v@) == told_kems(
            (KemModel { fingerprint: our_fp@, kem_pub: our_kem@ }),
            texts(known_to@),
            kems@,
            (KemModel { fingerprint: peer_fp@, kem_pub: peer_kem@ }),
        ),
{
    let mut v: Vec<MemberKem> = Vec::new();
    v.push(MemberKem { fingerprint: our_fp.to_owned(), kem_pub: copy_bytes(our_kem) });
    let ghost first = seq![(KemModel { fingerprint: our_fp@, kem_pub: our_kem@ })];
    let ghost names = texts(known_to@);
    let mut i: usize = 0;
    proof {
        assert(names.take(0) =~= Seq::<Seq<char>>::empty());
        assert(kems_of(v@) =~= first + known_kems(names.take(0), kems@));
    }
    while i < known_to.len()
        invariant
            i <= known_to@.len(),
            kems@.len() == known_to@.len(),
            names == texts(known_to@),
            kems_of(v@) == first + known_kems(names.take(i as int), kems@),
        decreases known_to@.len() - i,
    {
        let ghost before = kems_of(v@);
        proof {
            assert(names.take(i + 1).drop_last() =~= names.take(i as int));
            assert(names.take(i + 1).last() == known_to@[i as int]@);
        }
        if let Some(k) = &kems[i] {
            let entry = MemberKem {
                fingerprint: known_to[i].clone(),
                kem_pub: copy_bytes(k.as_slice()),
            };
            let ghost m = entry@;
            v.push(entry);
            proof {
                assert(kems_of(v@) =~= before.push(m));
                assert(before.push(m) =~= first + known_kems(names.take(i as int), kems@).push(m));
            }
        }
        i += 1;
    }
    let last = MemberKem { fingerprint: peer_fp.to_owned(), kem_pub: copy_bytes(peer_kem) };
    let ghost before = kems_of(v@);
    let ghost m = last@;
    v.push(last);
    proof {
        assert(names.take(i as int) =~= names);
        assert(kems_of(v@) =~= before.push(m));
        assert(before.push(m) =~= first + known_kems(names, kems@) + seq![m]);
    }
    v
}

/// The message that tells a room the key of a new member.
pub fn kem_advertisement(peer_fp: &str, peer_kem: &[u8]) -> (m: RoomAppMessage)
    ensures
        m matches RoomAppMessage::KemAdvertisement { fingerprint, kem_pub } && fingerprint@
            == peer_fp@ && kem_pub@ == peer_kem@,
{
    RoomAppMessage::KemAdvertisement {
        fingerprint: peer_fp.to_owned(),
        kem_pub: copy_bytes(peer_kem),
    }
}

/// The routing id under which a commit goes out: the one that the room had
/// before, because those who have not seen the commit listen there. Where it is
/// not known, the room's present one is used.
pub fn commit_target(old_token: Option<RoutingId>, new_token: Option<RoutingId>) -> (r: Option<
    RoutingId,
>)
    ensures
        r == if old_token is Some {
            old_token
        } else {
            new_token
        },
{
    crate::api::fanout::room_target(old_token, new_token)
}

/// What leaving a room takes.
#[derive(Debug)]
pub struct LeavePlan {
    /// Who stays.
    pub recipients: Vec<String>,
    /// Whether a commit goes out to them.
    pub notify: bool,
    /// How many stay.
    pub members: u32,
}

/// A count in 32 bits.
pub open spec fn clamped_count(n: nat) -> u32 {
    if n <= u32::MAX {
        n as u32
    } else {
        u32::MAX
    }
}

pub fn to_count(n: usize) -> (r: u32)
    ensures
        r == clamped_count(n as nat),
{
    if n as u64 <= u32::MAX as u64 {
        n as u32
    } else {
        u32::MAX
    }
}

/// What leaving a room takes.
pub open spec fn is_leave_plan(
    plan: LeavePlan,
    before: Seq<Member>,
    our_fp: Seq<char>,
    have_commit: bool,
) -> bool {
    &&& texts(plan.recipients@) == others(
        nonempty_pieces(joined(fingerprints(before), ','), ','),
        our_fp,
        None,
    )
    &&& plan.notify == (have_commit && plan.recipients@.len() > 0)
    &&& plan.members == clamped_count(plan.recipients@.len())
}

/// Plan to leave a room. Whoever is alone in a room has nobody to tell.
pub fn plan_leave(before: &Vec<Member>, our_fp: &str, have_commit: bool) -> (plan: LeavePlan)
    ensures
        is_leave_plan(plan, before@, our_fp@, have_commit),
{
    let list = members_b32(before);
    let recipients = recipients(list.as_str(), our_fp, None);
    let notify = have_commit && recipients.len() > 0;
    let members: u32 = to_count(recipients.len());
    LeavePlan { recipients, notify, members }
}

/// What is said where a room that is left or changed has no group.
pub fn no_group() -> (e: ApiError)
    ensures
        e@ == (ApiErrorCode::Malformed, "no MLS group with that group_id"@),
{
    malformed("no MLS group with that group_id")
}

/// What is said where who is removed is no member.
pub fn not_a_member() -> (e: ApiError)
    ensures
        e@ == (
            ApiErrorCode::Malformed,
            "that fingerprint is not a current member of the room"@,
        ),
{
    malformed("that fingerprint is not a current member of the room")
}

/// Begin to remove a member: there must be a hub, then the room's id and the
/// member's fingerprint must be readable, and nobody removes themselves.
/// `fingerprint` is what the member's fingerprint parses to, if it does.
pub fn begin_remove(
    hubs: usize,
    group_id_b32: &str,
    fingerprint: Option<[u8; 32]>,
    peer_fp: &str,
    our_fp: &str,
) -> (r: Result<(Vec<u8>, [u8; 32]), ApiError>)
    requires
        encodable(group_id_b32@.len()),
    ensures
        if hubs == 0 {
            r matches Err(e) && e@ == no_hubs()
        } else if b32_decoded(group_id_b32@) is None {
            r matches Err(e) && e@ == (
                ApiErrorCode::Malformed,
                "group_id_b32 is not valid base32"@,
            )
        } else if fingerprint is None {
            r matches Err(e) && e@ == (ApiErrorCode::Malformed, "peer_fingerprint did not parse"@)
        } else if peer_fp@ == our_fp@ {
            r matches Err(e) && e@ == (
                ApiErrorCode::Malformed,
                "use `leave` to remove yourself, not `remove`"@,
            )
        } else {
            r matches Ok((id, target)) && Some(id@) == b32_decoded(group_id_b32@) && Some(target)
                == fingerprint
        },
{
    if let Err(e) = require_hubs(hubs) {
        return Err(e);
    }
    match (parse_group_id(group_id_b32), fingerprint) {
        (Err(e), _) => Err(e),
        (Ok(_), None) => Err(malformed("peer_fingerprint did not parse")),
        (Ok(id), Some(target)) => if same_text(peer_fp, our_fp) {
            Err(malformed("use `leave` to remove yourself, not `remove`"))
        } else {
            Ok((id, target))
        },
    }
}

/// What follows from a commit that removes a member.
#[derive(Debug)]
pub struct RemovePlan {
    /// Who is told, the removed member among them.
    pub recipients: Vec<String>,
    /// The room's row, with the members that are left; nothing where the room has
    /// none.
    pub row: Option<RoomRow>,
    /// The members that are left, for the answer.
    pub members: Vec<String>,
}

/// What follows from a commit that removes a member.
pub open spec fn is_remove_plan(
    plan: RemovePlan,
    rows: Seq<RoomRow>,
    group_id: Seq<u8>,
    our_fp: Seq<char>,
    before: Seq<Member>,
    after: Seq<Member>,
) -> bool {
    &&& texts(plan.recipients@) == others(
        nonempty_pieces(joined(fingerprints(before), ','), ','),
        our_fp,
        None,
    )
    &&& texts(plan.members@) == nonempty_pieces(joined(fingerprints(after), ','), ',')
    &&& match row_of(rows, group_id, 0) {
        Some(i) => plan.row matches Some(row) && row.group_id@ == group_id && row.name@
            == rows[i].name@ && row.created_at_ms == rows[i].created_at_ms && row.members_b32@
            == joined(fingerprints(after), ','),
        None => plan.row is None,
    }
}

/// Plan what follows from a commit that removes a member.
pub fn plan_remove(
    rows: &Vec<RoomRow>,
    group_id: &[u8],
    our_fp: &str,
    before: &Vec<Member>,
    after: &Vec<Member>,
) -> (plan: RemovePlan)
    ensures
        is_remove_plan(plan, rows@, group_id@, our_fp@, before@, after@),
{
    let list_before = members_b32(before);
    let list_after = members_b32(after);
    let recipients = recipients(list_before.as_str(), our_fp, None);
    let members = member_list(list_after.as_str());
    let row = match find_row(rows, group_id) {
        Some(i) => Some(
            RoomRow {
                group_id: copy_bytes(group_id),
                name: rows[i].name.clone(),
                members_b32: list_after,
                created_at_ms: rows[i].created_at_ms,
            },
        ),
        None => None,
    };
    RemovePlan { recipients, row, members }
}

/// Who is removed from a room is told so, as is everyone else but ourselves.
pub proof fn law_removed_member_is_told(
    before: Seq<Seq<char>>,
    ours: Seq<char>,
    removed: Seq<char>,
)
    requires
        before.contains(removed),
        removed != ours,
    ensures
        others(before, ours, None).contains(removed),
{
    crate::api::fanout::law_recipients(before, ours, None, removed);
}

/// A commit that adds a member goes to those who were there before, never to the
/// new member, who starts from the invitation, nor to ourselves.
pub proof fn law_commit_goes_to_those_before(
    before: Seq<Seq<char>>,
    ours: Seq<char>,
    invited: Seq<char>,
    who: Seq<char>,
)
    ensures
        others(before, ours, Some(invited)).contains(who) <==> before.contains(who) && who != ours
            && who != invited,
{
    crate::api::fanout::law_recipients(before, ours, Some(invited), who);
}

/// A new member is told no key in the name of someone who is not in the room.
pub proof fn law_keys_are_of_members(
    names: Seq<Seq<char>>,
    kems: Seq<Option<Vec<u8>>>,
    i: int,
)
    requires
        0 <= i < known_kems(names, kems).len(),
    ensures
        names.contains(known_kems(names, kems)[i].fingerprint),
    decreases names.len(),
{
    let front = names.drop_last();
    let kf = known_kems(front, kems);
    if i < kf.len() {
        law_keys_are_of_members(front, kems, i);
        let k = choose|k: int| 0 <= k < front.len() && front[k] == kf[i].fingerprint;
        assert(names[k] == kf[i].fingerprint);
    } else {
        assert(names[names.len() - 1] == known_kems(names, kems)[i].fingerprint);
    }
}

/// A time at or after the epoch is shown as it is, and one before it as the epoch.
pub proof fn law_shown_times(ms: i64)
    ensures
        ms >= 0 ==> unsigned_ms(ms) == ms,
        ms <= 0 ==> unsigned_ms(ms) == 0,
{
}

/// What was kept of a message is what clients are shown: an incoming one as incoming,
/// one of our own as outgoing, with its sender, its text and its time.
pub proof fn law_history_shows_what_was_kept(e: RoomHistoryEntry, row: RoomMessageRow)
    requires
        is_history_entry(e, row),
    ensures
        row.outgoing ==> e.direction == MessageDirection::Outgoing,
        !row.outgoing ==> e.direction == MessageDirection::Incoming,
        e.sender_fp@ == row.sender_fp@,
        e.text@ == row.text@,
        row.created_at_ms >= 0 ==> e.ts_unix_ms == row.created_at_ms,
{
}

/// Messages of the two directions are never shown alike.
pub proof fn law_directions_are_told_apart(
    a: RoomHistoryEntry,
    b: RoomHistoryEntry,
    kept_a: RoomMessageRow,
    kept_b: RoomMessageRow,
)
    requires
        is_history_entry(a, kept_a),
        is_history_entry(b, kept_b),
    ensures
        a.direction == b.direction <==> kept_a.outgoing == kept_b.outgoing,
{
}

/// These are fingerprints as they stand in lists: not empty, and without a comma.
pub open spec fn listable(names: Seq<Seq<char>>) -> bool {
    forall|i: int| 0 <= i < names.len() ==> (#[trigger] names[i]).len() > 0 && !names[i].contains(',')
}

/// What clients are shown of a room: the name, an id that leads back to the group, the
/// members whose list was kept, one by one, and when it was made.
pub proof fn law_room_is_shown(i: RoomInfo, row: RoomRow, names: Seq<Seq<char>>)
    requires
        is_room_info(i, row),
        row.members_b32@ == joined(names, ','),
        listable(names),
    ensures
        i.name@ == row.name@,
        b32_decoded(i.group_id_b32@) == Some(row.group_id@),
        texts(i.members@) == names,
        row.created_at_ms >= 0 ==> i.created_at_ms == row.created_at_ms,
{
    law_members_round_trip(names);
    law_b32_round_trip(row.group_id@);
}

/// A room that was just made is shown with its name and time and with us alone in it.
pub proof fn law_new_room_is_ours(
    row: RoomRow,
    i: RoomInfo,
    group_id: Seq<u8>,
    name: Seq<char>,
    our_fp: Seq<char>,
    now_ms: i64,
)
    requires
        is_new_row(row, group_id, name, our_fp, now_ms),
        is_room_info(i, row),
        listable(seq![our_fp]),
        now_ms >= 0,
    ensures
        i.name@ == name,
        b32_decoded(i.group_id_b32@) == Some(group_id),
        texts(i.members@) == seq![our_fp],
        i.created_at_ms == now_ms,
{
    assert(joined(seq![our_fp], ',') == our_fp);
    law_room_is_shown(i, row, seq![our_fp]);
}

/// The positions of the members whose key is known.
pub open spec fn known_at(n: nat, kems: Seq<Option<Vec<u8>>>) -> Seq<int>
    decreases n,
{
    if n == 0 {
        Seq::empty()
    } else if kems[n - 1] is Some {
        known_at((n - 1) as nat, kems).push(n - 1)
    } else {
        known_at((n - 1) as nat, kems)
    }
}

/// A new member is told our key first and its own last; between them stands the key of
/// every other member whose key is known, next to that member's name and in the order
/// of the members, and nothing else.
pub proof fn law_told_keys(
    ours: KemModel,
    names: Seq<Seq<char>>,
    kems: Seq<Option<Vec<u8>>>,
    peer: KemModel,
)
    requires
        kems.len() == names.len(),
    ensures
        ({
            let told = told_kems(ours, names, kems, peer);
            let at = known_at(names.len(), kems);
            &&& told.len() == at.len() + 2
            &&& told[0] == ours
            &&& told.last() == peer
            &&& forall|j: int|
                0 <= j < at.len() ==> 0 <= #[trigger] at[j] < names.len() && (kems[at[j]] matches Some(k)
                    && told[j + 1].fingerprint == names[at[j]] && told[j + 1].kem_pub == k@)
            &&& forall|j: int, k: int| 0 <= j < k < at.len() ==> #[trigger] at[j] < #[trigger] at[k]
            &&& forall|i: int| 0 <= i < kems.len() && #[trigger] kems[i] is Some ==> at.contains(i)
        }),
{
    lemma_known(names, kems, names.len());
    assert(names.take(names.len() as int) =~= names);
    let known = known_kems(names, kems);
    let told = told_kems(ours, names, kems, peer);
    assert forall|j: int| 0 <= j < known.len() implies told[j + 1] == #[trigger] known[j] by {}
}

proof fn lemma_known(names: Seq<Seq<char>>, kems: Seq<Option<Vec<u8>>>, n: nat)
    requires
        n <= names.len(),
        kems.len() == names.len(),
    ensures
        ({
            let known = known_kems(names.take(n as int), kems);
            let at = known_at(n, kems);
            &&& known.len() == at.len()
            &&& forall|j: int|
                0 <= j < at.len() ==> 0 <= #[trigger] at[j] < n && (kems[at[j]] matches Some(k)
                    && known[j].fingerprint == names[at[j]] && known[j].kem_pub == k@)
            &&& forall|j: int, k: int| 0 <= j < k < at.len() ==> #[trigger] at[j] < #[trigger] at[k]
            &&& forall|i: int| 0 <= i < n && #[trigger] kems[i] is Some ==> at.contains(i)
        }),
    decreases n,
{
    if n > 0 {
        let m = (n - 1) as nat;
        lemma_known(names, kems, m);
        assert(names.take(n as int).drop_last() =~= names.take(m as int));
        let at = known_at(n, kems);
        let less = known_at(m, kems);
        assert forall|i: int| 0 <= i < n && #[trigger] kems[i] is Some implies at.contains(i) by {
            if i < m {
                let j = choose|j: int| 0 <= j < less.len() && less[j] == i;
                assert(at[j] == i);
            } else {
                assert(at[at.len() - 1] == i);
            }
        }
    }
}

/// An invitation keeps the room's id, name and time and lists the members that the group
/// has now. The commit goes to everyone who was there before but us, and the keys of all
/// others that are there now are looked up for the new member.
pub proof fn law_invitation_plan(
    plan: InvitePlan,
    room: RoomRow,
    our_fp: Seq<char>,
    peer_fp: Seq<char>,
    before: Seq<Member>,
    after: Seq<Member>,
    who: Seq<char>,
)
    requires
        is_invite_plan(plan, room, our_fp, peer_fp, before, after),
        listable(fingerprints(before)),
        listable(fingerprints(after)),
    ensures
        plan.row.group_id@ == room.group_id@,
        plan.row.name@ == room.name@,
        plan.row.created_at_ms == room.created_at_ms,
        nonempty_pieces(plan.row.members_b32@, ',') == fingerprints(after),
        texts(plan.members@) == fingerprints(after),
        texts(plan.pre_existing@).contains(who) <==> fingerprints(before).contains(who) && who
            != our_fp && who != peer_fp,
        texts(plan.known_to@).contains(who) <==> fingerprints(after).contains(who) && who != our_fp
            && who != peer_fp,
{
    law_members_round_trip(fingerprints(before));
    law_members_round_trip(fingerprints(after));
    law_commit_goes_to_those_before(fingerprints(before), our_fp, peer_fp, who);
    law_commit_goes_to_those_before(fingerprints(after), our_fp, peer_fp, who);
}

/// A removal tells everyone who was there before but us, the removed member among them,
/// and leaves the room's row with those who are there now; other rows are not touched.
pub proof fn law_removal_plan(
    plan: RemovePlan,
    rows: Seq<RoomRow>,
    group_id: Seq<u8>,
    our_fp: Seq<char>,
    before: Seq<Member>,
    after: Seq<Member>,
    who: Seq<char>,
)
    requires
        is_remove_plan(plan, rows, group_id, our_fp, before, after),
        listable(fingerprints(before)),
        listable(fingerprints(after)),
    ensures
        texts(plan.recipients@).contains(who) <==> fingerprints(before).contains(who) && who
            != our_fp,
        texts(plan.members@) == fingerprints(after),
        plan.row is Some <==> exists|i: int|
            0 <= i < rows.len() && (#[trigger] rows[i]).group_id@ == group_id,
        plan.row matches Some(row) ==> {
            &&& row.group_id@ == group_id
            &&& nonempty_pieces(row.members_b32@, ',') == fingerprints(after)
            &&& exists|i: int|
                0 <= i < rows.len() && (#[trigger] rows[i]).group_id@ == group_id && row.name@
                    == rows[i].name@ && row.created_at_ms == rows[i].created_at_ms
        },
{
    law_members_round_trip(fingerprints(before));
    law_members_round_trip(fingerprints(after));
    crate::api::fanout::law_recipients(fingerprints(before), our_fp, None, who);
    law_row_is_found(rows, group_id, 0);
}

/// Leaving tells everyone else if there is a commit to tell and someone to tell it to,
/// and counts them.
pub proof fn law_leaving_plan(
    plan: LeavePlan,
    before: Seq<Member>,
    our_fp: Seq<char>,
    have_commit: bool,
    who: Seq<char>,
)
    requires
        is_leave_plan(plan, before, our_fp, have_commit),
        listable(fingerprints(before)),
    ensures
        texts(plan.recipients@).contains(who) <==> fingerprints(before).contains(who) && who
            != our_fp,
        plan.notify <==> have_commit && exists|i: int|
            0 <= i < fingerprints(before).len() && #[trigger] fingerprints(before)[i] != our_fp,
        plan.recipients@.len() <= u32::MAX ==> plan.members == plan.recipients@.len(),
        plan.recipients@.len() > u32::MAX ==> plan.members == u32::MAX,
{
    let names = fingerprints(before);
    law_members_round_trip(names);
    crate::api::fanout::law_recipients(names, our_fp, None, who);
    let told = texts(plan.recipients@);
    assert(told.len() == plan.recipients@.len());
    if told.len() > 0 {
        crate::api::fanout::law_recipients(names, our_fp, None, told[0]);
        assert(told.contains(told[0]));
        let i = choose|i: int| 0 <= i < names.len() && names[i] == told[0];
        assert(names[i] != our_fp);
    }
    if exists|i: int| 0 <= i < names.len() && #[trigger] names[i] != our_fp {
        let i = choose|i: int| 0 <= i < names.len() && #[trigger] names[i] != our_fp;
        crate::api::fanout::law_recipients(names, our_fp, None, names[i]);
        assert(names.contains(names[i]));
    }
}

} // verus!
