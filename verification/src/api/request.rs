//! A request while its calls are made: what each call is given, and what becomes
//! of what it gives back.
//!
//! A request is given a wish. It says which call is the next and what to hand to
//! it; whoever makes the call says what came of it. Everything that is sent is
//! settled here: to whom it goes, under which routing id, and what it holds.
use vstd::prelude::*;

use crate::api::contact::VerifiedContact;
use crate::api::error::{ApiError, ApiErrorCode};
use crate::api::fanout::{others, recipients};
use crate::api::flow::{
    advance, after_call, bootstrap_order, bootstrap_tasks, create_order, create_tasks,
    delete_order, delete_tasks, export_order, export_tasks, invite_head, invite_news, invite_order,
    invite_tasks, law_no_call_after_failure, leave_order, leave_tasks, lemma_plain_prefix,
    lemma_progress_bound, no_skips, progress, remove_order, remove_tasks, send_order,
    send_piece_order, send_piece_tasks, send_tasks, standing, start, Progress, Step, Task,
};
use crate::api::messages::{names_in, refusal, room_recipients};
use crate::api::rooms::{
    clamped_count, commit_target, is_invite_plan, is_new_row, is_remove_plan, kem_advertisement,
    new_room, plan_invite, plan_leave, plan_remove, room_to_invite, InvitePlan, RemovePlan,
};
use crate::bytes::copy_bytes;
use crate::hub::gossip::RoutingId;
use crate::room::RoomAppMessage;
use crate::roster::{find_row, fingerprints, joined, members_b32, row_of, Member, RoomRow};
use crate::text::{nonempty_pieces, texts};

verus! {

/// What a request is for.
#[derive(Debug, Clone, Copy, PartialEq, Eq, Structural)]
pub enum Purpose {
    /// Hand out a key package.
    Export,
    /// Make a room.
    Create,
    /// Begin a conversation with an invitation.
    Bootstrap,
    /// Invite to a room.
    Invite,
    /// Leave a room.
    Leave,
    /// Remove a member from a room.
    Remove,
    /// Drop a room.
    Delete,
    /// Send a text to a room.
    Send,
    /// Send one message of a file to a room.
    SendPiece,
}

/// The peer of a request.
#[derive(Debug)]
pub struct Peer {
    pub contact: VerifiedContact,
    pub fingerprint: String,
    /// Where envelopes for the peer go.
    pub inbox: RoutingId,
}

/// What is asked for.
#[derive(Debug)]
pub struct Wish {
    pub purpose: Purpose,
    pub our_fp: String,
    /// The room, if there is one yet.
    pub group_id: Vec<u8>,
    pub peer: Option<Peer>,
    /// The rows of the rooms.
    pub rows: Vec<RoomRow>,
    /// What to send.
    pub message: Option<RoomAppMessage>,
    /// Who gets it.
    pub recipients: Vec<String>,
    /// Who is removed.
    pub target: Option<[u8; 32]>,
    /// The name of a room that is made, and when it is.
    pub name: String,
    pub now_ms: i64,
    /// The text that begins a conversation.
    pub first_message: Option<String>,
}

/// What came of a call.
#[derive(Debug)]
pub enum Outcome {
    /// It failed.
    Failed,
    /// It went well.
    Done,
    /// It gave these bytes.
    Bytes(Vec<u8>),
    /// It made a group with this id.
    Created(Vec<u8>),
    /// It loaded a group with these members, whose room has this routing id.
    Loaded {
        members: Vec<Member>,
        token: Option<RoutingId>,
    },
    /// It changed the group, which has these members now, and whose room has this
    /// routing id now.
    Changed {
        commit: Vec<u8>,
        welcome: Vec<u8>,
        members: Vec<Member>,
        token: Option<RoutingId>,
    },
}

/// A call that was made, and what came of it.
pub struct Made {
    pub step: Step,
    pub outcome: Outcome,
}

/// A request, as a value: what is asked for, and the calls so far, in order.
pub struct RequestModel {
    pub wish: Wish,
    pub made: Seq<Made>,
}

/// What a call gives that a later one needs.
pub enum Product {
    KeyPackage,
    Snapshot,
    Encoded,
    Encrypted,
    Sealed,
}

/// What this call gives, if it gives bytes.
pub open spec fn product_of(step: Step) -> Option<Product> {
    match step {
        Step::MintKeyPackage => Some(Product::KeyPackage),
        Step::Snapshot => Some(Product::Snapshot),
        Step::EncodeMessage | Step::EncodeWelcome | Step::EncodeKemAd => Some(Product::Encoded),
        Step::Encrypt | Step::EncryptKemAd => Some(Product::Encrypted),
        Step::Seal => Some(Product::Sealed),
        _ => None,
    }
}

/// The call changes the group.
pub open spec fn changes_group(step: Step) -> bool {
    step == Step::InviteMember || step == Step::RemoveMember || step == Step::RemoveSelf
}

/// The call went well: it gave what such a call gives.
pub open spec fn went_well(e: Made) -> bool {
    if product_of(e.step) is Some {
        e.outcome is Bytes
    } else if e.step == Step::CreateGroup {
        e.outcome is Created
    } else if e.step == Step::LoadGroup {
        e.outcome is Loaded
    } else if changes_group(e.step) {
        e.outcome is Changed
    } else {
        e.outcome is Done
    }
}

/// Which of the calls went well.
pub open spec fn oks(made: Seq<Made>) -> Seq<bool> {
    made.map_values(|e: Made| went_well(e))
}

/// The latest bytes of a kind.
pub open spec fn latest(made: Seq<Made>, p: Product) -> Option<Seq<u8>>
    decreases made.len(),
{
    if made.len() == 0 {
        None
    } else if went_well(made.last()) && product_of(made.last().step) == Some(p) {
        Some(made.last().outcome->Bytes_0@)
    } else {
        latest(made.drop_last(), p)
    }
}

/// The group as it was loaded: its members, and the routing id of its room.
pub open spec fn loaded(made: Seq<Made>) -> Option<(Seq<Member>, Option<RoutingId>)>
    decreases made.len(),
{
    if made.len() == 0 {
        None
    } else if went_well(made.last()) && made.last().step == Step::LoadGroup {
        Some((made.last().outcome->Loaded_members@, made.last().outcome->Loaded_token))
    } else {
        loaded(made.drop_last())
    }
}

/// The members of the group before it was changed.
pub open spec fn members_before(made: Seq<Made>) -> Seq<Member> {
    match loaded(made) {
        Some((members, _)) => members,
        None => Seq::empty(),
    }
}

/// A change of the group.
#[verifier::ext_equal]
pub struct Change {
    pub commit: Seq<u8>,
    pub welcome: Seq<u8>,
    /// The members before it, and after it.
    pub before: Seq<Member>,
    pub after: Seq<Member>,
    /// The routing id of the room after it.
    pub token: Option<RoutingId>,
}

/// The change of the group, if it was changed.
pub open spec fn change(made: Seq<Made>) -> Option<Change>
    decreases made.len(),
{
    if made.len() == 0 {
        None
    } else if went_well(made.last()) && changes_group(made.last().step) {
        Some(
            Change {
                commit: made.last().outcome->commit@,
                welcome: made.last().outcome->welcome@,
                before: members_before(made.drop_last()),
                after: made.last().outcome->Changed_members@,
                token: made.last().outcome->Changed_token,
            },
        )
    } else {
        change(made.drop_last())
    }
}

/// The id of the group that was made, if one was.
pub open spec fn created(made: Seq<Made>) -> Option<Seq<u8>>
    decreases made.len(),
{
    if made.len() == 0 {
        None
    } else if went_well(made.last()) && made.last().step == Step::CreateGroup {
        Some(made.last().outcome->Created_0@)
    } else {
        created(made.drop_last())
    }
}

/// The id of the request's group.
pub open spec fn group_of(m: RequestModel) -> Seq<u8> {
    match created(m.made) {
        Some(id) => id,
        None => m.wish.group_id@,
    }
}

/// The fingerprints of members, as a room's list names them.
pub open spec fn names_of(members: Seq<Member>) -> Seq<Seq<char>> {
    nonempty_pieces(joined(fingerprints(members), ','), ',')
}

/// Whoever is left out besides ourselves: the peer that is invited, who starts from
/// the invitation.
pub open spec fn left_out(wish: Wish) -> Option<Seq<char>> {
    if wish.purpose == Purpose::Invite && wish.peer is Some {
        Some(wish.peer->0.fingerprint@)
    } else {
        None
    }
}

/// To whom the request sends: to those who were in the group before it was changed,
/// or, where nothing is changed, to those that were asked for.
pub open spec fn addressees(m: RequestModel) -> Seq<Seq<char>> {
    match change(m.made) {
        Some(c) => others(names_of(c.before), m.wish.our_fp@, left_out(m.wish)),
        None => texts(m.wish.recipients@),
    }
}

/// The routing id under which a change is told: the one that the room had before,
/// else the one that it has now.
pub open spec fn change_target(made: Seq<Made>) -> Option<RoutingId> {
    match loaded(made) {
        Some((_, Some(t))) => Some(t),
        _ => match change(made) {
            Some(c) => c.token,
            None => None,
        },
    }
}

/// Others than us and the peer are in the group.
pub open spec fn has_others(m: RequestModel) -> bool {
    others(names_of(members_before(m.made)), m.wish.our_fp@, left_out(m.wish)).len() > 0
}

/// The calls of a request. Whether there is anyone to tell of an invitation is known
/// once the group is loaded.
pub open spec fn tasks_of(m: RequestModel) -> Seq<Task> {
    match m.wish.purpose {
        Purpose::Export => export_order(),
        Purpose::Create => create_order(),
        Purpose::Bootstrap => bootstrap_order(),
        Purpose::Invite => invite_order(has_others(m)),
        Purpose::Leave => leave_order(),
        Purpose::Remove => remove_order(),
        Purpose::Delete => delete_order(),
        Purpose::Send => send_order(),
        Purpose::SendPiece => send_piece_order(),
    }
}

/// Where a request stands.
pub open spec fn stands(m: RequestModel) -> Progress {
    progress(tasks_of(m), oks(m.made))
}

/// The request after a call.
pub open spec fn with_outcome(m: RequestModel, outcome: Outcome) -> RequestModel {
    match stands(m) {
        Progress::At(i) => RequestModel {
            made: m.made.push(Made { step: tasks_of(m)[i as int].step, outcome }),
            ..m
        },
        _ => m,
    }
}

/// The request as it stood after its first `k` calls.
pub open spec fn earlier(m: RequestModel, k: int) -> RequestModel {
    RequestModel { made: m.made.take(k), ..m }
}

/// Every call was made when it was the next.
#[verifier::opaque]
pub open spec fn in_turn(m: RequestModel) -> bool {
    forall|k: int|
        #![trigger m.made[k]]
        0 <= k < m.made.len() ==> (stands(earlier(m, k)) matches Progress::At(j) && m.made[k].step
            == tasks_of(earlier(m, k))[j as int].step)
}

/// What to do next, with all that it takes.
#[derive(Debug)]
pub enum Action<'a> {
    MintKeyPackage,
    CreateGroup,
    LoadGroup {
        group_id: &'a Vec<u8>,
    },
    InviteMember {
        peer: &'a Peer,
    },
    RemoveMember {
        target: &'a [u8; 32],
    },
    RemoveSelf,
    ForgetGroup {
        group_id: &'a Vec<u8>,
    },
    Snapshot,
    SaveState {
        snapshot: &'a Vec<u8>,
    },
    RecordPeerGroup {
        peer: &'a Peer,
        group_id: &'a Vec<u8>,
    },
    SaveRoom {
        row: &'a RoomRow,
    },
    SaveMemberKem {
        group_id: &'a Vec<u8>,
        peer: &'a Peer,
    },
    ForgetMemberKems {
        group_id: &'a Vec<u8>,
    },
    ForgetMessages {
        group_id: &'a Vec<u8>,
    },
    DeleteRoom {
        group_id: &'a Vec<u8>,
    },
    Encode {
        message: &'a RoomAppMessage,
    },
    Encrypt {
        bytes: &'a Vec<u8>,
    },
    EncodeWelcome {
        welcome: &'a Vec<u8>,
        peer: &'a Peer,
        first_message: &'a Option<String>,
        room: Option<&'a InvitePlan>,
    },
    Seal {
        bytes: &'a Vec<u8>,
        peer: &'a Peer,
    },
    SendWelcome {
        target: RoutingId,
        sealed: &'a Vec<u8>,
    },
    /// Send to these members; under the room's present routing id where none is
    /// given.
    FanOut {
        group_id: &'a Vec<u8>,
        members: &'a Vec<String>,
        target: Option<RoutingId>,
        bytes: &'a Vec<u8>,
    },
    /// Keep a text of ours.
    StoreOutgoing {
        group_id: &'a Vec<u8>,
        sender: &'a String,
        text: &'a String,
    },
    Subscribe {
        group_id: &'a Vec<u8>,
    },
    /// There is nothing to do here, which is as good as done.
    Nothing,
    /// The request lacks what this takes, which is as good as failed.
    Missing,
}

/// The row of the room that the request is about.
pub open spec fn room_row(wish: Wish) -> Option<RoomRow> {
    match row_of(wish.rows@, wish.group_id@, 0) {
        Some(i) => Some(wish.rows@[i]),
        None => None,
    }
}

/// The plan that follows from the change that invites the peer; there is one if the
/// room has a row.
pub open spec fn is_planned_invite(m: RequestModel, plan: Option<InvitePlan>) -> bool {
    let due = m.wish.purpose == Purpose::Invite && m.wish.peer is Some && room_row(m.wish) is Some
        && change(m.made) is Some;
    match plan {
        Some(p) => due && is_invite_plan(
            p,
            room_row(m.wish)->0,
            m.wish.our_fp@,
            m.wish.peer->0.fingerprint@,
            change(m.made)->0.before,
            change(m.made)->0.after,
        ),
        None => !due,
    }
}

/// The plan that follows from the change that removes a member.
pub open spec fn is_planned_removal(m: RequestModel, plan: Option<RemovePlan>) -> bool {
    let due = m.wish.purpose == Purpose::Remove && change(m.made) is Some;
    match plan {
        Some(p) => due && is_remove_plan(
            p,
            m.wish.rows@,
            m.wish.group_id@,
            m.wish.our_fp@,
            change(m.made)->0.before,
            change(m.made)->0.after,
        ),
        None => !due,
    }
}

/// The message that tells the room the peer's key.
pub open spec fn is_kem_ad(message: RoomAppMessage, peer: Peer) -> bool {
    message matches RoomAppMessage::KemAdvertisement { fingerprint, kem_pub } && fingerprint@
        == peer.fingerprint@ && kem_pub@ == peer.contact@.kem
}

/// The row to save, if there is one.
pub open spec fn is_saving(m: RequestModel, a: Action<'_>) -> bool {
    match m.wish.purpose {
        Purpose::Create => match created(m.made) {
            Some(id) => a matches Action::SaveRoom { row } && is_new_row(
                *row,
                id,
                m.wish.name@,
                m.wish.our_fp@,
                m.wish.now_ms,
            ),
            None => a is Missing,
        },
        Purpose::Remove => exists|plan: Option<RemovePlan>|
            #[trigger] is_planned_removal(m, plan) && match plan {
                Some(p) => match p.row {
                    Some(row) => a matches Action::SaveRoom { row: saved } && *saved == row,
                    None => a is Nothing,
                },
                None => a is Nothing,
            },
        _ => exists|plan: Option<InvitePlan>|
            #[trigger] is_planned_invite(m, plan) && match plan {
                Some(p) => a matches Action::SaveRoom { row: saved } && *saved == p.row,
                None => a is Nothing,
            },
    }
}

/// The next call is this one, and is handed what it takes.
pub open spec fn is_action(m: RequestModel, step: Step, a: Action<'_>) -> bool {
    match step {
        Step::MintKeyPackage => a is MintKeyPackage,
        Step::CreateGroup => a is CreateGroup,
        Step::LoadGroup => a matches Action::LoadGroup { group_id } && group_id@ == group_of(m),
        Step::InviteMember => match m.wish.peer {
            Some(p) => a matches Action::InviteMember { peer } && *peer == p,
            None => a is Missing,
        },
        Step::RemoveMember => match m.wish.target {
            Some(t) => a matches Action::RemoveMember { target } && *target == t,
            None => a is Missing,
        },
        Step::RemoveSelf => a is RemoveSelf,
        Step::ForgetGroup => a matches Action::ForgetGroup { group_id } && group_id@ == group_of(m),
        Step::Snapshot => a is Snapshot,
        Step::SaveState => match latest(m.made, Product::Snapshot) {
            Some(s) => a matches Action::SaveState { snapshot } && snapshot@ == s,
            None => a is Missing,
        },
        Step::RecordPeerGroup => match (m.wish.peer, created(m.made)) {
            (Some(p), Some(id)) => a matches Action::RecordPeerGroup { peer, group_id } && *peer == p
                && group_id@ == id,
            _ => a is Missing,
        },
        Step::SaveRoom => is_saving(m, a),
        Step::SaveMemberKem => match m.wish.peer {
            Some(p) => a matches Action::SaveMemberKem { group_id, peer } && group_id@ == group_of(m)
                && *peer == p,
            None => a is Missing,
        },
        Step::ForgetMemberKems => a matches Action::ForgetMemberKems { group_id } && group_id@
            == group_of(m),
        Step::ForgetMessages => a matches Action::ForgetMessages { group_id } && group_id@
            == group_of(m),
        Step::DeleteRoom => a matches Action::DeleteRoom { group_id } && group_id@ == group_of(m),
        Step::EncodeMessage => match m.wish.message {
            Some(w) => a matches Action::Encode { message } && *message == w,
            None => a is Missing,
        },
        Step::EncodeKemAd => match m.wish.peer {
            Some(p) => a matches Action::Encode { message } && is_kem_ad(*message, p),
            None => a is Missing,
        },
        Step::Encrypt | Step::EncryptKemAd => match latest(m.made, Product::Encoded) {
            Some(b) => a matches Action::Encrypt { bytes } && bytes@ == b,
            None => a is Missing,
        },
        Step::EncodeWelcome => match (m.wish.peer, change(m.made)) {
            (Some(p), Some(c)) => a matches Action::EncodeWelcome {
                welcome,
                peer,
                first_message,
                room,
            } && welcome@ == c.welcome && *peer == p && *first_message == m.wish.first_message
                && is_planned_invite(
                m,
                match room {
                    Some(r) => Some(*r),
                    None => None,
                },
            ),
            _ => a is Missing,
        },
        Step::Seal => match (m.wish.peer, latest(m.made, Product::Encoded)) {
            (Some(p), Some(b)) => a matches Action::Seal { bytes, peer } && bytes@ == b && *peer == p,
            _ => a is Missing,
        },
        Step::SendWelcome => match (m.wish.peer, latest(m.made, Product::Sealed)) {
            (Some(p), Some(s)) => a matches Action::SendWelcome { target, sealed } && target
                == p.inbox && sealed@ == s,
            _ => a is Missing,
        },
        Step::SendCommit => if addressees(m).len() == 0 {
            a is Nothing
        } else {
            match change(m.made) {
                Some(c) => is_sending(m, a, change_target(m.made), c.commit),
                None => a is Missing,
            }
        },
        Step::SendKemAd | Step::SendMessage => match latest(m.made, Product::Encrypted) {
            Some(b) => is_sending(m, a, None, b),
            None => a is Missing,
        },
        Step::StoreOutgoing => match m.wish.message {
            Some(RoomAppMessage::Text { text: t }) => a matches Action::StoreOutgoing {
                group_id,
                sender,
                text,
            } && group_id@ == group_of(m) && sender@ == m.wish.our_fp@ && text@ == t@,
            _ => a is Missing,
        },
        Step::Subscribe => a matches Action::Subscribe { group_id } && group_id@ == group_of(m),
    }
}

/// These bytes go to the request's addressees under this routing id.
pub open spec fn is_sending(
    m: RequestModel,
    a: Action<'_>,
    under: Option<RoutingId>,
    content: Seq<u8>,
) -> bool {
    a matches Action::FanOut { group_id, members, target, bytes } && group_id@ == group_of(m)
        && texts(members@) == addressees(m) && target == under && bytes@ == content
}

/// A request while its calls are made.
pub struct Request {
    wish: Wish,
    kem_ad: Option<RoomAppMessage>,
    tasks: Vec<Task>,
    at: Progress,
    group_id: Option<Vec<u8>>,
    before: Vec<Member>,
    old_token: Option<RoutingId>,
    new_token: Option<RoutingId>,
    commit: Option<Vec<u8>>,
    welcome: Option<Vec<u8>>,
    planned: Option<Vec<String>>,
    invited: Option<InvitePlan>,
    removed: Option<RemovePlan>,
    new_row: Option<RoomRow>,
    key_package: Option<Vec<u8>>,
    snapshot: Option<Vec<u8>>,
    encoded: Option<Vec<u8>>,
    encrypted: Option<Vec<u8>>,
    sealed: Option<Vec<u8>>,
    made: Ghost<Seq<Made>>,
}

impl View for Request {
    type V = RequestModel;

    closed spec fn view(&self) -> RequestModel {
        RequestModel { wish: self.wish, made: self.made@ }
    }
}

/// The bytes that are kept are these.
spec fn keeps(o: Option<Vec<u8>>, s: Option<Seq<u8>>) -> bool {
    match o {
        Some(v) => s == Some(v@),
        None => s is None,
    }
}

impl Request {
    /// What is kept is what the calls so far gave.
    spec fn keeps_all(&self, made: Seq<Made>) -> bool {
        let m = RequestModel { wish: self.wish, made };
        &&& match self.kem_ad {
            Some(message) => self.wish.peer matches Some(p) && is_kem_ad(message, p),
            None => self.wish.peer is None,
        }
        &&& keeps(self.group_id, created(made))
        &&& self.before@ == members_before(made)
        &&& self.old_token == match loaded(made) {
            Some((_, t)) => t,
            None => None,
        }
        &&& match change(made) {
            Some(c) => {
                &&& self.commit matches Some(v) && v@ == c.commit
                &&& self.welcome matches Some(v) && v@ == c.welcome
                &&& self.new_token == c.token
                &&& self.planned matches Some(v) && texts(v@) == addressees(m)
            },
            None => self.commit is None && self.welcome is None && self.new_token is None
                && self.planned is None,
        }
        &&& is_planned_invite(m, self.invited)
        &&& is_planned_removal(m, self.removed)
        &&& match self.new_row {
            Some(row) => created(made) matches Some(id) && is_new_row(
                row,
                id,
                self.wish.name@,
                self.wish.our_fp@,
                self.wish.now_ms,
            ),
            None => created(made) is None,
        }
        &&& keeps(self.key_package, latest(made, Product::KeyPackage))
        &&& keeps(self.snapshot, latest(made, Product::Snapshot))
        &&& keeps(self.encoded, latest(made, Product::Encoded))
        &&& keeps(self.encrypted, latest(made, Product::Encrypted))
        &&& keeps(self.sealed, latest(made, Product::Sealed))
    }

    pub closed spec fn kept_wf(&self) -> bool {
        &&& self.keeps_all(self.made@)
        &&& self.tasks@ == tasks_of(self@)
        &&& self.at == stands(self@)
    }

    pub open spec fn wf(&self) -> bool {
        &&& self.kept_wf()
        &&& in_turn(self@)
    }

    /// The request is at its start, and asks for this.
    pub open spec fn begins(&self, purpose: Purpose, our_fp: Seq<char>, group_id: Seq<u8>) -> bool {
        &&& self.wf()
        &&& self@.made == Seq::<Made>::empty()
        &&& self@.wish.purpose == purpose
        &&& self@.wish.our_fp@ == our_fp
        &&& self@.wish.group_id@ == group_id
    }

    /// Hand out a key package.
    pub fn export(our_fp: &str) -> (r: Self)
        ensures
            r.begins(Purpose::Export, our_fp@, Seq::empty()),
    {
        Request::begin(bare_wish(Purpose::Export, our_fp, Vec::new()))
    }

    /// Make a room of this name.
    pub fn create(our_fp: &str, name: &str, now_ms: i64) -> (r: Self)
        ensures
            r.begins(Purpose::Create, our_fp@, Seq::empty()),
            r@.wish.name@ == name@,
            r@.wish.now_ms == now_ms,
    {
        let mut wish = bare_wish(Purpose::Create, our_fp, Vec::new());
        wish.name = name.to_owned();
        wish.now_ms = now_ms;
        Request::begin(wish)
    }

    /// Begin a conversation with an invitation, and with a text if there is one.
    pub fn bootstrap(our_fp: &str, peer: Peer, first_message: Option<String>) -> (r: Self)
        ensures
            r.begins(Purpose::Bootstrap, our_fp@, Seq::empty()),
            r@.wish.peer == Some(peer),
            r@.wish.first_message == first_message,
    {
        let mut wish = bare_wish(Purpose::Bootstrap, our_fp, Vec::new());
        wish.peer = Some(peer);
        wish.first_message = first_message;
        Request::begin(wish)
    }

    /// Invite to a room that has a row.
    pub fn invite(our_fp: &str, group_id: &[u8], peer: Peer, rows: Vec<RoomRow>) -> (r: Result<
        Self,
        ApiError,
    >)
        ensures
            match row_of(rows@, group_id@, 0) {
                Some(_) => {
                    &&& r matches Ok(q)
                    &&& q.begins(Purpose::Invite, our_fp@, group_id@)
                    &&& q@.wish.peer == Some(peer)
                    &&& q@.wish.rows == rows
                    &&& q@.wish.first_message is None
                },
                None => r matches Err(e) && e@ == (
                    ApiErrorCode::Malformed,
                    "no room with that group_id (create one first with CreateRoom)"@,
                ),
            },
    {
        if let Err(e) = room_to_invite(&peer.contact, &rows, group_id) {
            return Err(e);
        }
        let mut wish = bare_wish(Purpose::Invite, our_fp, copy_bytes(group_id));
        wish.peer = Some(peer);
        wish.rows = rows;
        Ok(Request::begin(wish))
    }

    /// Leave a room.
    pub fn leave(our_fp: &str, group_id: &[u8]) -> (r: Self)
        ensures
            r.begins(Purpose::Leave, our_fp@, group_id@),
    {
        Request::begin(bare_wish(Purpose::Leave, our_fp, copy_bytes(group_id)))
    }

    /// Remove this member from a room.
    pub fn remove(our_fp: &str, group_id: &[u8], target: [u8; 32], rows: Vec<RoomRow>) -> (r: Self)
        ensures
            r.begins(Purpose::Remove, our_fp@, group_id@),
            r@.wish.target == Some(target),
            r@.wish.rows == rows,
    {
        let mut wish = bare_wish(Purpose::Remove, our_fp, copy_bytes(group_id));
        wish.target = Some(target);
        wish.rows = rows;
        Request::begin(wish)
    }

    /// Drop a room.
    pub fn delete(our_fp: &str, group_id: &[u8]) -> (r: Self)
        ensures
            r.begins(Purpose::Delete, our_fp@, group_id@),
    {
        Request::begin(bare_wish(Purpose::Delete, our_fp, copy_bytes(group_id)))
    }

    /// Send a text to a room, if nothing keeps it from being sent. `changed` says of
    /// each member whether its key has changed, as far as that could be read.
    pub fn send(
        our_fp: &str,
        group_id: &[u8],
        rows: &Vec<RoomRow>,
        changed: &Vec<Option<bool>>,
        text: &str,
    ) -> (r: Result<Self, ApiError>)
        requires
            row_of(rows@, group_id@, 0) matches Some(i) ==> changed@.len() == names_in(
                rows@[i],
            ).len(),
        ensures
            match refusal(rows@, group_id@, our_fp@, changed@) {
                Some(why) => r matches Err(e) && e@ == why,
                None => {
                    &&& r matches Ok(q)
                    &&& q.begins(Purpose::Send, our_fp@, group_id@)
                    &&& texts(q@.wish.recipients@) == others(
                        names_in(rows@[row_of(rows@, group_id@, 0)->0]),
                        our_fp@,
                        None,
                    )
                    &&& q@.wish.message matches Some(RoomAppMessage::Text { text: t })
                    &&& t@ == text@
                },
            },
    {
        let recipients = match room_recipients(rows, group_id, our_fp, changed) {
            Ok(v) => v,
            Err(e) => {
                return Err(e);
            },
        };
        let mut wish = bare_wish(Purpose::Send, our_fp, copy_bytes(group_id));
        wish.recipients = recipients;
        wish.message = Some(RoomAppMessage::Text { text: text.to_owned() });
        Ok(Request::begin(wish))
    }

    /// Send one message of a file to a room, if nothing keeps it from being sent.
    pub fn send_piece(
        our_fp: &str,
        group_id: &[u8],
        rows: &Vec<RoomRow>,
        changed: &Vec<Option<bool>>,
        message: RoomAppMessage,
    ) -> (r: Result<Self, ApiError>)
        requires
            row_of(rows@, group_id@, 0) matches Some(i) ==> changed@.len() == names_in(
                rows@[i],
            ).len(),
        ensures
            match refusal(rows@, group_id@, our_fp@, changed@) {
                Some(why) => r matches Err(e) && e@ == why,
                None => {
                    &&& r matches Ok(q)
                    &&& q.begins(Purpose::SendPiece, our_fp@, group_id@)
                    &&& texts(q@.wish.recipients@) == others(
                        names_in(rows@[row_of(rows@, group_id@, 0)->0]),
                        our_fp@,
                        None,
                    )
                    &&& q@.wish.message == Some(message)
                },
            },
    {
        let recipients = match room_recipients(rows, group_id, our_fp, changed) {
            Ok(v) => v,
            Err(e) => {
                return Err(e);
            },
        };
        let mut wish = bare_wish(Purpose::SendPiece, our_fp, copy_bytes(group_id));
        wish.recipients = recipients;
        wish.message = Some(message);
        Ok(Request::begin(wish))
    }

    /// Begin with a wish.
    fn begin(wish: Wish) -> (r: Self)
        ensures
            r.wf(),
            r@ == (RequestModel { wish, made: Seq::empty() }),
    {
        let kem_ad = match &wish.peer {
            Some(p) => Some(kem_advertisement(p.fingerprint.as_str(), p.contact.kem())),
            None => None,
        };
        let before: Vec<Member> = Vec::new();
        let tasks = tasks_for(&wish, &before);
        let at = start(&tasks);
        let r = Request {
            wish,
            kem_ad,
            tasks,
            at,
            group_id: None,
            before,
            old_token: None,
            new_token: None,
            commit: None,
            welcome: None,
            planned: None,
            invited: None,
            removed: None,
            new_row: None,
            key_package: None,
            snapshot: None,
            encoded: None,
            encrypted: None,
            sealed: None,
            made: Ghost(Seq::empty()),
        };
        proof {
            reveal(in_turn);
            assert(oks(r.made@) =~= Seq::<bool>::empty());
        }
        r
    }

    /// Where the request stands.
    pub fn progress(&self) -> (p: Progress)
        requires
            self.wf(),
        ensures
            p == stands(self@),
    {
        self.at
    }

    /// The call that comes next, if one does.
    pub fn step(&self) -> (r: Option<Step>)
        requires
            self.wf(),
        ensures
            match stands(self@) {
                Progress::At(i) => r == Some(tasks_of(self@)[i as int].step),
                _ => r is None,
            },
    {
        match self.at {
            Progress::At(i) => {
                proof {
                    lemma_progress_bound(self.tasks@, oks(self.made@));
                }
                Some(self.tasks[i].step)
            },
            _ => None,
        }
    }

    /// What the request is for.
    pub fn purpose(&self) -> (p: Purpose)
        ensures
            p == self@.wish.purpose,
    {
        self.wish.purpose
    }

    /// The id of the request's group.
    pub fn group_id(&self) -> (id: &Vec<u8>)
        requires
            self.wf(),
        ensures
            id@ == group_of(self@),
    {
        match &self.group_id {
            Some(id) => id,
            None => &self.wish.group_id,
        }
    }

    /// The key package that was made, if one was.
    pub fn key_package(&self) -> (kp: Option<&Vec<u8>>)
        requires
            self.wf(),
        ensures
            match kp {
                Some(v) => latest(self@.made, Product::KeyPackage) == Some(v@),
                None => latest(self@.made, Product::KeyPackage) is None,
            },
    {
        match &self.key_package {
            Some(v) => Some(v),
            None => None,
        }
    }

    /// What follows from the invitation, if the peer was invited.
    pub fn invited(&self) -> (plan: Option<&InvitePlan>)
        requires
            self.wf(),
        ensures
            is_planned_invite(
                self@,
                match plan {
                    Some(p) => Some(*p),
                    None => None,
                },
            ),
    {
        match &self.invited {
            Some(p) => Some(p),
            None => None,
        }
    }

    /// What follows from the removal, if a member was removed.
    pub fn removed(&self) -> (plan: Option<&RemovePlan>)
        requires
            self.wf(),
        ensures
            is_planned_removal(
                self@,
                match plan {
                    Some(p) => Some(*p),
                    None => None,
                },
            ),
    {
        match &self.removed {
            Some(p) => Some(p),
            None => None,
        }
    }

    /// How many stay in a room that we leave.
    pub fn stayers(&self) -> (n: u32)
        requires
            self.wf(),
        ensures
            n == clamped_count(
                others(names_of(members_before(self@.made)), self@.wish.our_fp@, None).len(),
            ),
    {
        let plan = plan_leave(&self.before, self.wish.our_fp.as_str(), false);
        proof {
            assert(texts(plan.recipients@).len() == plan.recipients@.len());
        }
        plan.members
    }

    /// To whom the request sends.
    fn members(&self) -> (v: &Vec<String>)
        requires
            self.wf(),
        ensures
            texts(v@) == addressees(self@),
            v@.len() == addressees(self@).len(),
    {
        let v = match &self.planned {
            Some(v) => v,
            None => &self.wish.recipients,
        };
        proof {
            assert(texts(v@).len() == v@.len());
        }
        v
    }

    /// What to do next, with all that it takes; nothing where the request is at its
    /// end.
    pub fn next(&self) -> (r: Option<Action<'_>>)
        requires
            self.wf(),
        ensures
            match stands(self@) {
                Progress::At(i) => r matches Some(a) && is_action(
                    self@,
                    tasks_of(self@)[i as int].step,
                    a,
                ),
                _ => r is None,
            },
    {
        let step = match self.step() {
            Some(s) => s,
            None => {
                return None;
            },
        };
        Some(self.action(step))
    }

    fn action(&self, step: Step) -> (a: Action<'_>)
        requires
            self.wf(),
        ensures
            is_action(self@, step, a),
    {
        let group_id = self.group_id();
        match step {
            Step::MintKeyPackage => Action::MintKeyPackage,
            Step::CreateGroup => Action::CreateGroup,
            Step::LoadGroup => Action::LoadGroup { group_id },
            Step::InviteMember => match &self.wish.peer {
                Some(peer) => Action::InviteMember { peer },
                None => Action::Missing,
            },
            Step::RemoveMember => match &self.wish.target {
                Some(target) => Action::RemoveMember { target },
                None => Action::Missing,
            },
            Step::RemoveSelf => Action::RemoveSelf,
            Step::ForgetGroup => Action::ForgetGroup { group_id },
            Step::Snapshot => Action::Snapshot,
            Step::SaveState => match &self.snapshot {
                Some(snapshot) => Action::SaveState { snapshot },
                None => Action::Missing,
            },
            Step::RecordPeerGroup => match (&self.wish.peer, &self.group_id) {
                (Some(peer), Some(group_id)) => Action::RecordPeerGroup { peer, group_id },
                _ => Action::Missing,
            },
            Step::SaveRoom => self.saving(),
            Step::SaveMemberKem => match &self.wish.peer {
                Some(peer) => Action::SaveMemberKem { group_id, peer },
                None => Action::Missing,
            },
            Step::ForgetMemberKems => Action::ForgetMemberKems { group_id },
            Step::ForgetMessages => Action::ForgetMessages { group_id },
            Step::DeleteRoom => Action::DeleteRoom { group_id },
            Step::EncodeMessage => match &self.wish.message {
                Some(message) => Action::Encode { message },
                None => Action::Missing,
            },
            Step::EncodeKemAd => match &self.kem_ad {
                Some(message) => Action::Encode { message },
                None => Action::Missing,
            },
            Step::Encrypt | Step::EncryptKemAd => match &self.encoded {
                Some(bytes) => Action::Encrypt { bytes },
                None => Action::Missing,
            },
            Step::EncodeWelcome => match (&self.wish.peer, &self.welcome) {
                (Some(peer), Some(welcome)) => Action::EncodeWelcome {
                    welcome,
                    peer,
                    first_message: &self.wish.first_message,
                    room: self.invited(),
                },
                _ => Action::Missing,
            },
            Step::Seal => match (&self.wish.peer, &self.encoded) {
                (Some(peer), Some(bytes)) => Action::Seal { bytes, peer },
                _ => Action::Missing,
            },
            Step::SendWelcome => match (&self.wish.peer, &self.sealed) {
                (Some(peer), Some(sealed)) => Action::SendWelcome { target: peer.inbox, sealed },
                _ => Action::Missing,
            },
            Step::SendCommit => {
                let members = self.members();
                if members.len() == 0 {
                    return Action::Nothing;
                }
                match &self.commit {
                    Some(bytes) => Action::FanOut {
                        group_id,
                        members,
                        target: commit_target(self.old_token, self.new_token),
                        bytes,
                    },
                    None => Action::Missing,
                }
            },
            Step::SendKemAd | Step::SendMessage => match &self.encrypted {
                Some(bytes) => Action::FanOut {
                    group_id,
                    members: self.members(),
                    target: None,
                    bytes,
                },
                None => Action::Missing,
            },
            Step::StoreOutgoing => match &self.wish.message {
                Some(RoomAppMessage::Text { text }) => Action::StoreOutgoing {
                    group_id,
                    sender: &self.wish.our_fp,
                    text,
                },
                _ => Action::Missing,
            },
            Step::Subscribe => Action::Subscribe { group_id },
        }
    }

    fn saving(&self) -> (a: Action<'_>)
        requires
            self.wf(),
        ensures
            is_saving(self@, a),
    {
        proof {
            assert(is_planned_removal(self@, self.removed));
            assert(is_planned_invite(self@, self.invited));
        }
        match self.wish.purpose {
            Purpose::Create => match &self.new_row {
                Some(row) => Action::SaveRoom { row },
                None => Action::Missing,
            },
            Purpose::Remove => match &self.removed {
                Some(p) => match &p.row {
                    Some(row) => Action::SaveRoom { row },
                    None => Action::Nothing,
                },
                None => Action::Nothing,
            },
            _ => match &self.invited {
                Some(p) => Action::SaveRoom { row: &p.row },
                None => Action::Nothing,
            },
        }
    }

    /// Go on with what came of the call.
    pub fn on_outcome(&mut self, outcome: Outcome)
        requires
            old(self).wf(),
        ensures
            final(self).wf(),
            final(self)@ == with_outcome(old(self)@, outcome),
    {
        let i: usize = match self.at {
            Progress::At(i) => i,
            _ => {
                return;
            },
        };
        let ghost before = self@;
        let ghost entry = Made { step: tasks_of(before)[i as int].step, outcome };
        let ghost made = before.made.push(entry);
        proof {
            lemma_progress_bound(self.tasks@, oks(before.made));
            assert(made.drop_last() =~= before.made);
            assert(made.last() == entry);
            assert(oks(made) =~= oks(before.made).push(went_well(entry)));
            assert(oks(made).drop_last() =~= oks(before.made));
        }
        let step = self.tasks[i].step;
        let ok = self.take_in(step, outcome);
        self.made = Ghost(made);
        if ok && step == Step::LoadGroup {
            self.tasks = tasks_for(&self.wish, &self.before);
        }
        proof {
            if entry.step != Step::LoadGroup || !went_well(entry) {
                assert(loaded(made) == loaded(before.made));
            }
            assert(self@.made == made);
            if before.wish.purpose == Purpose::Invite && entry.step == Step::LoadGroup {
                lemma_load_comes_first(has_others(before), i as int);
                assert(oks(before.made) =~= Seq::<bool>::empty());
                assert(progress(tasks_of(self@), oks(before.made)) == standing(tasks_of(self@), 0));
            } else {
                assert(tasks_of(self@) == tasks_of(before));
            }
            assert(self.tasks@ == tasks_of(self@));
            lemma_same_length(before, self@, i as int);
            assert(progress(tasks_of(self@), oks(before.made)) == Progress::At(i));
            assert(stands(self@) == after_call(tasks_of(self@), i, went_well(entry)));
            lemma_in_turn(before, self@, i);
        }
        self.at = advance(&self.tasks, i, ok);
    }

    /// Keep what a call gave; `false` where it gave nothing of use.
    fn take_in(&mut self, step: Step, outcome: Outcome) -> (ok: bool)
        requires
            old(self).keeps_all(old(self).made@),
        ensures
            ok == went_well(Made { step, outcome }),
            final(self).keeps_all(old(self).made@.push(Made { step, outcome })),
            final(self).wish == old(self).wish,
            final(self).made == old(self).made,
            final(self).tasks == old(self).tasks,
            final(self).at == old(self).at,
    {
        let ghost made = self.made@.push(Made { step, outcome });
        let ghost was = RequestModel { wish: self.wish, made: self.made@ };
        let ghost is = RequestModel { wish: self.wish, made };
        proof {
            assert(made.drop_last() =~= self.made@);
        }
        match (step, outcome) {
            (Step::MintKeyPackage, Outcome::Bytes(b)) => {
                self.key_package = Some(b);
                true
            },
            (Step::Snapshot, Outcome::Bytes(b)) => {
                self.snapshot = Some(b);
                true
            },
            (
                Step::EncodeMessage | Step::EncodeWelcome | Step::EncodeKemAd,
                Outcome::Bytes(b),
            ) => {
                self.encoded = Some(b);
                true
            },
            (Step::Encrypt | Step::EncryptKemAd, Outcome::Bytes(b)) => {
                self.encrypted = Some(b);
                true
            },
            (Step::Seal, Outcome::Bytes(b)) => {
                self.sealed = Some(b);
                true
            },
            (Step::CreateGroup, Outcome::Created(id)) => {
                self.new_row = Some(
                    new_room(
                        id.as_slice(),
                        self.wish.name.as_str(),
                        self.wish.our_fp.as_str(),
                        self.wish.now_ms,
                    ),
                );
                self.group_id = Some(id);
                true
            },
            (Step::LoadGroup, Outcome::Loaded { members, token }) => {
                self.before = members;
                self.old_token = token;
                true
            },
            (
                Step::InviteMember | Step::RemoveMember | Step::RemoveSelf,
                Outcome::Changed { commit, welcome, members, token },
            ) => {
                self.commit = Some(commit);
                self.welcome = Some(welcome);
                self.new_token = token;
                self.plan(&members);
                true
            },
            (
                Step::ForgetGroup
                | Step::SaveState
                | Step::RecordPeerGroup
                | Step::SaveRoom
                | Step::SaveMemberKem
                | Step::ForgetMemberKems
                | Step::ForgetMessages
                | Step::DeleteRoom
                | Step::SendWelcome
                | Step::SendCommit
                | Step::SendKemAd
                | Step::SendMessage
                | Step::StoreOutgoing
                | Step::Subscribe,
                Outcome::Done,
            ) => true,
            _ => false,
        }
    }

    /// Plan what follows from a change of the group.
    fn plan(&mut self, after: &Vec<Member>)
        ensures
            final(self).wish == old(self).wish,
            final(self).kem_ad == old(self).kem_ad,
            final(self).made == old(self).made,
            final(self).tasks == old(self).tasks,
            final(self).at == old(self).at,
            final(self).group_id == old(self).group_id,
            final(self).before == old(self).before,
            final(self).old_token == old(self).old_token,
            final(self).new_token == old(self).new_token,
            final(self).commit == old(self).commit,
            final(self).welcome == old(self).welcome,
            final(self).new_row == old(self).new_row,
            final(self).key_package == old(self).key_package,
            final(self).snapshot == old(self).snapshot,
            final(self).encoded == old(self).encoded,
            final(self).encrypted == old(self).encrypted,
            final(self).sealed == old(self).sealed,
            final(self).planned matches Some(v) && texts(v@) == others(
                names_of(old(self).before@),
                old(self).wish.our_fp@,
                left_out(old(self).wish),
            ),
            match final(self).invited {
                Some(p) => old(self).wish.purpose == Purpose::Invite && old(self).wish.peer is Some
                    && room_row(old(self).wish) is Some && is_invite_plan(
                    p,
                    room_row(old(self).wish)->0,
                    old(self).wish.our_fp@,
                    old(self).wish.peer->0.fingerprint@,
                    old(self).before@,
                    after@,
                ),
                None => !(old(self).wish.purpose == Purpose::Invite && old(self).wish.peer is Some
                    && room_row(old(self).wish) is Some),
            },
            match final(self).removed {
                Some(p) => old(self).wish.purpose == Purpose::Remove && is_remove_plan(
                    p,
                    old(self).wish.rows@,
                    old(self).wish.group_id@,
                    old(self).wish.our_fp@,
                    old(self).before@,
                    after@,
                ),
                None => old(self).wish.purpose != Purpose::Remove,
            },
    {
        self.planned = Some(others_than(&self.wish, &self.before));
        self.invited = None;
        self.removed = None;
        match self.wish.purpose {
            Purpose::Invite => {
                if let Some(peer) = &self.wish.peer {
                    if let Some(at) = find_row(&self.wish.rows, self.wish.group_id.as_slice()) {
                        self.invited = Some(
                            plan_invite(
                                &self.wish.rows[at],
                                self.wish.our_fp.as_str(),
                                peer.fingerprint.as_str(),
                                &self.before,
                                after,
                            ),
                        );
                    }
                }
            },
            Purpose::Remove => {
                self.removed = Some(
                    plan_remove(
                        &self.wish.rows,
                        self.wish.group_id.as_slice(),
                        self.wish.our_fp.as_str(),
                        &self.before,
                        after,
                    ),
                );
            },
            _ => {},
        }
    }
}

/// A wish without a peer, a message or recipients.
fn bare_wish(purpose: Purpose, our_fp: &str, group_id: Vec<u8>) -> (w: Wish)
    ensures
        w.purpose == purpose,
        w.our_fp@ == our_fp@,
        w.group_id == group_id,
        w.first_message is None,
{
    Wish {
        purpose,
        our_fp: our_fp.to_owned(),
        group_id,
        peer: None,
        rows: Vec::new(),
        message: None,
        recipients: Vec::new(),
        target: None,
        name: "".to_owned(),
        now_ms: 0,
        first_message: None,
    }
}

/// Those of these members that a request sends to.
fn others_than(wish: &Wish, members: &Vec<Member>) -> (v: Vec<String>)
    ensures
        texts(v@) == others(names_of(members@), wish.our_fp@, left_out(*wish)),
{
    let list = members_b32(members);
    match (wish.purpose, &wish.peer) {
        (Purpose::Invite, Some(peer)) => recipients(
            list.as_str(),
            wish.our_fp.as_str(),
            Some(peer.fingerprint.as_str()),
        ),
        _ => recipients(list.as_str(), wish.our_fp.as_str(), None),
    }
}

/// The calls of a request whose group has these members.
fn tasks_for(wish: &Wish, members: &Vec<Member>) -> (v: Vec<Task>)
    ensures
        forall|m: RequestModel|
            m.wish == *wish && members_before(m.made) == members@ ==> v@ == #[trigger] tasks_of(m),
{
    match wish.purpose {
        Purpose::Export => export_tasks(),
        Purpose::Create => create_tasks(),
        Purpose::Bootstrap => bootstrap_tasks(),
        Purpose::Invite => {
            let told = others_than(wish, members);
            proof {
                assert(texts(told@).len() == told@.len());
            }
            invite_tasks(told.len() > 0)
        },
        Purpose::Leave => leave_tasks(),
        Purpose::Remove => remove_tasks(),
        Purpose::Delete => delete_tasks(),
        Purpose::Send => send_tasks(),
        Purpose::SendPiece => send_piece_tasks(),
    }
}

/// An invitation to a room begins with loading the group, which is not done again.
proof fn lemma_load_comes_first(told: bool, i: int)
    requires
        0 <= i < invite_order(told).len(),
        invite_order(told)[i].step == Step::LoadGroup,
    ensures
        i == 0,
{
    let t = invite_order(told);
    if i < 9 {
        assert(t[i] == invite_head()[i]);
    } else if told && i < 15 {
        assert(t[i] == invite_news()[i - 9]);
    }
}

/// A call that is made when it is the next keeps the turn.
proof fn lemma_in_turn(before: RequestModel, after: RequestModel, i: usize)
    requires
        in_turn(before),
        stands(before) == Progress::At(i),
        after.wish == before.wish,
        after.made.len() > 0,
        after.made.drop_last() == before.made,
        after.made.last().step == tasks_of(before)[i as int].step,
    ensures
        in_turn(after),
{
    reveal(in_turn);
    let n = before.made.len() as int;
    assert forall|k: int|
        #![trigger after.made[k]]
        0 <= k < after.made.len() implies (stands(earlier(after, k)) matches Progress::At(j)
        && after.made[k].step == tasks_of(earlier(after, k))[j as int].step) by {
        assert(after.made.take(k) =~= before.made.take(k));
        assert(earlier(after, k) == earlier(before, k));
        if k == n {
            assert(before.made.take(k) =~= before.made);
            assert(earlier(after, k) == before);
        } else {
            assert(before.made[k] == after.made[k]);
        }
    }
}

/// The calls of a request are as many as they were as far as they were made.
proof fn lemma_same_length(before: RequestModel, after: RequestModel, i: int)
    requires
        0 <= i < tasks_of(before).len(),
        after.wish == before.wish,
        before.wish.purpose != Purpose::Invite || has_others(before) == has_others(after) || i == 0,
    ensures
        i < tasks_of(after).len(),
{
}

proof fn lemma_latest(made: Seq<Made>, p: Product)
    ensures
        latest(made, p) matches Some(s) ==> exists|k: int|
            0 <= k < made.len() && went_well(#[trigger] made[k]) && product_of(made[k].step) == Some(
                p,
            ) && made[k].outcome->Bytes_0@ == s,
    decreases made.len(),
{
    if made.len() > 0 && latest(made, p) is Some {
        let front = made.drop_last();
        if went_well(made.last()) && product_of(made.last().step) == Some(p) {
            assert(made[made.len() - 1] == made.last());
        } else {
            lemma_latest(front, p);
            let k = choose|k: int|
                0 <= k < front.len() && went_well(#[trigger] front[k]) && product_of(front[k].step)
                    == Some(p) && front[k].outcome->Bytes_0@ == latest(made, p)->0;
            assert(made[k] == front[k]);
        }
    }
}

proof fn lemma_change(made: Seq<Made>)
    ensures
        change(made) matches Some(c) ==> exists|k: int|
            0 <= k < made.len() && went_well(#[trigger] made[k]) && changes_group(made[k].step)
                && made[k].outcome->commit@ == c.commit,
    decreases made.len(),
{
    if made.len() > 0 && change(made) is Some {
        let front = made.drop_last();
        if went_well(made.last()) && changes_group(made.last().step) {
            assert(made[made.len() - 1] == made.last());
        } else {
            lemma_change(front);
            let k = choose|k: int|
                0 <= k < front.len() && went_well(#[trigger] front[k]) && changes_group(
                    front[k].step,
                ) && front[k].outcome->commit@ == change(made)->0.commit;
            assert(made[k] == front[k]);
        }
    }
}

/// The bytes are the commit that a call gave.
pub open spec fn is_commit(made: Seq<Made>, bytes: Seq<u8>) -> bool {
    exists|k: int|
        0 <= k < made.len() && went_well(#[trigger] made[k]) && changes_group(made[k].step)
            && made[k].outcome->commit@ == bytes
}

/// The bytes are what a call encrypted, or sealed.
pub open spec fn is_product(made: Seq<Made>, p: Product, bytes: Seq<u8>) -> bool {
    exists|k: int|
        0 <= k < made.len() && went_well(#[trigger] made[k]) && product_of(made[k].step) == Some(p)
            && made[k].outcome->Bytes_0@ == bytes
}

/// Every send is one of the plan. What goes to members of a room goes to the
/// request's addressees and to nobody else; it is the commit of the group, under the
/// routing id that the room had before, or else something that was encrypted for the
/// group. What goes to the peer goes to its own inbox, and was sealed.
pub proof fn law_every_send_is_planned(m: RequestModel, step: Step, a: Action<'_>)
    requires
        is_action(m, step, a),
    ensures
        a matches Action::FanOut { group_id, members, target, bytes } ==> {
            &&& texts(members@) == addressees(m)
            &&& group_id@ == group_of(m)
            &&& if step == Step::SendCommit {
                is_commit(m.made, bytes@) && target == change_target(m.made)
            } else {
                is_product(m.made, Product::Encrypted, bytes@) && target is None
            }
        },
        a matches Action::SendWelcome { target, sealed } ==> {
            &&& m.wish.peer matches Some(p) && target == p.inbox
            &&& is_product(m.made, Product::Sealed, sealed@)
        },
        a is FanOut ==> step == Step::SendCommit || step == Step::SendKemAd || step
            == Step::SendMessage,
        a is SendWelcome ==> step == Step::SendWelcome,
{
    lemma_latest(m.made, Product::Encrypted);
    lemma_latest(m.made, Product::Sealed);
    lemma_change(m.made);
}

/// The calls that come before anything is sent.
pub open spec fn before_sending(purpose: Purpose) -> Seq<Task> {
    match purpose {
        Purpose::Invite => invite_head().take(8),
        Purpose::Bootstrap => bootstrap_order().take(7),
        _ => send_order().take(5),
    }
}

/// An invitation and a text go out only after the group state was saved, and after
/// everything else before it went well too.
pub proof fn law_saved_before_sent(m: RequestModel, i: usize)
    requires
        in_turn(m),
        m.wish.purpose == Purpose::Invite || m.wish.purpose == Purpose::Bootstrap
            || m.wish.purpose == Purpose::Send,
        stands(m) == Progress::At(i),
        tasks_of(m)[i as int].step == Step::SendWelcome || tasks_of(m)[i as int].step
            == Step::SendMessage,
    ensures
        m.made.len() == before_sending(m.wish.purpose).len(),
        forall|k: int|
            0 <= k < m.made.len() ==> went_well(#[trigger] m.made[k]) && m.made[k].step
                == before_sending(m.wish.purpose)[k].step,
        exists|k: int|
            0 <= k < m.made.len() && went_well(#[trigger] m.made[k]) && m.made[k].step
                == Step::SaveState,
{
    let n = before_sending(m.wish.purpose).len() as int;
    lemma_prefix(m, n);
    lemma_progress_bound(tasks_of(m), oks(m.made));
    lemma_sending_at(m, i);
    lemma_plain_start(m, n);
    assert forall|k: int| 0 <= k < m.made.len() implies went_well(#[trigger] m.made[k])
        && m.made[k].step == before_sending(m.wish.purpose)[k].step by {
        lemma_plain_call(m, n, k);
    }
    let saved = match m.wish.purpose {
        Purpose::Invite => 3int,
        Purpose::Bootstrap => 5int,
        _ => 4int,
    };
    assert(before_sending(m.wish.purpose)[saved].step == Step::SaveState);
    assert(m.made[saved].step == Step::SaveState);
}

/// None of the calls changes or makes a group.
proof fn lemma_group_stays(made: Seq<Made>)
    requires
        forall|k: int|
            0 <= k < made.len() ==> !changes_group((#[trigger] made[k]).step) && made[k].step
                != Step::CreateGroup,
    ensures
        change(made) is None,
        created(made) is None,
    decreases made.len(),
{
    if made.len() > 0 {
        let front = made.drop_last();
        assert forall|k: int| 0 <= k < front.len() implies !changes_group((#[trigger] front[k]).step)
            && front[k].step != Step::CreateGroup by {
            assert(front[k] == made[k]);
        }
        lemma_group_stays(front);
        assert(made.last() == made[made.len() - 1]);
    }
}

/// A text, or a message of a file, goes to those that it was meant for when it was
/// checked that their keys have not changed, and to the room that was named.
pub proof fn law_text_goes_to_the_room(m: RequestModel)
    requires
        in_turn(m),
        m.wish.purpose == Purpose::Send || m.wish.purpose == Purpose::SendPiece,
    ensures
        addressees(m) == texts(m.wish.recipients@),
        group_of(m) == m.wish.group_id@,
{
    assert forall|k: int| 0 <= k < m.made.len() implies !changes_group((#[trigger] m.made[k]).step)
        && m.made[k].step != Step::CreateGroup by {
        lemma_call_of_text(m, k);
    }
    lemma_group_stays(m.made);
}

/// What a text, or a message of a file, takes: calls that leave the group as it is.
proof fn lemma_call_of_text(m: RequestModel, k: int)
    requires
        in_turn(m),
        m.wish.purpose == Purpose::Send || m.wish.purpose == Purpose::SendPiece,
        0 <= k < m.made.len(),
    ensures
        !changes_group(m.made[k].step),
        m.made[k].step != Step::CreateGroup,
{
    let e = earlier(m, k);
    assert(stands(e) is At && m.made[k].step == tasks_of(e)[stands(e)->At_0 as int].step) by {
        reveal(in_turn);
        assert(m.made[k] == m.made[k]);
    }
    lemma_progress_bound(tasks_of(e), oks(e.made));
}

/// The group that the first call made is the request's group as long as no other is
/// made.
proof fn lemma_created_first(made: Seq<Made>)
    requires
        made.len() > 0,
        made[0].step == Step::CreateGroup,
        went_well(made[0]),
        forall|k: int| 0 < k < made.len() ==> (#[trigger] made[k]).step != Step::CreateGroup,
    ensures
        created(made) == Some(made[0].outcome->Created_0@),
    decreases made.len(),
{
    assert(made.last() == made[made.len() - 1]);
    if made.len() > 1 {
        let front = made.drop_last();
        assert(front[0] == made[0]);
        assert forall|k: int| 0 < k < front.len() implies (#[trigger] front[k]).step
            != Step::CreateGroup by {
            assert(front[k] == made[k]);
        }
        lemma_created_first(front);
    }
}

/// An invitation that begins a conversation is answered as sent, and is sent, only
/// after its group was put on record for the peer, the group that the client is told
/// of.
pub proof fn law_begun_group_is_recorded(m: RequestModel)
    requires
        in_turn(m),
        m.wish.purpose == Purpose::Bootstrap,
        m.wish.peer is Some,
        stands(m) == Progress::At(7) || stands(m) is Done,
    ensures
        m.made.len() >= 7,
        m.made[6].step == Step::RecordPeerGroup,
        went_well(m.made[6]),
        m.made[0].outcome matches Outcome::Created(id) && group_of(m) == id@,
        forall|a: Action<'_>| #[trigger]
            is_action(earlier(m, 6), Step::RecordPeerGroup, a) ==> (a matches Action::RecordPeerGroup {
                peer,
                group_id,
            } && Some(*peer) == m.wish.peer && group_id@ == group_of(m)),
{
    let n = m.made.len() as int;
    let head = if stands(m) is Done {
        earlier(m, n - 1)
    } else {
        m
    };
    if stands(m) is Done {
        assert(n > 0) by {
            if n == 0 {
                assert(oks(m.made) =~= Seq::<bool>::empty());
            }
        }
        lemma_whole(m);
    }
    assert(in_turn(head)) by {
        lemma_turn_of_front(m, head.made.len() as int);
        assert(m.made.take(n) =~= m.made);
        assert(earlier(m, n) == m);
    }
    law_saved_before_sent(head, 7);
    assert forall|k: int| 0 <= k < 7 implies m.made[k] == #[trigger] head.made[k] by {}
    assert(head.made[6].step == Step::RecordPeerGroup);
    assert(head.made[0].step == Step::CreateGroup);
    assert forall|k: int| 0 < k < m.made.len() implies (#[trigger] m.made[k]).step
        != Step::CreateGroup by {
        if k < 7 {
            assert(head.made[k].step == bootstrap_order()[k].step);
        }
    }
    lemma_created_first(m.made);
    let e = m.made.take(6);
    assert(e[0] == m.made[0]);
    assert forall|k: int| 0 < k < e.len() implies (#[trigger] e[k]).step != Step::CreateGroup by {
        assert(e[k] == m.made[k]);
    }
    lemma_created_first(e);
}

proof fn lemma_turn_of_front(m: RequestModel, n: int)
    requires
        in_turn(m),
        0 <= n <= m.made.len(),
    ensures
        in_turn(earlier(m, n)),
{
    reveal(in_turn);
    let f = earlier(m, n);
    assert forall|k: int|
        #![trigger f.made[k]]
        0 <= k < f.made.len() implies (stands(earlier(f, k)) matches Progress::At(j)
        && f.made[k].step == tasks_of(earlier(f, k))[j as int].step) by {
        assert(f.made.take(k) =~= m.made.take(k));
        assert(earlier(f, k) == earlier(m, k));
        assert(m.made[k] == f.made[k]);
    }
}

/// An invitation that begins a conversation ends with being sent.
proof fn lemma_whole(m: RequestModel)
    requires
        in_turn(m),
        m.wish.purpose == Purpose::Bootstrap,
        m.made.len() > 0,
        stands(m) is Done,
    ensures
        stands(earlier(m, m.made.len() - 1)) == Progress::At(7),
        m.made.last().step == Step::SendWelcome,
{
    reveal(in_turn);
    let n = m.made.len() - 1;
    let e = earlier(m, n);
    assert(m.made[n] == m.made.last());
    assert(oks(m.made).drop_last() =~= oks(e.made));
    lemma_progress_bound(tasks_of(e), oks(e.made));
}

/// Where an invitation or a text is sent among the calls.
proof fn lemma_sending_at(m: RequestModel, i: usize)
    requires
        m.wish.purpose == Purpose::Invite || m.wish.purpose == Purpose::Bootstrap
            || m.wish.purpose == Purpose::Send,
        i < tasks_of(m).len(),
        tasks_of(m)[i as int].step == Step::SendWelcome || tasks_of(m)[i as int].step
            == Step::SendMessage,
    ensures
        i == before_sending(m.wish.purpose).len(),
{
    let t = tasks_of(m);
    if m.wish.purpose == Purpose::Invite {
        if i < 9 {
            assert(t[i as int] == invite_head()[i as int]);
        } else if has_others(m) && i < 15 {
            assert(t[i as int] == invite_news()[i - 9]);
        }
    }
}

proof fn lemma_plain_start(m: RequestModel, n: int)
    requires
        0 <= n < tasks_of(m).len() <= usize::MAX,
        no_skips(tasks_of(m), n),
        stands(m) == Progress::At(n as usize),
    ensures
        m.made.len() == n,
{
    lemma_progress_bound(tasks_of(m), oks(m.made));
    lemma_plain_prefix(tasks_of(m), oks(m.made), n);
}

proof fn lemma_plain_call(m: RequestModel, n: int, k: int)
    requires
        in_turn(m),
        m.wish.purpose == Purpose::Invite || m.wish.purpose == Purpose::Bootstrap
            || m.wish.purpose == Purpose::Send,
        n == before_sending(m.wish.purpose).len(),
        m.made.len() == n,
        stands(m) is At,
        0 <= k < n,
    ensures
        went_well(m.made[k]),
        m.made[k].step == before_sending(m.wish.purpose)[k].step,
{
    let t = tasks_of(m);
    let e = earlier(m, k);
    lemma_prefix(m, n);
    lemma_prefix(e, n);
    assert(stands(e) is At && m.made[k].step == tasks_of(e)[stands(e)->At_0 as int].step) by {
        reveal(in_turn);
        assert(m.made[k] == m.made[k]);
    }
    lemma_plain_prefix(tasks_of(e), oks(e.made), n);
    assert(oks(m.made).take(k) =~= oks(e.made));
    law_no_call_after_failure(t, oks(m.made), k);
    lemma_plain_prefix(t, oks(m.made).take(k), n);
    assert(t[k].on_failure is Abort);
}

/// The calls before anything is sent are the same whoever is in the group, and none
/// of them leaves others out.
proof fn lemma_prefix(m: RequestModel, n: int)
    requires
        m.wish.purpose == Purpose::Invite || m.wish.purpose == Purpose::Bootstrap
            || m.wish.purpose == Purpose::Send,
        n == before_sending(m.wish.purpose).len(),
    ensures
        n < tasks_of(m).len() <= usize::MAX,
        no_skips(tasks_of(m), n),
        forall|k: int|
            0 <= k < n ==> #[trigger] tasks_of(m)[k] == before_sending(m.wish.purpose)[k],
        forall|k: int| 0 <= k < n ==> (#[trigger] tasks_of(m)[k]).on_failure is Abort,
{
    let t = tasks_of(m);
    assert forall|k: int| 0 <= k < n implies #[trigger] t[k] == before_sending(m.wish.purpose)[k] by {
        if m.wish.purpose == Purpose::Invite {
            assert(t[k] == invite_head()[k]);
        }
    }
}

/// What a call is handed is what the last call gave that gave such a thing: one more call
/// that went well takes the place of those before it, and one that failed, or gives
/// something else, changes nothing.
pub proof fn law_latest_counts(made: Seq<Made>, e: Made, p: Product)
    ensures
        latest(Seq::empty(), p) is None,
        latest(made.push(e), p) == (if product_of(e.step) == Some(p) && e.outcome is Bytes {
            Some(e.outcome->Bytes_0@)
        } else {
            latest(made, p)
        }),
        e.outcome is Failed ==> latest(made.push(e), p) == latest(made, p) && change(made.push(e))
            == change(made) && created(made.push(e)) == created(made) && loaded(made.push(e))
            == loaded(made),
{
    assert(made.push(e).drop_last() =~= made);
}

/// Which call gives what.
pub proof fn law_products(step: Step)
    ensures
        product_of(step) == Some(Product::Snapshot) <==> step == Step::Snapshot,
        product_of(step) == Some(Product::Sealed) <==> step == Step::Seal,
        product_of(step) == Some(Product::KeyPackage) <==> step == Step::MintKeyPackage,
        product_of(step) == Some(Product::Encrypted) <==> step == Step::Encrypt || step
            == Step::EncryptKemAd,
        product_of(step) == Some(Product::Encoded) <==> step == Step::EncodeMessage || step
            == Step::EncodeWelcome || step == Step::EncodeKemAd,
        changes_group(step) <==> step == Step::InviteMember || step == Step::RemoveMember || step
            == Step::RemoveSelf,
{
}

/// A group that was made or changed is the one that later calls are about: a change keeps
/// who was in the group before and after it, its commit and its invitation.
pub proof fn law_changes_count(made: Seq<Made>, e: Made)
    ensures
        changes_group(e.step) && e.outcome is Changed ==> (change(made.push(e)) matches Some(c)
            && c.commit == e.outcome->commit@ && c.welcome == e.outcome->welcome@ && c.after
            == e.outcome->Changed_members@ && c.token == e.outcome->Changed_token && c.before == (
        match loaded(made) {
            Some((members, _)) => members,
            None => Seq::<Member>::empty(),
        })),
        e.step == Step::CreateGroup && e.outcome is Created ==> created(made.push(e)) == Some(
            e.outcome->Created_0@,
        ),
        e.step == Step::LoadGroup && e.outcome is Loaded ==> loaded(made.push(e)) == Some(
            (e.outcome->Loaded_members@, e.outcome->Loaded_token),
        ),
        !changes_group(e.step) ==> change(made.push(e)) == change(made),
        e.step != Step::CreateGroup ==> created(made.push(e)) == created(made),
        e.step != Step::LoadGroup ==> loaded(made.push(e)) == loaded(made),
{
    assert(made.push(e).drop_last() =~= made);
}

/// A call on the peer, the member, the room or the message of a request is handed the very
/// one that was asked for.
pub proof fn law_calls_are_about_what_was_asked(m: RequestModel, step: Step, a: Action<'_>)
    requires
        is_action(m, step, a),
    ensures
        step == Step::InviteMember && m.wish.peer is Some ==> (a matches Action::InviteMember { peer }
            && Some(*peer) == m.wish.peer),
        step == Step::RemoveMember && m.wish.target is Some ==> (a matches Action::RemoveMember {
            target,
        } && Some(*target) == m.wish.target),
        step == Step::EncodeMessage && m.wish.message is Some ==> (a matches Action::Encode { message }
            && Some(*message) == m.wish.message),
        step == Step::LoadGroup ==> (a matches Action::LoadGroup { group_id } && group_id@ == group_of(
            m,
        )),
        step == Step::ForgetGroup ==> (a matches Action::ForgetGroup { group_id } && group_id@
            == group_of(m)),
        step == Step::DeleteRoom ==> (a matches Action::DeleteRoom { group_id } && group_id@
            == group_of(m)),
        step == Step::ForgetMessages ==> (a matches Action::ForgetMessages { group_id } && group_id@
            == group_of(m)),
        step == Step::ForgetMemberKems ==> (a matches Action::ForgetMemberKems { group_id }
            && group_id@ == group_of(m)),
        step == Step::EncodeKemAd && m.wish.peer is Some ==> (a matches Action::Encode { message } && (
        *message matches RoomAppMessage::KemAdvertisement { fingerprint, kem_pub } && fingerprint@
            == m.wish.peer->0.fingerprint@ && kem_pub@ == m.wish.peer->0.contact@.kem)),
        step == Step::SaveMemberKem && m.wish.peer is Some ==> (a matches Action::SaveMemberKem {
            group_id,
            peer,
        } && group_id@ == group_of(m) && Some(*peer) == m.wish.peer),
        step == Step::EncodeWelcome && m.wish.peer is Some && change(m.made) is Some ==> (
        a matches Action::EncodeWelcome { welcome, peer, first_message, room } && welcome@ == change(
            m.made,
        )->0.welcome && Some(*peer) == m.wish.peer && *first_message == m.wish.first_message),
        created(m.made) is None ==> group_of(m) == m.wish.group_id@,
        created(m.made) matches Some(id) ==> group_of(m) == id,
{
}

/// What is encrypted, sealed, saved and sent is what the call before gave.
pub proof fn law_calls_take_what_was_given(m: RequestModel, step: Step, a: Action<'_>)
    requires
        is_action(m, step, a),
    ensures
        step == Step::SaveState ==> match latest(m.made, Product::Snapshot) {
            Some(s) => a matches Action::SaveState { snapshot } && snapshot@ == s,
            None => a is Missing,
        },
        step == Step::Encrypt || step == Step::EncryptKemAd ==> match latest(
            m.made,
            Product::Encoded,
        ) {
            Some(s) => a matches Action::Encrypt { bytes } && bytes@ == s,
            None => a is Missing,
        },
        step == Step::Seal && m.wish.peer is Some && latest(m.made, Product::Encoded) is Some ==> (
        a matches Action::Seal { bytes, peer } && Some(bytes@) == latest(m.made, Product::Encoded)
            && Some(*peer) == m.wish.peer),
        step == Step::SendMessage && latest(m.made, Product::Encrypted) is Some ==> (
        a matches Action::FanOut { bytes, members, .. } && Some(bytes@) == latest(
            m.made,
            Product::Encrypted,
        ) && texts(members@) == addressees(m)),
        step == Step::SendWelcome && m.wish.peer is Some && latest(m.made, Product::Sealed) is Some
            ==> (a matches Action::SendWelcome { target, sealed } && target == m.wish.peer->0.inbox
            && Some(sealed@) == latest(m.made, Product::Sealed)),
{
}

/// Who is told of a change: everyone who was in the group before it but ourselves and a peer
/// that was just invited, under the routing id that the room had before, where it is known.
pub proof fn law_change_is_told(m: RequestModel, who: Seq<char>)
    requires
        change(m.made) is Some,
        crate::api::rooms::listable(fingerprints(change(m.made)->0.before)),
    ensures
        addressees(m).contains(who) <==> fingerprints(change(m.made)->0.before).contains(who) && who
            != m.wish.our_fp@ && !(m.wish.purpose == Purpose::Invite && m.wish.peer is Some
            && m.wish.peer->0.fingerprint@ == who),
        loaded(m.made) matches Some((_, Some(t))) ==> change_target(m.made) == Some(t),
        (loaded(m.made) is None || (loaded(m.made)->0).1 is None) ==> change_target(m.made) == change(
            m.made,
        )->0.token,
{
    let before = change(m.made)->0.before;
    crate::roster::law_members_round_trip(fingerprints(before));
    crate::api::fanout::law_recipients(
        fingerprints(before),
        m.wish.our_fp@,
        left_out(m.wish),
        who,
    );
}

/// The row that is saved: of a room that was made, one with its name and time and with us
/// alone; after a removal, that of the room with those who are left.
pub proof fn law_saved_row(m: RequestModel, a: Action<'_>, id: Seq<u8>)
    requires
        is_action(m, Step::SaveRoom, a),
        m.wish.purpose == Purpose::Create,
        created(m.made) == Some(id),
    ensures
        a matches Action::SaveRoom { row } && row.group_id@ == id && row.name@ == m.wish.name@
            && row.members_b32@ == m.wish.our_fp@ && row.created_at_ms == m.wish.now_ms,
{
}

/// A call goes well exactly if it gives what it is made for: bytes, a group, its
/// members, a change, or nothing but that it is done. A failure never does.
pub proof fn law_going_well(step: Step, outcome: Outcome)
    ensures
        outcome is Failed ==> !went_well(Made { step, outcome }),
        step == Step::Snapshot || step == Step::Seal || step == Step::MintKeyPackage || step
            == Step::Encrypt || step == Step::EncryptKemAd || step == Step::EncodeMessage || step
            == Step::EncodeWelcome || step == Step::EncodeKemAd ==> (went_well(
            Made { step, outcome },
        ) <==> outcome is Bytes),
        step == Step::CreateGroup ==> (went_well(Made { step, outcome }) <==> outcome is Created),
        step == Step::LoadGroup ==> (went_well(Made { step, outcome }) <==> outcome is Loaded),
        step == Step::InviteMember || step == Step::RemoveMember || step == Step::RemoveSelf ==> (
        went_well(Made { step, outcome }) <==> outcome is Changed),
        step == Step::SaveState || step == Step::SaveRoom || step == Step::SendCommit || step
            == Step::SendWelcome || step == Step::SendMessage || step == Step::SendKemAd || step
            == Step::RecordPeerGroup || step == Step::DeleteRoom || step == Step::ForgetGroup || step
            == Step::SaveMemberKem || step == Step::ForgetMemberKems || step == Step::ForgetMessages
            || step == Step::StoreOutgoing || step == Step::Subscribe ==> (went_well(
            Made { step, outcome },
        ) <==> outcome is Done),
{
}

/// What came of the next call is noted behind all that came before; a request at its
/// end takes in nothing more, and what is asked for never changes.
pub proof fn law_outcomes_are_noted(m: RequestModel, outcome: Outcome)
    ensures
        with_outcome(m, outcome).wish == m.wish,
        stands(m) is At ==> with_outcome(m, outcome).made.drop_last() == m.made && with_outcome(
            m,
            outcome,
        ).made.last().outcome == outcome && with_outcome(m, outcome).made.len() == m.made.len() + 1,
        !(stands(m) is At) ==> with_outcome(m, outcome).made == m.made,
{
    if stands(m) is At {
        assert(with_outcome(m, outcome).made.drop_last() =~= m.made);
    }
}

/// Which calls a request is made of: the one that it is for, and the saving of what
/// that changed.
pub proof fn law_calls_serve_the_purpose(m: RequestModel)
    ensures
        m.wish.purpose == Purpose::Export ==> tasks_of(m)[0].step == Step::MintKeyPackage
            && tasks_of(m)[2].step == Step::SaveState,
        m.wish.purpose == Purpose::Create ==> tasks_of(m)[0].step == Step::CreateGroup && tasks_of(
            m,
        )[2].step == Step::SaveState && tasks_of(m)[3].step == Step::SaveRoom,
        m.wish.purpose == Purpose::Bootstrap ==> tasks_of(m)[0].step == Step::CreateGroup
            && tasks_of(m)[1].step == Step::InviteMember && tasks_of(m)[7].step
            == Step::SendWelcome,
        m.wish.purpose == Purpose::Invite ==> tasks_of(m)[1].step == Step::InviteMember && tasks_of(
            m,
        )[4].step == Step::SaveRoom && tasks_of(m)[8].step == Step::SendWelcome,
        m.wish.purpose == Purpose::Leave ==> tasks_of(m)[1].step == Step::RemoveSelf && tasks_of(
            m,
        )[2].step == Step::SendCommit && tasks_of(m).last().step == Step::DeleteRoom,
        m.wish.purpose == Purpose::Remove ==> tasks_of(m)[1].step == Step::RemoveMember && tasks_of(
            m,
        )[2].step == Step::SendCommit && tasks_of(m).last().step == Step::SaveRoom,
        m.wish.purpose == Purpose::Delete ==> tasks_of(m)[0].step == Step::ForgetGroup && tasks_of(
            m,
        ).last().step == Step::DeleteRoom && !has_step(tasks_of(m), Step::SendCommit),
        m.wish.purpose == Purpose::Send ==> has_step(tasks_of(m), Step::EncodeMessage) && has_step(
            tasks_of(m),
            Step::SendMessage,
        ) && has_step(tasks_of(m), Step::StoreOutgoing),
        m.wish.purpose == Purpose::SendPiece ==> has_step(tasks_of(m), Step::EncodeMessage)
            && has_step(tasks_of(m), Step::SendMessage) && !has_step(
            tasks_of(m),
            Step::StoreOutgoing,
        ),
{
    let t = tasks_of(m);
    if m.wish.purpose == Purpose::Send || m.wish.purpose == Purpose::SendPiece {
        assert(t[0].step == Step::EncodeMessage);
        if m.wish.purpose == Purpose::Send {
            assert(t[5].step == Step::SendMessage);
            assert(t[6].step == Step::StoreOutgoing);
        } else {
            assert(t[4].step == Step::SendMessage);
        }
    }
}

/// One of the calls is this one.
pub open spec fn has_step(tasks: Seq<Task>, step: Step) -> bool {
    exists|i: int| 0 <= i < tasks.len() && (#[trigger] tasks[i]).step == step
}

/// An invitation to a room tells the commit and the new member's key to those who were
/// there already, if there is anyone but ourselves and the peer, and tells nobody
/// otherwise.
pub proof fn law_news_of_an_invitation(m: RequestModel)
    requires
        m.wish.purpose == Purpose::Invite,
        m.wish.peer is Some,
        loaded(m.made) is Some,
        crate::api::rooms::listable(fingerprints((loaded(m.made)->0).0)),
    ensures
        has_step(tasks_of(m), Step::SendCommit) <==> exists|i: int|
            0 <= i < fingerprints((loaded(m.made)->0).0).len() && (#[trigger] fingerprints(
                (loaded(m.made)->0).0,
            )[i]) != m.wish.our_fp@ && fingerprints((loaded(m.made)->0).0)[i]
                != m.wish.peer->0.fingerprint@,
        has_step(tasks_of(m), Step::SendKemAd) <==> has_step(tasks_of(m), Step::SendCommit),
{
    let names = fingerprints((loaded(m.made)->0).0);
    let out = others(names, m.wish.our_fp@, left_out(m.wish));
    crate::roster::law_members_round_trip(names);
    if out.len() > 0 {
        assert(out.contains(out[0]));
        crate::api::fanout::law_recipients(names, m.wish.our_fp@, left_out(m.wish), out[0]);
        let i = choose|i: int| 0 <= i < names.len() && names[i] == out[0];
        assert(names[i] != m.wish.our_fp@ && names[i] != m.wish.peer->0.fingerprint@);
    }
    if exists|i: int|
        0 <= i < names.len() && (#[trigger] names[i]) != m.wish.our_fp@ && names[i]
            != m.wish.peer->0.fingerprint@ {
        let i = choose|i: int|
            0 <= i < names.len() && (#[trigger] names[i]) != m.wish.our_fp@ && names[i]
                != m.wish.peer->0.fingerprint@;
        assert(names.contains(names[i]));
        crate::api::fanout::law_recipients(names, m.wish.our_fp@, left_out(m.wish), names[i]);
        assert(out.len() > 0);
    }
    let t = tasks_of(m);
    if out.len() > 0 {
        assert(t[9].step == Step::SendCommit);
        assert(t[14].step == Step::SendKemAd);
    } else {
        assert(t =~= invite_head().push(t.last()));
    }
}

/// A commit goes to everyone it concerns, and is not sent where it concerns nobody. A
/// key of a new member goes to the same. A text of ours is kept under our own name.
pub proof fn law_sends_are_not_forgotten(m: RequestModel, step: Step, a: Action<'_>)
    requires
        is_action(m, step, a),
    ensures
        step == Step::SendCommit && addressees(m).len() == 0 ==> a is Nothing,
        step == Step::SendCommit && addressees(m).len() > 0 && change(m.made) is Some ==> (
        a matches Action::FanOut { group_id, members, target, bytes } && bytes@ == change(
            m.made,
        )->0.commit && texts(members@) == addressees(m) && target == change_target(m.made)
            && group_id@ == group_of(m)),
        step == Step::SendKemAd && latest(m.made, Product::Encrypted) is Some ==> (
        a matches Action::FanOut { members, bytes, target, .. } && Some(bytes@) == latest(
            m.made,
            Product::Encrypted,
        ) && texts(members@) == addressees(m) && target is None),
        step == Step::StoreOutgoing ==> match m.wish.message {
            Some(RoomAppMessage::Text { text: t }) => a matches Action::StoreOutgoing {
                group_id,
                sender,
                text,
            } && group_id@ == group_of(m) && sender@ == m.wish.our_fp@ && text@ == t@,
            _ => a is Missing,
        },
        step == Step::Subscribe ==> (a matches Action::Subscribe { group_id } && group_id@ == group_of(
            m,
        )),
        step == Step::CreateGroup ==> a is CreateGroup,
        step == Step::MintKeyPackage ==> a is MintKeyPackage,
        step == Step::RemoveSelf ==> a is RemoveSelf,
        step == Step::Snapshot ==> a is Snapshot,
{
}

/// After an invitation the room's row is saved with those who are in it now, and the peer
/// is told of it; a request that knows no such room saves no row and tells of none.
pub proof fn law_row_after_invitation(m: RequestModel, a: Action<'_>)
    requires
        m.wish.purpose == Purpose::Invite,
        m.wish.peer is Some,
        change(m.made) is Some,
        crate::api::rooms::listable(fingerprints(change(m.made)->0.before)),
        crate::api::rooms::listable(fingerprints(change(m.made)->0.after)),
    ensures
        is_action(m, Step::SaveRoom, a) ==> match a {
            Action::SaveRoom { row } => row.group_id@ == m.wish.group_id@ && nonempty_pieces(
                row.members_b32@,
                ',',
            ) == fingerprints(change(m.made)->0.after) && exists|i: int|
                0 <= i < m.wish.rows@.len() && (#[trigger] m.wish.rows@[i]).group_id@
                    == m.wish.group_id@ && row.name@ == m.wish.rows@[i].name@ && row.created_at_ms
                    == m.wish.rows@[i].created_at_ms,
            Action::Nothing => forall|i: int|
                0 <= i < m.wish.rows@.len() ==> (#[trigger] m.wish.rows@[i]).group_id@
                    != m.wish.group_id@,
            _ => false,
        },
        is_action(m, Step::EncodeWelcome, a) ==> (a matches Action::EncodeWelcome { room, .. } && (
        room is Some <==> exists|i: int|
            0 <= i < m.wish.rows@.len() && (#[trigger] m.wish.rows@[i]).group_id@
                == m.wish.group_id@)),
{
    crate::roster::law_row_is_found(m.wish.rows@, m.wish.group_id@, 0);
    if is_action(m, Step::SaveRoom, a) {
        let plan = choose|plan: Option<InvitePlan>|
            #[trigger] is_planned_invite(m, plan) && match plan {
                Some(p) => a matches Action::SaveRoom { row: saved } && *saved == p.row,
                None => a is Nothing,
            };
        if let Some(p) = plan {
            crate::api::rooms::law_invitation_plan(
                p,
                room_row(m.wish)->0,
                m.wish.our_fp@,
                m.wish.peer->0.fingerprint@,
                change(m.made)->0.before,
                change(m.made)->0.after,
                m.wish.our_fp@,
            );
        }
    }
}

/// After a removal the room's row is saved with those who are left; a request that knows
/// no such room saves none.
pub proof fn law_row_after_removal(m: RequestModel, a: Action<'_>)
    requires
        m.wish.purpose == Purpose::Remove,
        change(m.made) is Some,
        crate::api::rooms::listable(fingerprints(change(m.made)->0.before)),
        crate::api::rooms::listable(fingerprints(change(m.made)->0.after)),
        is_action(m, Step::SaveRoom, a),
    ensures
        match a {
            Action::SaveRoom { row } => row.group_id@ == m.wish.group_id@ && nonempty_pieces(
                row.members_b32@,
                ',',
            ) == fingerprints(change(m.made)->0.after),
            Action::Nothing => forall|i: int|
                0 <= i < m.wish.rows@.len() ==> (#[trigger] m.wish.rows@[i]).group_id@
                    != m.wish.group_id@,
            _ => false,
        },
{
    let plan = choose|plan: Option<RemovePlan>|
        #[trigger] is_planned_removal(m, plan) && match plan {
            Some(p) => match p.row {
                Some(row) => a matches Action::SaveRoom { row: saved } && *saved == row,
                None => a is Nothing,
            },
            None => a is Nothing,
        };
    if let Some(p) = plan {
        crate::api::rooms::law_removal_plan(
            p,
            m.wish.rows@,
            m.wish.group_id@,
            m.wish.our_fp@,
            change(m.made)->0.before,
            change(m.made)->0.after,
            m.wish.our_fp@,
        );
    }
}

/// A plan follows from a change and from nothing else: one of an invitation where a peer
/// was invited to a room that has a row, one of a removal where a member was removed.
pub proof fn law_plans_follow_changes(
    m: RequestModel,
    invited: Option<InvitePlan>,
    removed: Option<RemovePlan>,
)
    requires
        is_planned_invite(m, invited),
        is_planned_removal(m, removed),
    ensures
        invited is Some ==> m.wish.purpose == Purpose::Invite && change(m.made) is Some,
        removed is Some <==> m.wish.purpose == Purpose::Remove && change(m.made) is Some,
        m.wish.purpose == Purpose::Invite && m.wish.peer is Some && change(m.made) is Some && (exists|
            i: int,
        |
            0 <= i < m.wish.rows@.len() && (#[trigger] m.wish.rows@[i]).group_id@
                == m.wish.group_id@) ==> invited is Some,
{
    crate::roster::law_row_is_found(m.wish.rows@, m.wish.group_id@, 0);
}

/// A request begins without any call, with the purpose, the name and the room that it was
/// given.
pub proof fn law_request_begins(r: Request, purpose: Purpose, our_fp: Seq<char>, group_id: Seq<u8>)
    requires
        r.begins(purpose, our_fp, group_id),
    ensures
        r.wf(),
        r@.made.len() == 0,
        r@.wish.purpose == purpose,
        r@.wish.our_fp@ == our_fp,
        r@.wish.group_id@ == group_id,
{
}

} // verus!
