//! In which order the calls of a request are made, and what follows where one
//! fails.
//!
//! A request is a list of steps. Each is one call on the group state, on the
//! vault or on the network, made elsewhere; here it is decided which call is the
//! next. What is saved before it is sent, and what is forgotten before its record
//! goes, is a matter of this order.
use vstd::prelude::*;

verus! {

/// A call.
#[derive(Debug, Clone, Copy, PartialEq, Eq, Structural)]
pub enum Step {
    /// Make a key package.
    MintKeyPackage,
    /// Make a group.
    CreateGroup,
    /// Load the group of a room.
    LoadGroup,
    /// Add the peer to the group.
    InviteMember,
    /// Take the member out of the group.
    RemoveMember,
    /// Take ourselves out of the group.
    RemoveSelf,
    /// Drop the group.
    ForgetGroup,
    /// Take a snapshot of the group state.
    Snapshot,
    /// Save the snapshot.
    SaveState,
    /// Put the group with the peer on record.
    RecordPeerGroup,
    /// Save the room's row.
    SaveRoom,
    /// Save the new member's key.
    SaveMemberKem,
    /// Drop the keys of a room's members.
    ForgetMemberKems,
    /// Drop the messages of a room.
    ForgetMessages,
    /// Drop the room's row.
    DeleteRoom,
    /// Encode the message.
    EncodeMessage,
    /// Encrypt the message.
    Encrypt,
    /// Encode the invitation.
    EncodeWelcome,
    /// Seal the invitation.
    Seal,
    /// Send the invitation.
    SendWelcome,
    /// Send the commit to the members.
    SendCommit,
    /// Encode the message that tells the new member's key.
    EncodeKemAd,
    /// Encrypt that message.
    EncryptKemAd,
    /// Send that message to the members.
    SendKemAd,
    /// Send the message to the members.
    SendMessage,
    /// Keep the message that was sent.
    StoreOutgoing,
    /// Subscribe to the room's new routing id.
    Subscribe,
}

/// What follows where a call fails.
#[derive(Debug, Clone, Copy, PartialEq, Eq, Structural)]
pub enum OnFailure {
    /// The request fails.
    Abort,
    /// The next call is made all the same.
    Continue,
    /// So many calls are left out.
    Skip(usize),
}

/// A call and what follows where it fails.
#[derive(Debug, Clone, Copy, PartialEq, Eq, Structural)]
pub struct Task {
    pub step: Step,
    pub on_failure: OnFailure,
}

/// Where a request stands.
#[derive(Debug, Clone, Copy, PartialEq, Eq, Structural)]
pub enum Progress {
    /// This call is the next.
    At(usize),
    /// All calls are made.
    Done,
    /// This call failed, and the request with it.
    Failed(usize),
}

/// Where a request stands whose next call would be the `i`th.
pub open spec fn standing(tasks: Seq<Task>, i: int) -> Progress {
    if 0 <= i < tasks.len() {
        Progress::At(i as usize)
    } else {
        Progress::Done
    }
}

/// Where a request stands after its `at`th call.
pub open spec fn after_call(tasks: Seq<Task>, at: usize, ok: bool) -> Progress {
    if ok {
        standing(tasks, at + 1)
    } else {
        match tasks[at as int].on_failure {
            OnFailure::Abort => Progress::Failed(at),
            OnFailure::Continue => standing(tasks, at + 1),
            OnFailure::Skip(n) => standing(tasks, at + 1 + n),
        }
    }
}

/// Where a request stands at its start.
pub fn start(tasks: &Vec<Task>) -> (p: Progress)
    ensures
        p == standing(tasks@, 0),
{
    if tasks.len() > 0 {
        Progress::At(0)
    } else {
        Progress::Done
    }
}

/// Decide what comes after a call.
pub fn advance(tasks: &Vec<Task>, at: usize, ok: bool) -> (p: Progress)
    requires
        at < tasks@.len(),
    ensures
        p == after_call(tasks@, at, ok),
{
    let n: usize = tasks.len();
    if ok {
        return if at + 1 < n {
            Progress::At(at + 1)
        } else {
            Progress::Done
        };
    }
    match tasks[at].on_failure {
        OnFailure::Abort => Progress::Failed(at),
        OnFailure::Continue => if at + 1 < n {
            Progress::At(at + 1)
        } else {
            Progress::Done
        },
        OnFailure::Skip(k) => if k < n - at - 1 {
            Progress::At(at + 1 + k)
        } else {
            Progress::Done
        },
    }
}

/// Where a request stands after calls with these outcomes.
pub open spec fn progress(tasks: Seq<Task>, oks: Seq<bool>) -> Progress
    decreases oks.len(),
{
    if oks.len() == 0 {
        standing(tasks, 0)
    } else {
        match progress(tasks, oks.drop_last()) {
            Progress::At(i) => after_call(tasks, i, oks.last()),
            p => p,
        }
    }
}

/// The next call is one of the request, and none is made twice.
pub proof fn lemma_progress_bound(tasks: Seq<Task>, oks: Seq<bool>)
    requires
        tasks.len() <= usize::MAX,
    ensures
        progress(tasks, oks) matches Progress::At(j) ==> j < tasks.len() && oks.len() <= j,
    decreases oks.len(),
{
    if oks.len() > 0 {
        lemma_progress_bound(tasks, oks.drop_last());
    }
}

/// A call is made only if every call that the request depends on, and that was
/// made before it, went well.
pub proof fn law_no_call_after_failure(tasks: Seq<Task>, oks: Seq<bool>, k: int)
    requires
        tasks.len() <= usize::MAX,
        0 <= k < oks.len(),
        progress(tasks, oks) is At,
    ensures
        progress(tasks, oks.take(k)) matches Progress::At(i) && i < tasks.len()
            && (tasks[i as int].on_failure is Abort ==> oks[k]),
    decreases oks.len(),
{
    let front = oks.drop_last();
    lemma_progress_bound(tasks, front);
    if k == oks.len() - 1 {
        assert(oks.take(k) =~= front);
    } else {
        law_no_call_after_failure(tasks, front, k);
        assert(front.take(k) =~= oks.take(k));
    }
}

/// None of the first `n` calls leaves others out.
pub open spec fn no_skips(tasks: Seq<Task>, n: int) -> bool {
    forall|i: int| 0 <= i < n && i < tasks.len() ==> !((#[trigger] tasks[i]).on_failure is Skip)
}

/// As long as no call leaves others out, the calls are made one after the other.
pub proof fn lemma_plain_prefix(tasks: Seq<Task>, oks: Seq<bool>, n: int)
    requires
        tasks.len() <= usize::MAX,
        0 <= n < tasks.len(),
        no_skips(tasks, n),
        oks.len() <= n,
        progress(tasks, oks) is At,
    ensures
        progress(tasks, oks) == Progress::At(oks.len() as usize),
    decreases oks.len(),
{
    if oks.len() > 0 {
        lemma_plain_prefix(tasks, oks.drop_last(), n);
        assert(!(tasks[oks.len() - 1].on_failure is Skip));
    }
}

proof fn lemma_reached_in_order(tasks: Seq<Task>, oks: Seq<bool>, j: usize)
    requires
        tasks.len() <= usize::MAX,
        j < tasks.len(),
        no_skips(tasks, j as int),
        progress(tasks, oks) == Progress::At(j),
    ensures
        oks.len() == j,
        forall|i: int|
            0 <= i < j && (#[trigger] tasks[i]).on_failure is Abort ==> oks[i],
{
    lemma_progress_bound(tasks, oks);
    lemma_plain_prefix(tasks, oks, j as int);
    assert forall|i: int| 0 <= i < j && (#[trigger] tasks[i]).on_failure is Abort implies oks[i] by {
        law_no_call_after_failure(tasks, oks, i);
        lemma_progress_bound(tasks, oks.take(i));
        lemma_plain_prefix(tasks, oks.take(i), j as int);
    }
}

fn must(tasks: &mut Vec<Task>, step: Step)
    ensures
        final(tasks)@ == old(tasks)@.push(Task { step, on_failure: OnFailure::Abort }),
{
    tasks.push(Task { step, on_failure: OnFailure::Abort });
}

fn may(tasks: &mut Vec<Task>, step: Step)
    ensures
        final(tasks)@ == old(tasks)@.push(Task { step, on_failure: OnFailure::Continue }),
{
    tasks.push(Task { step, on_failure: OnFailure::Continue });
}

fn else_skip(tasks: &mut Vec<Task>, step: Step, n: usize)
    ensures
        final(tasks)@ == old(tasks)@.push(Task { step, on_failure: OnFailure::Skip(n) }),
{
    tasks.push(Task { step, on_failure: OnFailure::Skip(n) });
}

/// A call that the request depends on.
pub open spec fn needed(step: Step) -> Task {
    Task { step, on_failure: OnFailure::Abort }
}

/// A call whose failure changes nothing.
pub open spec fn optional(step: Step) -> Task {
    Task { step, on_failure: OnFailure::Continue }
}

/// A call without which the next `n` make no sense.
pub open spec fn leading(step: Step, n: usize) -> Task {
    Task { step, on_failure: OnFailure::Skip(n) }
}

/// Handing out a key package.
pub open spec fn export_order() -> Seq<Task> {
    seq![needed(Step::MintKeyPackage), needed(Step::Snapshot), needed(Step::SaveState)]
}

pub fn export_tasks() -> (v: Vec<Task>)
    ensures
        v@ == export_order(),
{
    let mut v: Vec<Task> = Vec::new();
    must(&mut v, Step::MintKeyPackage);
    must(&mut v, Step::Snapshot);
    must(&mut v, Step::SaveState);
    assert(v@ =~= export_order());
    v
}

/// Making a room.
pub open spec fn create_order() -> Seq<Task> {
    seq![
        needed(Step::CreateGroup),
        needed(Step::Snapshot),
        needed(Step::SaveState),
        needed(Step::SaveRoom),
        optional(Step::Subscribe),
    ]
}

pub fn create_tasks() -> (v: Vec<Task>)
    ensures
        v@ == create_order(),
{
    let mut v: Vec<Task> = Vec::new();
    must(&mut v, Step::CreateGroup);
    must(&mut v, Step::Snapshot);
    must(&mut v, Step::SaveState);
    must(&mut v, Step::SaveRoom);
    may(&mut v, Step::Subscribe);
    assert(v@ =~= create_order());
    v
}

/// Beginning a conversation with an invitation.
pub open spec fn bootstrap_order() -> Seq<Task> {
    seq![
        needed(Step::CreateGroup),
        needed(Step::InviteMember),
        needed(Step::Snapshot),
        needed(Step::EncodeWelcome),
        needed(Step::Seal),
        needed(Step::SaveState),
        needed(Step::RecordPeerGroup),
        needed(Step::SendWelcome),
    ]
}

pub fn bootstrap_tasks() -> (v: Vec<Task>)
    ensures
        v@ == bootstrap_order(),
{
    let mut v: Vec<Task> = Vec::new();
    must(&mut v, Step::CreateGroup);
    must(&mut v, Step::InviteMember);
    must(&mut v, Step::Snapshot);
    must(&mut v, Step::EncodeWelcome);
    must(&mut v, Step::Seal);
    must(&mut v, Step::SaveState);
    must(&mut v, Step::RecordPeerGroup);
    must(&mut v, Step::SendWelcome);
    assert(v@ =~= bootstrap_order());
    v
}

/// Inviting to a room, up to the invitation itself.
pub open spec fn invite_head() -> Seq<Task> {
    seq![
        needed(Step::LoadGroup),
        needed(Step::InviteMember),
        needed(Step::Snapshot),
        needed(Step::SaveState),
        needed(Step::SaveRoom),
        needed(Step::SaveMemberKem),
        needed(Step::EncodeWelcome),
        needed(Step::Seal),
        needed(Step::SendWelcome),
    ]
}

/// What those who were in the room before are sent: the commit, and then, as far
/// as it can be made, the new member's key.
pub open spec fn invite_news() -> Seq<Task> {
    seq![
        optional(Step::SendCommit),
        leading(Step::EncodeKemAd, 4),
        leading(Step::EncryptKemAd, 3),
        leading(Step::Snapshot, 1),
        optional(Step::SaveState),
        optional(Step::SendKemAd),
    ]
}

/// Inviting to a room.
pub open spec fn invite_order(has_pre_existing: bool) -> Seq<Task> {
    let news = if has_pre_existing {
        invite_news()
    } else {
        Seq::empty()
    };
    (invite_head() + news).push(optional(Step::Subscribe))
}

pub fn invite_tasks(has_pre_existing: bool) -> (v: Vec<Task>)
    ensures
        v@ == invite_order(has_pre_existing),
{
    let mut v: Vec<Task> = Vec::new();
    must(&mut v, Step::LoadGroup);
    must(&mut v, Step::InviteMember);
    must(&mut v, Step::Snapshot);
    must(&mut v, Step::SaveState);
    must(&mut v, Step::SaveRoom);
    must(&mut v, Step::SaveMemberKem);
    must(&mut v, Step::EncodeWelcome);
    must(&mut v, Step::Seal);
    must(&mut v, Step::SendWelcome);
    if has_pre_existing {
        may(&mut v, Step::SendCommit);
        else_skip(&mut v, Step::EncodeKemAd, 4);
        else_skip(&mut v, Step::EncryptKemAd, 3);
        else_skip(&mut v, Step::Snapshot, 1);
        may(&mut v, Step::SaveState);
        may(&mut v, Step::SendKemAd);
    }
    may(&mut v, Step::Subscribe);
    assert(v@ =~= invite_order(has_pre_existing));
    v
}

/// Leaving a room.
pub open spec fn leave_order() -> Seq<Task> {
    seq![
        needed(Step::LoadGroup),
        leading(Step::RemoveSelf, 1),
        optional(Step::SendCommit),
        needed(Step::ForgetGroup),
        leading(Step::Snapshot, 1),
        optional(Step::SaveState),
        optional(Step::ForgetMemberKems),
        optional(Step::ForgetMessages),
        optional(Step::DeleteRoom),
    ]
}

pub fn leave_tasks() -> (v: Vec<Task>)
    ensures
        v@ == leave_order(),
{
    let mut v: Vec<Task> = Vec::new();
    must(&mut v, Step::LoadGroup);
    else_skip(&mut v, Step::RemoveSelf, 1);
    may(&mut v, Step::SendCommit);
    must(&mut v, Step::ForgetGroup);
    else_skip(&mut v, Step::Snapshot, 1);
    may(&mut v, Step::SaveState);
    may(&mut v, Step::ForgetMemberKems);
    may(&mut v, Step::ForgetMessages);
    may(&mut v, Step::DeleteRoom);
    assert(v@ =~= leave_order());
    v
}

/// Removing a member from a room.
pub open spec fn remove_order() -> Seq<Task> {
    seq![
        needed(Step::LoadGroup),
        needed(Step::RemoveMember),
        optional(Step::SendCommit),
        leading(Step::Snapshot, 1),
        optional(Step::SaveState),
        optional(Step::SaveRoom),
    ]
}

pub fn remove_tasks() -> (v: Vec<Task>)
    ensures
        v@ == remove_order(),
{
    let mut v: Vec<Task> = Vec::new();
    must(&mut v, Step::LoadGroup);
    must(&mut v, Step::RemoveMember);
    may(&mut v, Step::SendCommit);
    else_skip(&mut v, Step::Snapshot, 1);
    may(&mut v, Step::SaveState);
    may(&mut v, Step::SaveRoom);
    assert(v@ =~= remove_order());
    v
}

/// Dropping a room.
pub open spec fn delete_order() -> Seq<Task> {
    seq![
        needed(Step::ForgetGroup),
        leading(Step::Snapshot, 1),
        needed(Step::SaveState),
        needed(Step::ForgetMemberKems),
        optional(Step::ForgetMessages),
        needed(Step::DeleteRoom),
    ]
}

pub fn delete_tasks() -> (v: Vec<Task>)
    ensures
        v@ == delete_order(),
{
    let mut v: Vec<Task> = Vec::new();
    must(&mut v, Step::ForgetGroup);
    else_skip(&mut v, Step::Snapshot, 1);
    must(&mut v, Step::SaveState);
    must(&mut v, Step::ForgetMemberKems);
    may(&mut v, Step::ForgetMessages);
    must(&mut v, Step::DeleteRoom);
    assert(v@ =~= delete_order());
    v
}

/// Sending a text to a room.
pub open spec fn send_order() -> Seq<Task> {
    seq![
        needed(Step::EncodeMessage),
        needed(Step::LoadGroup),
        needed(Step::Encrypt),
        needed(Step::Snapshot),
        needed(Step::SaveState),
        optional(Step::SendMessage),
        optional(Step::StoreOutgoing),
    ]
}

pub fn send_tasks() -> (v: Vec<Task>)
    ensures
        v@ == send_order(),
{
    let mut v: Vec<Task> = Vec::new();
    must(&mut v, Step::EncodeMessage);
    must(&mut v, Step::LoadGroup);
    must(&mut v, Step::Encrypt);
    must(&mut v, Step::Snapshot);
    must(&mut v, Step::SaveState);
    may(&mut v, Step::SendMessage);
    may(&mut v, Step::StoreOutgoing);
    assert(v@ =~= send_order());
    v
}

/// Sending one message of a file to a room.
pub open spec fn send_piece_order() -> Seq<Task> {
    seq![
        needed(Step::EncodeMessage),
        needed(Step::Encrypt),
        leading(Step::Snapshot, 1),
        optional(Step::SaveState),
        optional(Step::SendMessage),
    ]
}

pub fn send_piece_tasks() -> (v: Vec<Task>)
    ensures
        v@ == send_piece_order(),
{
    let mut v: Vec<Task> = Vec::new();
    must(&mut v, Step::EncodeMessage);
    must(&mut v, Step::Encrypt);
    else_skip(&mut v, Step::Snapshot, 1);
    may(&mut v, Step::SaveState);
    may(&mut v, Step::SendMessage);
    assert(v@ =~= send_piece_order());
    v
}

/// An invitation to a room goes out only after the peer was added, and after the
/// group state, the room's row and the peer's key were saved.
pub proof fn law_invite_saved_before_sent(has_pre_existing: bool, oks: Seq<bool>)
    requires
        progress(invite_order(has_pre_existing), oks) == Progress::At(8),
    ensures
        invite_order(has_pre_existing)[8].step == Step::SendWelcome,
        oks.len() == 8,
        forall|i: int| 0 <= i < 8 ==> oks[i],
{
    let t = invite_order(has_pre_existing);
    assert(forall|i: int| 0 <= i < 8 ==> #[trigger] t[i] == invite_head()[i]);
    lemma_reached_in_order(t, oks, 8);
    assert forall|i: int| 0 <= i < 8 implies oks[i] by {
        assert(t[i].on_failure is Abort);
    }
}

/// An invitation that begins a conversation goes out only after everything
/// before it went well: the group state was saved and the group with the peer was
/// put on record.
pub proof fn law_bootstrap_saved_before_sent(oks: Seq<bool>)
    requires
        progress(bootstrap_order(), oks) == Progress::At(7),
    ensures
        bootstrap_order()[5].step == Step::SaveState,
        bootstrap_order()[6].step == Step::RecordPeerGroup,
        bootstrap_order()[7].step == Step::SendWelcome,
        oks.len() == 7,
        forall|i: int| 0 <= i < 7 ==> oks[i],
{
    let t = bootstrap_order();
    lemma_reached_in_order(t, oks, 7);
    assert forall|i: int| 0 <= i < 7 implies oks[i] by {
        assert(t[i].on_failure is Abort);
    }
}

/// A text is sent to a room only after the group state that its encryption
/// changed was saved.
pub proof fn law_text_saved_before_sent(oks: Seq<bool>)
    requires
        progress(send_order(), oks) == Progress::At(5),
    ensures
        send_order()[5].step == Step::SendMessage,
        oks.len() == 5,
        forall|i: int| 0 <= i < 5 ==> oks[i],
{
    let t = send_order();
    lemma_reached_in_order(t, oks, 5);
    assert forall|i: int| 0 <= i < 5 implies oks[i] by {
        assert(t[i].on_failure is Abort);
    }
}

/// After a call the next one is made if it went well or nothing depends on it; a request
/// fails exactly where a call that it depends on fails, and nothing is made twice.
pub proof fn law_after_a_call(tasks: Seq<Task>, at: usize, ok: bool)
    requires
        tasks.len() <= usize::MAX,
        at < tasks.len(),
    ensures
        after_call(tasks, at, ok) is Failed <==> !ok && tasks[at as int].on_failure is Abort,
        after_call(tasks, at, ok) matches Progress::At(j) ==> at < j < tasks.len(),
        ok && at + 1 < tasks.len() ==> after_call(tasks, at, ok) == Progress::At((at + 1) as usize),
        ok && at + 1 == tasks.len() ==> after_call(tasks, at, ok) is Done,
        !ok && tasks[at as int].on_failure is Continue ==> after_call(tasks, at, ok) == after_call(
            tasks,
            at,
            true,
        ),
{
}

/// Where a call of a list stands.
pub open spec fn stands_at(tasks: Seq<Task>, i: int, step: Step) -> bool {
    0 <= i < tasks.len() && tasks[i].step == step
}

/// A key package is handed out, and a room is there, only after the group state was saved;
/// a room's row comes after it.
pub proof fn law_export_and_create()
    ensures
        export_order().len() == 3,
        stands_at(export_order(), 0, Step::MintKeyPackage),
        stands_at(export_order(), 1, Step::Snapshot),
        stands_at(export_order(), 2, Step::SaveState),
        forall|i: int| 0 <= i < 3 ==> (#[trigger] export_order()[i]).on_failure is Abort,
        create_order().len() == 5,
        stands_at(create_order(), 0, Step::CreateGroup),
        stands_at(create_order(), 1, Step::Snapshot),
        stands_at(create_order(), 2, Step::SaveState),
        stands_at(create_order(), 3, Step::SaveRoom),
        stands_at(create_order(), 4, Step::Subscribe),
        forall|i: int| 0 <= i < 5 ==> ((#[trigger] create_order()[i]).on_failure is Abort <==> i < 4),
{
}

/// Leaving: the others are told before the group is forgotten, and what is kept of the room
/// goes only after that. Leaving fails exactly where the group cannot be loaded or
/// forgotten; who cannot take themselves out tells nobody.
pub proof fn law_leaving(i: int, j: int)
    requires
        0 <= i < leave_order().len(),
        0 <= j < leave_order().len(),
    ensures
        stands_at(leave_order(), i, Step::SendCommit) && stands_at(leave_order(), j, Step::ForgetGroup)
            ==> i < j,
        stands_at(leave_order(), i, Step::RemoveSelf) && stands_at(leave_order(), j, Step::SendCommit)
            ==> i + 1 == j && leave_order()[i].on_failure == OnFailure::Skip(1),
        stands_at(leave_order(), i, Step::ForgetGroup) && (stands_at(leave_order(), j, Step::DeleteRoom)
            || stands_at(leave_order(), j, Step::ForgetMessages) || stands_at(
            leave_order(),
            j,
            Step::ForgetMemberKems,
        ) || stands_at(leave_order(), j, Step::SaveState)) ==> i < j,
        leave_order()[i].on_failure is Abort <==> leave_order()[i].step == Step::LoadGroup
            || leave_order()[i].step == Step::ForgetGroup,
        exists|k: int| stands_at(leave_order(), k, Step::DeleteRoom),
        exists|k: int| stands_at(leave_order(), k, Step::ForgetMessages),
        exists|k: int| stands_at(leave_order(), k, Step::ForgetMemberKems),
        exists|k: int| stands_at(leave_order(), k, Step::SendCommit),
        exists|k: int| stands_at(leave_order(), k, Step::ForgetGroup),
{
    assert(stands_at(leave_order(), 8, Step::DeleteRoom));
    assert(stands_at(leave_order(), 7, Step::ForgetMessages));
    assert(stands_at(leave_order(), 6, Step::ForgetMemberKems));
    assert(stands_at(leave_order(), 2, Step::SendCommit));
    assert(stands_at(leave_order(), 3, Step::ForgetGroup));
}

/// Removing: the member is taken out first, then the others are told, then what is kept is
/// brought up to date. It fails exactly where the member cannot be taken out.
pub proof fn law_removing(i: int, j: int)
    requires
        0 <= i < remove_order().len(),
        0 <= j < remove_order().len(),
    ensures
        stands_at(remove_order(), i, Step::RemoveMember) && (stands_at(
            remove_order(),
            j,
            Step::SendCommit,
        ) || stands_at(remove_order(), j, Step::SaveState) || stands_at(
            remove_order(),
            j,
            Step::SaveRoom,
        )) ==> i < j,
        remove_order()[i].on_failure is Abort <==> remove_order()[i].step == Step::LoadGroup
            || remove_order()[i].step == Step::RemoveMember,
        exists|k: int| stands_at(remove_order(), k, Step::SendCommit),
        exists|k: int| stands_at(remove_order(), k, Step::SaveState),
        exists|k: int| stands_at(remove_order(), k, Step::SaveRoom),
{
    assert(stands_at(remove_order(), 2, Step::SendCommit));
    assert(stands_at(remove_order(), 4, Step::SaveState));
    assert(stands_at(remove_order(), 5, Step::SaveRoom));
}

/// Dropping a room: its group is forgotten before its keys, its messages and last its row
/// go; only its messages may fail to go.
pub proof fn law_dropping(i: int, j: int)
    requires
        0 <= i < delete_order().len(),
        0 <= j < delete_order().len(),
    ensures
        delete_order()[0].step == Step::ForgetGroup,
        delete_order().last().step == Step::DeleteRoom,
        delete_order()[i].step == Step::ForgetMessages ==> delete_order()[i].on_failure is Continue,
        delete_order()[i].step == Step::ForgetGroup || delete_order()[i].step == Step::SaveState
            || delete_order()[i].step == Step::ForgetMemberKems || delete_order()[i].step
            == Step::DeleteRoom ==> delete_order()[i].on_failure is Abort,
        exists|k: int| stands_at(delete_order(), k, Step::ForgetMessages),
        exists|k: int| stands_at(delete_order(), k, Step::ForgetMemberKems),
        exists|k: int| stands_at(delete_order(), k, Step::SaveState),
{
    assert(stands_at(delete_order(), 4, Step::ForgetMessages));
    assert(stands_at(delete_order(), 3, Step::ForgetMemberKems));
    assert(stands_at(delete_order(), 2, Step::SaveState));
}

/// Sending: a text is kept only behind having been sent, and a message of a file is sent
/// only if it could be encoded and encrypted.
pub proof fn law_sending(oks: Seq<bool>)
    ensures
        send_order().last().step == Step::StoreOutgoing,
        send_order()[5].step == Step::SendMessage,
        send_piece_order().last().step == Step::SendMessage,
        progress(send_piece_order(), oks) is At && oks.len() >= 2 ==> oks[0] && oks[1],
        stands_at(send_piece_order(), 0, Step::EncodeMessage),
        stands_at(send_piece_order(), 1, Step::Encrypt),
{
    let t = send_piece_order();
    if progress(t, oks) is At && oks.len() >= 2 {
        law_no_call_after_failure(t, oks, 0);
        law_no_call_after_failure(t, oks, 1);
        let one = oks.take(1);
        assert(oks.take(0) =~= Seq::<bool>::empty());
        assert(one.drop_last() =~= Seq::<bool>::empty());
        assert(one.last() == oks[0]);
        assert(progress(t, Seq::<bool>::empty()) == Progress::At(0));
        assert(progress(t, one) == after_call(t, 0, oks[0]));
    }
}

/// Inviting: the peer is added, everything is saved and the invitation goes out, in this
/// order; only then do those who were there before get the commit, and behind it the new
/// member's key.
pub proof fn law_inviting(told: bool, i: int)
    requires
        0 <= i < invite_order(told).len(),
    ensures
        invite_order(true).len() == invite_order(false).len() + 6,
        invite_order(told)[8].step == Step::SendWelcome,
        invite_order(told).last().step == Step::Subscribe,
        invite_order(told)[i].step == Step::SendCommit ==> told && i == 9,
        invite_order(told)[i].step == Step::SendKemAd ==> told && i == 14,
        told ==> invite_order(told)[9].step == Step::SendCommit && invite_order(told)[14].step
            == Step::SendKemAd,
        invite_order(told)[i].on_failure is Abort <==> i <= 8,
{
    let t = invite_order(told);
    if i < 9 {
        assert(t[i] == invite_head()[i]);
    } else if told && i < 15 {
        assert(t[i] == invite_news()[i - 9]);
    }
    assert(t[8] == invite_head()[8]);
    if told {
        assert(t[9] == invite_news()[0]);
        assert(t[14] == invite_news()[5]);
    }
}

/// A request begins with its first call, and one without calls is done from the start.
pub proof fn law_first_things_first(tasks: Seq<Task>)
    ensures
        tasks.len() > 0 ==> progress(tasks, Seq::empty()) == Progress::At(0),
        tasks.len() == 0 ==> progress(tasks, Seq::empty()) == Progress::Done,
{
}

/// What a failed call leaves out: just those calls that need what it would have given. A key
/// of a new member that cannot be encoded or encrypted is not sent; a state that cannot be
/// had is not saved; whoever cannot be removed from a group is not announced as gone.
pub proof fn law_what_a_failure_leaves_out()
    ensures
        after_call(invite_order(true), 10, false) == Progress::At(15),
        after_call(invite_order(true), 11, false) == Progress::At(15),
        invite_order(true)[10].step == Step::EncodeKemAd,
        invite_order(true)[11].step == Step::EncryptKemAd,
        invite_order(true)[15].step == Step::Subscribe,
        after_call(invite_order(true), 12, false) == Progress::At(14),
        invite_order(true)[12].step == Step::Snapshot,
        invite_order(true)[14].step == Step::SendKemAd,
        after_call(leave_order(), 1, false) == Progress::At(3),
        leave_order()[1].step == Step::RemoveSelf,
        leave_order()[3].step == Step::ForgetGroup,
        after_call(leave_order(), 4, false) == Progress::At(6),
        leave_order()[6].step == Step::ForgetMemberKems,
        after_call(remove_order(), 3, false) == Progress::At(5),
        remove_order()[5].step == Step::SaveRoom,
        after_call(delete_order(), 1, false) == Progress::At(3),
        delete_order()[3].step == Step::ForgetMemberKems,
        after_call(send_piece_order(), 2, false) == Progress::At(4),
        send_piece_order()[4].step == Step::SendMessage,
{
}

} // verus!
