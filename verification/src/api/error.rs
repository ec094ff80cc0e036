//! Errors that clients are answered with.
use vstd::prelude::*;

use crate::text::join2;

verus! {

/// What kind of error it is.
#[derive(Debug, Clone, Copy, PartialEq, Eq, Structural)]
pub enum ApiErrorCode {
    /// The request cannot be carried out as it stands.
    Malformed,
    /// The request cannot be carried out at the moment.
    NotReady,
    /// Something failed inside.
    Internal,
}

/// An error, as a client is told of it.
#[derive(Debug)]
pub struct ApiError {
    pub code: ApiErrorCode,
    pub message: String,
}

impl View for ApiError {
    type V = (ApiErrorCode, Seq<char>);

    open spec fn view(&self) -> (ApiErrorCode, Seq<char>) {
        (self.code, self.message@)
    }
}

pub fn malformed(message: &str) -> (e: ApiError)
    ensures
        e@ == (ApiErrorCode::Malformed, message@),
{
    ApiError { code: ApiErrorCode::Malformed, message: message.to_owned() }
}

pub fn not_ready(message: &str) -> (e: ApiError)
    ensures
        e@ == (ApiErrorCode::NotReady, message@),
{
    ApiError { code: ApiErrorCode::NotReady, message: message.to_owned() }
}

pub fn internal(message: &str) -> (e: ApiError)
    ensures
        e@ == (ApiErrorCode::Internal, message@),
{
    ApiError { code: ApiErrorCode::Internal, message: message.to_owned() }
}

/// A line of a client that could not be read.
pub fn unreadable_request(reason: &str) -> (e: ApiError)
    ensures
        e@ == (ApiErrorCode::Malformed, "could not decode request: "@ + reason@),
{
    malformed(join2("could not decode request: ", reason).as_str())
}

/// A call on the vault or on the group state that failed, with the reason where
/// it gives one.
#[derive(Debug)]
pub enum Fault {
    MintKeyPackage(String),
    CreateGroup(String),
    CreateDirectGroup,
    LoadGroup(String),
    Invite,
    Encrypt,
    EncryptMidTransfer,
    EncodeMessage,
    EncodeEnvelope,
    EncodeWelcome,
    Seal,
    Snapshot,
    SaveState(String),
    SaveStateAfterForget(String),
    SaveRoom(String),
    SaveMemberKem(String),
    RecordPeerGroup(String),
    ListRooms(String),
    ListPinned(String),
    ListReceivedFiles(String),
    RoomHistory(String),
    RenameRoom(String),
    ForgetGroup(String),
    ForgetMemberKems(String),
    DeleteRoom(String),
}

/// What a failed call is answered with.
pub open spec fn fault_text(f: Fault) -> Seq<char> {
    match f {
        Fault::MintKeyPackage(e) => "mls: failed to mint KeyPackage: "@ + e@,
        Fault::CreateGroup(e) => "create_group failed: "@ + e@,
        Fault::CreateDirectGroup => "create_group failed"@,
        Fault::LoadGroup(e) => "load_group: "@ + e@,
        Fault::Invite => "invite failed"@,
        Fault::Encrypt => "encrypt_application failed"@,
        Fault::EncryptMidTransfer => "encrypt_application failed mid-transfer"@,
        Fault::EncodeMessage => "RoomAppMessage CBOR encode failed"@,
        Fault::EncodeEnvelope => "encoding BootstrapPayload failed"@,
        Fault::EncodeWelcome => "encoding mls/v1 BootstrapPayload failed"@,
        Fault::Seal => "seal_bootstrap failed"@,
        Fault::Snapshot => "snapshot_state failed"@,
        Fault::SaveState(e) => "save_mls_state: "@ + e@,
        Fault::SaveStateAfterForget(e) => "save_mls_state after forget_group: "@ + e@,
        Fault::SaveRoom(e) => "save_room: "@ + e@,
        Fault::SaveMemberKem(e) => "save_room_member_kem: "@ + e@,
        Fault::RecordPeerGroup(e) => "record_peer_group: "@ + e@,
        Fault::ListRooms(e) => "list_rooms: "@ + e@,
        Fault::ListPinned(e) => "list_pinned: "@ + e@,
        Fault::ListReceivedFiles(e) => "list_received_files: "@ + e@,
        Fault::RoomHistory(e) => "room_history: "@ + e@,
        Fault::RenameRoom(e) => "rename_room: "@ + e@,
        Fault::ForgetGroup(e) => "forget_group: "@ + e@,
        Fault::ForgetMemberKems(e) => "forget_room_member_kems: "@ + e@,
        Fault::DeleteRoom(e) => "delete_room: "@ + e@,
    }
}

impl Fault {
    /// What a failed call is answered with: always an internal error.
    pub fn error(&self) -> (r: ApiError)
        ensures
            r@ == (ApiErrorCode::Internal, fault_text(*self)),
    {
        let message = match self {
            Fault::MintKeyPackage(e) => join2("mls: failed to mint KeyPackage: ", e.as_str()),
            Fault::CreateGroup(e) => join2("create_group failed: ", e.as_str()),
            Fault::CreateDirectGroup => "create_group failed".to_owned(),
            Fault::LoadGroup(e) => join2("load_group: ", e.as_str()),
            Fault::Invite => "invite failed".to_owned(),
            Fault::Encrypt => "encrypt_application failed".to_owned(),
            Fault::EncryptMidTransfer => "encrypt_application failed mid-transfer".to_owned(),
            Fault::EncodeMessage => "RoomAppMessage CBOR encode failed".to_owned(),
            Fault::EncodeEnvelope => "encoding BootstrapPayload failed".to_owned(),
            Fault::EncodeWelcome => "encoding mls/v1 BootstrapPayload failed".to_owned(),
            Fault::Seal => "seal_bootstrap failed".to_owned(),
            Fault::Snapshot => "snapshot_state failed".to_owned(),
            Fault::SaveState(e) => join2("save_mls_state: ", e.as_str()),
            Fault::SaveStateAfterForget(e) => join2(
                "save_mls_state after forget_group: ",
                e.as_str(),
            ),
            Fault::SaveRoom(e) => join2("save_room: ", e.as_str()),
            Fault::SaveMemberKem(e) => join2("save_room_member_kem: ", e.as_str()),
            Fault::RecordPeerGroup(e) => join2("record_peer_group: ", e.as_str()),
            Fault::ListRooms(e) => join2("list_rooms: ", e.as_str()),
            Fault::ListPinned(e) => join2("list_pinned: ", e.as_str()),
            Fault::ListReceivedFiles(e) => join2("list_received_files: ", e.as_str()),
            Fault::RoomHistory(e) => join2("room_history: ", e.as_str()),
            Fault::RenameRoom(e) => join2("rename_room: ", e.as_str()),
            Fault::ForgetGroup(e) => join2("forget_group: ", e.as_str()),
            Fault::ForgetMemberKems(e) => join2("forget_room_member_kems: ", e.as_str()),
            Fault::DeleteRoom(e) => join2("delete_room: ", e.as_str()),
        };
        ApiError { code: ApiErrorCode::Internal, message }
    }
}

/// The reason that a failed call gives.
pub open spec fn reason_of(f: Fault) -> Option<Seq<char>> {
    match f {
        Fault::MintKeyPackage(e) | Fault::CreateGroup(e) | Fault::LoadGroup(e)
        | Fault::SaveState(e) | Fault::SaveStateAfterForget(e) | Fault::SaveRoom(e)
        | Fault::SaveMemberKem(e) | Fault::RecordPeerGroup(e) | Fault::ListRooms(e)
        | Fault::ListPinned(e) | Fault::ListReceivedFiles(e) | Fault::RoomHistory(e)
        | Fault::RenameRoom(e) | Fault::ForgetGroup(e) | Fault::ForgetMemberKems(e)
        | Fault::DeleteRoom(e) => Some(e@),
        _ => None,
    }
}

/// The reason of a failed call is told at the end of its text, as it was given.
pub proof fn law_reasons_are_told(f: Fault)
    requires
        reason_of(f) is Some,
    ensures
        fault_text(f).len() >= reason_of(f)->0.len(),
        fault_text(f).skip(fault_text(f).len() - reason_of(f)->0.len()) == reason_of(f)->0,
{
    let t = fault_text(f);
    let e = reason_of(f)->0;
    assert(t.skip(t.len() - e.len()) =~= e);
}

} // verus!
