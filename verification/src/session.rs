//! What a session with a peer, or an envelope through a hub, makes of what
//! arrives.
//!
//! Decrypting and storing are done elsewhere. Here it is decided where a frame
//! goes, whom a message is put down to, and what becomes of it.
use vstd::prelude::*;

use crate::bytes::{be32_value, rows_of};
use crate::codec::{
    b32_encoded, encodable, encode_b32, short_id_of_group, short_id_of_peer_pub, short_label,
    to_array,
};
use crate::clock::stamp;
use crate::conversations::{
    registered, with_line, ConversationRegistry, EventModel, LineModel, MessageDirection,
    PeerOutbound,
};
use crate::files::names::{peer_key, room_key};
use crate::files::storage::{is_file_step, opt_text, receive_chunk, FileStep};
use crate::files::transfer::{
    accept_file_meta, after_chunk, after_meta, bounded, reaped, verdict_on, AcceptDecision,
    Announcement, FilesConfig, InflightTable,
};
use crate::list_map::same_bytes;
use crate::pending::{buffered, frames_for, PendingRoomFrames};
use crate::room::RoomAppMessage;
use crate::roster::{fingerprints, is_member, joined, members_b32, Member};
use crate::text::{decimal, decimal_text, has_prefix, join2, join3, same_text, starts_with};

verus! {

/// Whom a message is put down to where no identity is known: a label of the
/// session's key that cannot be taken for a fingerprint.
pub open spec fn placeholder(peer_pub: Seq<u8>) -> Seq<char> {
    "(peer/"@ + short_label(b32_encoded(peer_pub)) + ")"@
}

/// Whether this is such a label.
pub open spec fn is_placeholder(fingerprint: Seq<char>) -> bool {
    starts_with(fingerprint, "(peer/"@)
}

/// Make the label of a peer whose identity is not known.
pub fn placeholder_of(peer_pub: &[u8; 32]) -> (s: String)
    ensures
        s@ == placeholder(peer_pub@),
{
    join3("(peer/", short_id_of_peer_pub(peer_pub).as_str(), ")")
}

/// Whether a peer's key is to be compared with the one from first contact: only
/// where the peer's identity is known.
pub fn is_pinned(fingerprint: &str) -> (r: bool)
    ensures
        r == !is_placeholder(fingerprint@),
{
    !has_prefix(fingerprint, "(peer/")
}

/// A label in place of an identity is recognised as one, so a key is never pinned
/// to it.
pub proof fn law_placeholder_is_never_pinned(peer_pub: Seq<u8>)
    ensures
        is_placeholder(placeholder(peer_pub)),
{
    let s = placeholder(peer_pub);
    let p = "(peer/"@;
    assert(s.take(p.len() as int) =~= p);
}

/// A key of an identity, where there is one of the right length.
pub fn identity_key(raw: &Option<Vec<u8>>) -> (r: Option<[u8; 32]>)
    ensures
        match r {
            Some(k) => raw matches Some(v) && v@ == k@,
            None => raw is None || raw->0@.len() != 32,
        },
{
    match raw {
        Some(v) => if v.len() == 32 {
            Some(to_array::<32>(v.as_slice()))
        } else {
            None
        },
        None => None,
    }
}

/// The fingerprint of a session's peer: that of the other member's signing key,
/// or `fallback` where there is no such member or its key is none.
pub fn derive_peer_fingerprint(peer: &Option<Member>, fallback: &str) -> (s: String)
    ensures
        s@ == match *peer {
            Some(m) => if m.signing_key@.len() == 32 && m.fingerprint is Some {
                m.fingerprint->0@
            } else {
                fallback@
            },
            None => fallback@,
        },
{
    match peer {
        Some(m) => match &m.fingerprint {
            Some(fp) => if m.signing_key.len() == 32 {
                fp.clone()
            } else {
                fallback.to_owned()
            },
            None => fallback.to_owned(),
        },
        None => fallback.to_owned(),
    }
}

/// The fingerprint under which a session's peer is registered: that of the other
/// member's signing key, or a label of the session's key, which is recognised as
/// one, where there is no such member or its key is none.
pub fn session_fingerprint(peer: &Option<Member>, peer_pub: &[u8; 32]) -> (s: String)
    ensures
        s@ == match *peer {
            Some(m) => if m.signing_key@.len() == 32 && m.fingerprint is Some {
                m.fingerprint->0@
            } else {
                placeholder(peer_pub@)
            },
            None => placeholder(peer_pub@),
        },
{
    derive_peer_fingerprint(peer, placeholder_of(peer_pub).as_str())
}

/// Whom a message is put down to: the sender's fingerprint, or a label of the
/// session's key where that is not known.
pub fn attributed_to(fingerprint: Option<String>, peer_pub: &[u8; 32]) -> (s: String)
    ensures
        s@ == match fingerprint {
            Some(fp) => fp@,
            None => placeholder(peer_pub@),
        },
{
    match fingerprint {
        Some(fp) => fp,
        None => placeholder_of(peer_pub),
    }
}

/// Where a frame of a session goes.
#[derive(Debug, Clone, Copy, PartialEq, Eq, Structural)]
pub enum Route {
    /// It is not a message: it is ignored.
    Unexpected,
    /// Its group cannot be told: it is dropped.
    Unreadable,
    /// It belongs to the conversation with the peer.
    Direct,
    /// It belongs to a room.
    Room,
}

/// Where a frame goes.
pub open spec fn route_of(is_message: bool, group_id: Option<Seq<u8>>, dm_group: Seq<u8>) -> Route {
    if !is_message {
        Route::Unexpected
    } else {
        match group_id {
            None => Route::Unreadable,
            Some(g) => if g == dm_group {
                Route::Direct
            } else {
                Route::Room
            },
        }
    }
}

/// Decide where a frame goes. `group_id` is the group that it names, where it can
/// be told; `dm_group` is the group of the conversation with the peer.
pub fn route_frame(is_message: bool, group_id: &Option<Vec<u8>>, dm_group: &[u8]) -> (r: Route)
    ensures
        r == route_of(
            is_message,
            match *group_id {
                Some(g) => Some(g@),
                None => None,
            },
            dm_group@,
        ),
{
    if !is_message {
        return Route::Unexpected;
    }
    match group_id {
        None => Route::Unreadable,
        Some(g) => if same_bytes(g.as_slice(), dm_group) {
            Route::Direct
        } else {
            Route::Room
        },
    }
}

/// What a session does with a message that is to go out.
#[derive(Debug)]
pub enum OutboundStep {
    /// Encrypt it for the peer, then send it.
    Encrypt(RoomAppMessage),
    /// Send it as it is: it is encrypted for a room already.
    Forward(Vec<u8>),
}

/// What is done with a message that is to go out, and how it is logged.
pub open spec fn is_outbound_step(outbound: PeerOutbound, step: OutboundStep, log: Seq<char>) -> bool {
    match outbound {
        PeerOutbound::Dm(text) => (step matches OutboundStep::Encrypt(RoomAppMessage::Text {
            text: t,
        }) && t@ == text@) && log == text@,
        PeerOutbound::DmFrame(msg) => step == OutboundStep::Encrypt(msg) && log
            == "[dm file frame]"@,
        PeerOutbound::RoomFrame(ct) => step == OutboundStep::Forward(ct) && log
            == "[room ciphertext, "@ + decimal(ct@.len()) + " B]"@,
    }
}

/// Decide what to do with a message that is to go out, and how it is logged.
pub fn plan_outbound(outbound: PeerOutbound) -> (r: (OutboundStep, String))
    ensures
        is_outbound_step(outbound, r.0, r.1@),
{
    match outbound {
        PeerOutbound::Dm(text) => {
            let log = text.clone();
            (OutboundStep::Encrypt(RoomAppMessage::Text { text }), log)
        },
        PeerOutbound::DmFrame(msg) => (
            OutboundStep::Encrypt(msg),
            "[dm file frame]".to_owned(),
        ),
        PeerOutbound::RoomFrame(ct) => {
            let n: usize = ct.len();
            let log = join3("[room ciphertext, ", decimal_text(n as u64).as_str(), " B]");
            (OutboundStep::Forward(ct), log)
        },
    }
}

/// What became of a message.
#[derive(Debug)]
pub enum Received {
    /// Nothing.
    Ignored,
    /// A text for a conversation.
    Text(String),
    /// A file was announced.
    Announced(AcceptDecision),
    /// A piece of a file came.
    Chunk(FileStep),
    /// A member's key for envelopes, to be kept with the room.
    KeepKem {
        fingerprint: String,
        kem_pub: Vec<u8>,
    },
    /// A key in the name of another member: it is not kept.
    ForeignKem,
}

/// Decide about a message of a file transfer.
fn receive_file(
    table: &mut InflightTable,
    cfg: &FilesConfig,
    sender_fp: &str,
    conversation: &str,
    recent_bytes: u64,
    now_ms: i64,
    msg: RoomAppMessage,
) -> (r: Received)
    requires
        bounded(old(table)@, cfg.max_inflight_total_bytes as nat),
        msg is FileMeta || msg is FileChunk,
    ensures
        bounded(final(table)@, cfg.max_inflight_total_bytes as nat),
        file_received(
            r,
            final(table)@,
            reaped(old(table)@, now_ms, cfg.inflight_deadline_ms),
            *cfg,
            sender_fp@,
            conversation@,
            recent_bytes,
            now_ms,
            msg,
        ),
{
    match msg {
        RoomAppMessage::FileMeta { id, name, mime, size, chunks, chunk_size, content_hash } => {
            let decision = accept_file_meta(
                table,
                cfg,
                recent_bytes,
                sender_fp,
                conversation,
                id.as_slice(),
                name.as_str(),
                mime.as_str(),
                size,
                chunks,
                chunk_size,
                content_hash.as_slice(),
                now_ms,
            );
            Received::Announced(decision)
        },
        RoomAppMessage::FileChunk { id, index, bytes } => Received::Chunk(
            receive_chunk(table, cfg, sender_fp, id.as_slice(), index, bytes.as_slice(), now_ms),
        ),
        _ => Received::Ignored,
    }
}

/// What an announcement says.
pub open spec fn announcement_in(msg: RoomAppMessage) -> Announcement {
    Announcement {
        id: msg->FileMeta_id@,
        mime: msg->mime@,
        size: msg->size,
        chunks: msg->chunks,
        chunk_size: msg->chunk_size,
        content_hash: msg->content_hash@,
    }
}

/// What becomes of a message of a file transfer, given the transfers under way
/// (`s`, without those that have taken too long) and those after it (`after`).
pub open spec fn file_received(
    r: Received,
    after: Seq<crate::files::transfer::TransferModel>,
    s: Seq<crate::files::transfer::TransferModel>,
    cfg: FilesConfig,
    sender: Seq<char>,
    conversation: Seq<char>,
    recent_bytes: u64,
    now_ms: i64,
    msg: RoomAppMessage,
) -> bool {
    match msg {
        RoomAppMessage::FileMeta { id, name, mime, size, chunks, chunk_size, content_hash } => {
            let a = announcement_in(msg);
            let d = verdict_on(cfg, s, recent_bytes, sender, a);
            &&& r == Received::Announced(d)
            &&& after == after_meta(s, d, sender, conversation, name@, a, now_ms)
        },
        RoomAppMessage::FileChunk { id, index, bytes } => {
            &&& r is Chunk
            &&& is_file_step(r->Chunk_0, s, cfg.storage_dir@, sender, id@, index, bytes@)
            &&& after == after_chunk(s, sender, id@, index, bytes@)
        },
        _ => false,
    }
}

/// The registry after a text of a peer came over its session.
pub open spec fn with_heard_text(
    m: crate::conversations::RegistryModel,
    peer: [u8; 32],
    text: Seq<char>,
    ts_unix_ms: u64,
) -> crate::conversations::RegistryModel {
    if m.peers.dom().contains(peer) {
        with_line(
            m,
            peer,
            LineModel { direction: MessageDirection::Incoming, text, ts_unix_ms, via_hub: false },
        )
    } else {
        m
    }
}

/// Under which key the files of a peer are kept.
pub open spec fn dm_key(peer_pub: Seq<u8>) -> Seq<char> {
    peer_key(short_label(b32_encoded(peer_pub)))
}

/// Decide about a message of the conversation with a peer. A text goes into the
/// peer's ring; a room's message has no place here. `msg` is nothing where the
/// plaintext could not be read.
pub fn on_dm_message(
    registry: &mut ConversationRegistry,
    table: &mut InflightTable,
    cfg: &FilesConfig,
    peer_pub: &[u8; 32],
    sender_fp: &str,
    recent_bytes: u64,
    now_ms: i64,
    msg: Option<RoomAppMessage>,
) -> (r: Received)
    requires
        old(registry).wf(),
        bounded(old(table)@, cfg.max_inflight_total_bytes as nat),
    ensures
        final(registry).wf(),
        bounded(final(table)@, cfg.max_inflight_total_bytes as nat),
        !(msg matches Some(m) && (m is FileMeta || m is FileChunk)) ==> final(table)@ == old(
            table,
        )@,
        !(msg matches Some(m) && m is Text) ==> final(registry)@ == old(registry)@,
        match msg {
            None => r is Ignored,
            Some(RoomAppMessage::KemAdvertisement { .. }) => r is Ignored,
            Some(RoomAppMessage::Text { text }) => {
                &&& r matches Received::Text(t) && t@ == text@
                &&& final(registry).readings() == old(registry).readings().push(
                    final(registry).readings().last(),
                )
                &&& final(registry)@ == with_heard_text(
                    old(registry)@,
                    *peer_pub,
                    text@,
                    stamp(final(registry).readings().last()),
                )
            },
            Some(m) => file_received(
                r,
                final(table)@,
                reaped(old(table)@, now_ms, cfg.inflight_deadline_ms),
                *cfg,
                sender_fp@,
                dm_key(peer_pub@),
                recent_bytes,
                now_ms,
                m,
            ),
        },
{
    match msg {
        None => Received::Ignored,
        Some(RoomAppMessage::KemAdvertisement { .. }) => Received::Ignored,
        Some(RoomAppMessage::Text { text }) => {
            let line = text.clone();
            let _ = registry.push_message(peer_pub, MessageDirection::Incoming, text);
            Received::Text(line)
        },
        Some(m) => {
            let conversation = join2("peer/", short_id_of_peer_pub(peer_pub).as_str());
            receive_file(
                table,
                cfg,
                sender_fp,
                conversation.as_str(),
                recent_bytes,
                now_ms,
                m,
            )
        },
    }
}

/// What becomes of a room's message that is not about a file.
pub open spec fn room_received(r: Received, sender_fp: Seq<char>, msg: RoomAppMessage) -> bool {
    match msg {
        RoomAppMessage::KemAdvertisement { fingerprint, kem_pub } => if fingerprint@ == sender_fp {
            r matches Received::KeepKem { fingerprint: f, kem_pub: k } && f@ == sender_fp && k@
                == kem_pub@
        } else {
            r is ForeignKem
        },
        RoomAppMessage::Text { text } => r matches Received::Text(t) && t@ == text@,
        _ => false,
    }
}

/// Decide about a message of a room. A text is to be stored and then shown. A
/// member's key is kept only under the name of the member that sent it.
pub fn on_room_message(
    table: &mut InflightTable,
    cfg: &FilesConfig,
    group_id: &[u8],
    sender_fp: &str,
    recent_bytes: u64,
    now_ms: i64,
    msg: Option<RoomAppMessage>,
) -> (r: Received)
    requires
        encodable(group_id@.len()),
        bounded(old(table)@, cfg.max_inflight_total_bytes as nat),
    ensures
        bounded(final(table)@, cfg.max_inflight_total_bytes as nat),
        !(msg matches Some(m) && (m is FileMeta || m is FileChunk)) ==> final(table)@ == old(
            table,
        )@,
        match msg {
            None => r is Ignored,
            Some(m) => if m is KemAdvertisement || m is Text {
                room_received(r, sender_fp@, m)
            } else {
                file_received(
                    r,
                    final(table)@,
                    reaped(old(table)@, now_ms, cfg.inflight_deadline_ms),
                    *cfg,
                    sender_fp@,
                    room_key(group_id@),
                    recent_bytes,
                    now_ms,
                    m,
                )
            },
        },
{
    match msg {
        None => Received::Ignored,
        Some(RoomAppMessage::KemAdvertisement { fingerprint, kem_pub }) => if same_text(
            fingerprint.as_str(),
            sender_fp,
        ) {
            Received::KeepKem { fingerprint, kem_pub }
        } else {
            Received::ForeignKem
        },
        Some(RoomAppMessage::Text { text }) => Received::Text(text),
        Some(m) => {
            let conversation = join2("room/", short_id_of_group(group_id).as_str());
            receive_file(
                table,
                cfg,
                sender_fp,
                conversation.as_str(),
                recent_bytes,
                now_ms,
                m,
            )
        },
    }
}

/// What the group state made of a frame of a room.
#[derive(Debug, Clone, Copy, PartialEq, Eq, Structural)]
pub enum RoomFrame {
    /// There is no such group, or it could not be loaded.
    NoGroup,
    /// The frame could not be processed: it may have come before its commit.
    Failed,
    /// The frame was a commit, and is merged.
    Commit,
    /// The frame was a message.
    Message,
}

/// What to do about a frame of a room.
#[derive(Debug)]
pub enum RoomStep {
    /// Nothing.
    Drop,
    /// The frame was kept for later.
    Kept,
    /// Refresh the list of members and subscribe to the room's new routing id,
    /// then take these frames again, in this order.
    Merged(Vec<Vec<u8>>),
    /// Decide about the message.
    Deliver,
}

/// What is done about a frame of a room, and what waits before and after it. One that
/// failed waits where it may have come too early.
pub open spec fn is_room_step(
    step: RoomStep,
    before: Map<Seq<u8>, Seq<Seq<u8>>>,
    after: Map<Seq<u8>, Seq<Seq<u8>>>,
    group_id: Seq<u8>,
    payload: Seq<u8>,
    outcome: RoomFrame,
    may_be_early: bool,
) -> bool {
    match outcome {
        RoomFrame::NoGroup => step is Drop && after == before,
        RoomFrame::Message => step is Deliver && after == before,
        RoomFrame::Failed => if may_be_early {
            step is Kept && after == before.insert(
                group_id,
                buffered(frames_for(before, group_id), payload),
            )
        } else {
            step is Drop && after == before
        },
        RoomFrame::Commit => {
            &&& step matches RoomStep::Merged(frames) && rows_of(frames@) == frames_for(
                before,
                group_id,
            )
            &&& after == before.remove(group_id)
        },
    }
}

/// Decide what to do about a frame of a room.
pub fn on_room_frame(
    pending: &mut PendingRoomFrames,
    group_id: &[u8],
    payload: &[u8],
    outcome: RoomFrame,
) -> (step: RoomStep)
    requires
        old(pending).wf(),
    ensures
        final(pending).wf(),
        is_room_step(step, old(pending)@, final(pending)@, group_id@, payload@, outcome, true),
{
    match outcome {
        RoomFrame::NoGroup => RoomStep::Drop,
        RoomFrame::Message => RoomStep::Deliver,
        RoomFrame::Failed => {
            pending.buffer(group_id, payload);
            RoomStep::Kept
        },
        RoomFrame::Commit => RoomStep::Merged(pending.drain(group_id)),
    }
}

/// How many bytes say how long a row of bytes is, and how long it is: the upper two
/// bits of the first byte stand for the former, the rest for the latter.
pub open spec fn length_prefix(bytes: Seq<u8>, at: int) -> Option<(int, int)> {
    if at >= bytes.len() {
        None
    } else if bytes[at] < 0x40 {
        Some((1, bytes[at] as int))
    } else if bytes[at] < 0x80 && at + 2 <= bytes.len() {
        Some((2, (bytes[at] - 0x40) * 0x100 + bytes[at + 1]))
    } else if 0x80 <= bytes[at] < 0xC0 && at + 4 <= bytes.len() {
        Some(
            (
                4,
                (bytes[at] - 0x80) * 0x100_0000 + bytes[at + 1] * 0x1_0000 + bytes[at + 2] * 0x100
                    + bytes[at + 3],
            ),
        )
    } else {
        None
    }
}

/// The number that eight bytes stand for, the high byte first.
pub open spec fn be64_at(bytes: Seq<u8>, at: int) -> int {
    bytes[at] * 0x100_0000_0000_0000 + bytes[at + 1] * 0x1_0000_0000_0000 + bytes[at + 2]
        * 0x100_0000_0000 + bytes[at + 3] * 0x1_0000_0000 + bytes[at + 4] * 0x100_0000 + bytes[at
        + 5] * 0x1_0000 + bytes[at + 6] * 0x100 + bytes[at + 7]
}

/// The epoch of the group that a frame is meant for. A frame begins with two bytes
/// for its version and two for its kind; then come the id of its group, behind its
/// length, and eight bytes for the epoch.
pub open spec fn epoch_in(frame: Seq<u8>) -> Option<int> {
    match length_prefix(frame, 4) {
        Some((n, len)) => if 4 + n + len + 8 <= frame.len() {
            Some(be64_at(frame, 4 + n + len))
        } else {
            None
        },
        None => None,
    }
}

/// Read the epoch of the group that a frame is meant for.
pub fn frame_epoch(frame: &[u8]) -> (r: Option<u64>)
    ensures
        match r {
            Some(e) => epoch_in(frame@) == Some(e as int),
            None => epoch_in(frame@) is None,
        },
{
    let n: usize = frame.len();
    if n <= 4 {
        return None;
    }
    let b: u8 = frame[4];
    let (prefix, len): (usize, u64) = if b < 0x40 {
        (1, b as u64)
    } else if b < 0x80 && n >= 6 {
        (2, (b as u64 - 0x40) * 0x100 + frame[5] as u64)
    } else if b >= 0x80 && b < 0xC0 && n >= 8 {
        (
            4,
            (b as u64 - 0x80) * 0x100_0000 + frame[5] as u64 * 0x1_0000 + frame[6] as u64 * 0x100
                + frame[7] as u64,
        )
    } else {
        return None;
    };
    if len > n as u64 || (4 + prefix) as u64 + len + 8 > n as u64 {
        return None;
    }
    let at: usize = 4 + prefix + len as usize;
    Some(
        frame[at] as u64 * 0x100_0000_0000_0000 + frame[at + 1] as u64 * 0x1_0000_0000_0000
            + frame[at + 2] as u64 * 0x100_0000_0000 + frame[at + 3] as u64 * 0x1_0000_0000
            + frame[at + 4] as u64 * 0x100_0000 + frame[at + 5] as u64 * 0x1_0000
            + frame[at + 6] as u64 * 0x100 + frame[at + 7] as u64,
    )
}

/// The frame still waits for a commit: it is meant for a later epoch than the group
/// has now.
pub open spec fn still_early(frame: Seq<u8>, epoch: u64) -> bool {
    epoch_in(frame) matches Some(e) && e > epoch
}

/// Decide what to do about a frame that was taken again, when the group has this
/// epoch. One that still waits for a commit is kept for the next; one that fails for
/// any other reason is dropped.
pub fn on_retried_frame(
    pending: &mut PendingRoomFrames,
    group_id: &[u8],
    payload: &[u8],
    outcome: RoomFrame,
    epoch: u64,
) -> (step: RoomStep)
    requires
        old(pending).wf(),
    ensures
        final(pending).wf(),
        is_room_step(
            step,
            old(pending)@,
            final(pending)@,
            group_id@,
            payload@,
            outcome,
            still_early(payload@, epoch),
        ),
{
    if let RoomFrame::Failed = outcome {
        let early = match frame_epoch(payload) {
            Some(e) => e > epoch,
            None => false,
        };
        if !early {
            return RoomStep::Drop;
        }
    }
    on_room_frame(pending, group_id, payload, outcome)
}

/// A frame that came before its commit is taken again after it, and nothing waits
/// any more once the frames that waited were handed out.
pub proof fn law_early_frame_is_taken_again(
    m: Map<Seq<u8>, Seq<Seq<u8>>>,
    group_id: Seq<u8>,
    payload: Seq<u8>,
)
    ensures
        ({
            let kept = m.insert(group_id, buffered(frames_for(m, group_id), payload));
            &&& frames_for(kept, group_id).last() == payload
            &&& frames_for(kept.remove(group_id), group_id).len() == 0
        }),
{
}

/// Frames of other rooms stay where they are.
pub proof fn law_rooms_apart(
    m: Map<Seq<u8>, Seq<Seq<u8>>>,
    group_id: Seq<u8>,
    other: Seq<u8>,
    payload: Seq<u8>,
)
    requires
        group_id != other,
    ensures
        frames_for(
            m.insert(group_id, buffered(frames_for(m, group_id), payload)),
            other,
        ) == frames_for(m, other),
        frames_for(m.remove(group_id), other) == frames_for(m, other),
{
}

/// What to do about an invitation that came through a hub.
#[derive(Debug)]
pub enum WelcomeStep {
    /// It led into no group: it is dropped.
    Unreadable,
    /// Who sent it is no member of the group: the group is forgotten.
    Unsolicited,
    /// It is an invitation to a room: keep its row and the members' keys, then
    /// subscribe to the room's routing id.
    Room {
        name: String,
        members_b32: String,
    },
    /// It begins a conversation, with this text.
    Direct {
        text: String,
    },
}

/// What is done about an invitation.
pub open spec fn is_welcome_step(
    step: WelcomeStep,
    members: Option<Seq<Member>>,
    group_id: Seq<u8>,
    sender_fp: Seq<char>,
    first_message: Option<Seq<char>>,
    room_name: Option<Seq<char>>,
) -> bool {
    match members {
        None => step is Unreadable,
        Some(m) => if !fingerprints(m).contains(sender_fp) {
            step is Unsolicited
        } else {
            match room_name {
                Some(name) => step matches WelcomeStep::Room { name: n, members_b32: l } && n@
                    == name && l@ == joined(fingerprints(m), ','),
                None => step matches WelcomeStep::Direct { text } && text@ == first_line(
                    first_message,
                    group_id,
                ),
            }
        },
    }
}

/// Decide about an invitation. `members` are those of the group that it led into;
/// `sender_fp` is the fingerprint of the key that signed it.
pub fn on_welcome(
    members: &Option<Vec<Member>>,
    group_id: &[u8],
    sender_fp: &str,
    first_message: Option<String>,
    room_name: Option<String>,
) -> (step: WelcomeStep)
    requires
        encodable(group_id@.len()),
    ensures
        is_welcome_step(
            step,
            match *members {
                Some(m) => Some(m@),
                None => None,
            },
            group_id@,
            sender_fp@,
            opt_text(first_message),
            opt_text(room_name),
        ),
{
    match members {
        None => WelcomeStep::Unreadable,
        Some(m) => if !is_member(m, sender_fp) {
            WelcomeStep::Unsolicited
        } else {
            match room_name {
                Some(name) => WelcomeStep::Room { name, members_b32: members_b32(m) },
                None => match first_message {
                    Some(text) => WelcomeStep::Direct { text },
                    None => WelcomeStep::Direct {
                        text: join3(
                            "(joined MLS group ",
                            encode_b32(group_id).as_str(),
                            " via hub Welcome)",
                        ),
                    },
                },
            }
        },
    }
}

/// The text that begins a conversation: the inviter's own, or a note.
pub open spec fn first_line(first_message: Option<Seq<char>>, group_id: Seq<u8>) -> Seq<char> {
    match first_message {
        Some(t) => t,
        None => "(joined MLS group "@ + b32_encoded(group_id) + " via hub Welcome)"@,
    }
}

/// Put a text that came through a hub into the conversation with its sender. A
/// sender that is not known yet is registered without a session.
pub fn deliver_via_hub(
    registry: &mut ConversationRegistry,
    sender: [u8; 32],
    sender_fp: String,
    text: String,
)
    requires
        old(registry).wf(),
    ensures
        final(registry).wf(),
        final(registry)@ == heard_via_hub(
            old(registry)@,
            sender,
            sender_fp@,
            text@,
            final(registry)@.peers[sender].outbound_tx,
            stamp(final(registry).readings()[old(registry).readings().len() as int]),
            stamp(final(registry).readings().last()),
        ),
        final(registry).readings().take(old(registry).readings().len() as int) == old(
            registry,
        ).readings(),
        final(registry).readings().len() == old(registry).readings().len() + if old(
            registry,
        )@.peers.dom().contains(sender) {
            1int
        } else {
            2int
        },
        old(registry)@.peers.dom().contains(sender) ==> final(registry).mailboxes() == old(
            registry,
        ).mailboxes(),
        !old(registry)@.peers.dom().contains(sender) ==> {
            &&& final(registry).mailboxes().len() == old(registry).mailboxes().len() + 1
            &&& final(registry).mailboxes().drop_last() == old(registry).mailboxes()
            &&& final(registry).mailboxes().last().tx == final(registry)@.peers[sender].outbound_tx
        },
{
    let ghost before = registry@;
    let ghost read = registry.readings();
    let ghost fp = sender_fp@;
    let ghost t = text@;
    let pub_b32 = encode_b32(sender.as_slice());
    let handle = registry.register_hub_only(sender, pub_b32.as_str(), sender_fp);
    let ghost mid = registry@;
    let _ = registry.push_message_via_hub(&sender, MessageDirection::Incoming, text);
    proof {
        assert(mid.peers.dom().contains(sender));
        assert(registry@.peers[sender].outbound_tx == handle.outbound_tx);
        assert(registry.readings().take(read.len() as int) =~= read);
        assert(registry@ == heard_via_hub(
            before,
            sender,
            fp,
            t,
            handle.outbound_tx,
            stamp(registry.readings()[read.len() as int]),
            stamp(registry.readings().last()),
        ));
    }
}

/// The registry after a text came through a hub.
pub open spec fn heard_via_hub(
    m: crate::conversations::RegistryModel,
    sender: [u8; 32],
    sender_fp: Seq<char>,
    text: Seq<char>,
    tx: tokio::sync::mpsc::Sender<PeerOutbound>,
    since: u64,
    ts: u64,
) -> crate::conversations::RegistryModel {
    let known = if m.peers.dom().contains(sender) {
        m
    } else {
        registered(m, sender, b32_encoded(sender@), sender_fp, tx, false, since)
    };
    with_line(
        known,
        sender,
        LineModel {
            direction: MessageDirection::Incoming,
            text,
            ts_unix_ms: ts,
            via_hub: true,
        },
    )
}

/// A text that came through a hub is the latest line of the conversation with its
/// sender, is marked as such, and the clients that listen are told of it; nobody
/// else's conversation changes.
pub proof fn law_hub_text_is_heard(
    m: crate::conversations::RegistryModel,
    sender: [u8; 32],
    sender_fp: Seq<char>,
    text: Seq<char>,
    tx: tokio::sync::mpsc::Sender<PeerOutbound>,
    since: u64,
    ts: u64,
    other: [u8; 32],
)
    ensures
        ({
            let after = heard_via_hub(m, sender, sender_fp, text, tx, since, ts);
            &&& after.peers.dom().contains(sender)
            &&& after.peers[sender].ring.last().text == text
            &&& after.peers[sender].ring.last().via_hub
            &&& after.told.last() matches EventModel::Message(_, line) && line.text == text
            &&& other != sender && m.peers.dom().contains(other) ==> after.peers.dom().contains(
                other,
            ) && after.peers[other] == m.peers[other]
        }),
{
}

/// Whoever is found among the fingerprints of a group is a member of it, so only
/// a member's invitation is followed.
pub proof fn law_inviter_is_member(members: Seq<Member>, sender_fp: Seq<char>)
    ensures
        fingerprints(members).contains(sender_fp) ==> exists|i: int|
            0 <= i < members.len() && (#[trigger] members[i]).fingerprint is Some
                && members[i].fingerprint->0@ == sender_fp,
    decreases members.len(),
{
    if members.len() > 0 && fingerprints(members).contains(sender_fp) {
        let front = members.drop_last();
        law_inviter_is_member(front, sender_fp);
        let all = fingerprints(members);
        let k = choose|k: int| 0 <= k < all.len() && all[k] == sender_fp;
        if k < fingerprints(front).len() {
            assert(fingerprints(front)[k] == sender_fp);
            let i = choose|i: int|
                0 <= i < front.len() && (#[trigger] front[i]).fingerprint is Some
                    && front[i].fingerprint->0@ == sender_fp;
            assert(members[i] == front[i]);
        } else {
            assert(members[members.len() - 1] == members.last());
        }
    }
}

/// A frame of the peer's own group belongs to the conversation, one of any other group to
/// a room, and one that is no message or names no group to neither.
pub proof fn law_frames_are_routed(
    is_message: bool,
    group_id: Option<Seq<u8>>,
    dm_group: Seq<u8>,
)
    ensures
        route_of(is_message, group_id, dm_group) is Direct <==> is_message && group_id == Some(
            dm_group,
        ),
        route_of(is_message, group_id, dm_group) is Room <==> is_message && group_id is Some
            && group_id->0 != dm_group,
        route_of(is_message, group_id, dm_group) is Unexpected <==> !is_message,
{
}

/// What goes out to a peer in the clear is nothing: a text and a frame of a file are
/// encrypted as they are, and what a room sends is encrypted already.
pub proof fn law_outbound_is_encrypted(outbound: PeerOutbound, step: OutboundStep, log: Seq<char>)
    requires
        is_outbound_step(outbound, step, log),
    ensures
        step is Forward <==> outbound is RoomFrame,
        outbound matches PeerOutbound::RoomFrame(ct) ==> (step matches OutboundStep::Forward(f) && f@
            == ct@),
        outbound matches PeerOutbound::Dm(text) ==> (step matches OutboundStep::Encrypt(m) && (
        m matches RoomAppMessage::Text { text: t } && t@ == text@)),
        outbound matches PeerOutbound::DmFrame(msg) ==> step == OutboundStep::Encrypt(msg),
{
}

/// A text that came over a peer's session is the last of its messages, as an incoming one
/// that did not go through a hub.
pub proof fn law_heard_text_is_kept(
    m: crate::conversations::RegistryModel,
    peer: [u8; 32],
    text: Seq<char>,
    ts_unix_ms: u64,
)
    requires
        m.peers.dom().contains(peer),
    ensures
        ({
            let n = with_heard_text(m, peer, text, ts_unix_ms);
            let line = n.peers[peer].ring.last();
            &&& n.peers[peer].ring.len() > 0
            &&& line.direction == MessageDirection::Incoming
            &&& line.text == text
            &&& line.ts_unix_ms == ts_unix_ms
            &&& !line.via_hub
        }),
{
}

/// The files of a peer and those of a room are kept under keys that begin differently.
pub proof fn law_keys_of_files(peer_pub: Seq<u8>, group_id: Seq<u8>)
    ensures
        dm_key(peer_pub) == "peer/"@ + short_label(b32_encoded(peer_pub)),
        room_key(group_id) == "room/"@ + short_label(b32_encoded(group_id)),
        dm_key(peer_pub) != room_key(group_id),
{
    reveal_strlit("peer/");
    reveal_strlit("room/");
    assert(dm_key(peer_pub)[0] == 'p');
    assert(room_key(group_id)[0] == 'r');
}

/// A member's key is kept exactly if the member sends it in its own name, and then as it
/// was sent.
pub proof fn law_keys_in_own_name(r: Received, sender_fp: Seq<char>, name: String, key: Vec<u8>)
    requires
        room_received(
            r,
            sender_fp,
            RoomAppMessage::KemAdvertisement { fingerprint: name, kem_pub: key },
        ),
    ensures
        r is KeepKem <==> name@ == sender_fp,
        r matches Received::KeepKem { fingerprint, kem_pub } ==> fingerprint@ == sender_fp
            && kem_pub@ == key@,
        r is KeepKem || r is ForeignKem,
{
}

/// An announced file of a conversation is under way there exactly if it is accepted, and
/// what is answered is that decision; a piece leads to what becomes of it.
pub proof fn law_file_messages(
    r: Received,
    after: Seq<crate::files::transfer::TransferModel>,
    s: Seq<crate::files::transfer::TransferModel>,
    cfg: FilesConfig,
    sender: Seq<char>,
    conversation: Seq<char>,
    recent_bytes: u64,
    now_ms: i64,
    msg: RoomAppMessage,
)
    requires
        file_received(r, after, s, cfg, sender, conversation, recent_bytes, now_ms, msg),
    ensures
        msg is FileMeta ==> {
            &&& r matches Received::Announced(d)
            &&& d != AcceptDecision::Accepted ==> after == s
            &&& d == AcceptDecision::Accepted ==> {
                let t = after.last();
                &&& after.len() > 0
                &&& t.sender == sender
                &&& t.id == msg->FileMeta_id@
                &&& t.file.conversation == conversation
                &&& t.file.name == msg->name@
                &&& t.file.mime == msg->mime@
                &&& t.file.size == msg->size
                &&& t.file.chunks == msg->chunks
                &&& t.file.chunk_size == msg->chunk_size
                &&& t.file.content_hash == msg->content_hash@
            }
        },
        msg is FileChunk ==> r is Chunk,
        msg is FileMeta || msg is FileChunk,
{
}

/// A frame that failed and may have come too early waits behind those of its room; one
/// that cannot is dropped. A commit hands out all that waited for it, in order, and leaves
/// nothing; a message changes nothing.
pub proof fn law_frames_wait_for_commits(
    step: RoomStep,
    before: Map<Seq<u8>, Seq<Seq<u8>>>,
    after: Map<Seq<u8>, Seq<Seq<u8>>>,
    group_id: Seq<u8>,
    payload: Seq<u8>,
    outcome: RoomFrame,
    may_be_early: bool,
    other: Seq<u8>,
)
    requires
        is_room_step(step, before, after, group_id, payload, outcome, may_be_early),
        before.dom().contains(group_id),
        before[group_id].len() < 64,
        other != group_id,
    ensures
        step is Kept <==> outcome is Failed && may_be_early,
        step is Deliver <==> outcome is Message,
        step is Merged <==> outcome is Commit,
        step is Kept ==> after.dom().contains(group_id) && after[group_id] == before[group_id].push(
            payload,
        ),
        step is Drop || step is Deliver ==> after == before,
        step matches RoomStep::Merged(frames) ==> rows_of(frames@) == before[group_id]
            && !after.dom().contains(group_id),
        after.dom().contains(other) == before.dom().contains(other),
        before.dom().contains(other) ==> after[other] == before[other],
{
}

/// A frame is early exactly if the epoch that it names is later than the group's: for a
/// frame with a short group id that is the number in the eight bytes behind it.
pub proof fn law_early_frames(frame: Seq<u8>, epoch: u64)
    requires
        frame.len() > 5,
        frame[4] < 64,
        frame.len() >= 13 + frame[4],
    ensures
        still_early(frame, epoch) <==> be64_at(frame, 5 + frame[4]) > epoch,
        be64_at(frame, 5 + frame[4]) == frame[5 + frame[4]] * 0x100_0000_0000_0000 + be64_at(
            frame.update(5 + frame[4], 0),
            5 + frame[4],
        ),
{
}

/// A frame that is too short to name an epoch is never early.
pub proof fn law_short_frames_are_garbage(frame: Seq<u8>, epoch: u64)
    requires
        frame.len() < 13,
    ensures
        !still_early(frame, epoch),
{
}

/// An invitation is followed only if its sender is a member of the group that it leads
/// into. With a name it is one to a room, whose members are then those of the group;
/// without one it begins a conversation, with the text that came along.
pub proof fn law_invitations(
    step: WelcomeStep,
    members: Option<Seq<Member>>,
    group_id: Seq<u8>,
    sender_fp: Seq<char>,
    first_message: Option<Seq<char>>,
    room_name: Option<Seq<char>>,
)
    requires
        is_welcome_step(step, members, group_id, sender_fp, first_message, room_name),
    ensures
        step is Unreadable <==> members is None,
        step is Room || step is Direct <==> members is Some && fingerprints(members->0).contains(
            sender_fp,
        ),
        step is Room ==> room_name is Some,
        step is Direct ==> room_name is None,
        step matches WelcomeStep::Room { name, members_b32 } ==> name@ == room_name->0
            && members_b32@ == joined(fingerprints(members->0), ','),
        step matches WelcomeStep::Direct { text } ==> (first_message is Some ==> text@
            == first_message->0),
{
}

/// A text that came through a hub is an incoming one of its time. A sender that was not
/// known is known then, under its fingerprint and without a session; one that was keeps
/// its session and what it said before.
pub proof fn law_hub_text_of_strangers_and_friends(
    m: crate::conversations::RegistryModel,
    sender: [u8; 32],
    sender_fp: Seq<char>,
    text: Seq<char>,
    tx: tokio::sync::mpsc::Sender<PeerOutbound>,
    since: u64,
    ts: u64,
)
    requires
        crate::conversations::registry_wf(m),
    ensures
        ({
            let after = heard_via_hub(m, sender, sender_fp, text, tx, since, ts);
            let p = after.peers[sender];
            &&& p.ring.last().direction == MessageDirection::Incoming
            &&& p.ring.last().ts_unix_ms == ts
            &&& p.last_active == ts
            &&& !m.peers.dom().contains(sender) ==> p.fingerprint == sender_fp && !p.connected
                && p.pubkey_b32 == b32_encoded(sender@) && p.ring.len() == 1 && after.told.len()
                == m.told.len() + 2
            &&& m.peers.dom().contains(sender) ==> p.fingerprint == m.peers[sender].fingerprint
                && p.connected == m.peers[sender].connected && p.outbound_tx
                == m.peers[sender].outbound_tx && after.told.len() == m.told.len() + 1
            &&& m.peers.dom().contains(sender) && m.peers[sender].ring.len() < 200
                ==> p.ring.drop_last() == m.peers[sender].ring
        }),
{
    let after = heard_via_hub(m, sender, sender_fp, text, tx, since, ts);
    if m.peers.dom().contains(sender) && m.peers[sender].ring.len() < 200 {
        assert(after.peers[sender].ring.drop_last() =~= m.peers[sender].ring);
    }
}

/// A text over a session is told to the clients that listen, and changes no other peer's
/// conversation; a text of an unknown peer changes nothing.
pub proof fn law_heard_text_is_told(
    m: crate::conversations::RegistryModel,
    peer: [u8; 32],
    text: Seq<char>,
    ts_unix_ms: u64,
    other: [u8; 32],
)
    requires
        other != peer,
    ensures
        ({
            let n = with_heard_text(m, peer, text, ts_unix_ms);
            &&& !m.peers.dom().contains(peer) ==> n == m
            &&& m.peers.dom().contains(peer) ==> n.told.len() == m.told.len() + 1
            &&& m.peers.dom().contains(peer) ==> (n.told.last() matches EventModel::Message(who, line)
                && who == m.peers[peer].short_id && line.text == text)
            &&& m.peers.dom().contains(other) ==> n.peers.dom().contains(other) && n.peers[other]
                == m.peers[other]
        }),
{
}

/// A text in a room is handed on as it was sent.
pub proof fn law_room_text_is_handed_on(r: Received, sender_fp: Seq<char>, text: String)
    requires
        room_received(r, sender_fp, RoomAppMessage::Text { text }),
    ensures
        r is Text,
        r->Text_0@ == text@,
{
}

/// The first frame of a room that comes too early waits alone, and a commit for which none
/// waits hands out none.
pub proof fn law_first_early_frame(
    step: RoomStep,
    before: Map<Seq<u8>, Seq<Seq<u8>>>,
    after: Map<Seq<u8>, Seq<Seq<u8>>>,
    group_id: Seq<u8>,
    payload: Seq<u8>,
    outcome: RoomFrame,
    may_be_early: bool,
)
    requires
        is_room_step(step, before, after, group_id, payload, outcome, may_be_early),
        !before.dom().contains(group_id),
    ensures
        step is Kept <==> outcome is Failed && may_be_early,
        step is Kept ==> after.dom().contains(group_id) && after[group_id] == seq![payload],
        step matches RoomStep::Merged(frames) ==> frames@.len() == 0,
        step is Merged <==> outcome is Commit,
        step is Deliver <==> outcome is Message,
        step is Drop <==> outcome is NoGroup || outcome is Failed && !may_be_early,
{
    if step is Kept {
        assert(after[group_id] =~= seq![payload]);
    }
    if let RoomStep::Merged(frames) = step {
        assert(rows_of(frames@).len() == frames@.len());
    }
}

/// The epoch of a frame is the number in the eight bytes behind its group id, however many
/// bytes the length of the id takes; a frame whose length takes none of the known forms
/// names no epoch and is never early.
pub proof fn law_epoch_behind_any_id(frame: Seq<u8>, epoch: u64)
    requires
        frame.len() > 8,
    ensures
        64 <= frame[4] < 128 ==> {
            let at = 6 + (frame[4] - 64) * 256 + frame[5];
            &&& at + 8 <= frame.len() ==> (still_early(frame, epoch) <==> be32_value(
                frame.subrange(at, at + 4),
            ) * 0x1_0000_0000 + be32_value(frame.subrange(at + 4, at + 8)) > epoch)
            &&& at + 8 > frame.len() ==> !still_early(frame, epoch)
        },
        128 <= frame[4] < 192 ==> {
            let at = 8 + (be32_value(frame.subrange(4, 8)) - 0x8000_0000);
            &&& at + 8 <= frame.len() ==> (still_early(frame, epoch) <==> be32_value(
                frame.subrange(at, at + 4),
            ) * 0x1_0000_0000 + be32_value(frame.subrange(at + 4, at + 8)) > epoch)
            &&& at + 8 > frame.len() ==> !still_early(frame, epoch)
        },
        frame[4] < 64 ==> {
            let at = 5 + frame[4];
            &&& at + 8 <= frame.len() ==> (still_early(frame, epoch) <==> be32_value(
                frame.subrange(at, at + 4),
            ) * 0x1_0000_0000 + be32_value(frame.subrange(at + 4, at + 8)) > epoch)
            &&& at + 8 > frame.len() ==> !still_early(frame, epoch)
        },
        frame[4] >= 192 ==> !still_early(frame, epoch),
{
    if frame[4] < 64 {
        lemma_be64_halves(frame, 5 + frame[4]);
    } else if frame[4] < 128 {
        lemma_be64_halves(frame, 6 + (frame[4] - 64) * 256 + frame[5]);
    } else if frame[4] < 192 {
        let head = frame.subrange(4, 8);
        assert(head[0] == frame[4] && head[1] == frame[5] && head[2] == frame[6] && head[3]
            == frame[7]);
        lemma_be64_halves(frame, 8 + (be32_value(head) - 0x8000_0000));
    }
}

/// Eight bytes are two numbers of four.
proof fn lemma_be64_halves(bytes: Seq<u8>, at: int)
    ensures
        0 <= at && at + 8 <= bytes.len() ==> be64_at(bytes, at) == be32_value(
            bytes.subrange(at, at + 4),
        ) * 0x1_0000_0000 + be32_value(bytes.subrange(at + 4, at + 8)),
{
    if 0 <= at && at + 8 <= bytes.len() {
        let a = bytes.subrange(at, at + 4);
        let b = bytes.subrange(at + 4, at + 8);
        assert(a[0] == bytes[at] && a[1] == bytes[at + 1] && a[2] == bytes[at + 2] && a[3]
            == bytes[at + 3]);
        assert(b[0] == bytes[at + 4] && b[1] == bytes[at + 5] && b[2] == bytes[at + 6] && b[3]
            == bytes[at + 7]);
    }
}

/// A key that is written out is no label in place of an identity, so it is pinned.
pub proof fn law_keys_are_pinned(key: Seq<u8>)
    requires
        key.len() > 0,
    ensures
        !is_placeholder(b32_encoded(key)),
{
    reveal_strlit("(peer/");
    let s = b32_encoded(key);
    crate::codec::lemma_b32_digits(key);
    if is_placeholder(s) {
        assert(s.take(6)[0] == s[0]);
        assert(crate::codec::is_b32_digit(s[0]));
    }
}

/// A piece of a file counts for the file that its sender announced under its id, with its
/// number and its content, and for no other.
pub proof fn law_pieces_of_a_sender(
    r: Received,
    after: Seq<crate::files::transfer::TransferModel>,
    s: Seq<crate::files::transfer::TransferModel>,
    cfg: FilesConfig,
    sender: Seq<char>,
    conversation: Seq<char>,
    recent_bytes: u64,
    now_ms: i64,
    id: Vec<u8>,
    index: u32,
    bytes: Vec<u8>,
)
    requires
        file_received(
            r,
            after,
            s,
            cfg,
            sender,
            conversation,
            recent_bytes,
            now_ms,
            RoomAppMessage::FileChunk { id, index, bytes },
        ),
    ensures
        r is Chunk,
        is_file_step(r->Chunk_0, s, cfg.storage_dir@, sender, id@, index, bytes@),
        after == after_chunk(s, sender, id@, index, bytes@),
{
}

} // verus!
