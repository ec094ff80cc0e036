//! Files: to a room, to a peer, and those that came in.
use vstd::prelude::*;

use crate::api::error::{malformed, not_ready, ApiError, ApiErrorCode};
use crate::api::messages::is_live_peer;
use crate::api::rooms::{clamped_count, to_count, to_unsigned_ms, unsigned_ms};
use crate::channel::Record;
use crate::codec::{
    b32_decoded, b32_encoded, blake2b_256, blake2b_32, encodable, encode_b32, law_b32_round_trip,
};
use crate::conversations::{ConversationHandle, ConversationRegistry};
use crate::files::sanitize::{
    effective_mime, sanitize_bytes, sanitize_outcome, sniffed_mime, CleanedFile, CodecCall,
    SanitizeError, SanitizeOpts,
};
use crate::files::send::{
    announced_chunks, announces, assembled, carries, chunk_at, chunk_count, chunk_file_for_send,
    chunk_index, law_chunks_make_the_file, law_pieces_are_numbered, name_on_wire, wire_name,
};
use crate::files::transfer::FilesConfig;
use crate::room::RoomAppMessage;
use crate::text::{decimal, decimal_text, join2, join3};

verus! {

/// A file on its way out.
#[derive(Debug)]
pub struct FilePlan {
    /// What is sent: the announcement, then the chunks.
    pub messages: Vec<RoomAppMessage>,
    /// How many chunks there are.
    pub chunks: u32,
    pub size: u64,
    pub mime: String,
    pub stripped: bool,
    pub file_id_b32: String,
}

/// What is said of a file that is too large.
pub open spec fn too_large_text(size: nat, limit: nat) -> Seq<char> {
    "file size "@ + decimal(size) + (" exceeds max_send_size_bytes "@ + decimal(limit))
}

/// A plan carries a file: it announces it under the name for the wire and with
/// its own digest, and holds its chunks in order.
pub open spec fn carries_file(
    plan: FilePlan,
    file: CleanedFile,
    raw_name: Seq<char>,
    keep_filename: bool,
    file_id: Seq<u8>,
    chunk_size: u32,
) -> bool {
    let n = chunk_count(file.bytes@.len() as int, chunk_size as int);
    &&& plan.messages@.len() == n + 1
    &&& announces(
        plan.messages@[0],
        file_id,
        name_on_wire(raw_name, keep_filename),
        file.mime@,
        file.bytes@.len() as int,
        announced_chunks(file.bytes@.len() as int, chunk_size as int),
        chunk_size,
        blake2b_32(file.bytes@),
    )
    &&& forall|i: int|
        0 <= i < n ==> carries(
            #[trigger] plan.messages@[i + 1],
            file_id,
            chunk_index(i),
            chunk_at(file.bytes@, chunk_size as int, i),
        )
    &&& plan.chunks == clamped_count(n as nat)
    &&& plan.size == file.bytes@.len()
    &&& plan.mime@ == file.mime@
    &&& plan.stripped == file.stripped
    &&& plan.file_id_b32@ == b32_encoded(file_id)
}

/// What is planned for a file that was made ready, or why it is not sent.
pub open spec fn is_planned(
    r: Result<FilePlan, ApiError>,
    cleaned: Result<CleanedFile, SanitizeError>,
    raw_name: Seq<char>,
    keep_filename: bool,
    file_id: Seq<u8>,
    cfg: FilesConfig,
) -> bool {
    match cleaned {
        Err(why) => r matches Err(e) && e@ == (
            ApiErrorCode::Malformed,
            "sanitize_file: "@ + why.text(),
        ),
        Ok(file) => if file.bytes@.len() > cfg.max_send_size_bytes {
            r matches Err(e) && e@ == (
                ApiErrorCode::Malformed,
                too_large_text(file.bytes@.len(), cfg.max_send_size_bytes as nat),
            )
        } else {
            r matches Ok(plan) && carries_file(
                plan,
                file,
                raw_name,
                keep_filename,
                file_id,
                cfg.chunk_size_bytes,
            )
        },
    }
}

/// Plan to send a file that was made ready, or answer why it was not.
pub fn plan_cleaned(
    cleaned: Result<CleanedFile, SanitizeError>,
    raw_name: &str,
    keep_filename: bool,
    file_id: [u8; 16],
    cfg: &FilesConfig,
) -> (r: Result<FilePlan, ApiError>)
    requires
        cfg.chunk_size_bytes > 0,
    ensures
        is_planned(r, cleaned, raw_name@, keep_filename, file_id@, *cfg),
{
    let file = match cleaned {
        Err(why) => {
            return Err(malformed(join2("sanitize_file: ", why.message().as_str()).as_str()));
        },
        Ok(f) => f,
    };
    let n: usize = file.bytes.len();
    let size: u64 = n as u64;
    if size > cfg.max_send_size_bytes {
        let message = join3(
            "file size ",
            decimal_text(size).as_str(),
            join2(
                " exceeds max_send_size_bytes ",
                decimal_text(cfg.max_send_size_bytes).as_str(),
            ).as_str(),
        );
        return Err(malformed(message.as_str()));
    }
    let hash = blake2b_256(file.bytes.as_slice());
    let name = wire_name(raw_name, keep_filename);
    let messages = chunk_file_for_send(
        file_id,
        name.as_str(),
        file.mime.as_str(),
        file.bytes.as_slice(),
        cfg.chunk_size_bytes,
        &hash,
    );
    let count: usize = messages.len();
    Ok(
        FilePlan {
            messages,
            chunks: to_count(count - 1),
            size,
            mime: file.mime,
            stripped: file.stripped,
            file_id_b32: encode_b32(file_id.as_slice()),
        },
    )
}

/// Plan to send a file. `raw` is its content, or why it could not be read;
/// `raw_name` is its name without the directory. The record gets the calls of the
/// picture codec.
pub fn plan_file(
    calls: &mut Record<CodecCall>,
    raw: Result<Vec<u8>, String>,
    raw_name: &str,
    keep_filename: bool,
    keep_metadata: bool,
    file_id: [u8; 16],
    cfg: &FilesConfig,
) -> (r: Result<FilePlan, ApiError>)
    requires
        cfg.chunk_size_bytes > 0,
    ensures
        final(calls)@.take(old(calls)@.len() as int) == old(calls)@,
        match raw {
            Err(why) => final(calls)@ == old(calls)@ && (r matches Err(e) && e@ == (
                ApiErrorCode::Malformed,
                "sanitize_file: "@ + ("I/O error: "@ + why@),
            )),
            Ok(bytes) => exists|c: Result<CleanedFile, SanitizeError>|
                {
                    &&& #[trigger] sanitize_outcome(
                        bytes@,
                        keep_metadata,
                        effective_mime(sniffed_mime(bytes@)),
                        final(calls)@.skip(old(calls)@.len() as int),
                        c,
                    )
                    &&& is_planned(r, c, raw_name@, keep_filename, file_id@, *cfg)
                },
        },
{
    proof {
        assert(calls@.take(calls@.len() as int) =~= calls@);
    }
    match raw {
        Err(why) => plan_cleaned(
            Err(SanitizeError::IoError(why)),
            raw_name,
            keep_filename,
            file_id,
            cfg,
        ),
        Ok(bytes) => {
            let cleaned = sanitize_bytes(
                calls,
                bytes.as_slice(),
                SanitizeOpts { keep_metadata },
            );
            let ghost c = cleaned;
            let r = plan_cleaned(cleaned, raw_name, keep_filename, file_id, cfg);
            proof {
                assert(sanitize_outcome(
                    bytes@,
                    keep_metadata,
                    effective_mime(sniffed_mime(bytes@)),
                    calls@.skip(old(calls)@.len() as int),
                    c,
                ));
            }
            r
        },
    }
}

/// The peer to send a file to: it takes a session.
pub fn live_peer_for_file(registry: &ConversationRegistry, peer_short: &str) -> (r: Result<
    ConversationHandle,
    ApiError,
>)
    requires
        registry.wf(),
    ensures
        is_live_peer(
            r,
            registry@,
            peer_short@,
            "no live conversation with peer "@ + peer_short@ + " (DM files are direct-only)"@,
        ),
{
    match registry.handle_for_short(peer_short) {
        Some(h) => Ok(h),
        None => Err(
            not_ready(
                join3(
                    "no live conversation with peer ",
                    peer_short,
                    " (DM files are direct-only)",
                ).as_str(),
            ),
        ),
    }
}

/// What is said where a session ended before the whole file was taken.
pub fn cut_short(peer_short: &str) -> (e: ApiError)
    ensures
        e@ == (
            ApiErrorCode::NotReady,
            "peer "@ + peer_short@ + " disconnected mid-transfer"@,
        ),
{
    not_ready(join3("peer ", peer_short, " disconnected mid-transfer").as_str())
}

/// A received file as it is kept.
#[derive(Debug)]
pub struct ReceivedFileRow {
    pub sender_fp: String,
    pub name: String,
    pub mime: String,
    pub size: u64,
    pub content_hash: Vec<u8>,
    pub path: String,
    pub received_at_ms: i64,
}

/// A received file as clients are shown it.
#[derive(Debug)]
pub struct ReceivedFileInfo {
    pub sender_fp: String,
    pub name: String,
    pub mime: String,
    pub size: u64,
    pub content_hash_b32: String,
    pub path: String,
    pub received_at_ms: u64,
}

/// What clients are shown of a received file.
pub open spec fn is_received_info(i: ReceivedFileInfo, row: ReceivedFileRow) -> bool {
    &&& i.sender_fp@ == row.sender_fp@
    &&& i.name@ == row.name@
    &&& i.mime@ == row.mime@
    &&& i.size == row.size
    &&& i.content_hash_b32@ == b32_encoded(row.content_hash@)
    &&& i.path@ == row.path@
    &&& i.received_at_ms == unsigned_ms(row.received_at_ms)
}

/// The received files as clients are shown them.
pub fn list_received(rows: &Vec<ReceivedFileRow>) -> (v: Vec<ReceivedFileInfo>)
    requires
        forall|i: int|
            0 <= i < rows@.len() ==> encodable((#[trigger] rows@[i]).content_hash@.len()),
    ensures
        v@.len() == rows@.len(),
        forall|i: int| 0 <= i < v@.len() ==> is_received_info(#[trigger] v@[i], rows@[i]),
{
    let mut v: Vec<ReceivedFileInfo> = Vec::new();
    let mut i: usize = 0;
    while i < rows.len()
        invariant
            i <= rows@.len(),
            v@.len() == i,
            forall|j: int|
                0 <= j < rows@.len() ==> encodable((#[trigger] rows@[j]).content_hash@.len()),
            forall|j: int| 0 <= j < v@.len() ==> is_received_info(#[trigger] v@[j], rows@[j]),
        decreases rows@.len() - i,
    {
        let row = &rows[i];
        assert(encodable(rows@[i as int].content_hash@.len()));
        v.push(
            ReceivedFileInfo {
                sender_fp: row.sender_fp.clone(),
                name: row.name.clone(),
                mime: row.mime.clone(),
                size: row.size,
                content_hash_b32: encode_b32(row.content_hash.as_slice()),
                path: row.path.clone(),
                received_at_ms: to_unsigned_ms(row.received_at_ms),
            },
        );
        i += 1;
    }
    v
}

/// A file is sent exactly if it could be made ready and is no larger than files may be.
pub proof fn law_file_is_planned(
    r: Result<FilePlan, ApiError>,
    cleaned: Result<CleanedFile, SanitizeError>,
    raw_name: Seq<char>,
    keep_filename: bool,
    file_id: Seq<u8>,
    cfg: FilesConfig,
)
    requires
        is_planned(r, cleaned, raw_name, keep_filename, file_id, cfg),
    ensures
        r is Ok <==> (cleaned matches Ok(f) && f.bytes@.len() <= cfg.max_send_size_bytes),
        r matches Err(e) ==> e@.0 == ApiErrorCode::Malformed,
        r matches Ok(plan) ==> cleaned matches Ok(f) && plan.size == f.bytes@.len() && plan.mime@
            == f.mime@ && plan.stripped == f.stripped,
{
}

/// What goes out for a file is its announcement, with its size, type and digest, and then
/// its pieces, numbered from zero and in order; put together they are the file.
pub proof fn law_plan_carries_the_file(
    plan: FilePlan,
    file: CleanedFile,
    raw_name: Seq<char>,
    keep_filename: bool,
    file_id: Seq<u8>,
    chunk_size: u32,
    parts: Map<u32, Seq<u8>>,
)
    requires
        carries_file(plan, file, raw_name, keep_filename, file_id, chunk_size),
        chunk_size > 0,
        file.bytes@.len() > 0,
        plan.messages@.len() <= u32::MAX,
        forall|i: int|
            1 <= i < plan.messages@.len() ==> (#[trigger] plan.messages@[i] matches RoomAppMessage::FileChunk {
                index,
                bytes,
                ..
            } ==> parts[index] == bytes@),
    ensures
        plan.messages@[0] matches RoomAppMessage::FileMeta {
            id,
            name,
            mime,
            size,
            chunks,
            chunk_size: z,
            content_hash,
        } && id@ == file_id && name@ == name_on_wire(raw_name, keep_filename) && mime@ == file.mime@
            && size == file.bytes@.len() && chunks == plan.messages@.len() - 1 && z == chunk_size
            && content_hash@ == blake2b_32(file.bytes@),
        forall|i: int|
            1 <= i < plan.messages@.len() ==> (#[trigger] plan.messages@[i] matches RoomAppMessage::FileChunk {
                id,
                index,
                ..
            } && id@ == file_id && index == i - 1),
        assembled(parts, (plan.messages@.len() - 1) as nat) == file.bytes@,
        plan.chunks == plan.messages@.len() - 1,
        b32_decoded(plan.file_id_b32@) == Some(file_id),
{
    let n = chunk_count(file.bytes@.len() as int, chunk_size as int);
    law_pieces_are_numbered(file.bytes@.len() as int, chunk_size as int, 0);
    law_b32_round_trip(file_id);
    assert forall|i: int| 1 <= i < plan.messages@.len() implies (
    #[trigger] plan.messages@[i] matches RoomAppMessage::FileChunk { id, index, .. } && id@
        == file_id && index == i - 1) by {
        assert(carries(
            plan.messages@[(i - 1) + 1],
            file_id,
            chunk_index(i - 1),
            chunk_at(file.bytes@, chunk_size as int, i - 1),
        ));
    }
    assert forall|i: int| 0 <= i < n implies #[trigger] parts[i as u32] == chunk_at(
        file.bytes@,
        chunk_size as int,
        i,
    ) by {
        assert(carries(
            plan.messages@[i + 1],
            file_id,
            chunk_index(i),
            chunk_at(file.bytes@, chunk_size as int, i),
        ));
    }
    law_chunks_make_the_file(file.bytes@, chunk_size, parts);
}

/// What clients are shown of a received file is what was kept of it.
pub proof fn law_received_file_is_shown(i: ReceivedFileInfo, row: ReceivedFileRow)
    requires
        is_received_info(i, row),
    ensures
        i.sender_fp@ == row.sender_fp@,
        i.name@ == row.name@,
        i.mime@ == row.mime@,
        i.size == row.size,
        b32_decoded(i.content_hash_b32@) == Some(row.content_hash@),
        i.path@ == row.path@,
        row.received_at_ms >= 0 ==> i.received_at_ms == row.received_at_ms,
        row.received_at_ms < 0 ==> i.received_at_ms == 0,
{
    law_b32_round_trip(row.content_hash@);
}

} // verus!
