//! Complete transfers: checks on the whole file, and where it goes.
use vstd::prelude::*;

use crate::bytes::append_bytes;
use crate::codec::{blake2b_256, blake2b_32, is_b32_digit};
use crate::files::names::{
    is_conversation_key, is_executable, is_executable_mime, is_safe, is_valid_conversation_key,
    join_path, joined_path, law_conversation_keys, law_paths_are_joined,
    law_sanitized_name_is_safe, sanitize_filename, sanitized_name,
};
use crate::files::sanitize::{sniff_app, sniff_mime, sniffed_mime, sniffs_as_app};
use crate::files::send::assembled;
use crate::files::transfer::{
    accept_file_chunk, after_chunk, bounded, chunk_verdict, find_transfer, is_program,
    lemma_programs, reaped, with_chunk, ChunkOutcome, ChunkVerdict, FileModel, FilesConfig, InflightFile, InflightTable, TransferModel,
};
use crate::list_map::same_bytes;
use crate::text::{first_position, join3, lemma_first_position};

verus! {

broadcast use vstd::std_specs::hash::group_hash_axioms;

/// Why a complete transfer is thrown away.
#[derive(Debug, Clone, Copy, PartialEq, Eq, Structural)]
pub enum FinalizeReject {
    /// A chunk is missing after all.
    MissingChunk(u32),
    /// The file does not have the announced size.
    SizeMismatch,
    /// The file does not have the announced digest.
    HashMismatch,
    /// The file can be run, whatever it was announced as.
    Executable,
    /// The conversation's key cannot be part of a path.
    BadConversation,
}

/// Where a received file goes, and what is recorded of it.
#[derive(Debug)]
pub struct StoragePlan {
    /// The key of the conversation.
    pub conversation: String,
    /// The type that the sender announced.
    pub mime: String,
    /// The directory of the conversation.
    pub dir: String,
    /// The file's path.
    pub path: String,
    /// The file's name, made safe.
    pub name: String,
    /// The file's digest.
    pub hash: [u8; 32],
    /// The file itself.
    pub bytes: Vec<u8>,
}

/// The first index below `n`, from `from` on, that has no chunk.
pub open spec fn first_missing(parts: Map<u32, Seq<u8>>, from: int, n: int) -> Option<u32>
    decreases n - from,
{
    if from < 0 || from >= n {
        None
    } else if !parts.dom().contains(from as u32) {
        Some(from as u32)
    } else {
        first_missing(parts, from + 1, n)
    }
}

/// What is wrong with a whole file, if anything: the first thing counts.
pub open spec fn fault_of(
    size: u64,
    claimed_hash: Seq<u8>,
    conversation: Seq<char>,
    bytes: Seq<u8>,
    hash: Seq<u8>,
    sniffed: Option<Seq<char>>,
    app: bool,
) -> Option<FinalizeReject> {
    if bytes.len() != size {
        Some(FinalizeReject::SizeMismatch)
    } else if hash != claimed_hash {
        Some(FinalizeReject::HashMismatch)
    } else if sniffed is Some && (app || is_executable(sniffed->0)) {
        Some(FinalizeReject::Executable)
    } else if !is_conversation_key(conversation) {
        Some(FinalizeReject::BadConversation)
    } else {
        None
    }
}

/// The text of an optional string.
pub open spec fn opt_text(s: Option<String>) -> Option<Seq<char>> {
    match s {
        Some(t) => Some(t@),
        None => None,
    }
}

/// Check a whole file: its size and digest against the announcement, its content
/// against the types that are refused, and its conversation.
pub fn check_assembled(
    file: &InflightFile,
    bytes: &[u8],
    hash: &[u8; 32],
    sniffed: &Option<String>,
    app: bool,
) -> (r: Option<FinalizeReject>)
    ensures
        r == fault_of(
            file.size,
            file.content_hash@,
            file.conversation@,
            bytes@,
            hash@,
            opt_text(*sniffed),
            app,
        ),
{
    if bytes.len() as u64 != file.size {
        return Some(FinalizeReject::SizeMismatch);
    }
    if !same_bytes(hash.as_slice(), file.content_hash.as_slice()) {
        return Some(FinalizeReject::HashMismatch);
    }
    if let Some(mime) = sniffed {
        if app || is_executable_mime(mime.as_str()) {
            return Some(FinalizeReject::Executable);
        }
    }
    if !is_valid_conversation_key(file.conversation.as_str()) {
        return Some(FinalizeReject::BadConversation);
    }
    None
}

/// The character of a value below 16.
pub open spec fn hex_digit(v: int) -> char {
    if v < 10 {
        (v + '0' as int) as char
    } else {
        (v - 10 + 'a' as int) as char
    }
}

/// The first eight bytes of a digest in hexadecimal.
pub open spec fn hash_prefix(hash: Seq<u8>) -> Seq<char> {
    Seq::new(
        16,
        |i: int|
            hex_digit(
                if i % 2 == 0 {
                    hash[i / 2] as int / 16
                } else {
                    hash[i / 2] as int % 16
                },
            ),
    )
}

fn push_hex(out: &mut String, v: u8)
    requires
        v < 16,
    ensures
        final(out)@ == old(out)@.push(hex_digit(v as int)),
{
    if v < 10 {
        out.push((v + 48) as char);
    } else {
        out.push((v + 87) as char);
    }
}

fn prefix_text(hash: &[u8; 32]) -> (s: String)
    ensures
        s@ == hash_prefix(hash@),
{
    let mut out = String::new();
    let mut i: usize = 0;
    while i < 8
        invariant
            i <= 8,
            out@.len() == 2 * i,
            forall|j: int| 0 <= j < 2 * i ==> out@[j] == hash_prefix(hash@)[j],
        decreases 8 - i,
    {
        let b: u8 = hash[i];
        let ghost before = out@;
        push_hex(&mut out, b / 16);
        push_hex(&mut out, b % 16);
        proof {
            assert(out@.len() == before.len() + 2);
            assert forall|j: int| 0 <= j < 2 * (i + 1) implies out@[j] == hash_prefix(hash@)[j] by {
                if j < 2 * i {
                    assert(out@[j] == before[j]);
                } else if j == 2 * i {
                    assert(j / 2 == i && j % 2 == 0);
                } else {
                    assert(j / 2 == i && j % 2 == 1);
                }
            }
        }
        i += 1;
    }
    assert(out@ =~= hash_prefix(hash@));
    out
}

/// Put the chunks of a transfer together.
fn assemble(file: &InflightFile) -> (r: Result<Vec<u8>, FinalizeReject>)
    ensures
        match r {
            Ok(bytes) => first_missing(file@.received, 0, file.chunks as int) is None && bytes@
                == assembled(file@.received, file.chunks as nat),
            Err(e) => first_missing(file@.received, 0, file.chunks as int) is Some && e
                == FinalizeReject::MissingChunk(
                first_missing(file@.received, 0, file.chunks as int)->0,
            ),
        },
{
    let mut out: Vec<u8> = Vec::new();
    let mut i: u32 = 0;
    while i < file.chunks
        invariant
            i <= file.chunks,
            out@ == assembled(file@.received, i as nat),
            first_missing(file@.received, 0, file.chunks as int) == first_missing(
                file@.received,
                i as int,
                file.chunks as int,
            ),
        decreases file.chunks - i,
    {
        match file.received.get(&i) {
            None => {
                return Err(FinalizeReject::MissingChunk(i));
            },
            Some(part) => {
                append_bytes(&mut out, part.as_slice());
                proof {
                    assert(file@.received[i] == part@);
                }
            },
        }
        i += 1;
    }
    Ok(out)
}

/// What is wrong with a complete transfer, if anything.
pub open spec fn finalize_fault(f: FileModel) -> Option<FinalizeReject> {
    match first_missing(f.received, 0, f.chunks as int) {
        Some(i) => Some(FinalizeReject::MissingChunk(i)),
        None => {
            let bytes = assembled(f.received, f.chunks as nat);
            fault_of(
                f.size,
                f.content_hash,
                f.conversation,
                bytes,
                blake2b_32(bytes),
                sniffed_mime(bytes),
                sniffs_as_app(bytes),
            )
        },
    }
}

/// Finish a transfer: put the file together, check it, and say where it goes.
pub fn finalize_file(file: &InflightFile, cfg: &FilesConfig) -> (r: Result<
    StoragePlan,
    FinalizeReject,
>)
    ensures
        match r {
            Ok(plan) => {
                &&& finalize_fault(file@) is None
                &&& plan.bytes@ == assembled(file@.received, file.chunks as nat)
                &&& plan.hash@ == blake2b_32(plan.bytes@)
                &&& stored_at(plan, cfg.storage_dir@, file.conversation@, file.mime@, file.name@)
            },
            Err(e) => finalize_fault(file@) == Some(e),
        },
{
    let bytes = match assemble(file) {
        Err(e) => {
            return Err(e);
        },
        Ok(b) => b,
    };
    let hash = blake2b_256(bytes.as_slice());
    let sniffed = sniff_mime(bytes.as_slice());
    let app = sniff_app(bytes.as_slice());
    match check_assembled(file, bytes.as_slice(), &hash, &sniffed, app) {
        Some(e) => Err(e),
        None => Ok(
            plan_storage(
                cfg.storage_dir.as_str(),
                file.conversation.as_str(),
                file.mime.as_str(),
                file.name.as_str(),
                hash,
                bytes,
            ),
        ),
    }
}

/// The file stands under the storage directory, in the directory of its
/// conversation, under a name made of its digest and its own name made safe. The
/// conversation and the announced type are recorded as they are.
pub open spec fn stored_at(
    plan: StoragePlan,
    storage_dir: Seq<char>,
    conversation: Seq<char>,
    mime: Seq<char>,
    name: Seq<char>,
) -> bool {
    &&& plan.conversation@ == conversation
    &&& plan.mime@ == mime
    &&& plan.name@ == sanitized_name(name)
    &&& plan.dir@ == joined_path(storage_dir, conversation)
    &&& plan.path@ == joined_path(plan.dir@, hash_prefix(plan.hash@) + "-"@ + plan.name@)
}

/// Say where a checked file goes.
pub fn plan_storage(
    storage_dir: &str,
    conversation: &str,
    mime: &str,
    name: &str,
    hash: [u8; 32],
    bytes: Vec<u8>,
) -> (plan: StoragePlan)
    ensures
        plan.hash == hash,
        plan.bytes@ == bytes@,
        stored_at(plan, storage_dir@, conversation@, mime@, name@),
{
    let name = sanitize_filename(name);
    let dir = join_path(storage_dir, conversation);
    let filename = join3(prefix_text(&hash).as_str(), "-", name.as_str());
    let path = join_path(dir.as_str(), filename.as_str());
    StoragePlan {
        conversation: conversation.to_owned(),
        mime: mime.to_owned(),
        dir,
        path,
        name,
        hash,
        bytes,
    }
}

/// What became of a chunk, and of the file that it completed.
#[derive(Debug)]
pub enum FileStep {
    /// The chunk was not used.
    Dropped,
    /// The chunk had a wrong length; its transfer is given up.
    Aborted,
    /// The chunk was kept; more are to come.
    Buffered,
    /// The file is whole and checked; here is where it goes.
    Finished(StoragePlan),
    /// The file is whole and thrown away.
    Refused(FinalizeReject),
}

/// What becomes of a chunk, given the transfers under way without those that
/// have taken too long.
pub open spec fn is_file_step(
    step: FileStep,
    s: Seq<TransferModel>,
    storage_dir: Seq<char>,
    sender: Seq<char>,
    id: Seq<u8>,
    index: u32,
    bytes: Seq<u8>,
) -> bool {
    match chunk_verdict(s, sender, id, index, bytes) {
        ChunkVerdict::Dropped => step is Dropped,
        ChunkVerdict::Aborted => step is Aborted,
        ChunkVerdict::Buffered => step is Buffered,
        ChunkVerdict::Complete => {
            let f = with_chunk(s[find_transfer(s, sender, id)->0].file, index, bytes);
            match finalize_fault(f) {
                Some(e) => step == FileStep::Refused(e),
                None => {
                    &&& step is Finished
                    &&& step->Finished_0.bytes@ == assembled(f.received, f.chunks as nat)
                    &&& step->Finished_0.hash@ == blake2b_32(step->Finished_0.bytes@)
                    &&& stored_at(step->Finished_0, storage_dir, f.conversation, f.mime, f.name)
                },
            }
        },
    }
}

/// Take a chunk and, if it was the last one, finish its transfer.
pub fn receive_chunk(
    table: &mut InflightTable,
    cfg: &FilesConfig,
    sender_fp: &str,
    id: &[u8],
    index: u32,
    bytes: &[u8],
    now_ms: i64,
) -> (step: FileStep)
    requires
        bounded(old(table)@, cfg.max_inflight_total_bytes as nat),
    ensures
        bounded(final(table)@, cfg.max_inflight_total_bytes as nat),
        ({
            let s = reaped(old(table)@, now_ms, cfg.inflight_deadline_ms);
            &&& final(table)@ == after_chunk(s, sender_fp@, id@, index, bytes@)
            &&& is_file_step(step, s, cfg.storage_dir@, sender_fp@, id@, index, bytes@)
        }),
{
    match accept_file_chunk(table, cfg, sender_fp, id, index, bytes, now_ms) {
        ChunkOutcome::Dropped => FileStep::Dropped,
        ChunkOutcome::Aborted => FileStep::Aborted,
        ChunkOutcome::Buffered => FileStep::Buffered,
        ChunkOutcome::Complete(file) => match finalize_file(&file, cfg) {
            Ok(plan) => FileStep::Finished(plan),
            Err(e) => FileStep::Refused(e),
        },
    }
}

/// A transfer that carries what it announced passes: the file's own size and
/// digest, a known conversation, and no program.
pub proof fn law_honest_file_passes(f: FileModel)
    ensures
        ({
            let bytes = assembled(f.received, f.chunks as nat);
            let sniffed = sniffed_mime(bytes);
            &&& first_missing(f.received, 0, f.chunks as int) is None
            &&& bytes.len() == f.size
            &&& f.content_hash == blake2b_32(bytes)
            &&& sniffed is None || (!sniffs_as_app(bytes) && !is_executable(sniffed->0))
            &&& is_conversation_key(f.conversation)
        }) <==> finalize_fault(f) is None,
{
}

/// A received file never leaves the storage directory: below it stand only the
/// two parts of the conversation's key and a file name, and none of these is `.`
/// or `..` or holds a separator.
pub proof fn law_path_stays_inside(
    plan: StoragePlan,
    storage_dir: Seq<char>,
    conversation: Seq<char>,
    mime: Seq<char>,
    name: Seq<char>,
)
    requires
        stored_at(plan, storage_dir, conversation, mime, name),
        is_conversation_key(conversation),
    ensures
        plan.path@ == joined_path(
            joined_path(storage_dir, conversation),
            hash_prefix(plan.hash@) + "-"@ + plan.name@,
        ),
        !conversation.contains('.'),
        !(hash_prefix(plan.hash@) + "-"@ + plan.name@).contains('/'),
        !(hash_prefix(plan.hash@) + "-"@ + plan.name@).contains('\\'),
        (hash_prefix(plan.hash@) + "-"@ + plan.name@)[0] != '.',
{
    reveal_strlit("-");
    reveal_strlit("room");
    reveal_strlit("peer");
    law_sanitized_name_is_safe(name);
    lemma_first_position(conversation, '/', 0);
    let i = first_position(conversation, '/', 0)->0;
    if conversation.contains('.') {
        let k = choose|k: int| 0 <= k < conversation.len() && conversation[k] == '.';
        if k < i {
            let head = conversation.take(i);
            assert(head[k] == '.');
            assert(head.len() == 4);
            assert(head[0] != '.' && head[1] != '.' && head[2] != '.' && head[3] != '.');
        } else if k > i {
            assert(conversation.skip(i + 1)[k - i - 1] == '.');
            assert(is_b32_digit(conversation.skip(i + 1)[k - i - 1]));
        }
    }
    let h = hash_prefix(plan.hash@);
    let file = h + "-"@ + plan.name@;
    assert forall|k: int| 0 <= k < file.len() implies file[k] != '/' && file[k] != '\\' by {
        if k < 16 {
            lemma_hex(plan.hash@, k);
            assert(file[k] == h[k]);
        } else if k > 16 {
            assert(file[k] == plan.name@[k - 17]);
            assert(sanitized_name(name)[k - 17] == file[k]);
            assert(is_safe(sanitized_name(name)[k - 17]));
        }
    }
    lemma_hex(plan.hash@, 0);
    assert(file[0] == h[0]);
}

proof fn lemma_hex(hash: Seq<u8>, k: int)
    requires
        hash.len() == 32,
        0 <= k < 16,
    ensures
        ({
            let c = hash_prefix(hash)[k];
            '0' <= c <= '9' || 'a' <= c <= 'f'
        }),
{
    let v = if k % 2 == 0 {
        hash[k / 2] as int / 16
    } else {
        hash[k / 2] as int % 16
    };
    assert(0 <= v < 16);
    assert(hash_prefix(hash)[k] == hex_digit(v));
}

/// A whole file is kept exactly if it has the announced size and digest, is no program by
/// its content, and belongs to a conversation; the first that is not so is the reason.
pub proof fn law_file_is_checked(
    size: u64,
    claimed_hash: Seq<u8>,
    conversation: Seq<char>,
    bytes: Seq<u8>,
    hash: Seq<u8>,
    sniffed: Option<Seq<char>>,
    app: bool,
)
    ensures
        ({
            let fault = fault_of(size, claimed_hash, conversation, bytes, hash, sniffed, app);
            let program = sniffed is Some && (app || is_program(sniffed->0));
            &&& fault is None <==> bytes.len() == size && hash == claimed_hash && !program
                && is_conversation_key(conversation)
            &&& fault == Some(FinalizeReject::SizeMismatch) <==> bytes.len() != size
            &&& fault == Some(FinalizeReject::HashMismatch) <==> bytes.len() == size && hash
                != claimed_hash
            &&& fault == Some(FinalizeReject::Executable) <==> bytes.len() == size && hash
                == claimed_hash && program
        }),
{
    if sniffed is Some {
        lemma_programs(sniffed->0);
    }
}

/// A piece that is missing is found, and the first of them is named.
pub proof fn law_missing_piece(parts: Map<u32, Seq<u8>>, from: int, n: int)
    requires
        0 <= from,
        n <= u32::MAX,
    ensures
        match first_missing(parts, from, n) {
            Some(i) => from <= i < n && !parts.dom().contains(i) && forall|j: int|
                from <= j < i ==> #[trigger] parts.dom().contains(j as u32),
            None => forall|j: int| from <= j < n ==> #[trigger] parts.dom().contains(j as u32),
        },
    decreases n - from,
{
    if from < n && parts.dom().contains(from as u32) {
        law_missing_piece(parts, from + 1, n);
    }
}

/// The last piece of a file completes it: what is then kept is all pieces in their order,
/// with the digest and the size that were announced, and none of it is a program.
pub proof fn law_finished_file(
    step: FileStep,
    s: Seq<TransferModel>,
    storage_dir: Seq<char>,
    sender: Seq<char>,
    id: Seq<u8>,
    index: u32,
    bytes: Seq<u8>,
)
    requires
        is_file_step(step, s, storage_dir, sender, id, index, bytes),
        step is Finished,
    ensures
        ({
            let plan = step->Finished_0;
            let f = with_chunk(s[find_transfer(s, sender, id)->0].file, index, bytes);
            &&& find_transfer(s, sender, id) is Some
            &&& plan.bytes@ == assembled(f.received, f.chunks as nat)
            &&& plan.bytes@.len() == f.size
            &&& plan.hash@ == f.content_hash
            &&& f.content_hash == blake2b_32(plan.bytes@)
            &&& plan.conversation@ == f.conversation
            &&& plan.mime@ == f.mime
            &&& sniffed_mime(plan.bytes@) is Some ==> !sniffs_as_app(plan.bytes@) && !is_program(
                sniffed_mime(plan.bytes@)->0,
            )
        }),
{
    let f = with_chunk(s[find_transfer(s, sender, id)->0].file, index, bytes);
    let all = assembled(f.received, f.chunks as nat);
    law_file_is_checked(
        f.size,
        f.content_hash,
        f.conversation,
        all,
        blake2b_32(all),
        sniffed_mime(all),
        sniffs_as_app(all),
    );
}

/// Pieces are put one behind the other.
pub proof fn law_pieces_are_put_in_order(parts: Map<u32, Seq<u8>>, n: nat)
    requires
        n < u32::MAX,
    ensures
        assembled(parts, 0) == Seq::<u8>::empty(),
        assembled(parts, n + 1) == assembled(parts, n) + parts[n as u32],
{
}

/// Where a received file goes: below the storage directory, in the directory of its
/// conversation, under the beginning of its digest and its own name made safe.
pub proof fn law_place_of_a_file(
    plan: StoragePlan,
    storage_dir: Seq<char>,
    conversation: Seq<char>,
    mime: Seq<char>,
    name: Seq<char>,
)
    requires
        stored_at(plan, storage_dir, conversation, mime, name),
        storage_dir.len() > 0,
        storage_dir.last() != '/',
        is_conversation_key(conversation),
    ensures
        plan.dir@ == storage_dir.push('/') + conversation,
        plan.path@ == plan.dir@.push('/') + hash_prefix(plan.hash@).push('-') + sanitized_name(name),
        plan.name@ == sanitized_name(name),
        plan.mime@ == mime,
        plan.conversation@ == conversation,
{
    reveal_strlit("-");
    law_conversation_keys(conversation);
    law_paths_are_joined(storage_dir, conversation);
    assert(plan.dir@.last() == conversation.last());
    assert(conversation[conversation.len() - 1] == conversation.last());
    law_paths_are_joined(plan.dir@, hash_prefix(plan.hash@) + "-"@ + plan.name@);
    assert(hash_prefix(plan.hash@) + "-"@ =~= hash_prefix(plan.hash@).push('-'));
    assert(plan.dir@.push('/') + (hash_prefix(plan.hash@).push('-') + plan.name@)
        =~= plan.dir@.push('/') + hash_prefix(plan.hash@).push('-') + plan.name@);
}

/// Files whose digests begin alike in eight bytes, and only these, have the same beginning
/// of a name.
pub proof fn law_digest_in_names(a: Seq<u8>, b: Seq<u8>)
    requires
        a.len() >= 8,
        b.len() >= 8,
    ensures
        hash_prefix(a).len() == 16,
        hash_prefix(a) == hash_prefix(b) <==> a.take(8) == b.take(8),
{
    let x = hash_prefix(a);
    let y = hash_prefix(b);
    if x == y {
        assert forall|k: int| 0 <= k < 8 implies a.take(8)[k] == b.take(8)[k] by {
            assert(x[2 * k] == y[2 * k]);
            assert(x[2 * k + 1] == y[2 * k + 1]);
            lemma_hex_digits(a[k] as int / 16, b[k] as int / 16);
            lemma_hex_digits(a[k] as int % 16, b[k] as int % 16);
        }
        assert(a.take(8) =~= b.take(8));
    }
    if a.take(8) == b.take(8) {
        assert forall|i: int| 0 <= i < 16 implies x[i] == y[i] by {
            assert(a.take(8)[i / 2] == b.take(8)[i / 2]);
        }
        assert(x =~= y);
    }
}

proof fn lemma_hex_digits(v: int, w: int)
    requires
        0 <= v < 16,
        0 <= w < 16,
        hex_digit(v) == hex_digit(w),
    ensures
        v == w,
{
}

} // verus!
