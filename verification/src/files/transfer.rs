//! Incoming transfers: which are accepted, and how their chunks are collected.
//!
//! A sender announces a file and then sends its chunks in any order. What may
//! pile up is bounded: the size of a file, the number of transfers of a sender,
//! the bytes announced by all senders together, and the time a transfer may take.
use vstd::prelude::*;

use std::collections::HashMap;

use crate::bytes::copy_bytes;
use crate::codec::to_array;
use crate::files::names::{is_executable, is_executable_mime, join_path, joined_path};
use crate::list_map::same_bytes;
use crate::text::same_text;

verus! {

broadcast use vstd::std_specs::hash::group_hash_axioms;

/// How many transfers of one sender may be under way.
pub const FILES_MAX_INFLIGHT_PER_PEER: usize = 10;

/// The time over which the quota of a sender counts: a day, in milliseconds.
pub const QUOTA_WINDOW_MS: i64 = 86_400_000;

/// Limits on file transfers.
#[derive(Debug, Clone, PartialEq, Eq)]
pub struct FilesConfig {
    /// The largest file that is sent.
    pub max_send_size_bytes: u64,
    /// The largest file that is accepted.
    pub max_recv_size_bytes: u64,
    /// What one sender may send in a day.
    pub max_recv_per_day_bytes: u64,
    /// The size of a chunk.
    pub chunk_size_bytes: u32,
    /// Where received files go.
    pub storage_dir: String,
    /// What all senders together may have announced and not yet sent.
    pub max_inflight_total_bytes: u64,
    /// How long a transfer may take, in milliseconds.
    pub inflight_deadline_ms: i64,
}

impl FilesConfig {
    /// The default limits, with files kept under the data directory.
    pub fn defaults(data_dir: &str) -> (cfg: Self)
        ensures
            cfg.max_send_size_bytes == 50 * 1024 * 1024,
            cfg.max_recv_size_bytes == 50 * 1024 * 1024,
            cfg.max_recv_per_day_bytes == 500 * 1024 * 1024,
            cfg.chunk_size_bytes == 12 * 1024,
            cfg.storage_dir@ == joined_path(data_dir@, "files"@),
            cfg.max_inflight_total_bytes == 256 * 1024 * 1024,
            cfg.inflight_deadline_ms == 10 * 60 * 1000,
    {
        FilesConfig {
            max_send_size_bytes: 50 * 1024 * 1024,
            max_recv_size_bytes: 50 * 1024 * 1024,
            max_recv_per_day_bytes: 500 * 1024 * 1024,
            chunk_size_bytes: 12 * 1024,
            storage_dir: join_path(data_dir, "files"),
            max_inflight_total_bytes: 256 * 1024 * 1024,
            inflight_deadline_ms: 10 * 60 * 1000,
        }
    }
}

/// What is decided about an announced file.
#[derive(Debug, Clone, Copy, PartialEq, Eq, Structural)]
pub enum AcceptDecision {
    Accepted,
    /// The file is too large.
    RejectTooLarge,
    /// The sender's quota for the day would be exceeded.
    RejectQuotaExceeded,
    /// Too much is under way already.
    RejectInflightCap,
    /// The file can be run.
    RejectExecutable,
    /// The announcement contradicts itself.
    RejectMalformed,
}

/// A transfer under way.
#[derive(Debug)]
pub struct InflightFile {
    pub conversation: String,
    pub name: String,
    pub mime: String,
    pub size: u64,
    pub chunks: u32,
    pub chunk_size: u32,
    pub content_hash: Vec<u8>,
    /// The chunks received so far, by their index.
    pub received: HashMap<u32, Vec<u8>>,
    pub started_at_ms: i64,
}

/// A transfer as a value.
#[verifier::ext_equal]
pub struct FileModel {
    pub conversation: Seq<char>,
    pub name: Seq<char>,
    pub mime: Seq<char>,
    pub size: u64,
    pub chunks: u32,
    pub chunk_size: u32,
    pub content_hash: Seq<u8>,
    pub received: Map<u32, Seq<u8>>,
    pub started_at_ms: i64,
}

impl View for InflightFile {
    type V = FileModel;

    open spec fn view(&self) -> FileModel {
        FileModel {
            conversation: self.conversation@,
            name: self.name@,
            mime: self.mime@,
            size: self.size,
            chunks: self.chunks,
            chunk_size: self.chunk_size,
            content_hash: self.content_hash@,
            received: self.received@.map_values(|b: Vec<u8>| b@),
            started_at_ms: self.started_at_ms,
        }
    }
}

/// So many chunks of such a size hold exactly a file of this size: all but the
/// last are full, and the last is not empty.
pub open spec fn brackets(size: int, chunks: int, chunk_size: int) -> bool {
    chunks * chunk_size - chunk_size < size <= chunks * chunk_size
}

/// A chunk of this length may stand at this index.
pub open spec fn chunk_fits(f: FileModel, index: int, len: int) -> bool {
    if index == f.chunks - 1 {
        len <= f.chunk_size
    } else {
        len == f.chunk_size
    }
}

/// A transfer that was accepted and still lacks a chunk.
pub open spec fn file_wf(f: FileModel) -> bool {
    &&& f.chunks > 0
    &&& f.chunk_size > 0
    &&& f.content_hash.len() == 32
    &&& brackets(f.size as int, f.chunks as int, f.chunk_size as int)
    &&& f.received.dom().finite()
    &&& f.received.dom().len() < f.chunks
    &&& forall|i: u32|
        #![trigger f.received[i]]
        f.received.dom().contains(i) ==> i < f.chunks && chunk_fits(
            f,
            i as int,
            f.received[i].len() as int,
        )
}

/// A transfer under way, with its sender and its id.
#[verifier::ext_equal]
pub struct TransferModel {
    pub sender: Seq<char>,
    pub id: Seq<u8>,
    pub file: FileModel,
}

/// The transfer is that of `sender` with this id.
pub open spec fn is_transfer(t: TransferModel, sender: Seq<char>, id: Seq<u8>) -> bool {
    t.sender == sender && t.id == id
}

/// Where the transfer of `sender` with this id stands.
pub open spec fn find_transfer(s: Seq<TransferModel>, sender: Seq<char>, id: Seq<u8>) -> Option<int>
    decreases s.len(),
{
    if s.len() == 0 {
        None
    } else if is_transfer(s.last(), sender, id) {
        Some(s.len() - 1)
    } else {
        find_transfer(s.drop_last(), sender, id)
    }
}

/// The transfers without that of `sender` with this id.
pub open spec fn without_transfer(s: Seq<TransferModel>, sender: Seq<char>, id: Seq<u8>) -> Seq<
    TransferModel,
> {
    match find_transfer(s, sender, id) {
        Some(i) => s.remove(i),
        None => s,
    }
}

/// How many transfers of `sender` there are.
pub open spec fn count_of(s: Seq<TransferModel>, sender: Seq<char>) -> nat
    decreases s.len(),
{
    if s.len() == 0 {
        0
    } else if s.last().sender == sender {
        count_of(s.drop_last(), sender) + 1
    } else {
        count_of(s.drop_last(), sender)
    }
}

/// The sizes of all transfers together.
pub open spec fn reserved(s: Seq<TransferModel>) -> nat
    decreases s.len(),
{
    if s.len() == 0 {
        0
    } else {
        reserved(s.drop_last()) + s.last().file.size as nat
    }
}

/// The transfer has taken longer than it may.
pub open spec fn is_expired(t: TransferModel, now_ms: i64, deadline_ms: i64) -> bool {
    now_ms - t.file.started_at_ms > deadline_ms
}

/// The transfers without those that have taken too long.
pub open spec fn reaped(s: Seq<TransferModel>, now_ms: i64, deadline_ms: i64) -> Seq<TransferModel>
    decreases s.len(),
{
    if s.len() == 0 {
        s
    } else if is_expired(s.last(), now_ms, deadline_ms) {
        reaped(s.drop_last(), now_ms, deadline_ms)
    } else {
        reaped(s.drop_last(), now_ms, deadline_ms).push(s.last())
    }
}

/// Every id has 16 bytes, and no sender has two transfers with one id.
pub open spec fn told_apart(s: Seq<TransferModel>) -> bool {
    &&& forall|i: int| 0 <= i < s.len() ==> (#[trigger] s[i]).id.len() == 16
    &&& forall|i: int, j: int|
        #![trigger s[i], s[j]]
        0 <= i < j < s.len() ==> !is_transfer(s[i], s[j].sender, s[j].id)
}

/// Every transfer is in order and told apart from the others, no sender has more
/// than it may, and all together no more than the limit is announced.
pub open spec fn bounded(s: Seq<TransferModel>, total: nat) -> bool {
    &&& told_apart(s)
    &&& forall|i: int| 0 <= i < s.len() ==> file_wf((#[trigger] s[i]).file)
    &&& forall|sender: Seq<char>| #[trigger] count_of(s, sender) <= FILES_MAX_INFLIGHT_PER_PEER
    &&& reserved(s) <= total
}

/// What an announcement says of a file.
pub struct Announcement {
    pub id: Seq<u8>,
    pub mime: Seq<char>,
    pub size: u64,
    pub chunks: u32,
    pub chunk_size: u32,
    pub content_hash: Seq<u8>,
}

/// What is decided about an announcement, given the transfers under way and what
/// the sender has sent in the last day. The first reason to refuse counts.
pub open spec fn verdict_on(
    cfg: FilesConfig,
    s: Seq<TransferModel>,
    recent_bytes: u64,
    sender: Seq<char>,
    a: Announcement,
) -> AcceptDecision {
    if a.size > cfg.max_recv_size_bytes {
        AcceptDecision::RejectTooLarge
    } else if saturated(recent_bytes + a.size) > cfg.max_recv_per_day_bytes {
        AcceptDecision::RejectQuotaExceeded
    } else if is_executable(a.mime) {
        AcceptDecision::RejectExecutable
    } else if a.id.len() != 16 || a.content_hash.len() != 32 || a.chunks == 0 || a.chunk_size == 0
        || !brackets(a.size as int, a.chunks as int, a.chunk_size as int) {
        AcceptDecision::RejectMalformed
    } else if count_of(s, sender) >= FILES_MAX_INFLIGHT_PER_PEER && find_transfer(
        s,
        sender,
        a.id,
    ) is None {
        AcceptDecision::RejectInflightCap
    } else if reserved(without_transfer(s, sender, a.id)) + a.size > cfg.max_inflight_total_bytes {
        AcceptDecision::RejectInflightCap
    } else {
        AcceptDecision::Accepted
    }
}

/// When a transfer of `sender` with this id started: when it was first announced,
/// which is now if it is not under way.
pub open spec fn started_at(s: Seq<TransferModel>, sender: Seq<char>, id: Seq<u8>, now_ms: i64) -> i64 {
    match find_transfer(s, sender, id) {
        Some(i) => s[i].file.started_at_ms,
        None => now_ms,
    }
}

/// The transfers under way after a decision about an announcement: an accepted
/// one stands last, in place of one with the same sender and id, whose time it
/// does not extend.
pub open spec fn after_meta(
    s: Seq<TransferModel>,
    decision: AcceptDecision,
    sender: Seq<char>,
    conversation: Seq<char>,
    name: Seq<char>,
    a: Announcement,
    now_ms: i64,
) -> Seq<TransferModel> {
    if decision == AcceptDecision::Accepted {
        without_transfer(s, sender, a.id).push(
            TransferModel {
                sender,
                id: a.id,
                file: FileModel {
                    conversation,
                    name,
                    mime: a.mime,
                    size: a.size,
                    chunks: a.chunks,
                    chunk_size: a.chunk_size,
                    content_hash: a.content_hash,
                    received: Map::empty(),
                    started_at_ms: started_at(s, sender, a.id, now_ms),
                },
            },
        )
    } else {
        s
    }
}

/// A sum of bytes, no more than fits.
pub open spec fn saturated(n: int) -> int {
    if n <= u64::MAX {
        n
    } else {
        u64::MAX as int
    }
}

/// What became of a chunk.
#[derive(Debug)]
pub enum ChunkOutcome {
    /// It was not used.
    Dropped,
    /// It had a wrong length; its transfer is given up.
    Aborted,
    /// It was kept; more are to come.
    Buffered,
    /// It was the last one; here is the whole transfer.
    Complete(InflightFile),
}

/// What becomes of a chunk.
#[derive(Debug, Clone, Copy, PartialEq, Eq, Structural)]
pub enum ChunkVerdict {
    Dropped,
    Aborted,
    Buffered,
    Complete,
}

/// The transfer with one more chunk.
pub open spec fn with_chunk(f: FileModel, index: u32, bytes: Seq<u8>) -> FileModel {
    FileModel { received: f.received.insert(index, bytes), ..f }
}

/// What becomes of a chunk of a transfer.
pub open spec fn verdict_on_chunk(f: FileModel, index: u32, bytes: Seq<u8>) -> ChunkVerdict {
    if index >= f.chunks || f.received.dom().contains(index) {
        ChunkVerdict::Dropped
    } else if !chunk_fits(f, index as int, bytes.len() as int) {
        ChunkVerdict::Aborted
    } else if f.received.dom().len() + 1 == f.chunks {
        ChunkVerdict::Complete
    } else {
        ChunkVerdict::Buffered
    }
}

/// What becomes of a chunk, given the transfers under way.
pub open spec fn chunk_verdict(
    s: Seq<TransferModel>,
    sender: Seq<char>,
    id: Seq<u8>,
    index: u32,
    bytes: Seq<u8>,
) -> ChunkVerdict {
    match find_transfer(s, sender, id) {
        None => ChunkVerdict::Dropped,
        Some(i) => verdict_on_chunk(s[i].file, index, bytes),
    }
}

/// The transfers under way after a chunk.
pub open spec fn after_chunk(
    s: Seq<TransferModel>,
    sender: Seq<char>,
    id: Seq<u8>,
    index: u32,
    bytes: Seq<u8>,
) -> Seq<TransferModel> {
    match find_transfer(s, sender, id) {
        None => s,
        Some(i) => match verdict_on_chunk(s[i].file, index, bytes) {
            ChunkVerdict::Dropped => s,
            ChunkVerdict::Aborted | ChunkVerdict::Complete => s.remove(i),
            ChunkVerdict::Buffered => s.update(
                i,
                TransferModel { file: with_chunk(s[i].file, index, bytes), ..s[i] },
            ),
        },
    }
}

/// An entry of the table.
#[derive(Debug)]
struct Transfer {
    sender: String,
    id: [u8; 16],
    file: InflightFile,
}

impl View for Transfer {
    type V = TransferModel;

    closed spec fn view(&self) -> TransferModel {
        TransferModel { sender: self.sender@, id: self.id@, file: self.file@ }
    }
}

/// All transfers under way.
#[derive(Debug)]
pub struct InflightTable {
    entries: Vec<Transfer>,
}

impl View for InflightTable {
    type V = Seq<TransferModel>;

    closed spec fn view(&self) -> Seq<TransferModel> {
        self.entries@.map_values(|t: Transfer| t@)
    }
}

proof fn lemma_find(s: Seq<TransferModel>, sender: Seq<char>, id: Seq<u8>)
    ensures
        match find_transfer(s, sender, id) {
            Some(i) => 0 <= i < s.len() && is_transfer(s[i], sender, id),
            None => forall|i: int| 0 <= i < s.len() ==> !is_transfer(#[trigger] s[i], sender, id),
        },
    decreases s.len(),
{
    if s.len() > 0 && !is_transfer(s.last(), sender, id) {
        lemma_find(s.drop_last(), sender, id);
        if find_transfer(s, sender, id) is None {
            assert forall|i: int| 0 <= i < s.len() implies !is_transfer(
                #[trigger] s[i],
                sender,
                id,
            ) by {
                if i < s.len() - 1 {
                    assert(s.drop_last()[i] == s[i]);
                }
            }
        }
    }
}

proof fn lemma_count_remove(s: Seq<TransferModel>, i: int, sender: Seq<char>)
    requires
        0 <= i < s.len(),
    ensures
        count_of(s.remove(i), sender) == count_of(s, sender) - if s[i].sender == sender {
            1int
        } else {
            0int
        },
    decreases s.len(),
{
    if i == s.len() - 1 {
        assert(s.remove(i) =~= s.drop_last());
    } else {
        let p = s.drop_last();
        lemma_count_remove(p, i, sender);
        assert(s.remove(i).drop_last() =~= p.remove(i));
        assert(s.remove(i).last() == s.last());
    }
}

proof fn lemma_reserved_remove(s: Seq<TransferModel>, i: int)
    requires
        0 <= i < s.len(),
    ensures
        reserved(s.remove(i)) == reserved(s) - s[i].file.size,
    decreases s.len(),
{
    if i == s.len() - 1 {
        assert(s.remove(i) =~= s.drop_last());
    } else {
        let p = s.drop_last();
        lemma_reserved_remove(p, i);
        assert(s.remove(i).drop_last() =~= p.remove(i));
        assert(s.remove(i).last() == s.last());
    }
}

proof fn lemma_update_same(s: Seq<TransferModel>, i: int, t: TransferModel)
    requires
        0 <= i < s.len(),
        t.sender == s[i].sender,
        t.file.size == s[i].file.size,
    ensures
        reserved(s.update(i, t)) == reserved(s),
        forall|sender: Seq<char>| #[trigger]
            count_of(s.update(i, t), sender) == count_of(s, sender),
    decreases s.len(),
{
    let u = s.update(i, t);
    if i == s.len() - 1 {
        assert(u.drop_last() =~= s.drop_last());
    } else {
        assert(u.drop_last() =~= s.drop_last().update(i, t));
        assert(u.last() == s.last());
        lemma_update_same(s.drop_last(), i, t);
    }
    assert forall|sender: Seq<char>| #[trigger] count_of(u, sender) == count_of(s, sender) by {
        if i != s.len() - 1 {
            assert(count_of(s.drop_last().update(i, t), sender) == count_of(
                s.drop_last(),
                sender,
            ));
        }
    }
}

proof fn lemma_reaped(s: Seq<TransferModel>, now_ms: i64, deadline_ms: i64)
    ensures
        reserved(reaped(s, now_ms, deadline_ms)) <= reserved(s),
        forall|sender: Seq<char>| #[trigger]
            count_of(reaped(s, now_ms, deadline_ms), sender) <= count_of(s, sender),
        forall|i: int|
            0 <= i < reaped(s, now_ms, deadline_ms).len() ==> s.contains(
                #[trigger] reaped(s, now_ms, deadline_ms)[i],
            ) && !is_expired(reaped(s, now_ms, deadline_ms)[i], now_ms, deadline_ms),
        told_apart(s) ==> told_apart(reaped(s, now_ms, deadline_ms)),
    decreases s.len(),
{
    if s.len() > 0 {
        let p = s.drop_last();
        lemma_reaped(p, now_ms, deadline_ms);
        let rp = reaped(p, now_ms, deadline_ms);
        let r = reaped(s, now_ms, deadline_ms);
        assert forall|sender: Seq<char>| #[trigger] count_of(r, sender) <= count_of(s, sender) by {
            assert(count_of(rp, sender) <= count_of(p, sender));
            if !is_expired(s.last(), now_ms, deadline_ms) {
                assert(r.drop_last() =~= rp);
            }
        }
        if !is_expired(s.last(), now_ms, deadline_ms) {
            assert(r.drop_last() =~= rp);
        }
        assert forall|i: int| 0 <= i < r.len() implies s.contains(#[trigger] r[i]) && !is_expired(
            r[i],
            now_ms,
            deadline_ms,
        ) by {
            if i < rp.len() {
                assert(rp[i] == r[i]);
                assert(p.contains(rp[i]));
                let k = choose|k: int| 0 <= k < p.len() && p[k] == rp[i];
                assert(s[k] == r[i]);
            } else {
                assert(s[s.len() - 1] == r[i]);
            }
        }
        if told_apart(s) {
            assert(told_apart(p)) by {
                assert forall|i: int| 0 <= i < p.len() implies (#[trigger] p[i]).id.len() == 16 by {
                    assert(p[i] == s[i]);
                }
                assert forall|i: int, j: int|
                    #![trigger p[i], p[j]]
                    0 <= i < j < p.len() implies !is_transfer(p[i], p[j].sender, p[j].id) by {
                    assert(p[i] == s[i] && p[j] == s[j]);
                }
            }
            assert forall|i: int| 0 <= i < r.len() implies (#[trigger] r[i]).id.len() == 16 by {
                assert(s.contains(r[i]));
            }
            assert forall|i: int, j: int|
                #![trigger r[i], r[j]]
                0 <= i < j < r.len() implies !is_transfer(r[i], r[j].sender, r[j].id) by {
                assert(r[i] == rp[i]);
                if j < rp.len() {
                    assert(r[j] == rp[j]);
                } else {
                    assert(p.contains(rp[i]));
                    let k = choose|k: int| 0 <= k < p.len() && p[k] == rp[i];
                    assert(s[k] == r[i] && s[s.len() - 1] == r[j]);
                }
            }
        }
    }
}

proof fn lemma_reaped_bounded(s: Seq<TransferModel>, total: nat, now_ms: i64, deadline_ms: i64)
    requires
        bounded(s, total),
    ensures
        bounded(reaped(s, now_ms, deadline_ms), total),
{
    lemma_reaped(s, now_ms, deadline_ms);
    let r = reaped(s, now_ms, deadline_ms);
    assert forall|i: int| 0 <= i < r.len() implies file_wf((#[trigger] r[i]).file) by {
        assert(s.contains(r[i]));
    }
    assert forall|sender: Seq<char>| #[trigger]
        count_of(r, sender) <= FILES_MAX_INFLIGHT_PER_PEER by {
        assert(count_of(r, sender) <= count_of(s, sender));
    }
}

proof fn lemma_remove_bounded(s: Seq<TransferModel>, total: nat, i: int)
    requires
        bounded(s, total),
        0 <= i < s.len(),
    ensures
        bounded(s.remove(i), total),
{
    lemma_reserved_remove(s, i);
    let r = s.remove(i);
    assert forall|k: int| 0 <= k < r.len() implies file_wf((#[trigger] r[k]).file) by {
        if k < i {
            assert(r[k] == s[k]);
        } else {
            assert(r[k] == s[k + 1]);
        }
    }
    assert forall|k: int| 0 <= k < r.len() implies (#[trigger] r[k]).id.len() == 16 by {
        assert(r[k] == s[if k < i {
            k
        } else {
            k + 1
        }]);
    }
    assert forall|k: int, l: int|
        #![trigger r[k], r[l]]
        0 <= k < l < r.len() implies !is_transfer(r[k], r[l].sender, r[l].id) by {
        assert(r[k] == s[if k < i {
            k
        } else {
            k + 1
        }]);
        assert(r[l] == s[if l < i {
            l
        } else {
            l + 1
        }]);
    }
    assert forall|sender: Seq<char>| #[trigger]
        count_of(r, sender) <= FILES_MAX_INFLIGHT_PER_PEER by {
        lemma_count_remove(s, i, sender);
        assert(count_of(s, sender) <= FILES_MAX_INFLIGHT_PER_PEER);
    }
}

proof fn lemma_push_bounded(
    s: Seq<TransferModel>,
    total: nat,
    t: TransferModel,
)
    requires
        bounded(s, total),
        file_wf(t.file),
        t.id.len() == 16,
        find_transfer(s, t.sender, t.id) is None,
        count_of(s, t.sender) < FILES_MAX_INFLIGHT_PER_PEER,
        reserved(s) + t.file.size <= total,
    ensures
        bounded(s.push(t), total),
{
    let r = s.push(t);
    assert(r.drop_last() =~= s);
    lemma_find(s, t.sender, t.id);
    assert forall|i: int, j: int|
        #![trigger r[i], r[j]]
        0 <= i < j < r.len() implies !is_transfer(r[i], r[j].sender, r[j].id) by {
        assert(r[i] == s[i]);
        if j < s.len() {
            assert(r[j] == s[j]);
        }
    }
    assert forall|sender: Seq<char>| #[trigger]
        count_of(r, sender) <= FILES_MAX_INFLIGHT_PER_PEER by {
        assert(count_of(s, sender) <= FILES_MAX_INFLIGHT_PER_PEER);
    }
}

/// The start of the day that ends now.
pub open spec fn window_start(now_ms: i64) -> int {
    if now_ms - QUOTA_WINDOW_MS >= i64::MIN {
        now_ms - QUOTA_WINDOW_MS
    } else {
        i64::MIN as int
    }
}

/// The start of the day over which a sender's quota counts.
pub fn quota_window_start(now_ms: i64) -> (start: i64)
    ensures
        start == window_start(now_ms),
{
    if now_ms >= i64::MIN + QUOTA_WINDOW_MS {
        now_ms - QUOTA_WINDOW_MS
    } else {
        i64::MIN
    }
}

impl InflightTable {
    pub fn new() -> (t: Self)
        ensures
            t@ == Seq::<TransferModel>::empty(),
            forall|total: nat| bounded(t@, total),
    {
        let t = InflightTable { entries: Vec::new() };
        assert(t@ =~= Seq::<TransferModel>::empty());
        t
    }

    /// How many transfers are under way.
    pub fn len(&self) -> (n: usize)
        ensures
            n == self@.len(),
    {
        self.entries.len()
    }

    fn find(&self, sender: &str, id: &[u8]) -> (r: Option<usize>)
        ensures
            match r {
                Some(i) => i < self@.len() && find_transfer(self@, sender@, id@) == Some(i as int),
                None => find_transfer(self@, sender@, id@) is None,
            },
    {
        let mut n: usize = self.entries.len();
        proof {
            assert(self@.take(n as int) =~= self@);
        }
        while n > 0
            invariant
                n <= self.entries@.len(),
                find_transfer(self@, sender@, id@) == find_transfer(
                    self@.take(n as int),
                    sender@,
                    id@,
                ),
            decreases n,
        {
            proof {
                assert(self@.take(n as int).drop_last() =~= self@.take(n - 1));
                assert(self@.take(n as int).last() == self.entries@[n - 1]@);
            }
            if same_text(self.entries[n - 1].sender.as_str(), sender) && same_bytes(
                self.entries[n - 1].id.as_slice(),
                id,
            ) {
                return Some(n - 1);
            }
            n -= 1;
        }
        None
    }

    fn count(&self, sender: &str) -> (n: usize)
        ensures
            n == count_of(self@, sender@),
    {
        let mut n: usize = 0;
        let mut i: usize = 0;
        proof {
            assert(self@.take(0) =~= Seq::<TransferModel>::empty());
        }
        while i < self.entries.len()
            invariant
                i <= self.entries@.len(),
                n <= i,
                n == count_of(self@.take(i as int), sender@),
            decreases self.entries@.len() - i,
        {
            proof {
                assert(self@.take(i + 1).drop_last() =~= self@.take(i as int));
                assert(self@.take(i + 1).last() == self.entries@[i as int]@);
            }
            if same_text(self.entries[i].sender.as_str(), sender) {
                n += 1;
            }
            i += 1;
        }
        proof {
            assert(self@.take(i as int) =~= self@);
        }
        n
    }

    fn total(&self) -> (n: u128)
        ensures
            n == reserved(self@),
    {
        let mut n: u128 = 0;
        let mut i: usize = 0;
        proof {
            assert(self@.take(0) =~= Seq::<TransferModel>::empty());
        }
        while i < self.entries.len()
            invariant
                i <= self.entries@.len(),
                n <= i * 0x1_0000_0000_0000_0000,
                n == reserved(self@.take(i as int)),
            decreases self.entries@.len() - i,
        {
            proof {
                assert(self@.take(i + 1).drop_last() =~= self@.take(i as int));
                assert(self@.take(i + 1).last() == self.entries@[i as int]@);
            }
            n = n + self.entries[i].file.size as u128;
            i += 1;
        }
        proof {
            assert(self@.take(i as int) =~= self@);
        }
        n
    }

    /// Give up the transfers that have taken too long.
    pub fn reap(&mut self, now_ms: i64, deadline_ms: i64)
        ensures
            final(self)@ == reaped(old(self)@, now_ms, deadline_ms),
    {
        let ghost all = self@;
        let n: usize = self.entries.len();
        let mut seen: usize = 0;
        let mut at: usize = 0;
        proof {
            assert(all.take(0) =~= Seq::<TransferModel>::empty());
            assert(self@ =~= reaped(all.take(0), now_ms, deadline_ms) + all.skip(0));
        }
        while seen < n
            invariant
                at <= seen <= n,
                n == all.len(),
                at == reaped(all.take(seen as int), now_ms, deadline_ms).len(),
                self@ == reaped(all.take(seen as int), now_ms, deadline_ms) + all.skip(
                    seen as int,
                ),
                self@.len() == self.entries@.len(),
            decreases n - seen,
        {
            let ghost kept = reaped(all.take(seen as int), now_ms, deadline_ms);
            let ghost before = self@;
            proof {
                assert(before[at as int] == all.skip(seen as int)[0]);
                assert(all.skip(seen as int)[0] == all[seen as int]);
                assert(self.entries@[at as int]@ == all[seen as int]);
                assert(all.take(seen + 1).drop_last() =~= all.take(seen as int));
                assert(all.take(seen + 1).last() == all[seen as int]);
            }
            let age: i128 = now_ms as i128 - self.entries[at].file.started_at_ms as i128;
            if age > deadline_ms as i128 {
                let _ = self.entries.remove(at);
                proof {
                    assert(self@ =~= before.remove(at as int));
                    assert(self@ =~= kept + all.skip(seen + 1));
                }
            } else {
                at += 1;
                proof {
                    assert(self@ =~= kept.push(all[seen as int]) + all.skip(seen + 1));
                }
            }
            seen += 1;
        }
        proof {
            assert(all.take(n as int) =~= all);
            assert(all.skip(n as int) =~= Seq::<TransferModel>::empty());
            assert(self@ =~= reaped(all, now_ms, deadline_ms));
        }
    }
}

/// Decide about an announced file and, if it is accepted, take note of the
/// transfer; one with the same sender and id begins again, but the time that it may
/// take counts from its first announcement. `recent_bytes` is what the sender has
/// sent since [`quota_window_start`].
pub fn accept_file_meta(
    table: &mut InflightTable,
    cfg: &FilesConfig,
    recent_bytes: u64,
    sender_fp: &str,
    conversation: &str,
    meta_id: &[u8],
    name: &str,
    mime: &str,
    size: u64,
    chunks: u32,
    chunk_size: u32,
    content_hash: &[u8],
    now_ms: i64,
) -> (decision: AcceptDecision)
    requires
        bounded(old(table)@, cfg.max_inflight_total_bytes as nat),
    ensures
        bounded(final(table)@, cfg.max_inflight_total_bytes as nat),
        decision == verdict_on(
            *cfg,
            reaped(old(table)@, now_ms, cfg.inflight_deadline_ms),
            recent_bytes,
            sender_fp@,
            (Announcement {
                id: meta_id@,
                mime: mime@,
                size,
                chunks,
                chunk_size,
                content_hash: content_hash@,
            }),
        ),
        final(table)@ == after_meta(
            reaped(old(table)@, now_ms, cfg.inflight_deadline_ms),
            decision,
            sender_fp@,
            conversation@,
            name@,
            (Announcement {
                id: meta_id@,
                mime: mime@,
                size,
                chunks,
                chunk_size,
                content_hash: content_hash@,
            }),
            now_ms,
        ),
{
    proof {
        lemma_reaped_bounded(
            table@,
            cfg.max_inflight_total_bytes as nat,
            now_ms,
            cfg.inflight_deadline_ms,
        );
    }
    table.reap(now_ms, cfg.inflight_deadline_ms);
    if size > cfg.max_recv_size_bytes {
        return AcceptDecision::RejectTooLarge;
    }
    if recent_bytes.saturating_add(size) > cfg.max_recv_per_day_bytes {
        return AcceptDecision::RejectQuotaExceeded;
    }
    if is_executable_mime(mime) {
        return AcceptDecision::RejectExecutable;
    }
    if meta_id.len() != 16 || content_hash.len() != 32 || chunks == 0 || chunk_size == 0 {
        return AcceptDecision::RejectMalformed;
    }
    assert(chunks as int * chunk_size as int <= 0xffff_ffff_ffff_ffff) by (nonlinear_arith)
        requires
            chunks <= 0xffff_ffff,
            chunk_size <= 0xffff_ffff,
    ;
    assert(chunks as int * chunk_size as int >= chunk_size) by (nonlinear_arith)
        requires
            chunks >= 1,
            chunk_size >= 0,
    ;
    let expected_max: u64 = chunks as u64 * chunk_size as u64;
    let expected_min: u64 = expected_max - chunk_size as u64;
    if size > expected_max || size <= expected_min {
        return AcceptDecision::RejectMalformed;
    }
    let ghost start = table@;
    let found = table.find(sender_fp, meta_id);
    if table.count(sender_fp) >= FILES_MAX_INFLIGHT_PER_PEER && found.is_none() {
        return AcceptDecision::RejectInflightCap;
    }
    let (replaced, started_at_ms): (u64, i64) = match found {
        Some(i) => (table.entries[i].file.size, table.entries[i].file.started_at_ms),
        None => (0, now_ms),
    };
    proof {
        lemma_find(start, sender_fp@, meta_id@);
        if found is Some {
            lemma_reserved_remove(start, found->0 as int);
            lemma_count_remove(start, found->0 as int, sender_fp@);
            assert(start[found->0 as int] == table.entries@[found->0 as int]@);
        }
    }
    let total: u128 = table.total();
    if total - replaced as u128 + size as u128 > cfg.max_inflight_total_bytes as u128 {
        return AcceptDecision::RejectInflightCap;
    }
    if let Some(i) = found {
        let _ = table.entries.remove(i);
        proof {
            assert(table@ =~= start.remove(i as int));
            lemma_remove_bounded(start, cfg.max_inflight_total_bytes as nat, i as int);
        }
    }
    let ghost rest = table@;
    let entry = Transfer {
        sender: sender_fp.to_owned(),
        id: to_array::<16>(meta_id),
        file: InflightFile {
            conversation: conversation.to_owned(),
            name: name.to_owned(),
            mime: mime.to_owned(),
            size,
            chunks,
            chunk_size,
            content_hash: copy_bytes(content_hash),
            received: HashMap::new(),
            started_at_ms,
        },
    };
    let ghost t = entry@;
    proof {
        assert(t.file.received =~= Map::<u32, Seq<u8>>::empty());
        assert(count_of(start, sender_fp@) <= FILES_MAX_INFLIGHT_PER_PEER);
        lemma_find(rest, sender_fp@, meta_id@);
        if find_transfer(rest, sender_fp@, meta_id@) is Some {
            let k = find_transfer(rest, sender_fp@, meta_id@)->0;
            if found is Some {
                let i = found->0 as int;
                let was = if k < i {
                    k
                } else {
                    k + 1
                };
                assert(rest[k] == start[was]);
                assert(is_transfer(start[i], start[was].sender, start[was].id));
            }
        }
        lemma_push_bounded(rest, cfg.max_inflight_total_bytes as nat, t);
    }
    table.entries.push(entry);
    proof {
        assert(table@ =~= rest.push(t));
    }
    AcceptDecision::Accepted
}

/// Take a chunk of a transfer. Chunks may come in any order; one that came
/// before, that has no transfer or no place in it, is not used; one of a wrong
/// length ends its transfer.
pub fn accept_file_chunk(
    table: &mut InflightTable,
    cfg: &FilesConfig,
    sender_fp: &str,
    chunk_id: &[u8],
    index: u32,
    bytes: &[u8],
    now_ms: i64,
) -> (outcome: ChunkOutcome)
    requires
        bounded(old(table)@, cfg.max_inflight_total_bytes as nat),
    ensures
        bounded(final(table)@, cfg.max_inflight_total_bytes as nat),
        ({
            let s = reaped(old(table)@, now_ms, cfg.inflight_deadline_ms);
            &&& final(table)@ == after_chunk(s, sender_fp@, chunk_id@, index, bytes@)
            &&& match chunk_verdict(s, sender_fp@, chunk_id@, index, bytes@) {
                ChunkVerdict::Dropped => outcome is Dropped,
                ChunkVerdict::Aborted => outcome is Aborted,
                ChunkVerdict::Buffered => outcome is Buffered,
                ChunkVerdict::Complete => outcome is Complete && outcome->Complete_0@ == with_chunk(
                    s[find_transfer(s, sender_fp@, chunk_id@)->0].file,
                    index,
                    bytes@,
                ),
            }
        }),
{
    let ghost total = cfg.max_inflight_total_bytes as nat;
    proof {
        lemma_reaped_bounded(table@, total, now_ms, cfg.inflight_deadline_ms);
    }
    table.reap(now_ms, cfg.inflight_deadline_ms);
    let ghost s = table@;
    proof {
        lemma_find(s, sender_fp@, chunk_id@);
    }
    let i: usize = match table.find(sender_fp, chunk_id) {
        None => {
            return ChunkOutcome::Dropped;
        },
        Some(i) => i,
    };
    let ghost f = s[i as int].file;
    proof {
        assert(table.entries@[i as int]@ == s[i as int]);
        assert(file_wf(f));
        assert(f.received.dom() =~= table.entries@[i as int].file.received@.dom());
    }
    let chunks: u32 = table.entries[i].file.chunks;
    let chunk_size: u32 = table.entries[i].file.chunk_size;
    if index >= chunks || table.entries[i].file.received.contains_key(&index) {
        return ChunkOutcome::Dropped;
    }
    let last = index == chunks - 1;
    if bytes.len() > chunk_size as usize || (!last && bytes.len() != chunk_size as usize) {
        proof {
            lemma_remove_bounded(s, total, i as int);
        }
        let _ = table.entries.remove(i);
        proof {
            assert(table@ =~= s.remove(i as int));
        }
        return ChunkOutcome::Aborted;
    }
    let mut entry = table.entries.remove(i);
    let ghost rest = table@;
    let ghost raw = entry.file.received@;
    proof {
        assert(rest =~= s.remove(i as int));
    }
    entry.file.received.insert(index, copy_bytes(bytes));
    let ghost now = entry@;
    proof {
        assert(entry.file@.received =~= f.received.insert(index, bytes@));
        assert(entry.file@ =~= with_chunk(f, index, bytes@));
        assert(entry.file.received@.dom() =~= f.received.dom().insert(index));
    }
    if entry.file.received.len() as u64 == chunks as u64 {
        proof {
            lemma_remove_bounded(s, total, i as int);
        }
        ChunkOutcome::Complete(entry.file)
    } else {
        table.entries.insert(i, entry);
        proof {
            assert(table@ =~= rest.insert(i as int, now));
            assert(table@ =~= s.update(i as int, now));
            lemma_update_same(s, i as int, now);
            assert forall|k: int, l: int|
                #![trigger table@[k], table@[l]]
                0 <= k < l < table@.len() implies !is_transfer(
                table@[k],
                table@[l].sender,
                table@[l].id,
            ) by {
                assert(!is_transfer(s[k], s[l].sender, s[l].id));
            }
            assert forall|k: int| 0 <= k < table@.len() implies file_wf(
                (#[trigger] table@[k]).file,
            ) by {
                if k != i {
                    assert(table@[k] == s[k]);
                } else {
                    assert(now.file.received.dom() =~= f.received.dom().insert(index));
                    assert(now.file.received.dom().len() == f.received.dom().len() + 1);
                    assert forall|j: u32|
                        #![trigger now.file.received.dom().contains(j)]
                        now.file.received.dom().contains(j) implies j < f.chunks && chunk_fits(
                        now.file,
                        j as int,
                        now.file.received[j].len() as int,
                    ) by {
                        if j != index {
                            assert(now.file.received[j] == f.received[j]);
                        }
                    }
                    assert(file_wf(now.file));
                }
            }
        }
        ChunkOutcome::Buffered
    }
}

/// Announcing a transfer again does not keep it alive: whatever is announced in
/// between, a transfer is given up once the deadline after its first announcement
/// is past.
pub proof fn law_deadline_counts_from_first(
    s: Seq<TransferModel>,
    decision: AcceptDecision,
    sender: Seq<char>,
    conversation: Seq<char>,
    name: Seq<char>,
    a: Announcement,
    now_ms: i64,
    later_ms: i64,
    deadline_ms: i64,
)
    requires
        told_apart(s),
        find_transfer(s, sender, a.id) is Some,
        later_ms - s[find_transfer(s, sender, a.id)->0].file.started_at_ms > deadline_ms,
    ensures
        find_transfer(
            reaped(
                after_meta(s, decision, sender, conversation, name, a, now_ms),
                later_ms,
                deadline_ms,
            ),
            sender,
            a.id,
        ) is None,
{
    let i = find_transfer(s, sender, a.id)->0;
    let t = after_meta(s, decision, sender, conversation, name, a, now_ms);
    let left = reaped(t, later_ms, deadline_ms);
    lemma_find(s, sender, a.id);
    lemma_reaped(t, later_ms, deadline_ms);
    lemma_find(left, sender, a.id);
    if find_transfer(left, sender, a.id) is Some {
        let k = find_transfer(left, sender, a.id)->0;
        assert(t.contains(left[k]));
        let j = choose|j: int| 0 <= j < t.len() && t[j] == left[k];
        if decision == AcceptDecision::Accepted {
            let rest = s.remove(i);
            if j < rest.len() {
                let was = if j < i {
                    j
                } else {
                    j + 1
                };
                assert(rest[j] == s[was]);
                assert(is_transfer(s[i], s[was].sender, s[was].id));
                if was < i {
                    assert(!is_transfer(s[was], s[i].sender, s[i].id));
                }
            }
        } else if j < i {
            assert(!is_transfer(s[j], s[i].sender, s[i].id));
        } else if i < j {
            assert(!is_transfer(s[i], s[j].sender, s[j].id));
        }
    }
}

/// A quota counts over the last 24 hours.
pub proof fn law_quota_window_is_a_day(now_ms: i64)
    requires
        now_ms >= 0,
    ensures
        now_ms - window_start(now_ms) == 24 * 60 * 60 * 1000,
{
}

/// The type is that of a file that can be run.
pub open spec fn is_program(mime: Seq<char>) -> bool {
    seq![
        "application/x-msdownload"@,
        "application/x-msdos-program"@,
        "application/x-executable"@,
        "application/x-mach-binary"@,
        "application/x-apple-diskimage"@,
        "application/x-newton-compatible-pkg"@,
        "application/vnd.debian.binary-package"@,
        "application/x-rpm"@,
        "application/vnd.microsoft.portable-executable"@,
        "application/x-bat"@,
        "application/x-sh"@,
    ].contains(mime)
}

pub proof fn lemma_programs(mime: Seq<char>)
    ensures
        is_program(mime) == is_executable(mime),
{
    let all = seq![
        "application/x-msdownload"@,
        "application/x-msdos-program"@,
        "application/x-executable"@,
        "application/x-mach-binary"@,
        "application/x-apple-diskimage"@,
        "application/x-newton-compatible-pkg"@,
        "application/vnd.debian.binary-package"@,
        "application/x-rpm"@,
        "application/vnd.microsoft.portable-executable"@,
        "application/x-bat"@,
        "application/x-sh"@,
    ];
    assert(all.len() == 11);
    assert(all.contains(all[0]) && all.contains(all[1]) && all.contains(all[2]) && all.contains(
        all[3],
    ) && all.contains(all[4]) && all.contains(all[5]) && all.contains(all[6]) && all.contains(
        all[7],
    ) && all.contains(all[8]) && all.contains(all[9]) && all.contains(all[10]));
}

/// The parts that are announced make up a file of the announced size: all of them full
/// but the last, which is not empty.
pub open spec fn adds_up(a: Announcement) -> bool {
    &&& a.chunks >= 1
    &&& a.chunk_size >= 1
    &&& (a.chunks - 1) * a.chunk_size < a.size
    &&& a.size <= a.chunks * a.chunk_size
}

/// A file is accepted only within all limits: it is no larger than files may be, it
/// does not bring its sender over the day's quota together with what came already, it
/// cannot be run, and its announcement is consistent.
pub proof fn law_accepted_is_within_limits(
    cfg: FilesConfig,
    s: Seq<TransferModel>,
    recent_bytes: u64,
    sender: Seq<char>,
    a: Announcement,
)
    requires
        cfg.max_recv_per_day_bytes < u64::MAX,
        verdict_on(cfg, s, recent_bytes, sender, a) == AcceptDecision::Accepted,
    ensures
        a.size <= cfg.max_recv_size_bytes,
        recent_bytes + a.size <= cfg.max_recv_per_day_bytes,
        !is_program(a.mime),
        a.id.len() == 16,
        a.content_hash.len() == 32,
        adds_up(a),
{
    lemma_programs(a.mime);
    assert((a.chunks - 1) * a.chunk_size == a.chunks * a.chunk_size - a.chunk_size)
        by (nonlinear_arith);
}

/// A consistent announcement within all limits is accepted.
pub proof fn law_within_limits_is_accepted(
    cfg: FilesConfig,
    s: Seq<TransferModel>,
    recent_bytes: u64,
    sender: Seq<char>,
    a: Announcement,
)
    requires
        a.size <= cfg.max_recv_size_bytes,
        recent_bytes + a.size <= cfg.max_recv_per_day_bytes,
        !is_program(a.mime),
        a.id.len() == 16,
        a.content_hash.len() == 32,
        adds_up(a),
        count_of(s, sender) < 10,
        reserved(s) + a.size <= cfg.max_inflight_total_bytes,
    ensures
        verdict_on(cfg, s, recent_bytes, sender, a) == AcceptDecision::Accepted,
{
    lemma_programs(a.mime);
    assert((a.chunks - 1) * a.chunk_size == a.chunks * a.chunk_size - a.chunk_size)
        by (nonlinear_arith);
    lemma_find(s, sender, a.id);
    match find_transfer(s, sender, a.id) {
        Some(i) => {
            lemma_reserved_remove(s, i);
        },
        None => {},
    }
}

/// Which of the limits is named where a file is refused.
pub proof fn law_reason_for_refusal(
    cfg: FilesConfig,
    s: Seq<TransferModel>,
    recent_bytes: u64,
    sender: Seq<char>,
    a: Announcement,
)
    requires
        cfg.max_recv_per_day_bytes < u64::MAX,
    ensures
        ({
            let d = verdict_on(cfg, s, recent_bytes, sender, a);
            let large = a.size > cfg.max_recv_size_bytes;
            let over = recent_bytes + a.size > cfg.max_recv_per_day_bytes;
            let bad = a.id.len() != 16 || a.content_hash.len() != 32 || !adds_up(a);
            &&& d == AcceptDecision::RejectTooLarge <==> large
            &&& d == AcceptDecision::RejectQuotaExceeded <==> !large && over
            &&& d == AcceptDecision::RejectExecutable <==> !large && !over && is_program(a.mime)
            &&& d == AcceptDecision::RejectMalformed <==> !large && !over && !is_program(a.mime)
                && bad
        }),
{
    lemma_programs(a.mime);
    assert((a.chunks - 1) * a.chunk_size == a.chunks * a.chunk_size - a.chunk_size)
        by (nonlinear_arith);
}

/// The sums that the limits on what is under way are about: one more transfer adds one
/// to its sender's and its size to all.
pub proof fn law_under_way_is_counted(s: Seq<TransferModel>, t: TransferModel, sender: Seq<char>)
    ensures
        reserved(Seq::<TransferModel>::empty()) == 0,
        count_of(Seq::<TransferModel>::empty(), sender) == 0,
        reserved(s.push(t)) == reserved(s) + t.file.size,
        count_of(s.push(t), sender) == count_of(s, sender) + if t.sender == sender {
            1int
        } else {
            0int
        },
{
    assert(s.push(t).drop_last() =~= s);
}

/// An accepted file is under way as it was announced, with nothing received yet, and no
/// sender has more than ten of them or all together more than the limit; a refused one
/// leaves everything as it was. The transfers of others stay as they are.
pub proof fn law_announcement(
    cfg: FilesConfig,
    s: Seq<TransferModel>,
    recent_bytes: u64,
    sender: Seq<char>,
    conversation: Seq<char>,
    name: Seq<char>,
    a: Announcement,
    now_ms: i64,
    k: int,
)
    requires
        bounded(s, cfg.max_inflight_total_bytes as nat),
        0 <= k < s.len() ==> !(s[k].sender == sender && s[k].id == a.id),
    ensures
        ({
            let d = verdict_on(cfg, s, recent_bytes, sender, a);
            let after = after_meta(s, d, sender, conversation, name, a, now_ms);
            &&& d != AcceptDecision::Accepted ==> after == s
            &&& d == AcceptDecision::Accepted ==> {
                let t = after.last();
                &&& after.len() > 0
                &&& t.sender == sender && t.id == a.id
                &&& t.file.conversation == conversation && t.file.name == name
                &&& t.file.mime == a.mime && t.file.size == a.size
                &&& t.file.chunks == a.chunks && t.file.chunk_size == a.chunk_size
                &&& t.file.content_hash == a.content_hash
                &&& t.file.received.dom() == Set::<u32>::empty()
                &&& t.file.started_at_ms == now_ms || exists|j: int|
                    0 <= j < s.len() && (#[trigger] s[j]).sender == sender && s[j].id == a.id
                        && s[j].file.started_at_ms == t.file.started_at_ms
                &&& reserved(after) <= cfg.max_inflight_total_bytes
                &&& count_of(after, sender) <= 10
            }
            &&& 0 <= k < s.len() ==> after.contains(s[k])
        }),
{
    let d = verdict_on(cfg, s, recent_bytes, sender, a);
    let after = after_meta(s, d, sender, conversation, name, a, now_ms);
    lemma_find(s, sender, a.id);
    if d == AcceptDecision::Accepted {
        let rest = without_transfer(s, sender, a.id);
        assert(after.drop_last() =~= rest);
        assert(count_of(s, sender) <= 10);
        match find_transfer(s, sender, a.id) {
            Some(i) => {
                lemma_count_remove(s, i, sender);
                assert(s[i].file.started_at_ms == after.last().file.started_at_ms);
                if 0 <= k < s.len() {
                    let at = if k < i {
                        k
                    } else {
                        k - 1
                    };
                    assert(after[at] == s[k]);
                }
            },
            None => {
                if 0 <= k < s.len() {
                    assert(after[k] == s[k]);
                }
            },
        }
    } else if 0 <= k < s.len() {
        assert(after[k] == s[k]);
    }
}

/// Transfers are given up exactly if they have taken longer than the deadline.
pub proof fn law_late_transfers_are_given_up(
    s: Seq<TransferModel>,
    now_ms: i64,
    deadline_ms: i64,
    t: TransferModel,
)
    ensures
        reaped(s, now_ms, deadline_ms).contains(t) <==> s.contains(t) && now_ms
            - t.file.started_at_ms <= deadline_ms,
    decreases s.len(),
{
    let r = reaped(s, now_ms, deadline_ms);
    if s.len() > 0 {
        let front = s.drop_last();
        law_late_transfers_are_given_up(front, now_ms, deadline_ms, t);
        let f = reaped(front, now_ms, deadline_ms);
        if r.contains(t) {
            let i = choose|i: int| 0 <= i < r.len() && r[i] == t;
            if i < f.len() {
                assert(f[i] == t);
                let j = choose|j: int| 0 <= j < front.len() && front[j] == t;
                assert(s[j] == t);
            } else {
                assert(s[s.len() - 1] == t);
            }
        }
        if s.contains(t) && now_ms - t.file.started_at_ms <= deadline_ms {
            let j = choose|j: int| 0 <= j < s.len() && s[j] == t;
            if j < front.len() {
                assert(front[j] == t);
                let i = choose|i: int| 0 <= i < f.len() && f[i] == t;
                assert(r[i] == t);
            } else {
                assert(r[r.len() - 1] == t);
            }
        }
    }
}

/// What becomes of a chunk: one without a place, or whose place is taken, is dropped;
/// one that is not as long as its place ends the transfer; any other is kept, and the
/// transfer is complete exactly if no place is left.
pub proof fn law_chunk(f: FileModel, index: u32, bytes: Seq<u8>)
    requires
        file_wf(f),
    ensures
        ({
            let v = verdict_on_chunk(f, index, bytes);
            let now = with_chunk(f, index, bytes);
            let fits = if index + 1 < f.chunks {
                bytes.len() == f.chunk_size
            } else {
                bytes.len() <= f.chunk_size
            };
            &&& v == ChunkVerdict::Dropped <==> index >= f.chunks || f.received.dom().contains(index)
            &&& v == ChunkVerdict::Aborted <==> index < f.chunks && !f.received.dom().contains(index)
                && !fits
            &&& v == ChunkVerdict::Complete ==> forall|j: u32|
                j < f.chunks ==> #[trigger] now.received.dom().contains(j)
            &&& v == ChunkVerdict::Buffered ==> exists|j: u32|
                j < f.chunks && !#[trigger] now.received.dom().contains(j)
            &&& now.received.dom().contains(index) && now.received[index] == bytes
            &&& forall|j: u32|
                #![trigger now.received.dom().contains(j)]
                j != index ==> now.received.dom().contains(j) == f.received.dom().contains(j)
                    && now.received[j] == f.received[j]
            &&& now.size == f.size && now.chunks == f.chunks && now.name == f.name && now.mime
                == f.mime && now.content_hash == f.content_hash && now.conversation
                == f.conversation && now.chunk_size == f.chunk_size && now.started_at_ms
                == f.started_at_ms
        }),
{
    let v = verdict_on_chunk(f, index, bytes);
    let now = with_chunk(f, index, bytes);
    let all = Set::new(|j: u32| j < f.chunks);
    lemma_places(f.chunks);
    assert(now.received.dom() =~= f.received.dom().insert(index));
    assert forall|j: u32| #[trigger] f.received.dom().contains(j) implies all.contains(j) by {
        assert(f.received[j] == f.received[j]);
    }
    if index < f.chunks && !f.received.dom().contains(index) {
        let d = now.received.dom();
        assert(d.subset_of(all));
        if d.len() == f.chunks {
            vstd::set_lib::lemma_subset_equality(d, all);
        } else if forall|j: u32| j < f.chunks ==> #[trigger] d.contains(j) {
            assert(d =~= all);
        }
    }
}

proof fn lemma_places(n: u32)
    ensures
        Set::new(|j: u32| j < n).finite(),
        Set::new(|j: u32| j < n).len() == n,
    decreases n,
{
    let s = Set::new(|j: u32| j < n);
    if n == 0 {
        assert(s =~= Set::empty());
    } else {
        let m = (n - 1) as u32;
        lemma_places(m);
        assert(s =~= Set::new(|j: u32| j < m).insert(m));
    }
}

/// A chunk changes the transfer of its sender and id and no other.
pub proof fn law_chunks_of_others(
    s: Seq<TransferModel>,
    sender: Seq<char>,
    id: Seq<u8>,
    index: u32,
    bytes: Seq<u8>,
    k: int,
)
    requires
        0 <= k < s.len(),
        !(s[k].sender == sender && s[k].id == id),
    ensures
        after_chunk(s, sender, id, index, bytes).contains(s[k]),
{
    let after = after_chunk(s, sender, id, index, bytes);
    lemma_find(s, sender, id);
    match find_transfer(s, sender, id) {
        None => {
            assert(after[k] == s[k]);
        },
        Some(i) => {
            if after.len() == s.len() {
                assert(after[k] == s[k]);
            } else if k < i {
                assert(after[k] == s[k]);
            } else {
                assert(after[k - 1] == s[k]);
            }
        },
    }
}

/// What happens to the transfer that a chunk is for: it is as it was, gone, or has the
/// chunk in its place.
pub proof fn law_chunk_of_transfer(
    s: Seq<TransferModel>,
    sender: Seq<char>,
    id: Seq<u8>,
    index: u32,
    bytes: Seq<u8>,
    i: int,
)
    requires
        told_apart(s),
        0 <= i < s.len(),
        s[i].sender == sender,
        s[i].id == id,
    ensures
        chunk_verdict(s, sender, id, index, bytes) == verdict_on_chunk(s[i].file, index, bytes),
        find_transfer(s, sender, id) == Some(i),
        match chunk_verdict(s, sender, id, index, bytes) {
            ChunkVerdict::Dropped => after_chunk(s, sender, id, index, bytes) == s,
            ChunkVerdict::Buffered => {
                let t = after_chunk(s, sender, id, index, bytes)[i];
                t.sender == sender && t.id == id && t.file == with_chunk(s[i].file, index, bytes)
            },
            _ => !exists|j: int|
                0 <= j < after_chunk(s, sender, id, index, bytes).len() && is_transfer(
                    #[trigger] after_chunk(s, sender, id, index, bytes)[j],
                    sender,
                    id,
                ),
        },
{
    lemma_find(s, sender, id);
    let at = find_transfer(s, sender, id)->0;
    if at < i {
        assert(!is_transfer(s[at], s[i].sender, s[i].id));
    } else if i < at {
        assert(!is_transfer(s[i], s[at].sender, s[at].id));
    }
    let after = after_chunk(s, sender, id, index, bytes);
    if after.len() < s.len() {
        assert forall|j: int| 0 <= j < after.len() implies !is_transfer(
            #[trigger] after[j],
            sender,
            id,
        ) by {
            let was = if j < i {
                j
            } else {
                j + 1
            };
            assert(after[j] == s[was]);
            if was < i {
                assert(!is_transfer(s[was], s[i].sender, s[i].id));
            } else {
                assert(!is_transfer(s[i], s[was].sender, s[was].id));
            }
        }
    }
}

/// A table within bounds holds no two transfers of one sender under one id, at most ten of a
/// sender, and no more bytes altogether than the limit.
pub proof fn law_table_is_bounded(
    s: Seq<TransferModel>,
    total: nat,
    sender: Seq<char>,
    i: int,
    j: int,
)
    requires
        bounded(s, total),
        0 <= i < j < s.len(),
    ensures
        reserved(s) <= total,
        count_of(s, sender) <= 10,
        s[i].sender != s[j].sender || s[i].id != s[j].id,
{
}

} // verus!
