//! Outgoing transfers: a file cut into chunks.
use vstd::prelude::*;

use crate::bytes::{copy_bytes, copy_range};
use crate::files::names::{sanitize_filename, sanitized_name};
use crate::files::transfer::{
    after_chunk, brackets, chunk_fits, chunk_verdict, find_transfer, verdict_on_chunk, with_chunk,
    ChunkVerdict, FileModel, TransferModel,
};
use crate::room::RoomAppMessage;
use crate::text::{chars_of, find_last, join2, last_position, same_text, text_of};

verus! {

/// How many chunks hold `len` bytes.
pub open spec fn chunk_count(len: int, chunk_size: int) -> int {
    (len + chunk_size - 1) / chunk_size
}

/// The end of chunk `i`.
pub open spec fn chunk_end(len: int, chunk_size: int, i: int) -> int {
    if (i + 1) * chunk_size <= len {
        (i + 1) * chunk_size
    } else {
        len
    }
}

/// Chunk `i` of a file.
pub open spec fn chunk_at(bytes: Seq<u8>, chunk_size: int, i: int) -> Seq<u8> {
    bytes.subrange(i * chunk_size, chunk_end(bytes.len() as int, chunk_size, i))
}

/// The number of chunks that an announcement names: at least one, in 32 bits.
pub open spec fn announced_chunks(len: int, chunk_size: int) -> u32 {
    let n = chunk_count(len, chunk_size);
    ((if n == 0 {
        1
    } else {
        n
    }) % 0x1_0000_0000) as u32
}

/// The index that a chunk carries: its place, as far as 32 bits reach.
pub open spec fn chunk_index(i: int) -> u32 {
    if i <= u32::MAX {
        i as u32
    } else {
        u32::MAX
    }
}

/// A message announces the file.
pub open spec fn announces(
    m: RoomAppMessage,
    id: Seq<u8>,
    name: Seq<char>,
    mime: Seq<char>,
    size: int,
    chunks: u32,
    chunk_size: u32,
    content_hash: Seq<u8>,
) -> bool {
    match m {
        RoomAppMessage::FileMeta {
            id: i,
            name: n,
            mime: t,
            size: s,
            chunks: c,
            chunk_size: cs,
            content_hash: h,
        } => i@ == id && n@ == name && t@ == mime && s == size && c == chunks && cs == chunk_size
            && h@ == content_hash,
        _ => false,
    }
}

/// A message carries a chunk.
pub open spec fn carries(m: RoomAppMessage, id: Seq<u8>, index: u32, bytes: Seq<u8>) -> bool {
    match m {
        RoomAppMessage::FileChunk { id: i, index: x, bytes: b } => i@ == id && x == index && b@
            == bytes,
        _ => false,
    }
}

proof fn lemma_chunk_bounds(len: int, cs: int, i: int)
    requires
        len >= 0,
        cs > 0,
        0 <= i < chunk_count(len, cs),
    ensures
        0 <= i * cs < len,
        i * cs < chunk_end(len, cs, i) <= len,
        i < chunk_count(len, cs) - 1 ==> chunk_end(len, cs, i) == (i + 1) * cs,
        i == chunk_count(len, cs) - 1 ==> chunk_end(len, cs, i) == len,
        chunk_end(len, cs, i) - i * cs <= cs,
{
    let n = chunk_count(len, cs);
    vstd::arithmetic::div_mod::lemma_fundamental_div_mod(len + cs - 1, cs);
    vstd::arithmetic::div_mod::lemma_mod_bound(len + cs - 1, cs);
    assert(n * cs <= len + cs - 1 < n * cs + cs) by (nonlinear_arith)
        requires
            len + cs - 1 == cs * n + (len + cs - 1) % cs,
            0 <= (len + cs - 1) % cs < cs,
    ;
    assert(i * cs <= n * cs - cs) by (nonlinear_arith)
        requires
            i <= n - 1,
            cs > 0,
    ;
    assert(i * cs >= 0) by (nonlinear_arith)
        requires
            i >= 0,
            cs > 0,
    ;
    assert((i + 1) * cs == i * cs + cs) by (nonlinear_arith);
    if i < n - 1 {
        assert((i + 1) * cs <= n * cs - cs) by (nonlinear_arith)
            requires
                i + 1 <= n - 1,
                cs > 0,
        ;
    } else {
        assert((i + 1) * cs == n * cs);
    }
}

proof fn lemma_chunk_count(len: int, cs: int)
    requires
        len >= 0,
        cs > 0,
    ensures
        chunk_count(len, cs) >= 0,
        (chunk_count(len, cs) - 1) * cs < len || chunk_count(len, cs) == 0,
        len <= chunk_count(len, cs) * cs,
        len == 0 <==> chunk_count(len, cs) == 0,
        len > 0 ==> brackets(len, chunk_count(len, cs), cs),
{
    let n = chunk_count(len, cs);
    vstd::arithmetic::div_mod::lemma_fundamental_div_mod(len + cs - 1, cs);
    vstd::arithmetic::div_mod::lemma_mod_bound(len + cs - 1, cs);
    vstd::arithmetic::div_mod::lemma_div_pos_is_pos(len + cs - 1, cs);
    assert(n * cs <= len + cs - 1 < n * cs + cs) by (nonlinear_arith)
        requires
            len + cs - 1 == cs * n + (len + cs - 1) % cs,
            0 <= (len + cs - 1) % cs < cs,
    ;
    assert((n - 1) * cs == n * cs - cs) by (nonlinear_arith);
    if n == 0 {
        assert(n * cs == 0) by (nonlinear_arith)
            requires
                n == 0,
        ;
    }
    if len == 0 && n > 0 {
        assert(n * cs >= cs) by (nonlinear_arith)
            requires
                n >= 1,
                cs > 0,
        ;
    }
}

/// Cut a file into chunks: the announcement first, then the chunks in order.
pub fn chunk_file_for_send(
    id: [u8; 16],
    name: &str,
    mime: &str,
    bytes: &[u8],
    chunk_size: u32,
    content_hash: &[u8; 32],
) -> (out: Vec<RoomAppMessage>)
    requires
        chunk_size > 0,
    ensures
        out@.len() == chunk_count(bytes@.len() as int, chunk_size as int) + 1,
        announces(
            out@[0],
            id@,
            name@,
            mime@,
            bytes@.len() as int,
            announced_chunks(bytes@.len() as int, chunk_size as int),
            chunk_size,
            content_hash@,
        ),
        forall|i: int|
            0 <= i < chunk_count(bytes@.len() as int, chunk_size as int) ==> carries(
                #[trigger] out@[i + 1],
                id@,
                chunk_index(i),
                chunk_at(bytes@, chunk_size as int, i),
            ),
{
    let size: u64 = bytes.len() as u64;
    let ghost len = bytes@.len() as int;
    let ghost cs = chunk_size as int;
    let count: u64 = if size == 0 {
        0
    } else {
        (size - 1) / chunk_size as u64 + 1
    };
    proof {
        lemma_chunk_count(len, cs);
        if len > 0 {
            assert((len - 1 + cs) / cs == (len - 1) / cs + 1) by {
                vstd::arithmetic::div_mod::lemma_div_plus_one(len - 1, cs);
            }
        }
        assert(count == chunk_count(len, cs));
    }
    let announced: u64 = if count == 0 {
        1
    } else {
        count
    };
    let chunks: u32 = (announced % 0x1_0000_0000) as u32;
    let mut out: Vec<RoomAppMessage> = Vec::new();
    out.push(
        RoomAppMessage::FileMeta {
            id: copy_bytes(id.as_slice()),
            name: name.to_owned(),
            mime: mime.to_owned(),
            size,
            chunks,
            chunk_size,
            content_hash: copy_bytes(content_hash.as_slice()),
        },
    );
    let mut i: u64 = 0;
    let mut at: usize = 0;
    let total: usize = bytes.len();
    while i < count
        invariant
            i <= count,
            count == chunk_count(len, cs),
            len == bytes@.len(),
            total == bytes.len(),
            cs == chunk_size,
            cs > 0,
            i < count ==> at == i * cs,
            out@.len() == i + 1,
            announces(
                out@[0],
                id@,
                name@,
                mime@,
                len,
                announced_chunks(len, cs),
                chunk_size,
                content_hash@,
            ),
            forall|j: int|
                0 <= j < i ==> carries(
                    #[trigger] out@[j + 1],
                    id@,
                    chunk_index(j),
                    chunk_at(bytes@, cs, j),
                ),
        decreases count - i,
    {
        proof {
            lemma_chunk_bounds(len, cs, i as int);
            assert((i + 1) * cs == i * cs + cs) by (nonlinear_arith);
        }
        let end: usize = if total - at > chunk_size as usize {
            at + chunk_size as usize
        } else {
            total
        };
        let index: u32 = if i <= u32::MAX as u64 {
            i as u32
        } else {
            u32::MAX
        };
        let piece = copy_range(bytes, at, end);
        proof {
            assert(end == chunk_end(len, cs, i as int));
            assert(piece@ == chunk_at(bytes@, cs, i as int));
        }
        let ghost before = out@;
        out.push(
            RoomAppMessage::FileChunk { id: copy_bytes(id.as_slice()), index, bytes: piece },
        );
        proof {
            assert forall|j: int| 0 <= j < i + 1 implies carries(
                #[trigger] out@[j + 1],
                id@,
                chunk_index(j),
                chunk_at(bytes@, cs, j),
            ) by {
                if j < i {
                    assert(out@[j + 1] == before[j + 1]);
                }
            }
        }
        at = end;
        i += 1;
    }
    out
}

/// The chunks of a file up to index `n`, put together.
pub open spec fn assembled(parts: Map<u32, Seq<u8>>, n: nat) -> Seq<u8>
    decreases n,
{
    if n == 0 {
        Seq::empty()
    } else {
        assembled(parts, (n - 1) as nat) + parts[(n - 1) as u32]
    }
}

proof fn lemma_assembled_prefix(bytes: Seq<u8>, cs: int, parts: Map<u32, Seq<u8>>, k: nat)
    requires
        cs > 0,
        k <= chunk_count(bytes.len() as int, cs) <= u32::MAX,
        forall|i: int|
            0 <= i < chunk_count(bytes.len() as int, cs) ==> #[trigger] parts[i as u32] == chunk_at(
                bytes,
                cs,
                i,
            ),
    ensures
        assembled(parts, k) == bytes.take(
            if k == 0 {
                0
            } else {
                chunk_end(bytes.len() as int, cs, k - 1)
            },
        ),
    decreases k,
{
    if k > 0 {
        let len = bytes.len() as int;
        lemma_assembled_prefix(bytes, cs, parts, (k - 1) as nat);
        lemma_chunk_bounds(len, cs, k - 1);
        let i = k - 1;
        assert(parts[i as u32] == chunk_at(bytes, cs, i));
        let start = if i == 0 {
            0
        } else {
            chunk_end(len, cs, i - 1)
        };
        if i > 0 {
            lemma_chunk_bounds(len, cs, i - 1);
            assert((i - 1 + 1) * cs == i * cs);
        } else {
            assert(i * cs == 0) by (nonlinear_arith)
                requires
                    i == 0,
            ;
        }
        assert(start == i * cs);
        assert(assembled(parts, k) =~= bytes.take(chunk_end(len, cs, i)));
    }
}

/// The chunks of a file, put together, are the file.
pub proof fn law_chunks_make_the_file(bytes: Seq<u8>, chunk_size: u32, parts: Map<u32, Seq<u8>>)
    requires
        chunk_size > 0,
        chunk_count(bytes.len() as int, chunk_size as int) <= u32::MAX,
        forall|i: int|
            0 <= i < chunk_count(bytes.len() as int, chunk_size as int) ==> #[trigger] parts[i as u32]
                == chunk_at(bytes, chunk_size as int, i),
    ensures
        assembled(parts, chunk_count(bytes.len() as int, chunk_size as int) as nat) == bytes,
{
    let len = bytes.len() as int;
    let cs = chunk_size as int;
    let n = chunk_count(len, cs);
    lemma_chunk_count(len, cs);
    lemma_assembled_prefix(bytes, cs, parts, n as nat);
    if n > 0 {
        lemma_chunk_bounds(len, cs, n - 1);
    }
    assert(assembled(parts, n as nat) =~= bytes);
}

/// The transfers under way after chunks of a file came in some order.
pub open spec fn after_chunks(
    s: Seq<TransferModel>,
    sender: Seq<char>,
    id: Seq<u8>,
    bytes: Seq<u8>,
    chunk_size: int,
    order: Seq<u32>,
) -> Seq<TransferModel>
    decreases order.len(),
{
    if order.len() == 0 {
        s
    } else {
        after_chunk(
            after_chunks(s, sender, id, bytes, chunk_size, order.drop_last()),
            sender,
            id,
            order.last(),
            chunk_at(bytes, chunk_size, order.last() as int),
        )
    }
}

/// The chunks with these indices.
pub open spec fn chunks_of(bytes: Seq<u8>, chunk_size: int, order: Seq<u32>) -> Map<u32, Seq<u8>> {
    Map::new(|i: u32| order.contains(i), |i: u32| chunk_at(bytes, chunk_size, i as int))
}

/// Every index of the file's chunks once, in some order.
pub open spec fn is_order(order: Seq<u32>, n: int) -> bool {
    &&& order.no_duplicates()
    &&& order.len() == n
    &&& forall|i: int| 0 <= i < order.len() ==> (#[trigger] order[i]) < n
}

proof fn lemma_chunks_arrive(
    s: Seq<TransferModel>,
    at: int,
    sender: Seq<char>,
    id: Seq<u8>,
    bytes: Seq<u8>,
    order: Seq<u32>,
)
    requires
        find_transfer(s, sender, id) == Some(at),
        0 <= at < s.len(),
        s[at].sender == sender,
        s[at].id == id,
        s[at].file.chunk_size > 0,
        s[at].file.chunks == chunk_count(bytes.len() as int, s[at].file.chunk_size as int),
        s[at].file.received == Map::<u32, Seq<u8>>::empty(),
        order.no_duplicates(),
        order.len() < s[at].file.chunks,
        forall|i: int| 0 <= i < order.len() ==> (#[trigger] order[i]) < s[at].file.chunks,
    ensures
        ({
            let cs = s[at].file.chunk_size as int;
            let t = after_chunks(s, sender, id, bytes, cs, order);
            &&& find_transfer(t, sender, id) == Some(at)
            &&& t.len() == s.len()
            &&& t[at] == (TransferModel {
                file: FileModel { received: chunks_of(bytes, cs, order), ..s[at].file },
                ..s[at]
            })
        }),
    decreases order.len(),
{
    let cs = s[at].file.chunk_size as int;
    if order.len() == 0 {
        assert(chunks_of(bytes, cs, order) =~= Map::<u32, Seq<u8>>::empty());
    } else {
        let p = order.drop_last();
        let last = order.last();
        assert(p.no_duplicates());
        lemma_chunks_arrive(s, at, sender, id, bytes, p);
        let t = after_chunks(s, sender, id, bytes, cs, p);
        let f = t[at].file;
        lemma_received_len(bytes, cs, p);
        assert(order[order.len() - 1] == last);
        assert(!p.contains(last)) by {
            if p.contains(last) {
                let i = choose|i: int| 0 <= i < p.len() && p[i] == last;
                assert(order[i] == order[order.len() - 1]);
            }
        }
        lemma_chunk_fits(bytes, f, last);
        assert(verdict_on_chunk(f, last, chunk_at(bytes, cs, last as int))
            == ChunkVerdict::Buffered);
        let u = after_chunks(s, sender, id, bytes, cs, order);
        let g = TransferModel {
            file: with_chunk(f, last, chunk_at(bytes, cs, last as int)),
            ..t[at]
        };
        assert(u == t.update(at, g));
        lemma_find_update(t, at, g, sender, id);
        assert(chunks_of(bytes, cs, p).insert(last, chunk_at(bytes, cs, last as int)) =~= chunks_of(
            bytes,
            cs,
            order,
        )) by {
            assert forall|i: u32| order.contains(i) <==> p.contains(i) || i == last by {
                if order.contains(i) {
                    let k = choose|k: int| 0 <= k < order.len() && order[k] == i;
                    if k < p.len() {
                        assert(p[k] == i);
                    }
                }
                if p.contains(i) {
                    let k = choose|k: int| 0 <= k < p.len() && p[k] == i;
                    assert(order[k] == i);
                }
            }
        }
    }
}

proof fn lemma_find_update(
    s: Seq<TransferModel>,
    at: int,
    g: TransferModel,
    sender: Seq<char>,
    id: Seq<u8>,
)
    requires
        find_transfer(s, sender, id) == Some(at),
        0 <= at < s.len(),
        g.sender == s[at].sender,
        g.id == s[at].id,
    ensures
        find_transfer(s.update(at, g), sender, id) == Some(at),
    decreases s.len(),
{
    let u = s.update(at, g);
    if at < s.len() - 1 {
        assert(u.last() == s.last());
        assert(u.drop_last() =~= s.drop_last().update(at, g));
        lemma_find_update(s.drop_last(), at, g, sender, id);
    } else {
        lemma_find_at(s, sender, id, at);
    }
}

proof fn lemma_find_at(s: Seq<TransferModel>, sender: Seq<char>, id: Seq<u8>, at: int)
    requires
        find_transfer(s, sender, id) == Some(at),
    ensures
        0 <= at < s.len(),
        s[at].sender == sender,
        s[at].id == id,
    decreases s.len(),
{
    if s.len() > 0 && !(s.last().sender == sender && s.last().id == id) {
        lemma_find_at(s.drop_last(), sender, id, at);
    }
}

proof fn lemma_received_len(bytes: Seq<u8>, cs: int, order: Seq<u32>)
    requires
        order.no_duplicates(),
    ensures
        chunks_of(bytes, cs, order).dom().finite(),
        chunks_of(bytes, cs, order).dom().len() == order.len(),
{
    order.unique_seq_to_set();
    assert(chunks_of(bytes, cs, order).dom() =~= order.to_set());
}

proof fn lemma_chunk_fits(bytes: Seq<u8>, f: FileModel, i: u32)
    requires
        f.chunk_size > 0,
        f.chunks == chunk_count(bytes.len() as int, f.chunk_size as int),
        i < f.chunks,
    ensures
        chunk_fits(f, i as int, chunk_at(bytes, f.chunk_size as int, i as int).len() as int),
{
    let cs = f.chunk_size as int;
    lemma_chunk_bounds(bytes.len() as int, cs, i as int);
    assert((i + 1) * cs == i * cs + cs) by (nonlinear_arith);
}

/// A file arrives whole whatever the order of its chunks: every chunk but the
/// last to come is kept, the last one completes the transfer, and what is put
/// together is the file that was cut up. (An empty file has no chunk, so its
/// transfer never starts.)
pub proof fn law_transfer_round_trip(
    s: Seq<TransferModel>,
    at: int,
    sender: Seq<char>,
    id: Seq<u8>,
    bytes: Seq<u8>,
    order: Seq<u32>,
)
    requires
        bytes.len() > 0,
        find_transfer(s, sender, id) == Some(at),
        0 <= at < s.len(),
        s[at].file.chunk_size > 0,
        s[at].file.chunks == chunk_count(bytes.len() as int, s[at].file.chunk_size as int),
        s[at].file.received == Map::<u32, Seq<u8>>::empty(),
        is_order(order, s[at].file.chunks as int),
    ensures
        ({
            let cs = s[at].file.chunk_size as int;
            let t = after_chunks(s, sender, id, bytes, cs, order.drop_last());
            let piece = chunk_at(bytes, cs, order.last() as int);
            &&& chunk_verdict(t, sender, id, order.last(), piece) == ChunkVerdict::Complete
            &&& find_transfer(t, sender, id) == Some(at)
            &&& assembled(
                with_chunk(t[at].file, order.last(), piece).received,
                s[at].file.chunks as nat,
            ) == bytes
        }),
{
    let cs = s[at].file.chunk_size as int;
    let n = s[at].file.chunks as int;
    lemma_chunk_count(bytes.len() as int, cs);
    lemma_find_at(s, sender, id, at);
    let p = order.drop_last();
    let last = order.last();
    assert forall|i: int| 0 <= i < p.len() implies (#[trigger] p[i]) < n by {
        assert(order[i] < n);
    }
    lemma_chunks_arrive(s, at, sender, id, bytes, p);
    let t = after_chunks(s, sender, id, bytes, cs, p);
    let f = t[at].file;
    lemma_received_len(bytes, cs, p);
    assert(order[order.len() - 1] == last);
    assert(!p.contains(last)) by {
        if p.contains(last) {
            let i = choose|i: int| 0 <= i < p.len() && p[i] == last;
            assert(order[i] == order[order.len() - 1]);
        }
    }
    lemma_chunk_fits(bytes, f, last);
    let parts = with_chunk(f, last, chunk_at(bytes, cs, last as int)).received;
    assert forall|i: int| 0 <= i < n implies #[trigger] parts[i as u32] == chunk_at(
        bytes,
        cs,
        i,
    ) by {
        lemma_order_covers(order, n, i);
        if i != last {
            let k = choose|k: int| 0 <= k < order.len() && order[k] == i;
            assert(p[k] == i as u32);
            assert(p.contains(i as u32));
        }
    }
    law_chunks_make_the_file(bytes, s[at].file.chunk_size, parts);
}

proof fn lemma_order_covers(order: Seq<u32>, n: int, i: int)
    requires
        is_order(order, n),
        0 <= i < n <= u32::MAX,
    ensures
        exists|k: int| 0 <= k < order.len() && order[k] == i,
{
    order.unique_seq_to_set();
    let all = Set::new(|x: u32| x < n);
    let ints = vstd::set_lib::set_int_range(0, n);
    vstd::set_lib::lemma_int_range(0, n);
    assert(all =~= ints.map(|x: int| x as u32)) by {
        assert forall|x: u32| all.contains(x) <==> ints.map(|x: int| x as u32).contains(x) by {
            if all.contains(x) {
                assert(ints.contains(x as int));
                assert((x as int) as u32 == x);
            }
        }
    }
    assert(all.finite() && all.len() <= n) by {
        vstd::set_lib::lemma_map_size_bound(ints, all, |x: int| x as u32);
    }
    assert(order.to_set().subset_of(all)) by {
        assert forall|x: u32| order.to_set().contains(x) implies all.contains(x) by {
            let k = choose|k: int| 0 <= k < order.len() && order[k] == x;
            assert(order[k] < n);
        }
    }
    vstd::set_lib::lemma_len_subset(order.to_set(), all);
    vstd::set_lib::lemma_subset_equality(order.to_set(), all);
    assert(all.contains(i as u32));
    assert(order.contains(i as u32));
}

/// The extension of a file name: what stands behind its last dot, if that dot is
/// not the first character.
pub open spec fn extension_of(name: Seq<char>) -> Option<Seq<char>> {
    match last_position(name, '.') {
        None => None,
        Some(i) => if i == 0 || name == ".."@ {
            None
        } else {
            Some(name.skip(i + 1))
        },
    }
}

/// The name that an outgoing file carries: its own, made safe, where the sender
/// wants to keep it; else `file.` and its extension, or `bin` where it has none.
pub open spec fn name_on_wire(raw: Seq<char>, keep_filename: bool) -> Seq<char> {
    if keep_filename {
        sanitized_name(raw)
    } else {
        "file."@ + match extension_of(raw) {
            Some(e) => e,
            None => "bin"@,
        }
    }
}

/// The name to send with a file.
pub fn wire_name(raw_name: &str, keep_filename: bool) -> (r: String)
    ensures
        r@ == name_on_wire(raw_name@, keep_filename),
{
    if keep_filename {
        return sanitize_filename(raw_name);
    }
    let v = chars_of(raw_name);
    let n: usize = v.len();
    match find_last(v.as_slice(), '.') {
        None => join2("file.", "bin"),
        Some(i) => if i == 0 || same_text(raw_name, "..") {
            join2("file.", "bin")
        } else {
            let ext = vstd::slice::slice_subrange(v.as_slice(), i + 1, n);
            assert(ext@ =~= raw_name@.skip(i + 1));
            join2("file.", text_of(ext).as_str())
        },
    }
}

/// A file whose name is not to be kept tells nothing of it but the extension:
/// names with the same extension look the same.
pub proof fn law_name_is_hidden(a: Seq<char>, b: Seq<char>)
    requires
        extension_of(a) == extension_of(b),
    ensures
        name_on_wire(a, false) == name_on_wire(b, false),
{
}

/// A file is cut into pieces without gap or overlap: every piece but the last is full, the
/// last is not empty and no longer, and each holds the bytes that stand at its place.
pub proof fn law_pieces_of_a_file(bytes: Seq<u8>, chunk_size: int, i: int, k: int)
    requires
        chunk_size > 0,
        0 <= i < chunk_count(bytes.len() as int, chunk_size),
        0 <= k < chunk_at(bytes, chunk_size, i).len(),
    ensures
        ({
            let n = chunk_count(bytes.len() as int, chunk_size);
            let piece = chunk_at(bytes, chunk_size, i);
            &&& (n - 1) * chunk_size < bytes.len() <= n * chunk_size
            &&& i < n - 1 ==> piece.len() == chunk_size
            &&& i == n - 1 ==> 0 < piece.len() <= chunk_size && piece.len() == bytes.len() - (n - 1)
                * chunk_size
            &&& piece[k] == bytes[i * chunk_size + k]
        }),
{
    let len = bytes.len() as int;
    lemma_chunk_count(len, chunk_size);
    lemma_chunk_bounds(len, chunk_size, i);
    let n = chunk_count(len, chunk_size);
    if n == 0 {
        assert(false);
    }
    assert((i + 1) * chunk_size == i * chunk_size + chunk_size) by (nonlinear_arith);
}

/// An announcement names as many pieces as there are, and one for an empty file; pieces
/// are numbered from zero on.
pub proof fn law_pieces_are_numbered(len: int, chunk_size: int, i: int)
    requires
        len >= 0,
        chunk_size > 0,
        chunk_count(len, chunk_size) <= u32::MAX,
        0 <= i <= u32::MAX,
    ensures
        len > 0 ==> announced_chunks(len, chunk_size) == chunk_count(len, chunk_size),
        len == 0 ==> announced_chunks(len, chunk_size) == 1,
        chunk_index(i) == i,
{
    lemma_chunk_count(len, chunk_size);
}

/// A file that is sent without its name goes out as `file.` and its extension.
pub proof fn law_extension_is_kept(stem: Seq<char>, extension: Seq<char>)
    requires
        stem.len() > 0,
        !extension.contains('.'),
        extension.len() > 0,
    ensures
        name_on_wire(stem.push('.') + extension, false) == "file."@ + extension,
{
    reveal_strlit("..");
    let raw = stem.push('.') + extension;
    lemma_last_dot(stem, extension);
    assert(raw.skip(stem.len() as int + 1) =~= extension);
    if raw == ".."@ {
        assert(raw.last() == extension.last());
        assert(extension.contains(extension.last()));
    }
}

/// A file without an extension goes out as `file.bin` where its name is hidden.
pub proof fn law_no_extension_is_bin(raw: Seq<char>)
    requires
        !raw.contains('.'),
    ensures
        name_on_wire(raw, false) == "file."@ + "bin"@,
{
    lemma_no_dot(raw);
}

proof fn lemma_last_dot(stem: Seq<char>, tail: Seq<char>)
    requires
        !tail.contains('.'),
    ensures
        last_position(stem.push('.') + tail, '.') == Some(stem.len() as int),
    decreases tail.len(),
{
    let s = stem.push('.') + tail;
    if tail.len() == 0 {
        assert(s =~= stem.push('.'));
    } else {
        assert(tail.contains(tail.last()));
        assert(s.drop_last() =~= stem.push('.') + tail.drop_last());
        assert forall|i: int| 0 <= i < tail.drop_last().len() implies tail.drop_last()[i] != '.' by {
            assert(tail.contains(tail[i]));
        }
        lemma_last_dot(stem, tail.drop_last());
    }
}

proof fn lemma_no_dot(s: Seq<char>)
    requires
        !s.contains('.'),
    ensures
        last_position(s, '.') is None,
    decreases s.len(),
{
    if s.len() > 0 {
        assert(s.contains(s.last()));
        assert forall|i: int| 0 <= i < s.drop_last().len() implies s.drop_last()[i] != '.' by {
            assert(s.contains(s[i]));
        }
        lemma_no_dot(s.drop_last());
    }
}

/// What an announcement and a piece say of a file.
pub proof fn law_messages_of_a_file(
    m: RoomAppMessage,
    id: Seq<u8>,
    name: Seq<char>,
    mime: Seq<char>,
    size: int,
    chunks: u32,
    chunk_size: u32,
    content_hash: Seq<u8>,
    index: u32,
    bytes: Seq<u8>,
)
    ensures
        announces(m, id, name, mime, size, chunks, chunk_size, content_hash) <==> (
        m matches RoomAppMessage::FileMeta {
            id: i,
            name: n,
            mime: t,
            size: s,
            chunks: c,
            chunk_size: z,
            content_hash: h,
        } && i@ == id && n@ == name && t@ == mime && s == size && c == chunks && z == chunk_size
            && h@ == content_hash),
        carries(m, id, index, bytes) <==> (m matches RoomAppMessage::FileChunk {
            id: i,
            index: x,
            bytes: b,
        } && i@ == id && x == index && b@ == bytes),
{
}

} // verus!
