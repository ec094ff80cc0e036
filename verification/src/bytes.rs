//! Rows of bytes: big-endian numbers and fixed-size blocks.
use vstd::prelude::*;

verus! {

/// The four bytes of a number, the high byte first.
pub open spec fn be32(n: u32) -> Seq<u8> {
    seq![
        (n / 0x100_0000) as u8,
        (n / 0x1_0000 % 256) as u8,
        (n / 0x100 % 256) as u8,
        (n % 256) as u8,
    ]
}

/// The number that four bytes stand for, the high byte first.
pub open spec fn be32_value(s: Seq<u8>) -> u32 {
    (s[0] * 0x100_0000 + s[1] * 0x1_0000 + s[2] * 0x100 + s[3]) as u32
}

/// Four bytes give back the number that they were written from.
pub proof fn lemma_be32_round_trip(n: u32)
    ensures
        be32(n).len() == 4,
        be32_value(be32(n)) == n,
{
}

/// Append the four bytes of `n`.
pub fn push_be32(out: &mut Vec<u8>, n: u32)
    ensures
        final(out)@ == old(out)@ + be32(n),
{
    let ghost before = out@;
    out.push((n / 0x100_0000) as u8);
    out.push((n / 0x1_0000 % 256) as u8);
    out.push((n / 0x100 % 256) as u8);
    out.push((n % 256) as u8);
    assert(out@ =~= before + be32(n));
}

/// Read four bytes from position `at` on.
pub fn read_be32(bytes: &[u8], at: usize) -> (n: u32)
    requires
        at + 4 <= bytes@.len(),
    ensures
        n == be32_value(bytes@.subrange(at as int, at + 4)),
{
    bytes[at] as u32 * 0x100_0000 + bytes[at + 1] as u32 * 0x1_0000 + bytes[at + 2] as u32 * 0x100
        + bytes[at + 3] as u32
}

/// Append all of `more`.
pub fn append_bytes(out: &mut Vec<u8>, more: &[u8])
    ensures
        final(out)@ == old(out)@ + more@,
{
    let ghost before = out@;
    let mut i: usize = 0;
    while i < more.len()
        invariant
            i <= more.len(),
            out@ == before + more@.take(i as int),
        decreases more.len() - i,
    {
        out.push(more[i]);
        i += 1;
        assert(more@.take(i as int) =~= more@.take(i - 1).push(more@[i - 1]));
        assert(out@ =~= before + more@.take(i as int));
    }
    assert(more@.take(i as int) =~= more@);
}

/// A copy of a row of bytes.
pub fn copy_bytes(bytes: &[u8]) -> (v: Vec<u8>)
    ensures
        v@ == bytes@,
{
    vstd::slice::slice_to_vec(bytes)
}

/// A copy of the bytes from `from` to `to`.
pub fn copy_range(bytes: &[u8], from: usize, to: usize) -> (v: Vec<u8>)
    requires
        from <= to <= bytes@.len(),
    ensures
        v@ == bytes@.subrange(from as int, to as int),
{
    vstd::slice::slice_to_vec(vstd::slice::slice_subrange(bytes, from, to))
}

/// Rows of bytes put one after the other.
pub open spec fn concat(rows: Seq<Seq<u8>>) -> Seq<u8>
    decreases rows.len(),
{
    if rows.len() == 0 {
        Seq::empty()
    } else {
        concat(rows.drop_last()) + rows.last()
    }
}

/// The rows of bytes of a list.
pub open spec fn rows_of(v: Seq<Vec<u8>>) -> Seq<Seq<u8>> {
    v.map_values(|r: Vec<u8>| r@)
}

/// A list of rows cut into blocks of `n` bytes.
pub open spec fn blocks(s: Seq<u8>, n: int) -> Seq<Seq<u8>> {
    Seq::new((s.len() as int / n) as nat, |i: int| s.subrange(n * i, n * i + n))
}

/// Rows of `n` bytes each take `n` times their number.
pub proof fn lemma_concat_len(rows: Seq<Seq<u8>>, n: int)
    requires
        n >= 0,
        forall|i: int| 0 <= i < rows.len() ==> (#[trigger] rows[i]).len() == n,
    ensures
        concat(rows).len() == n * rows.len(),
    decreases rows.len(),
{
    if rows.len() > 0 {
        let p = rows.drop_last();
        assert forall|i: int| 0 <= i < p.len() implies (#[trigger] p[i]).len() == n by {
            assert(rows[i].len() == n);
        }
        lemma_concat_len(p, n);
        assert(rows[rows.len() - 1].len() == n);
        assert(n * (rows.len() - 1) + n == n * rows.len()) by (nonlinear_arith);
    } else {
        assert(n * 0 == 0) by (nonlinear_arith);
    }
}

/// Where a row of `n` bytes stands in the rows put together.
pub proof fn lemma_concat_at(rows: Seq<Seq<u8>>, n: int, i: int)
    requires
        n >= 0,
        forall|k: int| 0 <= k < rows.len() ==> (#[trigger] rows[k]).len() == n,
        0 <= i < rows.len(),
    ensures
        0 <= n * i,
        n * i + n <= concat(rows).len(),
        concat(rows).subrange(n * i, n * i + n) == rows[i],
    decreases rows.len(),
{
    let p = rows.drop_last();
    assert forall|k: int| 0 <= k < p.len() implies (#[trigger] p[k]).len() == n by {
        assert(rows[k].len() == n);
    }
    lemma_concat_len(rows, n);
    lemma_concat_len(p, n);
    assert(rows[i].len() == n);
    assert(n * i >= 0) by (nonlinear_arith)
        requires
            n >= 0,
            i >= 0,
    ;
    assert(n * i + n <= n * rows.len()) by (nonlinear_arith)
        requires
            n >= 0,
            i + 1 <= rows.len(),
    ;
    if i == rows.len() - 1 {
        assert(concat(rows).subrange(n * i, n * i + n) =~= rows[i]);
    } else {
        lemma_concat_at(p, n, i);
        assert(concat(rows).subrange(n * i, n * i + n) =~= concat(p).subrange(n * i, n * i + n));
    }
}

} // verus!
