//! Replay defence for envelopes that a hub delivers.
//!
//! A hub can send an envelope again that it has delivered before: the
//! ciphertext is still valid, so the recipient would show the message twice.
//! The guard remembers the BLAKE2b digests of the envelopes it has accepted, in
//! the order of their arrival, up to a fixed number. A replay does not move its
//! entry: whoever keeps replaying an old envelope cannot keep it alive.
use vstd::prelude::*;

use std::collections::VecDeque;

use crate::bytes::{
    append_bytes, be32, be32_value, blocks, concat, copy_range, lemma_be32_round_trip,
    lemma_concat_at, lemma_concat_len, push_be32, read_be32,
};
use crate::codec::{blake2b_128, blake2b_16, to_array};
use crate::list_map::same_array;

verus! {

/// How many digests a guard remembers by default.
pub const DEFAULT_CAPACITY: usize = 4096;

/// What a guard remembers: digests, the oldest first, and how many it may hold.
pub struct GuardModel {
    pub order: Seq<Seq<u8>>,
    pub capacity: nat,
}

/// Whether a digest is new to a guard.
pub open spec fn is_new(m: GuardModel, d: Seq<u8>) -> bool {
    !m.order.contains(d)
}

/// The digests after `d` has been seen: a known digest changes nothing, a new
/// one goes to the end and pushes the oldest out where there is no room.
pub open spec fn recorded(m: GuardModel, d: Seq<u8>) -> GuardModel {
    if m.order.contains(d) {
        m
    } else {
        let longer = m.order.push(d);
        GuardModel {
            order: if longer.len() > m.capacity {
                longer.skip(1)
            } else {
                longer
            },
            capacity: m.capacity,
        }
    }
}

/// The digests after a row of them has been seen.
pub open spec fn recorded_all(m: GuardModel, ds: Seq<Seq<u8>>) -> GuardModel
    decreases ds.len(),
{
    if ds.len() == 0 {
        m
    } else {
        recorded(recorded_all(m, ds.drop_last()), ds.last())
    }
}

/// No digest twice, no more than the capacity, sixteen bytes each.
pub open spec fn guard_wf(m: GuardModel) -> bool {
    &&& m.order.no_duplicates()
    &&& m.order.len() <= m.capacity
    &&& 1 <= m.capacity <= usize::MAX
    &&& forall|i: int| 0 <= i < m.order.len() ==> (#[trigger] m.order[i]).len() == 16
}

/// A number as four bytes, the largest one where it does not fit.
pub open spec fn clamp32(n: nat) -> u32 {
    if n <= u32::MAX {
        n as u32
    } else {
        u32::MAX
    }
}

/// The first four bytes of a snapshot.
pub open spec fn magic() -> Seq<u8> {
    seq![0x4fu8, 0x52u8, 0x47u8, 0x31u8]
}

/// The bytes of a snapshot: the magic, the capacity, the number of digests, and
/// the digests, the oldest first.
pub open spec fn snapshot_bytes(m: GuardModel) -> Seq<u8> {
    magic() + be32(clamp32(m.capacity)) + be32(clamp32(m.order.len())) + concat(m.order)
}

/// A row with every later repetition dropped.
pub open spec fn distinct(s: Seq<Seq<u8>>) -> Seq<Seq<u8>>
    decreases s.len(),
{
    if s.len() == 0 {
        s
    } else if distinct(s.drop_last()).contains(s.last()) {
        distinct(s.drop_last())
    } else {
        distinct(s.drop_last()).push(s.last())
    }
}

/// What a snapshot says, if it is well formed: the magic is right, the digests
/// are as many as it claims and no more than the capacity it claims, and nothing
/// follows them.
pub open spec fn parsed_snapshot(bytes: Seq<u8>) -> Option<GuardModel> {
    let capacity = be32_value(bytes.subrange(4, 8));
    let count = be32_value(bytes.subrange(8, 12));
    if bytes.len() >= 12 && bytes.subrange(0, 4) == magic() && bytes.len() == 12 + 16 * count
        && count <= capacity {
        Some(
            GuardModel {
                order: distinct(blocks(bytes.skip(12), 16)),
                capacity: if capacity == 0 {
                    1
                } else {
                    capacity as nat
                },
            },
        )
    } else {
        None
    }
}

proof fn lemma_distinct(s: Seq<Seq<u8>>)
    ensures
        distinct(s).no_duplicates(),
        distinct(s).len() <= s.len(),
        forall|x: Seq<u8>| distinct(s).contains(x) <==> s.contains(x),
    decreases s.len(),
{
    if s.len() > 0 {
        let p = s.drop_last();
        lemma_distinct(p);
        let dp = distinct(p);
        assert forall|x: Seq<u8>| distinct(s).contains(x) <==> s.contains(x) by {
            if s.contains(x) {
                let i = choose|i: int| 0 <= i < s.len() && s[i] == x;
                if i < p.len() {
                    assert(p[i] == x);
                    assert(p.contains(x));
                    assert(dp.contains(x));
                    let j = choose|j: int| 0 <= j < dp.len() && dp[j] == x;
                    assert(distinct(s)[j] == x);
                } else if !dp.contains(s.last()) {
                    assert(distinct(s)[dp.len() as int] == x);
                }
            }
            if distinct(s).contains(x) {
                let j = choose|j: int| 0 <= j < distinct(s).len() && distinct(s)[j] == x;
                if j < dp.len() {
                    assert(dp[j] == x);
                    assert(p.contains(x));
                    let i = choose|i: int| 0 <= i < p.len() && p[i] == x;
                    assert(s[i] == x);
                } else {
                    assert(s[s.len() - 1] == x);
                }
            }
        }
        if !dp.contains(s.last()) {
            assert forall|i: int, j: int|
                0 <= i < distinct(s).len() && 0 <= j < distinct(s).len() && i != j implies distinct(
                s,
            )[i] != distinct(s)[j] by {
                if i < dp.len() {
                    assert(dp.contains(dp[i]));
                }
                if j < dp.len() {
                    assert(dp.contains(dp[j]));
                }
            }
        }
    }
}

proof fn lemma_distinct_of_distinct(s: Seq<Seq<u8>>)
    requires
        s.no_duplicates(),
    ensures
        distinct(s) == s,
    decreases s.len(),
{
    if s.len() > 0 {
        let p = s.drop_last();
        lemma_distinct_of_distinct(p);
        assert(!p.contains(s.last())) by {
            if p.contains(s.last()) {
                let i = choose|i: int| 0 <= i < p.len() && p[i] == s.last();
                assert(s[i] == s[s.len() - 1]);
            }
        }
        assert(distinct(s) =~= s);
    }
}

/// Remembers the digests of the envelopes that were accepted.
#[derive(Debug)]
pub struct EnvelopeReplayGuard {
    order: VecDeque<[u8; 16]>,
    capacity: usize,
}

impl View for EnvelopeReplayGuard {
    type V = GuardModel;

    closed spec fn view(&self) -> GuardModel {
        GuardModel {
            order: self.order@.map_values(|h: [u8; 16]| h@),
            capacity: self.capacity as nat,
        }
    }
}

impl EnvelopeReplayGuard {
    pub open spec fn wf(&self) -> bool {
        guard_wf(self@)
    }

    /// A guard for `capacity` digests; a guard for none is taken as one for one.
    pub fn with_capacity(capacity: usize) -> (g: Self)
        ensures
            g.wf(),
            g@.order == Seq::<Seq<u8>>::empty(),
            g@.capacity == if capacity == 0 {
                1
            } else {
                capacity as nat
            },
    {
        let cap: usize = if capacity == 0 {
            1
        } else {
            capacity
        };
        let g = EnvelopeReplayGuard { order: VecDeque::new(), capacity: cap };
        assert(g@.order =~= Seq::<Seq<u8>>::empty());
        g
    }

    /// A guard for [`DEFAULT_CAPACITY`] digests.
    pub fn new() -> (g: Self)
        ensures
            g.wf(),
            g@.order == Seq::<Seq<u8>>::empty(),
            g@.capacity == DEFAULT_CAPACITY,
    {
        Self::with_capacity(DEFAULT_CAPACITY)
    }

    fn knows(&self, digest: &[u8; 16]) -> (r: bool)
        ensures
            r == self@.order.contains(digest@),
    {
        let mut i: usize = 0;
        while i < self.order.len()
            invariant
                i <= self.order@.len(),
                forall|j: int| 0 <= j < i ==> #[trigger] self.order@[j] != *digest,
            decreases self.order@.len() - i,
        {
            if same_array(&self.order[i], digest) {
                assert(self@.order[i as int] == digest@);
                return true;
            }
            i += 1;
        }
        proof {
            if self@.order.contains(digest@) {
                let j = choose|j: int| 0 <= j < self@.order.len() && self@.order[j] == digest@;
                assert(self.order@[j]@ == digest@);
                assert(self.order@[j] =~= *digest);
            }
        }
        false
    }

    /// Take note of an envelope's body. `true`: it is new, process it. `false`:
    /// it was seen before, drop it.
    pub fn check_and_record(&mut self, body: &[u8]) -> (fresh: bool)
        requires
            old(self).wf(),
        ensures
            final(self).wf(),
            fresh == is_new(old(self)@, blake2b_16(body@)),
            final(self)@ == recorded(old(self)@, blake2b_16(body@)),
    {
        let digest = blake2b_128(body);
        self.record_digest(digest)
    }

    /// Take note of a digest. `true`: it is new.
    pub fn record_digest(&mut self, digest: [u8; 16]) -> (fresh: bool)
        requires
            old(self).wf(),
        ensures
            final(self).wf(),
            fresh == is_new(old(self)@, digest@),
            final(self)@ == recorded(old(self)@, digest@),
    {
        if self.knows(&digest) {
            return false;
        }
        let ghost before = self@;
        let ghost raw = self.order@;
        self.order.push_back(digest);
        proof {
            assert(self@.order =~= before.order.push(digest@));
        }
        if self.order.len() > self.capacity {
            let _ = self.order.pop_front();
            proof {
                assert(self@.order =~= before.order.push(digest@).skip(1));
            }
        }
        proof {
            lemma_recorded_wf(before, digest@);
            assert(self@ == recorded(before, digest@));
        }
        true
    }

    /// How many digests the guard remembers.
    pub fn len(&self) -> (n: usize)
        ensures
            n == self@.order.len(),
    {
        self.order.len()
    }

    /// How many digests the guard may remember.
    pub fn capacity(&self) -> (n: usize)
        ensures
            n == self@.capacity,
    {
        self.capacity
    }

    /// Whether the guard remembers nothing.
    pub fn is_empty(&self) -> (r: bool)
        ensures
            r == (self@.order.len() == 0),
    {
        self.order.len() == 0
    }

    /// The guard's state as bytes, to be kept across a restart.
    pub fn snapshot(&self) -> (out: Vec<u8>)
        ensures
            out@ == snapshot_bytes(self@),
    {
        let mut out: Vec<u8> = Vec::new();
        out.push(0x4f);
        out.push(0x52);
        out.push(0x47);
        out.push(0x31);
        proof {
            assert(out@ =~= magic());
        }
        push_be32(&mut out, clamp_u32(self.capacity));
        push_be32(&mut out, clamp_u32(self.order.len()));
        let ghost head = out@;
        let ghost order = self@.order;
        let mut i: usize = 0;
        proof {
            assert(order.take(0) =~= Seq::<Seq<u8>>::empty());
            assert(out@ =~= head + concat(order.take(0)));
        }
        while i < self.order.len()
            invariant
                i <= self.order@.len(),
                order == self@.order,
                out@ == head + concat(order.take(i as int)),
            decreases self.order@.len() - i,
        {
            append_bytes(&mut out, self.order[i].as_slice());
            i += 1;
            proof {
                assert(order.take(i as int).drop_last() =~= order.take(i - 1));
                assert(order.take(i as int).last() == self.order@[i - 1]@);
                assert(out@ =~= head + concat(order.take(i as int)));
            }
        }
        proof {
            assert(order.take(i as int) =~= order);
        }
        out
    }

    /// The guard that a snapshot describes; an error where it is not well formed.
    pub fn restore(bytes: &[u8]) -> (r: Result<Self, ()>)
        ensures
            match r {
                Ok(g) => g.wf() && parsed_snapshot(bytes@) == Some(g@),
                Err(_) => parsed_snapshot(bytes@) is None,
            },
    {
        if bytes.len() < 12 {
            return Err(());
        }
        if bytes[0] != 0x4f || bytes[1] != 0x52 || bytes[2] != 0x47 || bytes[3] != 0x31 {
            proof {
                assert(bytes@.subrange(0, 4)[0] == bytes@[0]);
                assert(bytes@.subrange(0, 4)[1] == bytes@[1]);
                assert(bytes@.subrange(0, 4)[2] == bytes@[2]);
                assert(bytes@.subrange(0, 4)[3] == bytes@[3]);
            }
            return Err(());
        }
        proof {
            assert(bytes@.subrange(0, 4) =~= magic());
        }
        let capacity: u32 = read_be32(bytes, 4);
        let count: u32 = read_be32(bytes, 8);
        if bytes.len() as u64 != 12 + 16 * count as u64 {
            return Err(());
        }
        if count > capacity {
            return Err(());
        }
        let ghost all = blocks(bytes@.skip(12), 16);
        let mut g = Self::with_capacity(capacity as usize);
        let n: usize = count as usize;
        let mut i: usize = 0;
        proof {
            assert(all.len() == n);
            assert(all.take(0) =~= Seq::<Seq<u8>>::empty());
        }
        while i < n
            invariant
                i <= n,
                n == count,
                count <= capacity,
                bytes@.len() == 12 + 16 * n,
                bytes.len() == 12 + 16 * n,
                all == blocks(bytes@.skip(12), 16),
                all.len() == n,
                g@.capacity == if capacity == 0 {
                    1
                } else {
                    capacity as nat
                },
                g@.order == distinct(all.take(i as int)),
            decreases n - i,
        {
            let part = copy_range(bytes, 12 + i * 16, 12 + i * 16 + 16);
            let h: [u8; 16] = to_array::<16>(part.as_slice());
            let ghost before = g@.order;
            proof {
                assert(all[i as int] =~= h@);
                assert(all.take(i + 1).drop_last() =~= all.take(i as int));
                assert(all.take(i + 1).last() == h@);
            }
            if !g.knows(&h) {
                g.order.push_back(h);
                proof {
                    assert(g@.order =~= before.push(h@));
                }
            }
            i += 1;
        }
        proof {
            assert(all.take(n as int) =~= all);
            lemma_distinct(all);
            assert forall|k: int| 0 <= k < g@.order.len() implies (#[trigger] g@.order[k]).len()
                == 16 by {
                assert(g@.order[k] == g.order@[k]@);
            }
        }
        Ok(g)
    }
}

impl Default for EnvelopeReplayGuard {
    fn default() -> (g: Self)
        ensures
            g.wf(),
            g@.order == Seq::<Seq<u8>>::empty(),
            g@.capacity == DEFAULT_CAPACITY,
    {
        Self::new()
    }
}

fn clamp_u32(n: usize) -> (r: u32)
    ensures
        r == clamp32(n as nat),
{
    if n as u64 <= u32::MAX as u64 {
        n as u32
    } else {
        u32::MAX
    }
}

proof fn lemma_recorded_wf(m: GuardModel, d: Seq<u8>)
    requires
        guard_wf(m),
        d.len() == 16,
    ensures
        guard_wf(recorded(m, d)),
{
    if !m.order.contains(d) {
        let longer = m.order.push(d);
        assert(longer.no_duplicates()) by {
            assert forall|i: int, j: int|
                0 <= i < longer.len() && 0 <= j < longer.len() && i != j implies longer[i]
                != longer[j] by {
                if i < m.order.len() {
                    assert(m.order.contains(m.order[i]));
                }
                if j < m.order.len() {
                    assert(m.order.contains(m.order[j]));
                }
            }
        }
        let r = recorded(m, d);
        assert forall|i: int| 0 <= i < r.order.len() implies (#[trigger] r.order[i]).len() == 16 by {
            let k = if longer.len() > m.capacity {
                i + 1
            } else {
                i
            };
            if k < m.order.len() {
                assert(m.order[k].len() == 16);
            }
        }
    }
}

/// A restart loses nothing: the snapshot of a guard restores to the same
/// digests in the same order, and to the same capacity. The capacity is kept in
/// four bytes, so it must fit there.
pub proof fn law_snapshot_round_trip(m: GuardModel)
    requires
        guard_wf(m),
        m.capacity <= u32::MAX,
    ensures
        parsed_snapshot(snapshot_bytes(m)) == Some(m),
{
    let bytes = snapshot_bytes(m);
    let cap = clamp32(m.capacity);
    let count = clamp32(m.order.len());
    lemma_be32_round_trip(cap);
    lemma_be32_round_trip(count);
    lemma_concat_len(m.order, 16);
    assert(bytes.len() == 12 + 16 * count);
    assert(bytes.subrange(0, 4) =~= magic());
    assert(bytes.subrange(4, 8) =~= be32(cap));
    assert(bytes.subrange(8, 12) =~= be32(count));
    assert(bytes.skip(12) =~= concat(m.order));
    let all = blocks(bytes.skip(12), 16);
    assert(all.len() == m.order.len());
    assert forall|i: int| 0 <= i < all.len() implies all[i] == m.order[i] by {
        lemma_concat_at(m.order, 16, i);
    }
    assert(all =~= m.order);
    lemma_distinct_of_distinct(m.order);
}

/// What was just recorded is a replay from then on.
pub proof fn law_recorded_is_known(m: GuardModel, d: Seq<u8>)
    requires
        guard_wf(m),
    ensures
        recorded(m, d).order.contains(d),
        recorded(recorded(m, d), d) == recorded(m, d),
{
    if !m.order.contains(d) {
        let r = recorded(m, d);
        assert(r.order[r.order.len() - 1] == d);
    }
}

/// An accepted digest is remembered while fewer than `capacity` others come
/// after it, whatever they are: pushing it out takes a full capacity of new
/// envelopes.
pub proof fn law_window(m: GuardModel, d: Seq<u8>, later: Seq<Seq<u8>>)
    requires
        guard_wf(m),
        d.len() == 16,
        !m.order.contains(d),
        later.len() < m.capacity,
        forall|i: int| 0 <= i < later.len() ==> (#[trigger] later[i]).len() == 16,
    ensures
        recorded_all(recorded(m, d), later).order.contains(d),
{
    lemma_recorded_wf(m, d);
    let r = recorded(m, d);
    assert(r.order[r.order.len() - 1] == d);
    lemma_window(r, d, later);
}

proof fn lemma_window(r: GuardModel, d: Seq<u8>, later: Seq<Seq<u8>>)
    requires
        guard_wf(r),
        r.order.len() > 0,
        r.order.last() == d,
        later.len() < r.capacity,
        forall|i: int| 0 <= i < later.len() ==> (#[trigger] later[i]).len() == 16,
    ensures
        ({
            let s = recorded_all(r, later);
            &&& guard_wf(s)
            &&& s.capacity == r.capacity
            &&& s.order.contains(d)
            &&& exists|i: int|
                0 <= i < s.order.len() && #[trigger] s.order[i] == d && i >= s.order.len() - 1
                    - later.len()
        }),
    decreases later.len(),
{
    if later.len() == 0 {
        assert(r.order[r.order.len() - 1] == d);
    } else {
        let p = later.drop_last();
        assert forall|i: int| 0 <= i < p.len() implies (#[trigger] p[i]).len() == 16 by {
            assert(later[i].len() == 16);
        }
        lemma_window(r, d, p);
        let s = recorded_all(r, p);
        let e = later.last();
        assert(later[later.len() - 1].len() == 16);
        let t = recorded(s, e);
        lemma_recorded_wf(s, e);
        let i = choose|i: int|
            0 <= i < s.order.len() && #[trigger] s.order[i] == d && i >= s.order.len() - 1
                - p.len();
        if s.order.contains(e) {
            assert(t.order[i] == d);
        } else if s.order.len() + 1 > s.capacity {
            assert(s.order.len() == s.capacity);
            assert(i >= 1);
            assert(t.order[i - 1] == d);
        } else {
            assert(t.order[i] == d);
        }
    }
}

/// Replaying an envelope never changes what the guard remembers, however often
/// it is done.
pub proof fn law_replay_does_not_refresh(m: GuardModel, d: Seq<u8>, times: nat)
    requires
        m.order.contains(d),
    ensures
        recorded_all(m, Seq::new(times, |i: int| d)) == m,
    decreases times,
{
    if times > 0 {
        let ds = Seq::new(times, |i: int| d);
        assert(ds.drop_last() =~= Seq::new((times - 1) as nat, |i: int| d));
        law_replay_does_not_refresh(m, d, (times - 1) as nat);
    }
}

/// Every digest passes once: the first time it is new, and directly after that it
/// is not. Of any two digests, the one does not make the other look seen.
pub proof fn law_each_passes_once(m: GuardModel, d: Seq<u8>, e: Seq<u8>)
    requires
        guard_wf(m),
    ensures
        m.order.len() == 0 ==> is_new(m, d),
        !is_new(recorded(m, d), d),
        d != e && is_new(m, e) ==> is_new(recorded(m, d), e),
{
    law_recorded_is_known(m, d);
    let after = recorded(m, d).order;
    if d != e && is_new(m, e) && after.contains(e) {
        let i = choose|i: int| 0 <= i < after.len() && after[i] == e;
        let longer = m.order.push(d);
        let k = if !m.order.contains(d) && longer.len() > m.capacity {
            i + 1
        } else {
            i
        };
        if k < m.order.len() {
            assert(m.order[k] == e);
        }
    }
}

/// A new digest costs the guard at most its oldest one, and nothing while there is
/// room; the others keep their order.
pub proof fn law_only_the_oldest_goes(m: GuardModel, d: Seq<u8>)
    requires
        guard_wf(m),
        is_new(m, d),
    ensures
        recorded(m, d).capacity == m.capacity,
        recorded(m, d).order.len() <= m.capacity,
        recorded(m, d).order.last() == d,
        m.order.len() < m.capacity ==> recorded(m, d).order.drop_last() == m.order,
        m.order.len() == m.capacity ==> recorded(m, d).order.drop_last() == m.order.skip(1),
{
    if m.order.len() < m.capacity {
        assert(recorded(m, d).order.drop_last() =~= m.order);
    } else {
        assert(recorded(m, d).order.drop_last() =~= m.order.skip(1));
    }
}

/// A snapshot is twelve bytes and sixteen for every digest. One that is cut short
/// or has bytes too many, that does not begin as a snapshot does, or that claims
/// more digests than it has room for, is refused.
pub proof fn law_broken_snapshots_are_refused(bytes: Seq<u8>)
    ensures
        bytes.len() < 12 ==> parsed_snapshot(bytes) is None,
        (bytes.len() - 12) % 16 != 0 ==> parsed_snapshot(bytes) is None,
        bytes.len() >= 4 && (bytes[0] != 0x4f || bytes[1] != 0x52 || bytes[2] != 0x47 || bytes[3]
            != 0x31) ==> parsed_snapshot(bytes) is None,
        be32_value(bytes.subrange(8, 12)) > be32_value(bytes.subrange(4, 8)) ==> parsed_snapshot(
            bytes,
        ) is None,
        parsed_snapshot(bytes) matches Some(m) ==> m.order.no_duplicates() && m.capacity >= 1
            && m.order.len() <= m.capacity,
{
    if bytes.len() >= 12 {
        let head = bytes.subrange(0, 4);
        assert(head[0] == bytes[0] && head[1] == bytes[1] && head[2] == bytes[2] && head[3]
            == bytes[3]);
    }
    if parsed_snapshot(bytes) is Some {
        lemma_distinct(blocks(bytes.skip(12), 16));
    }
}

} // verus!
