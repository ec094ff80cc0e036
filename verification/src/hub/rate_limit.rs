//! Per-identity token buckets.
//!
//! Each authenticated identity (its Noise static key) has one bucket, whatever
//! connections it opens. A frame that costs work takes one token; an identity
//! without a token has the frame dropped. A bucket is forgotten only when it is
//! full: a full bucket and a fresh one cannot be told apart, so a client cannot
//! shed its throttle by reconnecting.
//!
//! Amounts are kept in exact units: one token is [`UNITS_PER_TOKEN`] units, and a
//! bucket that gains `n` tokens a minute gains [`UNITS_PER_RATE`] times `n` units a
//! nanosecond. No bucket is so small or so slow as to hold or to gain nothing: the
//! least that one holds is a thousandth of a token, and the least that it gains is
//! that much a second.
use vstd::prelude::*;

use crate::clock::{just_started, shown, ticked, Clock, ClockModel};
use crate::list_map::{ListMap, MapKey};

verus! {

/// The key a bucket is filed under: the authenticated Noise static key.
pub type RateKey = [u8; 32];

/// Units in one token: so many that all rates are whole numbers of units a
/// nanosecond.
pub const UNITS_PER_TOKEN: u128 = 3_000_000_000_000;

/// Units that a bucket gains in a nanosecond for each token that it gains in a
/// minute.
pub const UNITS_PER_RATE: u128 = 50;

/// Units in the smallest bucket: a thousandth of a token.
pub const LEAST_CAPACITY: u128 = 3_000_000_000;

/// Units that the slowest bucket gains in a nanosecond: a thousandth of a token a
/// second.
pub const LEAST_GAIN: u128 = 3;

/// What a bucket holds and how fast it fills.
pub struct BucketModel {
    /// Most tokens it may hold.
    pub capacity: nat,
    /// Tokens it gains in a minute.
    pub per_minute: nat,
    /// Units in it at the last refill.
    pub units: nat,
    /// When it was last refilled, in nanoseconds.
    pub last_refill: nat,
}

/// The units in so many tokens, and never less than the smallest bucket holds.
pub open spec fn units_in(capacity: nat) -> nat {
    if capacity == 0 {
        LEAST_CAPACITY as nat
    } else {
        capacity * UNITS_PER_TOKEN as nat
    }
}

/// The most units the bucket may hold.
pub open spec fn cap_units(b: BucketModel) -> nat {
    units_in(b.capacity)
}

/// The units that the bucket gains in a nanosecond.
pub open spec fn gain(b: BucketModel) -> nat {
    if b.per_minute == 0 {
        LEAST_GAIN as nat
    } else {
        b.per_minute * UNITS_PER_RATE as nat
    }
}

/// Units in tenths of a token, rounded to the nearest.
pub open spec fn in_tenths(units: nat) -> nat {
    (units * 10 + UNITS_PER_TOKEN as nat / 2) / UNITS_PER_TOKEN as nat
}

/// The units in the bucket at `now`: those of the last refill and those gained
/// since, up to the capacity.
pub open spec fn units_at(b: BucketModel, now: nat) -> nat {
    let gained = if now >= b.last_refill {
        b.units + (now - b.last_refill) * gain(b)
    } else {
        b.units as int
    };
    if gained <= cap_units(b) {
        gained as nat
    } else {
        cap_units(b)
    }
}

/// A token is there at `now`.
pub open spec fn has_token(b: BucketModel, now: nat) -> bool {
    units_at(b, now) >= UNITS_PER_TOKEN
}

/// The bucket after a frame at `now`: refilled, and short of one token where
/// there was one.
pub open spec fn after_frame(b: BucketModel, now: nat) -> BucketModel {
    BucketModel {
        units: if has_token(b, now) {
            (units_at(b, now) - UNITS_PER_TOKEN) as nat
        } else {
            units_at(b, now)
        },
        last_refill: now,
        ..b
    }
}

/// A full bucket made at `now`.
pub open spec fn fresh_bucket(capacity: nat, per_minute: nat, now: nat) -> BucketModel {
    BucketModel {
        capacity,
        per_minute,
        units: units_in(capacity),
        last_refill: now,
    }
}

pub open spec fn bucket_wf(b: BucketModel) -> bool {
    &&& b.units <= cap_units(b)
    &&& b.capacity <= u32::MAX
    &&& b.per_minute <= u32::MAX
    &&& b.last_refill <= u64::MAX
}

/// A token bucket.
#[derive(Debug, Clone, Copy)]
pub struct TokenBucket {
    capacity: u32,
    per_minute: u32,
    units: u128,
    last_refill: u64,
}

impl View for TokenBucket {
    type V = BucketModel;

    closed spec fn view(&self) -> BucketModel {
        BucketModel {
            capacity: self.capacity as nat,
            per_minute: self.per_minute as nat,
            units: self.units as nat,
            last_refill: self.last_refill as nat,
        }
    }
}

impl TokenBucket {
    pub open spec fn wf(&self) -> bool {
        bucket_wf(self@)
    }

    /// A full bucket of `capacity` tokens that gains `per_minute` tokens a
    /// minute, made at what the clock shows.
    pub fn new(capacity: u32, per_minute: u32, clock: &mut Clock) -> (b: Self)
        ensures
            b.wf(),
            ticked(old(clock)@, final(clock)@),
            b@ == fresh_bucket(capacity as nat, per_minute as nat, shown(final(clock)@) as nat),
    {
        let now: u64 = clock.nanos();
        Self::new_at(capacity, per_minute, now)
    }

    /// Like [`TokenBucket::new`], with the time given.
    pub fn new_at(capacity: u32, per_minute: u32, now: u64) -> (b: Self)
        ensures
            b.wf(),
            b@ == fresh_bucket(capacity as nat, per_minute as nat, now as nat),
    {
        TokenBucket {
            capacity,
            per_minute,
            units: Self::units_for(capacity),
            last_refill: now,
        }
    }

    /// The units in so many tokens, and never less than the smallest bucket holds.
    fn units_for(capacity: u32) -> (units: u128)
        ensures
            units == units_in(capacity as nat),
    {
        if capacity == 0 {
            LEAST_CAPACITY
        } else {
            capacity as u128 * UNITS_PER_TOKEN
        }
    }

    /// The units in the bucket at `now`.
    pub fn tokens_at(&self, now: u64) -> (units: u128)
        requires
            self.wf(),
        ensures
            units == units_at(self@, now as nat),
    {
        let cap: u128 = Self::units_for(self.capacity);
        let rate: u128 = if self.per_minute == 0 {
            LEAST_GAIN
        } else {
            self.per_minute as u128 * UNITS_PER_RATE
        };
        let elapsed: u64 = if now >= self.last_refill {
            now - self.last_refill
        } else {
            0
        };
        assert(rate == gain(self@));
        assert(elapsed as int * rate as int <= 0x1_0000_0000_0000_0000_0000_0000_0000int)
            by (nonlinear_arith)
            requires
                elapsed <= 0xffff_ffff_ffff_ffff,
                rate <= 50 * 0xffff_ffff,
        ;
        assert(elapsed as int * rate as int >= 0) by (nonlinear_arith);
        assert(0 * rate as int == 0) by (nonlinear_arith);
        let gained: u128 = self.units + elapsed as u128 * rate;
        if gained <= cap {
            gained
        } else {
            cap
        }
    }

    /// The tokens in the bucket at what the clock shows, in tenths of a token and
    /// rounded to the nearest, which is easy to read.
    pub fn tokens_now(&self, clock: &mut Clock) -> (tenths: u64)
        requires
            self.wf(),
        ensures
            ticked(old(clock)@, final(clock)@),
            tenths == in_tenths(units_at(self@, shown(final(clock)@) as nat)),
            tenths <= 10 * self@.capacity,
    {
        self.tenths_at(clock.nanos())
    }

    /// Like [`TokenBucket::tokens_now`], with the time given.
    pub fn tenths_at(&self, now: u64) -> (tenths: u64)
        requires
            self.wf(),
        ensures
            tenths == in_tenths(units_at(self@, now as nat)),
            tenths <= 10 * self@.capacity,
    {
        let units: u128 = self.tokens_at(now);
        assert(units <= self@.capacity * UNITS_PER_TOKEN as nat + LEAST_CAPACITY && (self@.capacity
            > 0 ==> units <= self@.capacity * UNITS_PER_TOKEN as nat));
        let tenths: u128 = (units * 10 + UNITS_PER_TOKEN / 2) / UNITS_PER_TOKEN;
        assert(tenths <= 10 * self@.capacity);
        tenths as u64
    }

    /// Take a token if there is one at what the clock shows.
    pub fn try_consume(&mut self, clock: &mut Clock) -> (taken: bool)
        requires
            old(self).wf(),
        ensures
            final(self).wf(),
            ticked(old(clock)@, final(clock)@),
            taken == has_token(old(self)@, shown(final(clock)@) as nat),
            final(self)@ == after_frame(old(self)@, shown(final(clock)@) as nat),
    {
        let now: u64 = clock.nanos();
        self.try_consume_at(now)
    }

    /// Like [`TokenBucket::try_consume`], with the time given.
    pub fn try_consume_at(&mut self, now: u64) -> (taken: bool)
        requires
            old(self).wf(),
        ensures
            final(self).wf(),
            taken == has_token(old(self)@, now as nat),
            final(self)@ == after_frame(old(self)@, now as nat),
    {
        let units: u128 = self.tokens_at(now);
        self.last_refill = now;
        if units >= UNITS_PER_TOKEN {
            self.units = units - UNITS_PER_TOKEN;
            true
        } else {
            self.units = units;
            false
        }
    }

    /// Whether the bucket is full at `now`.
    pub fn is_full_at(&self, now: u64) -> (r: bool)
        requires
            self.wf(),
        ensures
            r == (units_at(self@, now as nat) == cap_units(self@)),
    {
        self.tokens_at(now) >= Self::units_for(self.capacity)
    }
}

/// What a limiter remembers.
pub struct LimiterModel {
    pub buckets: Map<RateKey, BucketModel>,
    pub frames_per_minute: nat,
    /// The limiter's own clock.
    pub clock: ClockModel,
}

/// The limiter after its clock was read, and stands as given.
pub open spec fn limiter_at(m: LimiterModel, clock: ClockModel) -> LimiterModel {
    LimiterModel { clock, ..m }
}

/// Every bucket holds and gains what the limiter grants.
pub open spec fn limiter_wf(m: LimiterModel) -> bool {
    &&& m.frames_per_minute <= u32::MAX
    &&& forall|k: RateKey|
        #![trigger m.buckets[k]]
        m.buckets.dom().contains(k) ==> bucket_wf(m.buckets[k]) && m.buckets[k].capacity
            == m.frames_per_minute && m.buckets[k].per_minute == m.frames_per_minute
}

/// The bucket that stands for `key` at `now`: its own, or a fresh one.
pub open spec fn bucket_for(m: LimiterModel, key: RateKey, now: nat) -> BucketModel {
    if m.buckets.dom().contains(key) {
        m.buckets[key]
    } else {
        fresh_bucket(m.frames_per_minute, m.frames_per_minute, now)
    }
}

/// The limiter after a frame of `key` at `now`.
pub open spec fn limiter_after_frame(m: LimiterModel, key: RateKey, now: nat) -> LimiterModel {
    LimiterModel {
        buckets: m.buckets.insert(key, after_frame(bucket_for(m, key, now), now)),
        ..m
    }
}

/// The bucket of `key` is full at `now`.
pub open spec fn full_at(m: LimiterModel, key: RateKey, now: nat) -> bool {
    units_at(m.buckets[key], now) == cap_units(m.buckets[key])
}

/// The limiter without the bucket of `key`, if that is full at `now`.
pub open spec fn limiter_forgetting(m: LimiterModel, key: RateKey, now: nat) -> LimiterModel {
    if m.buckets.dom().contains(key) && full_at(m, key, now) {
        LimiterModel { buckets: m.buckets.remove(key), ..m }
    } else {
        m
    }
}

/// The limiter without the buckets that are full at `now`.
pub open spec fn limiter_evicted(m: LimiterModel, now: nat) -> LimiterModel {
    LimiterModel {
        buckets: m.buckets.restrict(
            Set::new(|k: RateKey| m.buckets.dom().contains(k) && !full_at(m, k, now)),
        ),
        ..m
    }
}

/// The buckets of all identities.
pub struct RateLimiter {
    buckets: ListMap<RateKey, TokenBucket>,
    frames_per_minute: u32,
    clock: Clock,
}

impl View for RateLimiter {
    type V = LimiterModel;

    closed spec fn view(&self) -> LimiterModel {
        LimiterModel {
            buckets: self.buckets@.map_values(|b: TokenBucket| b@),
            frames_per_minute: self.frames_per_minute as nat,
            clock: self.clock@,
        }
    }
}

impl RateLimiter {
    pub closed spec fn table_wf(&self) -> bool {
        self.buckets.wf()
    }

    pub open spec fn wf(&self) -> bool {
        &&& self.table_wf()
        &&& limiter_wf(self@)
    }

    proof fn lemma_bucket(&self, key: RateKey)
        requires
            self.wf(),
            self.buckets@.dom().contains(key),
        ensures
            self@.buckets.dom().contains(key),
            self@.buckets[key] == self.buckets@[key]@,
            self.buckets@[key].wf(),
    {
        assert(self@.buckets[key] == self.buckets@[key]@);
    }

    /// A limiter that grants each identity `frames_per_minute` frames a minute,
    /// and as many at once.
    pub fn with_frames_per_minute(frames_per_minute: u32) -> (l: Self)
        ensures
            l.wf(),
            l@.buckets == Map::<RateKey, BucketModel>::empty(),
            l@.frames_per_minute == frames_per_minute,
            just_started(l@.clock),
    {
        let l = RateLimiter { buckets: ListMap::new(), frames_per_minute, clock: Clock::start() };
        assert(l@.buckets =~= Map::<RateKey, BucketModel>::empty());
        l
    }

    /// The time by the limiter's own clock, which is read once.
    pub fn now(&mut self) -> (now: u64)
        ensures
            ticked(old(self)@.clock, final(self)@.clock),
            final(self)@ == limiter_at(old(self)@, final(self)@.clock),
            old(self).wf() ==> final(self).wf(),
            now == shown(final(self)@.clock),
    {
        self.clock.nanos()
    }

    /// Take a token of `key` if there is one; `false` says to drop the frame.
    pub fn check(&mut self, key: RateKey) -> (pass: bool)
        requires
            old(self).wf(),
        ensures
            final(self).wf(),
            ticked(old(self)@.clock, final(self)@.clock),
            pass == has_token(
                bucket_for(old(self)@, key, shown(final(self)@.clock) as nat),
                shown(final(self)@.clock) as nat,
            ),
            final(self)@ == limiter_after_frame(
                limiter_at(old(self)@, final(self)@.clock),
                key,
                shown(final(self)@.clock) as nat,
            ),
    {
        let now: u64 = self.now();
        self.check_at(key, now)
    }

    /// Like [`RateLimiter::check`], with the time given.
    pub fn check_at(&mut self, key: RateKey, now: u64) -> (pass: bool)
        requires
            old(self).wf(),
        ensures
            final(self).wf(),
            pass == has_token(bucket_for(old(self)@, key, now as nat), now as nat),
            final(self)@ == limiter_after_frame(old(self)@, key, now as nat),
    {
        let ghost before = self@;
        proof {
            if self.buckets@.dom().contains(key) {
                self.lemma_bucket(key);
            }
        }
        let mut bucket = match self.buckets.get(&key) {
            Some(b) => *b,
            None => TokenBucket::new_at(self.frames_per_minute, self.frames_per_minute, now),
        };
        proof {
            assert(bucket@ == bucket_for(before, key, now as nat));
        }
        let pass = bucket.try_consume_at(now);
        self.buckets.insert(key, bucket);
        proof {
            let want = limiter_after_frame(before, key, now as nat);
            assert(self@.buckets =~= want.buckets);
            assert forall|k: RateKey| #![trigger self@.buckets[k]] self@.buckets.dom().contains(
                k,
            ) implies bucket_wf(self@.buckets[k]) && self@.buckets[k].capacity
                == self@.frames_per_minute && self@.buckets[k].per_minute
                == self@.frames_per_minute by {
                if k != key {
                    assert(before.buckets[k] == self@.buckets[k]);
                }
            }
        }
        pass
    }

    /// Drop the bucket of `key` if it is full by the limiter's own clock.
    pub fn forget_if_full(&mut self, key: &RateKey)
        requires
            old(self).wf(),
        ensures
            final(self).wf(),
            ticked(old(self)@.clock, final(self)@.clock),
            final(self)@ == limiter_forgetting(
                limiter_at(old(self)@, final(self)@.clock),
                *key,
                shown(final(self)@.clock) as nat,
            ),
    {
        let now: u64 = self.now();
        self.forget_if_full_at(key, now);
    }

    /// Drop the bucket of `key` if it is full at `now`.
    pub fn forget_if_full_at(&mut self, key: &RateKey, now: u64)
        requires
            old(self).wf(),
        ensures
            final(self).wf(),
            final(self)@ == limiter_forgetting(old(self)@, *key, now as nat),
    {
        let ghost before = self@;
        proof {
            if self.buckets@.dom().contains(*key) {
                self.lemma_bucket(*key);
            }
        }
        let full = match self.buckets.get(key) {
            Some(b) => b.is_full_at(now),
            None => false,
        };
        if full {
            let _ = self.buckets.remove(key);
            proof {
                assert(self@.buckets =~= before.buckets.remove(*key));
                assert forall|k: RateKey| #![trigger self@.buckets[k]] self@.buckets.dom().contains(
                    k,
                ) implies self@.buckets[k] == before.buckets[k] && before.buckets.dom().contains(
                    k,
                ) by {}
            }
        }
    }

    /// Drop every bucket that is full by the limiter's own clock; say how many.
    pub fn evict_full(&mut self) -> (dropped: usize)
        requires
            old(self).wf(),
        ensures
            final(self).wf(),
            ticked(old(self)@.clock, final(self)@.clock),
            final(self)@ == limiter_evicted(
                limiter_at(old(self)@, final(self)@.clock),
                shown(final(self)@.clock) as nat,
            ),
            dropped == old(self)@.buckets.dom().len() - final(self)@.buckets.dom().len(),
    {
        let now: u64 = self.now();
        self.evict_full_at(now)
    }

    /// Like [`RateLimiter::evict_full`], with the time given.
    pub fn evict_full_at(&mut self, now: u64) -> (dropped: usize)
        requires
            old(self).wf(),
        ensures
            final(self).wf(),
            final(self)@ == limiter_evicted(old(self)@, now as nat),
            dropped == old(self)@.buckets.dom().len() - final(self)@.buckets.dom().len(),
    {
        let ghost first = self@;
        let ghost listed = self.buckets.listed();
        let mut kept: ListMap<RateKey, TokenBucket> = ListMap::new();
        let n: usize = self.buckets.len();
        let mut i: usize = 0;
        proof {
            self.buckets.lemma_listed();
        }
        while i < n
            invariant
                i <= n,
                n == listed.len(),
                self.wf(),
                self@ == first,
                listed == self.buckets.listed(),
                kept.wf(),
                forall|k: RateKey|
                    #![trigger kept@.dom().contains(k)]
                    kept@.dom().contains(k) <==> exists|j: int|
                        0 <= j < i && #[trigger] listed[j].0 == k && !full_at(
                            first,
                            k,
                            now as nat,
                        ),
                forall|k: RateKey|
                    #![trigger kept@[k]]
                    kept@.dom().contains(k) ==> kept@[k].wf() && first.buckets.dom().contains(k)
                        && kept@[k]@ == first.buckets[k],
            decreases n - i,
        {
            let ghost before = kept@;
            let key: RateKey = *self.buckets.key_at(i);
            let b = self.buckets.value_at(i);
            proof {
                self.buckets.lemma_listed();
                assert(self.buckets@.dom().contains(key));
                assert(self.buckets@[key] == *b);
                self.lemma_bucket(key);
                assert(first.buckets[key] == b@);
            }
            if !b.is_full_at(now) {
                kept.insert(key, *b);
            }
            proof {
                assert forall|k: RateKey|
                    #![trigger kept@.dom().contains(k)]
                    kept@.dom().contains(k) <==> exists|j: int|
                        0 <= j < i + 1 && #[trigger] listed[j].0 == k && !full_at(
                            first,
                            k,
                            now as nat,
                        ) by {
                    assert(listed[i as int].0 == key);
                    if kept@.dom().contains(k) {
                        if k != key {
                            assert(before.dom().contains(k));
                        }
                    }
                    if exists|j: int|
                        0 <= j < i + 1 && #[trigger] listed[j].0 == k && !full_at(
                            first,
                            k,
                            now as nat,
                        ) {
                        let j = choose|j: int|
                            0 <= j < i + 1 && #[trigger] listed[j].0 == k && !full_at(
                                first,
                                k,
                                now as nat,
                            );
                        if j < i {
                            assert(before.dom().contains(k));
                        }
                    }
                }
            }
            i += 1;
        }
        let left: usize = kept.len();
        proof {
            self.buckets.lemma_listed();
            let model = kept@.map_values(|b: TokenBucket| b@);
            let want = limiter_evicted(first, now as nat).buckets;
            assert forall|k: RateKey| model.dom().contains(k) == want.dom().contains(k) by {
                if model.dom().contains(k) {
                    assert(kept@.dom().contains(k));
                    assert(kept@[k]@ == first.buckets[k]);
                }
                if want.dom().contains(k) {
                    assert(self.buckets@.dom().contains(k));
                    let j = choose|j: int|
                        0 <= j < self.buckets.listed().len() && #[trigger] self.buckets.listed()[j].0.model()
                            == k;
                    assert(listed[j].0 == k);
                }
            }
            assert forall|k: RateKey| model.dom().contains(k) implies model[k] == want[k] by {
                assert(kept@.dom().contains(k));
                assert(kept@[k]@ == first.buckets[k]);
            }
            assert(model =~= want);
            assert(model.dom() =~= kept@.dom());
            assert(first.buckets.dom() =~= self.buckets@.dom());
            vstd::set_lib::lemma_len_subset(kept@.dom(), self.buckets@.dom());
        }
        self.buckets = kept;
        proof {
            assert forall|k: RateKey| #![trigger self@.buckets[k]] self@.buckets.dom().contains(
                k,
            ) implies self@.buckets[k] == first.buckets[k] && first.buckets.dom().contains(k) by {
                assert(kept@.dom().contains(k));
                assert(kept@[k]@ == first.buckets[k]);
            }
        }
        n - left
    }

    /// How many identities have a bucket.
    pub fn known_connections(&self) -> (n: usize)
        requires
            self.wf(),
        ensures
            n == self@.buckets.dom().len(),
    {
        assert(self@.buckets.dom() =~= self.buckets@.dom());
        self.buckets.len()
    }
}

/// The bucket after frames at the given times.
pub open spec fn after_frames(b: BucketModel, times: Seq<nat>) -> BucketModel
    decreases times.len(),
{
    if times.len() == 0 {
        b
    } else {
        after_frame(after_frames(b, times.drop_last()), times.last())
    }
}

/// How many of the frames at the given times find a token.
pub open spec fn passed(b: BucketModel, times: Seq<nat>) -> nat
    decreases times.len(),
{
    if times.len() == 0 {
        0
    } else {
        passed(b, times.drop_last()) + if has_token(
            after_frames(b, times.drop_last()),
            times.last(),
        ) {
            1nat
        } else {
            0nat
        }
    }
}

/// Times that do not run backwards, from the last refill on.
pub open spec fn in_order(from: nat, times: Seq<nat>) -> bool {
    forall|i: int|
        0 <= i < times.len() ==> (if i == 0 {
            from
        } else {
            times[i - 1]
        }) <= #[trigger] times[i]
}

/// However frames are timed, no more of them pass than the bucket held at first
/// and has gained since: a burst of one capacity, then the sustained rate.
pub proof fn law_rate_bound(b: BucketModel, times: Seq<nat>)
    requires
        bucket_wf(b),
        in_order(b.last_refill, times),
        times.len() > 0,
    ensures
        passed(b, times) * UNITS_PER_TOKEN <= cap_units(b) + (times.last() - b.last_refill)
            * gain(b),
{
    lemma_rate_bound(b, times);
}

proof fn lemma_rate_bound(b: BucketModel, times: Seq<nat>)
    requires
        bucket_wf(b),
        in_order(b.last_refill, times),
    ensures
        ({
            let e = after_frames(b, times);
            &&& e.capacity == b.capacity
            &&& e.per_minute == b.per_minute
            &&& e.last_refill == if times.len() == 0 {
                b.last_refill
            } else {
                times.last()
            }
            &&& e.last_refill >= b.last_refill
            &&& passed(b, times) * UNITS_PER_TOKEN + e.units <= b.units + (e.last_refill
                - b.last_refill) * gain(b)
        }),
    decreases times.len(),
{
    if times.len() == 0 {
        assert((b.last_refill - b.last_refill) * gain(b) == 0) by (nonlinear_arith);
    } else {
        let p = times.drop_last();
        assert forall|i: int| 0 <= i < p.len() implies (if i == 0 {
            b.last_refill
        } else {
            p[i - 1]
        }) <= #[trigger] p[i] by {
            assert(times[i] == p[i]);
        }
        lemma_rate_bound(b, p);
        let m = after_frames(b, p);
        let t = times.last();
        assert(times[times.len() - 1] == t);
        assert(m.last_refill <= t);
        let won = (t - m.last_refill) * gain(b);
        assert(won >= 0) by (nonlinear_arith)
            requires
                won == (t - m.last_refill) * gain(b),
                t >= m.last_refill,
        ;
        assert(units_at(m, t) <= m.units + won);
        assert((t - m.last_refill) * gain(b) + (m.last_refill - b.last_refill) * gain(b)
            == (t - b.last_refill) * gain(b)) by (nonlinear_arith);
        let e = after_frames(b, times);
        assert(e.last_refill == t);
    }
}

/// Forgetting a full bucket cannot be noticed: from then on every frame of its
/// identity fares as if the bucket had been kept.
pub proof fn law_forgetting_full_is_unseen(
    m: LimiterModel,
    key: RateKey,
    now: nat,
    later: nat,
)
    requires
        limiter_wf(m),
        now <= later,
    ensures
        ({
            let f = limiter_forgetting(m, key, now);
            &&& has_token(bucket_for(f, key, later), later) == has_token(
                bucket_for(m, key, later),
                later,
            )
            &&& limiter_after_frame(f, key, later) == limiter_after_frame(m, key, later)
        }),
{
    let f = limiter_forgetting(m, key, now);
    if m.buckets.dom().contains(key) && full_at(m, key, now) {
        let b = m.buckets[key];
        if now >= b.last_refill {
            assert((now - b.last_refill) * gain(b) <= (later - b.last_refill) * gain(b))
                by (nonlinear_arith)
                requires
                    now <= later,
                    gain(b) >= 0,
            ;
        } else if later >= b.last_refill {
            assert((later - b.last_refill) * gain(b) >= 0) by (nonlinear_arith)
                requires
                    later >= b.last_refill,
                    gain(b) >= 0,
            ;
        }
        assert(units_at(b, later) == cap_units(b));
        let g = fresh_bucket(m.frames_per_minute, m.frames_per_minute, later);
        assert((later - later) * gain(g) == 0) by (nonlinear_arith);
        assert(units_at(g, later) == cap_units(b));
        assert(after_frame(b, later) == after_frame(g, later));
        assert(limiter_after_frame(f, key, later).buckets =~= limiter_after_frame(
            m,
            key,
            later,
        ).buckets);
    }
}

/// A throttled identity stays throttled across a disconnect: a bucket without a
/// token is never forgotten.
pub proof fn law_reconnect_keeps_throttle(m: LimiterModel, key: RateKey, now: nat)
    requires
        limiter_wf(m),
        m.frames_per_minute > 0,
        m.buckets.dom().contains(key),
        !has_token(m.buckets[key], now),
    ensures
        limiter_forgetting(m, key, now) == m,
        limiter_evicted(m, now).buckets.dom().contains(key),
{
    let b = m.buckets[key];
    assert(cap_units(b) >= UNITS_PER_TOKEN) by (nonlinear_arith)
        requires
            cap_units(b) == b.capacity * UNITS_PER_TOKEN as nat,
            b.capacity >= 1,
    ;
}

/// Identities do not share a bucket: a frame of one leaves all others as they
/// were.
pub proof fn law_identities_apart(m: LimiterModel, key: RateKey, other: RateKey, now: nat)
    requires
        key != other,
    ensures
        limiter_after_frame(m, key, now).buckets.dom().contains(other)
            == m.buckets.dom().contains(other),
        m.buckets.dom().contains(other) ==> limiter_after_frame(m, key, now).buckets[other]
            == m.buckets[other],
{
}

/// Tenths of a token are rounded to the nearest: what is shown is off by half a tenth at
/// most.
pub proof fn law_tenths_are_rounded(units: nat)
    ensures
        in_tenths(units) * 3_000_000_000_000 <= units * 10 + 1_500_000_000_000,
        units * 10 < in_tenths(units) * 3_000_000_000_000 + 1_500_000_000_000,
{
}

} // verus!
