use onyx::clock::Clock;
use onyx::hub::rate_limit::{RateLimiter, TokenBucket, UNITS_PER_TOKEN};

/// Nanoseconds in a millisecond.
const MS: u64 = 1_000_000;

#[test]
fn bucket_starts_full_and_drains_one_per_call() {
    let mut clock = Clock::start();
    let mut b = TokenBucket::new(3, 60, &mut clock);
    // Three consumes succeed (capacity is 3 from start).
    assert!(b.try_consume(&mut clock));
    assert!(b.try_consume(&mut clock));
    assert!(b.try_consume(&mut clock));
    // Fourth fails: the bucket is empty and hardly any time has passed.
    assert!(!b.try_consume(&mut clock));
}

#[test]
fn bucket_refills_over_time() {
    let t0 = 7_000 * MS;
    let mut b = TokenBucket::new_at(2, 60, t0); // 1 token/sec
    // Drain.
    assert!(b.try_consume_at(t0));
    assert!(b.try_consume_at(t0));
    assert!(!b.try_consume_at(t0));
    // Half a second later: still not enough for 1 token.
    assert!(!b.try_consume_at(t0 + 500 * MS));
    // One full second after the last refill: enough for one.
    assert!(b.try_consume_at(t0 + 1500 * MS));
    // Drained again.
    assert!(!b.try_consume_at(t0 + 1500 * MS));
}

#[test]
fn bucket_refill_capped_at_capacity() {
    let t0 = 0;
    let mut b = TokenBucket::new_at(2, 60, t0);
    // Drain.
    b.try_consume_at(t0);
    b.try_consume_at(t0);
    // 100 seconds would add 100 tokens, but the bucket holds 2.
    let t100 = t0 + 100_000 * MS;
    assert!(b.try_consume_at(t100));
    assert!(b.try_consume_at(t100));
    assert!(
        !b.try_consume_at(t100),
        "third call must fail — refill should have been capped"
    );
}

fn key(n: u8) -> [u8; 32] {
    let mut k = [0u8; 32];
    k[0] = n;
    k
}

#[test]
fn rate_limiter_isolates_identities() {
    let mut rl = RateLimiter::with_frames_per_minute(2);
    // Two distinct identities; each gets its own bucket.
    assert!(rl.check(key(1)));
    assert!(rl.check(key(1)));
    assert!(!rl.check(key(1)), "identity 1 exhausted");
    // identity 2 still has full capacity.
    assert!(rl.check(key(2)));
    assert!(rl.check(key(2)));
    assert!(!rl.check(key(2)), "identity 2 exhausted independently");
    assert_eq!(rl.known_connections(), 2);
}

#[test]
fn forget_if_full_retains_throttled_bucket_blocking_reconnect_reset() {
    let mut rl = RateLimiter::with_frames_per_minute(2);
    assert!(rl.check(key(7)));
    assert!(rl.check(key(7)));
    assert!(!rl.check(key(7)), "identity 7 drained");
    // Disconnect: the bucket is empty, not full, and stays.
    rl.forget_if_full(&key(7));
    assert_eq!(rl.known_connections(), 1, "throttled bucket retained");
    // Reconnect: still throttled.
    assert!(!rl.check(key(7)), "reconnect must not grant a fresh burst");
}

#[test]
fn forget_if_full_drops_full_bucket() {
    let mut rl = RateLimiter::with_frames_per_minute(2);
    assert!(rl.check(key(9))); // 1 token left, not full
    rl.forget_if_full(&key(9));
    assert_eq!(
        rl.known_connections(),
        1,
        "partially-drained bucket is not full → retained"
    );
    // Half a minute later it is full again.
    let later = rl.now() + 31_000 * MS;
    rl.forget_if_full_at(&key(9), later);
    assert_eq!(rl.known_connections(), 0);
}

#[test]
fn evict_full_drops_only_refilled_buckets() {
    let mut rl = RateLimiter::with_frames_per_minute(60); // 1 token/sec, cap 60
    for _ in 0..60 {
        rl.check(key(1));
    }
    assert!(!rl.check(key(1)), "A drained");
    rl.check(key(2)); // B created, 59 tokens left (not full)
    // Neither is full right now: nothing is dropped.
    assert_eq!(rl.evict_full(), 0);
    assert_eq!(rl.known_connections(), 2);
    // Ten seconds later the second is full, the first is not.
    let later = rl.now() + 10_000 * MS;
    assert_eq!(rl.evict_full_at(later), 1);
    assert_eq!(rl.known_connections(), 1);
}

#[test]
fn rate_limiter_zero_capacity_clamps() {
    let mut clock = Clock::start();
    let mut b = TokenBucket::new(0, 0, &mut clock);
    assert!(!b.try_consume(&mut clock));
}

#[test]
fn tokens_now_reflects_lazy_refill() {
    let mut clock = Clock::start();
    let mut b = TokenBucket::new(10, 120, &mut clock);
    // Drain to half.
    for _ in 0..5 {
        b.try_consume(&mut clock);
    }
    let t = b.tokens_now(&mut clock);
    // In tenths of a token.
    assert!(t >= 40, "tokens_now too low: {t}");
    assert!(t <= 100, "tokens_now exceeds capacity: {t}");
}

#[test]
fn refill_is_exact() {
    let mut b = TokenBucket::new_at(10, 7, 0);
    for _ in 0..10 {
        assert!(b.try_consume_at(0));
    }
    // Seven tokens a minute: one takes 60/7 s, to the nanosecond.
    assert!(!b.try_consume_at(8_571_428_571));
    assert!(b.try_consume_at(8_571_428_572));
    assert_eq!(b.tokens_at(8_571_428_572), 200);
    assert!(!b.is_full_at(8_571_428_572));
    assert!(b.is_full_at(100_000_000_000));
}

/// However a minute is cut up, no more frames pass than the bucket holds and gains.
#[test]
fn rate_is_bounded() {
    let mut b = TokenBucket::new_at(5, 60, 0);
    let mut passed = 0;
    for i in 0..600u64 {
        if b.try_consume_at(i * 100 * MS) {
            passed += 1;
        }
    }
    assert!(passed <= 5 + 60);
    assert!(passed >= 60);
}

#[test]
fn tokens_are_shown_in_rounded_tenths() {
    let mut b = TokenBucket::new_at(10, 60, 0);
    assert_eq!(b.tenths_at(0), 100);
    for _ in 0..10 {
        assert!(b.try_consume_at(0));
    }
    // One token a second: below half a tenth counts as nothing, from there as one.
    assert_eq!(b.tenths_at(49 * MS), 0);
    assert_eq!(b.tenths_at(50 * MS), 1);
    assert_eq!(b.tenths_at(149 * MS), 1);
    assert_eq!(b.tenths_at(2_349 * MS), 23);
    assert_eq!(b.tenths_at(2_350 * MS), 24);
    // Looking takes nothing.
    assert_eq!(b.tokens_at(1_000 * MS), UNITS_PER_TOKEN);
    assert!(b.try_consume_at(1_000 * MS));
}

#[test]
fn the_slowest_bucket_gains_a_token_in_a_thousand_seconds() {
    let mut b = TokenBucket::new_at(1, 0, 0);
    assert!(b.try_consume_at(0));
    assert!(!b.try_consume_at(999_999 * MS));
    let mut c = TokenBucket::new_at(1, 0, 0);
    assert!(c.try_consume_at(0));
    assert!(c.try_consume_at(1_000_000 * MS));
    // The smallest bucket holds a thousandth of a token, so none is ever there.
    let mut d = TokenBucket::new_at(0, 0, 0);
    assert_eq!(d.tokens_at(0) * 1000, UNITS_PER_TOKEN);
    assert_eq!(d.tenths_at(0), 0);
    assert!(!d.try_consume_at(u64::MAX));
    assert!(d.is_full_at(u64::MAX));
}
