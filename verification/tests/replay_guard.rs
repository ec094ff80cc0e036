use onyx::replay_guard::EnvelopeReplayGuard;

#[test]
fn first_sight_returns_true_replay_returns_false() {
    let mut g = EnvelopeReplayGuard::with_capacity(8);
    let body = b"sealed envelope bytes";
    assert!(g.check_and_record(body), "first sight must accept");
    assert!(!g.check_and_record(body), "exact replay must be rejected");
}

#[test]
fn distinct_bodies_independent() {
    let mut g = EnvelopeReplayGuard::with_capacity(8);
    assert!(g.check_and_record(b"envelope A"));
    assert!(g.check_and_record(b"envelope B"));
    assert!(g.check_and_record(b"envelope C"));
    assert_eq!(g.len(), 3);
    // Replay A → reject; B and C still in the set.
    assert!(!g.check_and_record(b"envelope A"));
    assert_eq!(g.len(), 3);
}

#[test]
fn fifo_eviction_drops_oldest_at_capacity() {
    let mut g = EnvelopeReplayGuard::with_capacity(3);
    assert!(g.check_and_record(b"1"));
    assert!(g.check_and_record(b"2"));
    assert!(g.check_and_record(b"3"));
    assert_eq!(g.len(), 3);
    // Fourth pushes the oldest ("1") out. State: {2, 3, 4}.
    assert!(g.check_and_record(b"4"));
    assert_eq!(g.len(), 3, "still capped");
    // "2", "3", "4" are still in the set.
    assert!(!g.check_and_record(b"2"));
    assert!(!g.check_and_record(b"3"));
    assert!(!g.check_and_record(b"4"));
    // But "1" is forgotten: re-seeing it counts as first sight, and
    // "2" is evicted to make room.
    assert!(
        g.check_and_record(b"1"),
        "after FIFO eviction, oldest entry is forgotten"
    );
    // State now: {3, 4, 1}.
    assert!(
        g.check_and_record(b"2"),
        "the next-oldest entry has now been evicted too"
    );
}

#[test]
fn replay_does_not_refresh_position() {
    // Critical: an attacker who keeps replaying an old entry
    // must NOT be able to keep it alive past the FIFO window.
    // If we re-ranked on replay (LRU semantics), they could.
    let mut g = EnvelopeReplayGuard::with_capacity(3);
    g.check_and_record(b"target"); // position: oldest
    g.check_and_record(b"fill1");
    g.check_and_record(b"fill2");
    // Attacker replays "target" repeatedly:
    for _ in 0..10 {
        assert!(!g.check_and_record(b"target"));
    }
    // A genuine new entry should evict "target" because replay
    // didn't refresh its position.
    g.check_and_record(b"new");
    assert!(
        g.check_and_record(b"target"),
        "after eviction, target is forgotten — replay never refreshed position"
    );
}

#[test]
fn zero_capacity_clamps_to_one() {
    let mut g = EnvelopeReplayGuard::with_capacity(0);
    assert_eq!(g.capacity(), 1, "zero clamped to 1");
    assert!(g.check_and_record(b"a"));
    assert!(g.check_and_record(b"b")); // evicts "a"
    // "a" forgotten:
    assert!(g.check_and_record(b"a"));
}

#[test]
fn hashing_is_collision_resistant_in_practice() {
    // We rely on BLAKE2b-128 to never collide on honest inputs.
    // Sanity: two near-identical inputs hash to different values
    // (a one-bit flip changes ~half the output bits).
    let mut g = EnvelopeReplayGuard::with_capacity(8);
    let body_a = b"sealed envelope bytes \x00";
    let body_b = b"sealed envelope bytes \x01";
    assert!(g.check_and_record(body_a));
    assert!(
        g.check_and_record(body_b),
        "one-byte difference must not collide"
    );
}

#[test]
fn empty_body_handled() {
    // Edge case: a hub that delivers a zero-byte body. The
    // sealed envelope decode will reject downstream; here we
    // only care that the guard handles the input without panic.
    let mut g = EnvelopeReplayGuard::with_capacity(4);
    assert!(g.check_and_record(b""));
    assert!(!g.check_and_record(b""), "even empty bodies dedup");
}

#[test]
fn snapshot_then_restore_preserves_seen_set() {
    let mut original = EnvelopeReplayGuard::with_capacity(8);
    original.check_and_record(b"alpha");
    original.check_and_record(b"beta");
    original.check_and_record(b"gamma");
    let snap = original.snapshot();

    let restored = EnvelopeReplayGuard::restore(&snap).expect("snapshot must round-trip");
    assert_eq!(restored.capacity(), 8);
    assert_eq!(restored.len(), 3);

    // Hashes that *were* in the original are still rejected:
    let mut restored = restored;
    assert!(!restored.check_and_record(b"alpha"));
    assert!(!restored.check_and_record(b"beta"));
    assert!(!restored.check_and_record(b"gamma"));
    // A new hash is accepted:
    assert!(restored.check_and_record(b"delta"));
}

#[test]
fn snapshot_empty_guard_round_trips() {
    let g = EnvelopeReplayGuard::with_capacity(4);
    let snap = g.snapshot();
    let restored = EnvelopeReplayGuard::restore(&snap).unwrap();
    assert_eq!(restored.capacity(), 4);
    assert!(restored.is_empty());
}

#[test]
fn snapshot_preserves_fifo_order_for_eviction() {
    // Order matters: restoring must put the oldest hashes at the
    // FIFO front so they evict first when new entries arrive.
    let mut g = EnvelopeReplayGuard::with_capacity(3);
    g.check_and_record(b"oldest");
    g.check_and_record(b"middle");
    g.check_and_record(b"newest");
    let snap = g.snapshot();

    let mut restored = EnvelopeReplayGuard::restore(&snap).unwrap();
    // Insert one new entry. The oldest should evict first, not
    // the newest — same as if we'd never snapshotted.
    // State before: [oldest, middle, newest]
    // After "fourth": [middle, newest, fourth] (oldest evicted)
    restored.check_and_record(b"fourth");
    assert!(
        !restored.check_and_record(b"middle"),
        "middle survived (one slot back)"
    );
    assert!(
        !restored.check_and_record(b"newest"),
        "newest survived (two slots back)"
    );
    assert!(
        !restored.check_and_record(b"fourth"),
        "fourth survived (just added)"
    );
    assert!(
        restored.check_and_record(b"oldest"),
        "oldest must have been evicted — first-sight again"
    );
}

#[test]
fn restore_rejects_wrong_magic() {
    // Different magic word → not our snapshot.
    let bad = b"XXXX\x00\x00\x00\x08\x00\x00\x00\x00".to_vec();
    assert!(EnvelopeReplayGuard::restore(&bad).is_err());
}

#[test]
fn restore_rejects_truncated() {
    let g = {
        let mut g = EnvelopeReplayGuard::with_capacity(8);
        g.check_and_record(b"a");
        g.check_and_record(b"b");
        g
    };
    let snap = g.snapshot();
    // Lop off the last 5 bytes — count claims 2 entries but body
    // only has space for ~1.7.
    let truncated = &snap[..snap.len() - 5];
    assert!(EnvelopeReplayGuard::restore(truncated).is_err());
}

#[test]
fn restore_rejects_count_exceeding_capacity() {
    // Hand-craft a snapshot claiming count > capacity.
    let mut bad = Vec::new();
    bad.extend_from_slice(b"ORG1");
    bad.extend_from_slice(&4u32.to_be_bytes()); // capacity = 4
    bad.extend_from_slice(&10u32.to_be_bytes()); // count = 10 (impossible)
    bad.extend_from_slice(&[0u8; 16 * 10]);
    assert!(EnvelopeReplayGuard::restore(&bad).is_err());
}

#[test]
fn snapshot_is_deterministic_when_state_unchanged() {
    // Two snapshots of the same guard state produce identical
    // bytes. Lets the daemon skip a vault write if nothing has
    // changed since the last snapshot (efficiency, not security).
    let mut g = EnvelopeReplayGuard::with_capacity(4);
    g.check_and_record(b"a");
    g.check_and_record(b"b");
    let s1 = g.snapshot();
    let s2 = g.snapshot();
    assert_eq!(s1, s2);
}

/// The digest that is kept is the 16-byte BLAKE2b digest of the body.
#[test]
fn snapshot_holds_blake2b_digests() {
    let mut g = EnvelopeReplayGuard::with_capacity(5);
    assert!(g.check_and_record(b""));
    let mut want = b"ORG1".to_vec();
    want.extend_from_slice(&[0, 0, 0, 5, 0, 0, 0, 1]);
    want.extend_from_slice(&[
        0xca, 0xe6, 0x69, 0x41, 0xd9, 0xef, 0xbd, 0x40, 0x4e, 0x4d, 0x88, 0x75, 0x8e, 0xa6, 0x76,
        0x70,
    ]);
    assert_eq!(g.snapshot(), want);
}

/// A body is known for exactly as long as fewer other bodies than the capacity
/// have come after it.
#[test]
fn window_is_exact() {
    let mut g = EnvelopeReplayGuard::with_capacity(4);
    assert!(g.check_and_record(b"x"));
    for i in 0u8..3 {
        assert!(g.check_and_record(&[i]));
    }
    assert!(!g.check_and_record(b"x"));
    assert!(g.check_and_record(&[3]));
    assert!(g.check_and_record(b"x"));
}

#[test]
fn restore_rejects_trailing_bytes() {
    let mut snap = EnvelopeReplayGuard::with_capacity(4).snapshot();
    snap.push(0);
    assert!(EnvelopeReplayGuard::restore(&snap).is_err());
}

#[test]
fn restore_takes_a_repeated_digest_once() {
    let mut bytes = b"ORG1".to_vec();
    bytes.extend_from_slice(&[0, 0, 0, 9, 0, 0, 0, 3]);
    bytes.extend_from_slice(&[1u8; 16]);
    bytes.extend_from_slice(&[2u8; 16]);
    bytes.extend_from_slice(&[1u8; 16]);
    let g = EnvelopeReplayGuard::restore(&bytes).unwrap();
    assert_eq!(g.len(), 2);
    assert_eq!(g.capacity(), 9);
}

#[test]
fn default_guard_has_the_default_capacity() {
    let g = EnvelopeReplayGuard::default();
    assert_eq!(g.capacity(), 4096);
    assert!(g.is_empty());
}

#[test]
fn recorded_digest_is_known() {
    let mut g = EnvelopeReplayGuard::new();
    assert!(g.record_digest([7; 16]));
    assert!(!g.record_digest([7; 16]));
    assert_eq!(g.len(), 1);
}
