use onyx::hub::gossip::{
    GossipFrame, GossipKind, GossipMode, GossipOut, RoutingId, GOSSIP_TTL_DEFAULT,
};
use onyx::hub::handler::{
    on_client_frame, on_gossip_deliver, on_gossip_publish, on_keypackage_checked,
    parse_routing_ids, parse_target_prefix, split_deliver_payload, ClientAction, ClientFrame,
    FrameError, GossipVerdict,
};
use onyx::hub::state::{HubState, PeerOutlet};
use tokio::sync::mpsc;

/// A hub with other hubs whose channels can be looked into.
fn fed_state(
    self_hash: [u8; 16],
    peer_count: u8,
) -> (HubState, Vec<([u8; 32], mpsc::Receiver<GossipOut>)>) {
    let mut state = HubState::new();
    state.set_self_hub_hash(self_hash);
    let mut outlets = Vec::new();
    let mut rxs = Vec::new();
    for i in 0..peer_count {
        let mut key = [0u8; 32];
        key[0] = i + 1;
        let (tx, rx) = mpsc::channel(16);
        outlets.push(PeerOutlet { key, tx });
        rxs.push((key, rx));
    }
    state.set_peer_outbounds(outlets);
    (state, rxs)
}

fn frame(ttl: u8, seen_by: u8, routing_id: RoutingId, body: &[u8]) -> Option<GossipFrame> {
    Some(GossipFrame {
        ttl,
        seen_by: [seen_by; 16],
        routing_id,
        body: body.to_vec(),
    })
}

#[test]
fn gossip_publish_self_seen_by_drops() {
    let (mut state, mut peer_rxs) = fed_state([0xAA; 16], 2);
    let rid = [0x01; 16];
    // A frame as if we had already sent it.
    let v = on_gossip_publish(
        &mut state,
        frame(GOSSIP_TTL_DEFAULT, 0xAA, rid, b"kp"),
        Some(rid),
        &[0x99; 32],
    );
    assert_eq!(v, GossipVerdict::Loop);
    assert_eq!(state.keypackage_count(), 0, "loop drop must skip local store");
    for (_pk, rx) in &mut peer_rxs {
        assert!(
            rx.try_recv().is_err(),
            "loop drop must NOT trigger re-fanout"
        );
    }
}

#[test]
fn gossip_publish_ttl_one_stores_but_does_not_forward() {
    let (mut state, mut peer_rxs) = fed_state([0xBB; 16], 2);
    let rid = [0x01; 16];
    on_gossip_publish(&mut state, frame(1, 0xCC, rid, b"kp"), Some(rid), &[0x77; 32]);
    assert_eq!(state.keypackage_count(), 1, "TTL=1 must still accept locally");
    for (_pk, rx) in &mut peer_rxs {
        assert!(
            rx.try_recv().is_err(),
            "TTL=1 must NOT forward (saturating_sub would underflow)"
        );
    }
}

#[test]
fn gossip_publish_source_pubkey_skipped_on_forward() {
    let our_hash = [0xDD; 16];
    let (mut state, mut peer_rxs) = fed_state(our_hash, 3);
    let source_pk = peer_rxs[0].0;
    let rid = [0x01; 16];
    let v = on_gossip_publish(&mut state, frame(3, 0xEE, rid, b"kp"), Some(rid), &source_pk);
    assert_eq!(v, GossipVerdict::Taken { forwarded: true });
    assert!(
        peer_rxs[0].1.try_recv().is_err(),
        "source pubkey must be skipped on re-fanout"
    );
    for (_pk, rx) in peer_rxs.iter_mut().skip(1) {
        let out = rx.try_recv().expect("peer should have received re-fanout");
        assert_eq!(out.kind, GossipKind::Publish);
        assert_eq!(out.frame.ttl, 2, "TTL decremented from 3 to 2");
        assert_eq!(out.frame.seen_by, our_hash, "seen_by rewritten to OUR hash");
    }
}

#[test]
fn gossip_deliver_source_pubkey_skipped_on_forward_eager() {
    let our_hash = [0x11; 16];
    let (mut state, mut peer_rxs) = fed_state(our_hash, 3);
    state.set_gossip_mode(GossipMode::Eager);
    let source_pk = peer_rxs[0].0;
    on_gossip_deliver(
        &mut state,
        frame(3, 0x22, [0x33; 16], b"opaque sealed envelope bytes"),
        &source_pk,
    );
    assert!(
        peer_rxs[0].1.try_recv().is_err(),
        "source pubkey must be skipped on re-fanout"
    );
    for (_pk, rx) in peer_rxs.iter_mut().skip(1) {
        let out = rx.try_recv().expect("non-source peer received");
        assert_eq!(out.kind, GossipKind::Deliver);
        assert_eq!(out.frame.ttl, 2);
        assert_eq!(out.frame.seen_by, our_hash);
    }
}

#[test]
fn gossip_deliver_lazy_forwards_when_no_local_sub() {
    let (mut state, mut peer_rxs) = fed_state([0x44; 16], 2);
    let source_pk = peer_rxs[0].0;
    on_gossip_deliver(
        &mut state,
        frame(3, 0x55, [0x66; 16], b"opaque bytes"),
        &source_pk,
    );
    assert!(peer_rxs[0].1.try_recv().is_err(), "source skipped");
    let out = peer_rxs[1]
        .1
        .try_recv()
        .expect("non-source peer received under lazy when no local sub");
    assert_eq!(out.kind, GossipKind::Deliver);
}

#[test]
fn gossip_deliver_lazy_does_not_forward_when_local_sub_accepted() {
    let (mut state, mut peer_rxs) = fed_state([0x77; 16], 2);
    let target_rid: RoutingId = [0x88; 16];
    let (sub_tx, _sub_rx) = mpsc::channel::<Vec<u8>>(8);
    let conn = state.register_conn(sub_tx);
    state.subscribe(conn, &[target_rid]);
    let source_pk = peer_rxs[0].0;
    on_gossip_deliver(
        &mut state,
        frame(3, 0x99, target_rid, b"will-be-delivered-locally"),
        &source_pk,
    );
    for (_pk, rx) in &mut peer_rxs {
        assert!(
            rx.try_recv().is_err(),
            "lazy mode must NOT forward when local subscriber accepted"
        );
    }
}

#[test]
fn gossip_publish_malformed_payload_drops_cleanly() {
    let (mut state, mut peer_rxs) = fed_state([0xAB; 16], 1);
    assert_eq!(
        on_gossip_publish(&mut state, None, None, &[0u8; 32]),
        GossipVerdict::Malformed
    );
    assert_eq!(
        on_gossip_deliver(&mut state, None, &[0u8; 32]).0,
        GossipVerdict::Malformed
    );
    assert_eq!(state.keypackage_count(), 0);
    for (_pk, rx) in &mut peer_rxs {
        assert!(rx.try_recv().is_err());
    }
}

#[test]
fn gossip_publish_ownership_check_propagates_to_gossip() {
    let (mut state, _rxs) = fed_state([0xCD; 16], 1);
    // A key package in the name of a routing id that is not its owner's.
    let wrong_rid: RoutingId = [0xFF; 16];
    let v = on_gossip_publish(
        &mut state,
        frame(3, 0x55, wrong_rid, b"kp"),
        Some([0x01; 16]),
        &[0u8; 32],
    );
    assert_eq!(v, GossipVerdict::NotOwner);
    assert_eq!(
        state.keypackage_count(),
        0,
        "ownership-check failure must skip local store"
    );
}

fn step(state: &mut HubState, conn: u64, kind: ClientFrame, payload: &[u8]) -> ClientAction {
    on_client_frame(state, conn, &[conn as u8; 32], kind, payload.to_vec(), 0)
}

fn with_prefix(id: u8, body: &[u8]) -> Vec<u8> {
    let mut v = vec![id; 16];
    v.extend_from_slice(body);
    v
}

/// One client subscribes, another sends to it.
#[test]
fn subscribe_then_deliver_round_trip() {
    let mut state = HubState::new();
    let (tx, mut rx) = mpsc::channel(8);
    let bob = state.register_conn(tx);
    let (tx, _rx) = mpsc::channel(8);
    let alice = state.register_conn(tx);
    match step(&mut state, bob, ClientFrame::Subscribe, &[0x42; 16]) {
        ClientAction::Flush(rows) => assert!(rows.is_empty()),
        other => panic!("expected Flush, got {other:?}"),
    }
    let payload = with_prefix(0x42, b"hello bob");
    match step(&mut state, alice, ClientFrame::Deliver, &payload) {
        ClientAction::Routed(n) => assert_eq!(n, 1),
        other => panic!("expected Routed, got {other:?}"),
    }
    assert_eq!(rx.try_recv().unwrap(), payload);
}

#[test]
fn deliver_then_subscribe_drains_queue_over_wire() {
    let mut state = HubState::new();
    let (tx, _rx) = mpsc::channel(8);
    let alice = state.register_conn(tx);
    let first = with_prefix(0x42, b"one");
    let second = with_prefix(0x42, b"two");
    step(&mut state, alice, ClientFrame::Deliver, &first);
    step(&mut state, alice, ClientFrame::Deliver, &second);
    let (tx, _rx) = mpsc::channel(8);
    let bob = state.register_conn(tx);
    match step(&mut state, bob, ClientFrame::Subscribe, &[0x42; 16]) {
        ClientAction::Flush(rows) => assert_eq!(rows, vec![first, second]),
        other => panic!("expected Flush, got {other:?}"),
    }
}

#[test]
fn keypackage_publish_then_fetch_round_trip() {
    let mut state = HubState::new();
    match step(&mut state, 1, ClientFrame::KpPublish, &with_prefix(5, b"kp-v1")) {
        ClientAction::CheckKeyPackage { routing_id, kp } => {
            assert_eq!(routing_id, [5; 16]);
            assert_eq!(kp, b"kp-v1");
            assert!(on_keypackage_checked(&mut state, routing_id, kp, Some([5; 16])));
        }
        other => panic!("expected CheckKeyPackage, got {other:?}"),
    }
    match step(&mut state, 2, ClientFrame::KpFetch, &[5; 16]) {
        ClientAction::Respond(bytes) => assert_eq!(bytes, b"\0kp-v1"),
        other => panic!("expected Respond, got {other:?}"),
    }
}

#[test]
fn keypackage_fetch_missing_returns_not_found() {
    let mut state = HubState::new();
    match step(&mut state, 2, ClientFrame::KpFetch, &[5; 16]) {
        ClientAction::Respond(bytes) => assert_eq!(bytes, [1]),
        other => panic!("expected Respond, got {other:?}"),
    }
}

#[test]
fn keypackage_republish_overwrites() {
    let mut state = HubState::new();
    for kp in [b"kp-v1".to_vec(), b"kp-v2".to_vec()] {
        assert!(on_keypackage_checked(&mut state, [5; 16], kp, Some([5; 16])));
    }
    match step(&mut state, 2, ClientFrame::KpFetch, &[5; 16]) {
        ClientAction::Respond(bytes) => assert_eq!(bytes, b"\0kp-v2"),
        other => panic!("expected Respond, got {other:?}"),
    }
    assert_eq!(state.keypackage_count(), 1);
}

#[test]
fn keypackage_publish_rejects_routing_id_mismatch() {
    let mut state = HubState::new();
    assert!(!on_keypackage_checked(&mut state, [5; 16], b"kp".to_vec(), Some([6; 16])));
    assert!(!on_keypackage_checked(&mut state, [5; 16], b"kp".to_vec(), None));
    assert_eq!(state.keypackage_count(), 0);
}

#[test]
fn frames_that_cannot_be_read() {
    let mut state = HubState::new();
    match step(&mut state, 1, ClientFrame::Subscribe, &[0; 17]) {
        ClientAction::Close(e) => {
            assert_eq!(e, FrameError::SubscribeLength(17));
            assert_eq!(
                e.message(),
                "hub: SUBSCRIBE payload length 17 is not a multiple of 16"
            );
        }
        other => panic!("expected Close, got {other:?}"),
    }
    match step(&mut state, 1, ClientFrame::Deliver, &[0; 15]) {
        ClientAction::Close(e) => assert_eq!(
            e.message(),
            "hub: DELIVER payload too short for target prefix"
        ),
        other => panic!("expected Close, got {other:?}"),
    }
    assert!(matches!(step(&mut state, 1, ClientFrame::Pad, &[]), ClientAction::Ignore));
    assert!(matches!(step(&mut state, 1, ClientFrame::Other, &[]), ClientAction::Ignore));
}

#[test]
fn payloads_are_taken_apart() {
    let mut payload = vec![1; 16];
    payload.extend_from_slice(&[2; 16]);
    assert_eq!(parse_routing_ids(&payload).unwrap(), vec![[1; 16], [2; 16]]);
    assert_eq!(parse_routing_ids(&[]).unwrap(), Vec::<RoutingId>::new());
    assert_eq!(parse_target_prefix(&payload).unwrap(), [1; 16]);
    assert_eq!(
        split_deliver_payload(&payload).unwrap(),
        ([1; 16], vec![2; 16])
    );
}
