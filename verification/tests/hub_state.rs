use onyx::hub::config::{
    cover_mean, next_backoff, parse_gossip_mode, parse_peer_hub, BACKOFF_INITIAL_MS, BACKOFF_MAX_MS,
};
use onyx::hub::gossip::{GossipKind, GossipMode, GossipOut, RoutingId, GOSSIP_TTL_DEFAULT};
use onyx::hub::journal::StoreOp;
use onyx::hub::state::{add_outlet, HubState, PeerOutlet, StoredState};
use onyx::hub::store::{gc_cutoff, load_all_keypackages, load_all_queues};
use tokio::sync::mpsc;

#[test]
fn subscribe_then_deliver_routes_live() {
    let (tx, mut rx) = mpsc::channel(8);
    let mut state = HubState::new();
    let conn = state.register_conn(tx);
    let id: RoutingId = [42u8; 16];

    let drained = state.subscribe(conn, &[id]);
    assert!(drained.is_empty(), "no queued messages yet");

    let payload = b"hello".to_vec();
    let delivered = state.deliver(id, payload.clone());
    assert_eq!(delivered, 1);

    let received = rx.try_recv().expect("channel closed");
    assert_eq!(received, payload);
}

#[test]
fn deliver_then_subscribe_drains_queue() {
    let mut state = HubState::new();
    let id: RoutingId = [1u8; 16];

    // Three deliveries with nobody subscribed: all queued.
    for body in [b"a".to_vec(), b"b".to_vec(), b"c".to_vec()] {
        let delivered = state.deliver(id, body);
        assert_eq!(delivered, 0, "no subs → queued");
    }
    assert_eq!(state.queue_len(&id), 3);

    // Subscriber arrives and gets all three at once.
    let (tx, mut rx) = mpsc::channel(8);
    let conn = state.register_conn(tx);
    let drained = state.subscribe(conn, &[id]);
    assert_eq!(drained.len(), 3);
    assert_eq!(drained[0], b"a");
    assert_eq!(drained[1], b"b");
    assert_eq!(drained[2], b"c");

    // Queue is now empty, and nothing was delivered live.
    assert_eq!(state.queue_len(&id), 0);
    assert!(rx.try_recv().is_err());
}

#[test]
fn multiple_subscribers_all_get_delivery() {
    let mut state = HubState::new();
    let id: RoutingId = [9u8; 16];
    let (tx1, mut rx1) = mpsc::channel(8);
    let (tx2, mut rx2) = mpsc::channel(8);
    let c1 = state.register_conn(tx1);
    let c2 = state.register_conn(tx2);
    state.subscribe(c1, &[id]);
    state.subscribe(c2, &[id]);
    assert_eq!(state.subscriber_count(&id), 2);

    let delivered = state.deliver(id, b"x".to_vec());
    assert_eq!(delivered, 2);
    assert_eq!(rx1.try_recv().unwrap(), b"x");
    assert_eq!(rx2.try_recv().unwrap(), b"x");
}

#[test]
fn unregister_cleans_up_subscriptions() {
    let mut state = HubState::new();
    let id: RoutingId = [7u8; 16];
    let (tx, _rx) = mpsc::channel(8);
    let conn = state.register_conn(tx);
    state.subscribe(conn, &[id]);
    assert_eq!(state.subscriber_count(&id), 1);
    assert_eq!(state.connection_count(), 1);

    state.unregister_conn(conn);
    assert_eq!(state.subscriber_count(&id), 0);
    assert_eq!(state.connection_count(), 0);
    assert!(state.live_targets(&id).is_empty());
}

#[test]
fn fetch_keypackage_missing_returns_none() {
    let state = HubState::new();
    let id: RoutingId = [0xAA; 16];
    assert!(state.fetch_keypackage(&id).is_none());
    assert_eq!(state.keypackage_count(), 0);
}

#[test]
fn publish_then_fetch_returns_bytes() {
    let mut state = HubState::new();
    let id: RoutingId = [0xBB; 16];
    state.publish_keypackage(id, b"kp-bytes-v1".to_vec());
    assert_eq!(
        state.fetch_keypackage(&id).as_deref(),
        Some(b"kp-bytes-v1".as_slice())
    );
    assert_eq!(state.keypackage_count(), 1);
}

#[test]
fn publish_overwrites_latest() {
    let mut state = HubState::new();
    let id: RoutingId = [0xCC; 16];
    state.publish_keypackage(id, b"kp-v1".to_vec());
    state.publish_keypackage(id, b"kp-v2".to_vec());
    // Latest wins.
    assert_eq!(
        state.fetch_keypackage(&id).as_deref(),
        Some(b"kp-v2".as_slice())
    );
    assert_eq!(state.keypackage_count(), 1);
}

/// The two tables of a durable store.
#[derive(Default)]
struct Disk {
    queue: Vec<(Vec<u8>, Vec<u8>)>,
    keypackages: Vec<(Vec<u8>, Vec<u8>)>,
}

impl Disk {
    fn write(&mut self, ops: Vec<StoreOp>) {
        for op in ops {
            match op {
                StoreOp::Enqueue {
                    routing_id,
                    payload,
                } => self.queue.push((routing_id.to_vec(), payload)),
                StoreOp::Drain { routing_id } => self.queue.retain(|r| r.0 != routing_id),
                StoreOp::SetKeypackage { routing_id, kp } => {
                    self.keypackages.retain(|r| r.0 != routing_id);
                    self.keypackages.push((routing_id.to_vec(), kp));
                }
            }
        }
    }

    fn open(&self) -> HubState {
        HubState::with_store(StoredState {
            keypackages: load_all_keypackages(&self.keypackages).unwrap(),
            queues: load_all_queues(&self.queue).unwrap(),
        })
    }
}

/// What waits is there after a restart, and what was drained is not.
#[test]
fn with_store_survives_restart() {
    let rid_a: RoutingId = [0xA1; 16];
    let rid_b: RoutingId = [0xB2; 16];
    let mut disk = Disk::default();

    // First lifetime: two envelopes wait, and a key package is published.
    {
        let mut state = disk.open();
        state.deliver(rid_a, b"queued-1".to_vec());
        state.deliver(rid_a, b"queued-2".to_vec());
        state.publish_keypackage(rid_b, b"kp-bytes".to_vec());
        assert_eq!(state.queue_len(&rid_a), 2);
        assert_eq!(state.keypackage_count(), 1);
        disk.write(state.take_store_ops());
        assert!(state.take_store_ops().is_empty());
    }

    // Second lifetime: both are back, and a subscriber drains the queue.
    {
        let mut state = disk.open();
        assert_eq!(
            state.queue_len(&rid_a),
            2,
            "queued envelopes must survive restart"
        );
        assert_eq!(
            state.fetch_keypackage(&rid_b).as_deref(),
            Some(b"kp-bytes".as_slice()),
            "published KP must survive restart"
        );
        let (tx, _rx) = mpsc::channel(8);
        let conn = state.register_conn(tx);
        let drained = state.subscribe(conn, &[rid_a]);
        assert_eq!(drained.len(), 2);
        assert_eq!(state.queue_len(&rid_a), 0);
        disk.write(state.take_store_ops());
    }

    // Third lifetime: what was drained does not come back.
    {
        let state = disk.open();
        assert_eq!(
            state.queue_len(&rid_a),
            0,
            "drained envelopes must not reappear after restart"
        );
        assert_eq!(
            state.fetch_keypackage(&rid_b).as_deref(),
            Some(b"kp-bytes".as_slice())
        );
    }
}

/// A hub without a durable store has nothing to write down.
#[test]
fn a_hub_in_memory_writes_nothing() {
    let mut state = HubState::new();
    state.deliver([1; 16], b"x".to_vec());
    state.publish_keypackage([2; 16], b"kp".to_vec());
    assert!(state.take_store_ops().is_empty());
}

fn outlet(n: u8, capacity: usize) -> (PeerOutlet, mpsc::Receiver<GossipOut>) {
    let (tx, rx) = mpsc::channel(capacity);
    (PeerOutlet { key: [n; 32], tx }, rx)
}

#[test]
fn fan_out_kp_to_peers_noop_when_no_peers() {
    let mut state = HubState::new();
    assert_eq!(state.fan_out_kp_to_peers([0x42; 16], b"opaque kp bytes"), 0);
}

#[test]
fn fan_out_kp_to_peers_pushes_to_all_peers() {
    let (a, mut rx_a) = outlet(1, 8);
    let (b, mut rx_b) = outlet(2, 8);
    let mut state = HubState::new();
    state.set_self_hub_hash([0xAA; 16]);
    state.set_peer_outbounds(vec![a, b]);

    let rid: RoutingId = [0x11; 16];
    let kp = b"opaque kp bytes".to_vec();
    assert_eq!(state.fan_out_kp_to_peers(rid, &kp), 2);

    for rx in [&mut rx_a, &mut rx_b] {
        let out = rx.try_recv().expect("peer received");
        assert_eq!(out.kind, GossipKind::Publish);
        assert_eq!(
            out.frame.ttl, GOSSIP_TTL_DEFAULT,
            "fresh frames use default TTL"
        );
        assert_eq!(out.frame.seen_by, [0xAA; 16], "seen_by = our hub hash");
        assert_eq!(out.frame.routing_id, rid);
        assert_eq!(out.frame.body, kp);
    }
}

#[test]
fn fan_out_kp_to_peers_full_channel_only_drops_that_peer() {
    let (full, _rx_full_never_read) = outlet(1, 1);
    let (open, mut rx_open) = outlet(2, 8);
    let mut state = HubState::new();
    state.set_self_hub_hash([0xCC; 16]);
    // Fill the first channel so that the next push fails.
    full.tx
        .try_send(state.gossip_frame(GossipKind::Publish, 1, [0; 16], b"pre-fill"))
        .expect("seed full channel");
    state.set_peer_outbounds(vec![full, open]);

    assert_eq!(state.fan_out_kp_to_peers([0x22; 16], b"kp"), 1);
    let out = rx_open.try_recv().expect("open peer received");
    assert_eq!(out.frame.routing_id, [0x22; 16]);
}

#[test]
fn hub_pubkey_to_hash_is_deterministic() {
    let pk = [0x55; 32];
    let h1 = HubState::hub_pubkey_to_hash(&pk);
    let h2 = HubState::hub_pubkey_to_hash(&pk);
    assert_eq!(h1, h2);
    // Different pubkey, different hash.
    let h3 = HubState::hub_pubkey_to_hash(&[0x56; 32]);
    assert_ne!(h1, h3);
}

#[test]
fn new_is_ephemeral_no_store_no_panic() {
    let mut state = HubState::new();
    let id: RoutingId = [0xEE; 16];
    state.deliver(id, b"x".to_vec()); // no subscriber → queue
    state.publish_keypackage(id, b"kp".to_vec());
    assert_eq!(state.queue_len(&id), 1);
    assert_eq!(state.keypackage_count(), 1);
}

#[test]
fn a_full_mailbox_does_not_count_as_delivered() {
    let mut state = HubState::new();
    let id: RoutingId = [3; 16];
    let (tx, mut rx) = mpsc::channel(1);
    let conn = state.register_conn(tx);
    state.subscribe(conn, &[id]);
    assert_eq!(state.deliver(id, b"1".to_vec()), 1);
    // Nobody took it, so it waits.
    assert_eq!(state.deliver(id, b"2".to_vec()), 0);
    assert_eq!(state.queue_len(&id), 1);
    assert_eq!(rx.try_recv().unwrap(), b"1");
}

/// What waits for one routing id is not touched by what happens to another.
#[test]
fn queues_are_apart() {
    let mut state = HubState::new();
    let (a, b): (RoutingId, RoutingId) = ([1; 16], [2; 16]);
    state.deliver(a, b"for-a-1".to_vec());
    state.deliver(b, b"for-b-1".to_vec());
    state.deliver(a, b"for-a-2".to_vec());
    let (tx, _rx) = mpsc::channel(8);
    let conn = state.register_conn(tx);
    let drained = state.subscribe(conn, &[a]);
    assert_eq!(drained, vec![b"for-a-1".to_vec(), b"for-a-2".to_vec()]);
    assert_eq!(state.queue_len(&b), 1);
    // A second subscription gets nothing twice.
    assert!(state.subscribe(conn, &[a]).is_empty());
}

#[test]
fn load_all_queues_groups_by_routing_id_in_fifo_order() {
    let rid_a: RoutingId = [0x10; 16];
    let rid_b: RoutingId = [0x20; 16];
    let rows = vec![
        (rid_a.to_vec(), b"a1".to_vec()),
        (rid_b.to_vec(), b"b1".to_vec()),
        (rid_a.to_vec(), b"a2".to_vec()),
        (rid_b.to_vec(), b"b2".to_vec()),
        (rid_a.to_vec(), b"a3".to_vec()),
    ];
    let groups = load_all_queues(&rows).unwrap();
    let mut a_payloads = Vec::new();
    let mut b_payloads = Vec::new();
    for (rid, payloads) in groups {
        if rid == rid_a {
            a_payloads = payloads;
        } else if rid == rid_b {
            b_payloads = payloads;
        }
    }
    assert_eq!(
        a_payloads,
        vec![b"a1".to_vec(), b"a2".to_vec(), b"a3".to_vec()]
    );
    assert_eq!(b_payloads, vec![b"b1".to_vec(), b"b2".to_vec()]);
}

#[test]
fn rows_with_bad_ids_are_errors() {
    let rows = vec![(vec![0; 15], vec![])];
    assert_eq!(
        load_all_queues(&rows).unwrap_err().message(),
        "queue_entry.routing_id not 16 bytes"
    );
    assert_eq!(
        load_all_keypackages(&rows).unwrap_err().message(),
        "keypackage.routing_id not 16 bytes"
    );
}

#[test]
fn gc_cutoff_counts_days() {
    assert_eq!(gc_cutoff(10 * 86_400_000, 3), 7 * 86_400_000);
    assert_eq!(gc_cutoff(0, 1), -86_400_000);
}

#[test]
fn rates_are_kept_per_identity() {
    let mut state = HubState::new().with_rate_limit(2);
    let (a, b) = ([1u8; 32], [2u8; 32]);
    assert!(state.check_rate(&a, 0));
    assert!(state.check_rate(&a, 0));
    assert!(!state.check_rate(&a, 0));
    assert!(state.check_rate(&b, 0));
    // A reconnect changes nothing; a minute does.
    state.forget_rate_if_full(&a, 0);
    assert!(!state.check_rate(&a, 0));
    state.evict_full_rates(60_000_000_000);
    assert!(state.check_rate(&a, 60_000_000_000));
    assert!(HubState::new().check_rate(&a, 0));
}

#[test]
fn peer_hubs_are_read() {
    const KEY: &str = "aaaaaaaaaaaaaaaaaaaaaaaaaaaaaaaaaaaaaaaaaaaaaaaaaaaa";
    let t = parse_peer_hub(&format!("h.onion:9,{KEY}")).unwrap();
    assert_eq!((t.host.as_str(), t.port, t.key), ("h.onion", 9, [0; 32]));
    assert_eq!(t.config.onion, "h.onion:9");
    assert_eq!(parse_peer_hub(&format!("h,{KEY}")).unwrap().port, 1);
    let text = |raw: &str| parse_peer_hub(raw).unwrap_err().message();
    assert_eq!(
        text("nocomma"),
        "--peer-hub value must be `onion:port,b32pubkey` (missing comma): nocomma"
    );
    assert_eq!(text(",x"), "--peer-hub value has empty field: ,x");
    assert_eq!(text("h:x,k"), "--peer-hub onion: bad port in \"h:x\"");
    assert_eq!(text("h,0"), "--peer-hub pubkey: not valid base32");
    assert_eq!(text("h,aa"), "--peer-hub pubkey: base32 must decode to exactly 32 bytes");
}

#[test]
fn modes_and_pauses() {
    assert_eq!(parse_gossip_mode("eager"), GossipMode::Eager);
    assert_eq!(parse_gossip_mode("anything"), GossipMode::Lazy);
    let mut ms = BACKOFF_INITIAL_MS;
    let mut seen = vec![ms];
    for _ in 0..7 {
        ms = next_backoff(ms);
        seen.push(ms);
    }
    assert_eq!(seen, vec![500, 1000, 2000, 4000, 8000, 16000, 30000, BACKOFF_MAX_MS]);
    assert_eq!(cover_mean(Some(0)), None);
    assert_eq!(cover_mean(Some(9)), Some(9));
}

#[test]
fn lazy_hubs_pass_on_what_nobody_took() {
    let (a, mut rx) = outlet(1, 8);
    let mut state = HubState::new();
    state.set_peer_outbounds(vec![a]);
    assert!(state.is_peer_hub(&[1; 32]));
    assert!(!state.is_peer_hub(&[2; 32]));
    let (tx, _keep) = mpsc::channel(8);
    let conn = state.register_conn(tx);
    state.subscribe(conn, &[[1; 16]]);
    assert_eq!(state.deliver_from_client([1; 16], b"here".to_vec()), 1);
    assert!(rx.try_recv().is_err());
    assert_eq!(state.deliver_from_client([2; 16], b"there".to_vec()), 0);
    assert_eq!(rx.try_recv().unwrap().frame.body, b"there");
    state.set_gossip_mode(GossipMode::Eager);
    assert_eq!(state.gossip_mode(), GossipMode::Eager);
    assert_eq!(state.deliver_from_client([1; 16], b"both".to_vec()), 1);
    assert_eq!(rx.try_recv().unwrap().kind, GossipKind::Deliver);
}

#[test]
fn the_clock_of_the_rate_limit_runs_only_with_one() {
    let mut free = HubState::new();
    assert_eq!(free.rate_clock(), 0);
    let mut limited = HubState::new().with_rate_limit(2);
    let a = limited.rate_clock();
    let t = std::time::Instant::now();
    while t.elapsed() < std::time::Duration::from_millis(2) {}
    assert!(limited.rate_clock() - a >= 2_000_000);
    assert_eq!(free.rate_clock(), 0);
}

/// Of two channels to one hub the later counts.
#[test]
fn a_hub_has_one_channel() {
    let (a, mut a_rx) = outlet(1, 8);
    let (b, mut b_rx) = outlet(2, 8);
    let (c, mut c_rx) = outlet(1, 8);
    let mut outlets = Vec::new();
    add_outlet(&mut outlets, a);
    add_outlet(&mut outlets, b);
    add_outlet(&mut outlets, c);
    assert_eq!(outlets.len(), 2);
    let mut state = HubState::new();
    state.set_peer_outbounds(outlets);
    assert_eq!(state.fan_out_kp_to_peers([3; 16], b"kp"), 2);
    assert!(a_rx.try_recv().is_err());
    assert!(b_rx.try_recv().is_ok());
    assert!(c_rx.try_recv().is_ok());
    assert!(c_rx.try_recv().is_err());
}
