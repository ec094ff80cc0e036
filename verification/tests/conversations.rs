use onyx::conversations::{
    room_event, ApiEvent, ConversationRegistry, MessageDirection, PeerOutbound, RING_CAPACITY,
};

fn b32() -> String {
    "u5lhmxpsxxxxxxxxxxxxxxxxxxxxxxxxxxxxxxxxxxxxxxxxxxxx".to_string()
}

#[test]
fn register_then_lookup_by_short() {
    let mut reg = ConversationRegistry::new();
    let (handle, _rx) = reg.register([7u8; 32], &b32(), "fpr".into());
    assert_eq!(handle.short_id.len(), 8);
    let h = reg.handle_for_short(&handle.short_id).expect("present");
    assert_eq!(h.peer_pub, handle.peer_pub);
}

#[test]
fn short_id_collision_does_not_hijack_existing_peer() {
    // A label is short enough to be matched on purpose: a second peer
    // with the same one must not take it over. Both texts share the
    // first eight characters.
    let mut reg = ConversationRegistry::new();
    let victim_b32 = "aaaaaaaabbbbbbbbbbbbbbbbbbbbbbbbbbbbbbbbbbbbb";
    let attacker_b32 = "aaaaaaaaccccccccccccccccccccccccccccccccccccc";
    let (victim, _rxv) = reg.register([1u8; 32], victim_b32, "victim-fpr".into());
    let (attacker, _rxa) = reg.register([2u8; 32], attacker_b32, "attacker-fpr".into());

    assert_eq!(
        victim.short_id, attacker.short_id,
        "test setup: the two short ids must collide"
    );
    // Both peers are independently registered (by full key)...
    assert_eq!(reg.list().len(), 2, "both peers should be registered");
    // ...but the short-id lookup still resolves to the FIRST owner,
    // so the user's short-id sends are not hijacked.
    let resolved = reg
        .handle_for_short(&victim.short_id)
        .expect("short id present");
    assert_eq!(
        resolved.peer_pub, victim.peer_pub,
        "a colliding short id must not hijack the original owner"
    );
}

#[test]
fn push_message_appears_in_list_preview() {
    let mut reg = ConversationRegistry::new();
    let (handle, _rx) = reg.register([1u8; 32], &b32(), "fpr".into());
    assert!(reg.push_message(
        &handle.peer_pub,
        MessageDirection::Incoming,
        "hello there".into(),
    ));
    let list = reg.list();
    assert_eq!(list.len(), 1);
    assert_eq!(list[0].last_message_preview.as_deref(), Some("hello there"));
    assert!(list[0].connected);
}

#[test]
fn mark_disconnected_keeps_row_but_blocks_send_lookup() {
    let mut reg = ConversationRegistry::new();
    let (handle, _rx) = reg.register([2u8; 32], &b32(), "fpr".into());
    let short = handle.short_id.clone();
    reg.mark_disconnected(&handle.peer_pub);
    // Still in `list` for the TUI's history view.
    let list = reg.list();
    assert_eq!(list.len(), 1);
    assert!(!list[0].connected);
    // But `handle_for_short` refuses — `Send` would fail.
    assert!(reg.handle_for_short(&short).is_none());
}

#[test]
fn ring_buffer_caps_at_capacity() {
    let mut reg = ConversationRegistry::new();
    let (handle, _rx) = reg.register([3u8; 32], &b32(), "fpr".into());
    for i in 0..(RING_CAPACITY + 10) {
        reg.push_message(
            &handle.peer_pub,
            MessageDirection::Incoming,
            format!("msg-{i}"),
        );
    }
    // Only `RING_CAPACITY` retained.
    let ring = reg.history(&handle.short_id, usize::MAX).unwrap();
    assert_eq!(ring.len(), RING_CAPACITY);
    // Oldest dropped, newest kept.
    assert_eq!(ring.first().unwrap().text, format!("msg-{}", 10));
    assert_eq!(
        ring.last().unwrap().text,
        format!("msg-{}", RING_CAPACITY + 9)
    );
}

#[test]
fn subscribe_then_register_emits_connected_event() {
    let mut reg = ConversationRegistry::new();
    let mut rx = reg.subscribe_events();
    let (_handle, _o_rx) = reg.register([4u8; 32], &b32(), "fpr".into());
    let event = rx.try_recv().expect("recv");
    match event {
        ApiEvent::PeerConnected { peer } => {
            assert_eq!(peer.short_id.len(), 8);
            assert!(peer.connected);
        }
        other => panic!("expected PeerConnected, got {other:?}"),
    }
}

#[test]
fn push_message_emits_event_message() {
    let mut reg = ConversationRegistry::new();
    let (handle, _rx) = reg.register([5u8; 32], &b32(), "fpr".into());
    let mut events = reg.subscribe_events();
    reg.push_message(&handle.peer_pub, MessageDirection::Incoming, "yo".into());
    let event = events.try_recv().expect("recv");
    match event {
        ApiEvent::Message {
            peer_short,
            direction,
            text,
            ..
        } => {
            assert_eq!(peer_short, handle.short_id);
            assert_eq!(direction, MessageDirection::Incoming);
            assert_eq!(text, "yo");
        }
        other => panic!("expected Message, got {other:?}"),
    }
}

#[test]
fn outbound_send_round_trip_via_mpsc() {
    let mut reg = ConversationRegistry::new();
    let (handle, mut rx) = reg.register([6u8; 32], &b32(), "fpr".into());
    handle
        .outbound_tx
        .try_send(PeerOutbound::Dm("hi peer".into()))
        .unwrap();
    match rx.try_recv().unwrap() {
        PeerOutbound::Dm(text) => assert_eq!(text, "hi peer"),
        other => panic!("expected Dm, got {other:?}"),
    }
}

#[test]
fn history_returns_messages_oldest_to_newest() {
    let mut reg = ConversationRegistry::new();
    let (handle, _rx) = reg.register([10u8; 32], &b32(), "fpr".into());
    for i in 0..5 {
        reg.push_message(
            &handle.peer_pub,
            MessageDirection::Incoming,
            format!("m{i}"),
        );
    }
    let hist = reg.history(&handle.short_id, 10).expect("known peer");
    assert_eq!(hist.len(), 5);
    let texts: Vec<&str> = hist.iter().map(|h| h.text.as_str()).collect();
    assert_eq!(texts, ["m0", "m1", "m2", "m3", "m4"]);
}

#[test]
fn history_limit_returns_only_the_most_recent() {
    let mut reg = ConversationRegistry::new();
    let (handle, _rx) = reg.register([11u8; 32], &b32(), "fpr".into());
    for i in 0..10 {
        reg.push_message(
            &handle.peer_pub,
            MessageDirection::Outgoing,
            format!("m{i}"),
        );
    }
    let hist = reg.history(&handle.short_id, 3).unwrap();
    assert_eq!(
        hist.iter().map(|h| h.text.as_str()).collect::<Vec<_>>(),
        ["m7", "m8", "m9"]
    );
}

#[test]
fn history_unknown_peer_is_none() {
    let reg = ConversationRegistry::new();
    assert!(reg.history("nopeer", 10).is_none());
}

#[test]
fn register_hub_only_appears_in_list_as_disconnected() {
    let mut reg = ConversationRegistry::new();
    let h = reg.register_hub_only([0x20; 32], &b32(), "fpr".into());
    assert_eq!(h.short_id.len(), 8);
    let list = reg.list();
    assert_eq!(list.len(), 1);
    // Hub-only peers are "known but not directly connected"; the
    // TUI must show this distinction so users know `Send` won't
    // reach them.
    assert!(!list[0].connected);
    // `handle_for_short` filters out !connected — `Send` errors.
    assert!(reg.handle_for_short(&h.short_id).is_none());
}

#[test]
fn register_hub_only_is_idempotent() {
    let mut reg = ConversationRegistry::new();
    let peer_pub = [0x21; 32];
    let h1 = reg.register_hub_only(peer_pub, &b32(), "fpr".into());
    let h2 = reg.register_hub_only(peer_pub, &b32(), "fpr".into());
    // Same logical peer ⇒ same short_id (and registry size stays at 1).
    assert_eq!(h1.short_id, h2.short_id);
    assert_eq!(reg.list().len(), 1);
}

#[test]
fn register_hub_only_emits_event_peer_connected_once() {
    let mut reg = ConversationRegistry::new();
    let mut events = reg.subscribe_events();
    let _h = reg.register_hub_only([0x22; 32], &b32(), "fpr".into());
    match events.try_recv().expect("one event") {
        ApiEvent::PeerConnected { peer } => {
            assert!(!peer.connected, "hub-only peer surfaces as !connected");
        }
        other => panic!("expected PeerConnected, got {other:?}"),
    }
    // Re-registering must NOT emit a second event (idempotent).
    let _h2 = reg.register_hub_only([0x22; 32], &b32(), "fpr".into());
    assert!(matches!(
        events.try_recv(),
        Err(tokio::sync::broadcast::error::TryRecvError::Empty)
    ));
}

#[test]
fn push_message_via_hub_tags_event() {
    let mut reg = ConversationRegistry::new();
    let h = reg.register_hub_only([0x23; 32], &b32(), "fpr".into());
    let mut events = reg.subscribe_events();
    reg.push_message_via_hub(
        &h.peer_pub,
        MessageDirection::Incoming,
        "hello from afar".into(),
    );
    match events.try_recv().expect("EventMessage") {
        ApiEvent::Message {
            peer_short,
            via_hub,
            text,
            ..
        } => {
            assert_eq!(peer_short, h.short_id);
            assert!(via_hub, "must tag the message as via_hub");
            assert_eq!(text, "hello from afar");
        }
        other => panic!("expected Message, got {other:?}"),
    }
}

#[test]
fn hub_only_handle_send_returns_closed_immediately() {
    let mut reg = ConversationRegistry::new();
    let h = reg.register_hub_only([0x24; 32], &b32(), "fpr".into());
    // The Receiver was dropped inside register_hub_only; any
    // try_send should hit Closed almost immediately. (It might
    // succeed once before the channel notices.)
    let first = h.outbound_tx.try_send(PeerOutbound::Dm("msg".into()));
    let second = h.outbound_tx.try_send(PeerOutbound::Dm("msg".into()));
    // At least one of the two attempts must be Closed — a future
    // refactor that silently absorbs all messages into a dropped
    // channel would defeat the whole point of `register_hub_only`.
    assert!(
        matches!(
            first,
            Err(tokio::sync::mpsc::error::TrySendError::Closed(_))
        ) || matches!(
            second,
            Err(tokio::sync::mpsc::error::TrySendError::Closed(_))
        ),
        "outbound_tx on a hub-only handle must error Closed; \
         got first={first:?}, second={second:?}"
    );
}

#[test]
fn history_for_disconnected_peer_still_works() {
    let mut reg = ConversationRegistry::new();
    let (handle, _rx) = reg.register([12u8; 32], &b32(), "fpr".into());
    reg.push_message(&handle.peer_pub, MessageDirection::Incoming, "saved".into());
    reg.mark_disconnected(&handle.peer_pub);
    let hist = reg.history(&handle.short_id, 10).expect("known peer");
    assert_eq!(hist.len(), 1);
    assert_eq!(hist[0].text, "saved");
    // But Send-lookup is blocked.
    assert!(reg.handle_for_short(&handle.short_id).is_none());
}

/// A preview shows up to 64 bytes.
#[test]
fn previews_are_cut_at_64_bytes() {
    let mut reg = ConversationRegistry::new();
    let (handle, _rx) = reg.register([1u8; 32], &b32(), "fpr".into());
    let long = "x".repeat(65);
    reg.push_message(&handle.peer_pub, MessageDirection::Incoming, long.clone());
    assert!(reg.previews_fit());
    let shown = reg.list()[0].last_message_preview.clone().unwrap();
    assert_eq!(shown, format!("{}…", &long[..64]));
    reg.push_message(&handle.peer_pub, MessageDirection::Incoming, "y".repeat(64));
    assert_eq!(reg.list()[0].last_message_preview.clone().unwrap(), "y".repeat(64));
}

/// A text whose 64th byte is inside a character has no preview.
#[test]
fn previews_do_not_split_characters() {
    let mut reg = ConversationRegistry::new();
    let (handle, _rx) = reg.register([1u8; 32], &b32(), "fpr".into());
    let text = format!("{}€€", "x".repeat(63));
    reg.push_message(&handle.peer_pub, MessageDirection::Incoming, text);
    assert!(!reg.previews_fit());
}

#[test]
fn lookup_by_fingerprint_takes_a_session() {
    let mut reg = ConversationRegistry::new();
    let (handle, _rx) = reg.register([1u8; 32], &b32(), "fpr".into());
    assert_eq!(reg.handle_for_fingerprint("fpr").unwrap().peer_pub, [1u8; 32]);
    assert!(reg.handle_for_fingerprint("other").is_none());
    reg.mark_disconnected(&handle.peer_pub);
    assert!(reg.handle_for_fingerprint("fpr").is_none());
}

#[test]
fn disconnecting_emits_an_event() {
    let mut reg = ConversationRegistry::default();
    let (handle, _rx) = reg.register([1u8; 32], &b32(), "fpr".into());
    let mut events = reg.subscribe_events();
    reg.mark_disconnected(&[9u8; 32]);
    assert!(events.try_recv().is_err());
    reg.mark_disconnected(&handle.peer_pub);
    match events.try_recv().unwrap() {
        ApiEvent::PeerDisconnected { peer_short } => assert_eq!(peer_short, handle.short_id),
        other => panic!("expected PeerDisconnected, got {other:?}"),
    }
}

#[test]
fn messages_of_unknown_peers_are_not_kept() {
    let mut reg = ConversationRegistry::new();
    assert!(!reg.push_message(&[1u8; 32], MessageDirection::Incoming, "x".into()));
    assert!(!reg.push_message_via_hub(&[1u8; 32], MessageDirection::Incoming, "x".into()));
    assert_eq!(reg.list().len(), 0);
}

#[test]
fn room_messages_name_the_room() {
    match room_event(&[0xff; 16], "hi".into(), 7) {
        ApiEvent::Message {
            peer_short,
            direction,
            text,
            ts_unix_ms,
            via_hub,
        } => {
            assert_eq!(peer_short, "room/77777777");
            assert_eq!(direction, MessageDirection::Incoming);
            assert_eq!(text, "hi");
            assert_eq!(ts_unix_ms, 7);
            assert!(!via_hub);
        }
        other => panic!("expected Message, got {other:?}"),
    }
    let mut reg = ConversationRegistry::new();
    let mut events = reg.subscribe_events();
    assert!(reg.push_room_message(&[0xff; 16], [1; 32], "hi".into()));
    assert!(matches!(events.try_recv(), Ok(ApiEvent::Message { .. })));
}

#[test]
fn sessions_stamp_messages() {
    let mut reg = ConversationRegistry::new();
    let (handle, _rx) = reg.register([1u8; 32], &b32(), "fpr".into());
    let mut events = reg.subscribe_events();
    assert!(reg.push_line(
        &handle.peer_pub,
        MessageDirection::Outgoing,
        "t".into(),
        false,
        1234,
    ));
    assert!(matches!(events.try_recv(), Ok(ApiEvent::Message { ts_unix_ms: 1234, .. })));
    assert_eq!(reg.history(&handle.short_id, 1).unwrap()[0].ts_unix_ms, 1234);
    assert_eq!(reg.list()[0].last_active_unix_ms, 1234);
}

#[test]
fn every_listener_hears_what_comes_after_it() {
    let mut reg = ConversationRegistry::new();
    let mut first = reg.subscribe_events();
    let _ = reg.register([0x31; 32], &b32(), "fpr".into());
    let mut second = reg.subscribe_events();
    reg.mark_disconnected(&[0x31; 32]);
    assert!(matches!(first.try_recv(), Ok(ApiEvent::PeerConnected { .. })));
    assert!(matches!(first.try_recv(), Ok(ApiEvent::PeerDisconnected { .. })));
    assert!(matches!(second.try_recv(), Ok(ApiEvent::PeerDisconnected { .. })));
    assert!(second.try_recv().is_err());
}
