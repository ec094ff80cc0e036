use onyx::conversations::{ApiEvent, ConversationRegistry, PeerOutbound};
use onyx::files::storage::FileStep;
use onyx::files::transfer::{AcceptDecision, FilesConfig, InflightTable};
use onyx::pending::{PendingRoomFrames, PENDING_ROOM_FRAMES_PER_GROUP_MAX};
use onyx::room::RoomAppMessage;
use onyx::roster::{find_row, is_member, members_b32, refreshed_row, Member, RoomRow};
use onyx::session::{
    attributed_to, deliver_via_hub, derive_peer_fingerprint, frame_epoch, identity_key, is_pinned,
    on_dm_message, on_retried_frame, on_room_frame, on_room_message, on_welcome, placeholder_of,
    plan_outbound, route_frame, session_fingerprint, OutboundStep, Received, RoomFrame, RoomStep,
    Route, WelcomeStep,
};
use onyx::text::split_nonempty;

fn member(key_len: usize, fp: Option<&str>) -> Member {
    Member {
        signing_key: vec![1; key_len],
        fingerprint: fp.map(str::to_string),
    }
}

fn cfg() -> FilesConfig {
    FilesConfig::defaults("/data")
}

#[test]
fn unknown_senders_are_labelled_and_never_pinned() {
    let label = placeholder_of(&[0; 32]);
    assert_eq!(label, "(peer/aaaaaaaa)");
    assert!(!is_pinned(&label));
    assert!(is_pinned("abcd-efgh"));
    assert_eq!(attributed_to(None, &[0; 32]), label);
    assert_eq!(attributed_to(Some("fp".into()), &[0; 32]), "fp");
    assert_eq!(session_fingerprint(&None, &[0; 32]), label);
    assert_eq!(session_fingerprint(&Some(member(32, None)), &[0; 32]), label);
    assert_eq!(session_fingerprint(&Some(member(31, Some("fp"))), &[0; 32]), label);
    assert_eq!(session_fingerprint(&Some(member(32, Some("fp"))), &[0; 32]), "fp");
}

#[test]
fn fingerprints_fall_back() {
    assert_eq!(derive_peer_fingerprint(&None, "f"), "f");
    assert_eq!(derive_peer_fingerprint(&Some(member(31, Some("x"))), "f"), "f");
    assert_eq!(derive_peer_fingerprint(&Some(member(32, None)), "f"), "f");
    assert_eq!(derive_peer_fingerprint(&Some(member(32, Some("x"))), "f"), "x");
    assert_eq!(identity_key(&Some(vec![3; 32])), Some([3; 32]));
    assert_eq!(identity_key(&Some(vec![3; 33])), None);
    assert_eq!(identity_key(&None), None);
}

#[test]
fn frames_find_their_group() {
    assert_eq!(route_frame(false, &Some(vec![1]), &[1]), Route::Unexpected);
    assert_eq!(route_frame(true, &None, &[1]), Route::Unreadable);
    assert_eq!(route_frame(true, &Some(vec![1]), &[1]), Route::Direct);
    assert_eq!(route_frame(true, &Some(vec![2]), &[1]), Route::Room);
}

#[test]
fn outbound_messages() {
    match plan_outbound(PeerOutbound::Dm("hi".into())) {
        (OutboundStep::Encrypt(RoomAppMessage::Text { text }), log) => {
            assert_eq!((text.as_str(), log.as_str()), ("hi", "hi"));
        }
        other => panic!("expected a text, got {other:?}"),
    }
    match plan_outbound(PeerOutbound::RoomFrame(vec![0; 12])) {
        (OutboundStep::Forward(ct), log) => {
            assert_eq!(ct.len(), 12);
            assert_eq!(log, "[room ciphertext, 12 B]");
        }
        other => panic!("expected a ciphertext, got {other:?}"),
    }
    let msg = RoomAppMessage::FileChunk {
        id: vec![],
        index: 0,
        bytes: vec![],
    };
    let (_, log) = plan_outbound(PeerOutbound::DmFrame(msg));
    assert_eq!(log, "[dm file frame]");
}

fn meta(size: u64, conversation_hash: [u8; 32]) -> RoomAppMessage {
    RoomAppMessage::FileMeta {
        id: vec![4; 16],
        name: "n".into(),
        mime: "text/plain".into(),
        size,
        chunks: 1,
        chunk_size: 100,
        content_hash: conversation_hash.to_vec(),
    }
}

/// The digest of `hello world`.
const HELLO_HASH: [u8; 32] = [
    0x25, 0x6c, 0x83, 0xb2, 0x97, 0x11, 0x4d, 0x20, 0x1b, 0x30, 0x17, 0x9f, 0x3f, 0x0e, 0xf0, 0xca,
    0xce, 0x97, 0x83, 0x62, 0x2d, 0xa5, 0x97, 0x43, 0x26, 0xb4, 0x36, 0x17, 0x8a, 0xee, 0xf6, 0x10,
];

#[test]
fn direct_messages_reach_the_conversation() {
    let mut reg = ConversationRegistry::new();
    let (handle, _rx) = reg.register([7; 32], "bbbbbbbb", "fp".into());
    let mut table = InflightTable::new();
    let c = cfg();
    let text = Some(RoomAppMessage::Text { text: "hello".into() });
    let r = on_dm_message(&mut reg, &mut table, &c, &[7; 32], "fp", 0, 0, text);
    assert!(matches!(r, Received::Text(t) if t == "hello"));
    assert_eq!(reg.history(&handle.short_id, 9).unwrap()[0].text, "hello");

    let r = on_dm_message(&mut reg, &mut table, &c, &[7; 32], "fp", 0, 0, None);
    assert!(matches!(r, Received::Ignored));
    let ad = Some(RoomAppMessage::KemAdvertisement {
        fingerprint: "fp".into(),
        kem_pub: vec![1],
    });
    let r = on_dm_message(&mut reg, &mut table, &c, &[7; 32], "fp", 0, 0, ad);
    assert!(matches!(r, Received::Ignored));
    assert_eq!(reg.history(&handle.short_id, 9).unwrap().len(), 1);
}

#[test]
fn direct_files_go_to_the_peers_directory() {
    let mut reg = ConversationRegistry::new();
    let mut table = InflightTable::new();
    let c = cfg();
    let r = on_dm_message(
        &mut reg,
        &mut table,
        &c,
        &[0; 32],
        "fp",
        0,
        0,
        Some(meta(11, HELLO_HASH)),
    );
    assert!(matches!(r, Received::Announced(AcceptDecision::Accepted)));
    let chunk = RoomAppMessage::FileChunk {
        id: vec![4; 16],
        index: 0,
        bytes: b"hello world".to_vec(),
    };
    match on_dm_message(&mut reg, &mut table, &c, &[0; 32], "fp", 0, 0, Some(chunk)) {
        Received::Chunk(FileStep::Finished(plan)) => {
            assert_eq!(plan.dir, "/data/files/peer/aaaaaaaa");
        }
        other => panic!("expected a finished file, got {other:?}"),
    }
}

#[test]
fn room_messages_are_judged() {
    let mut table = InflightTable::new();
    let c = cfg();
    let gid = [0u8; 16];
    let text = Some(RoomAppMessage::Text { text: "hi".into() });
    let r = on_room_message(&mut table, &c, &gid, "alice", 0, 0, text);
    assert!(matches!(r, Received::Text(t) if t == "hi"));
    let r = on_room_message(&mut table, &c, &gid, "alice", 0, 0, Some(meta(11, HELLO_HASH)));
    assert!(matches!(r, Received::Announced(AcceptDecision::Accepted)));
    let r = on_room_message(&mut table, &c, &gid, "alice", 0, 0, None);
    assert!(matches!(r, Received::Ignored));
}

/// A member's key is kept only in the name of the member that sent it.
#[test]
fn keys_in_anothers_name_are_not_kept() {
    let mut table = InflightTable::new();
    let c = cfg();
    let ad = |fp: &str| {
        Some(RoomAppMessage::KemAdvertisement {
            fingerprint: fp.into(),
            kem_pub: vec![1, 2],
        })
    };
    match on_room_message(&mut table, &c, &[0; 16], "alice", 0, 0, ad("alice")) {
        Received::KeepKem {
            fingerprint,
            kem_pub,
        } => assert_eq!((fingerprint.as_str(), kem_pub), ("alice", vec![1, 2])),
        other => panic!("expected KeepKem, got {other:?}"),
    }
    let r = on_room_message(&mut table, &c, &[0; 16], "mallory", 0, 0, ad("alice"));
    assert!(matches!(r, Received::ForeignKem));
}

#[test]
fn early_frames_wait_for_the_commit() {
    let mut pending = PendingRoomFrames::new();
    let (g, h) = ([1u8; 4], [2u8; 4]);
    assert!(matches!(
        on_room_frame(&mut pending, &g, b"x", RoomFrame::NoGroup),
        RoomStep::Drop
    ));
    assert!(matches!(
        on_room_frame(&mut pending, &g, b"x", RoomFrame::Message),
        RoomStep::Deliver
    ));
    for f in [b"1", b"2"] {
        assert!(matches!(
            on_room_frame(&mut pending, &g, f, RoomFrame::Failed),
            RoomStep::Kept
        ));
    }
    match on_room_frame(&mut pending, &h, b"c", RoomFrame::Commit) {
        RoomStep::Merged(frames) => assert!(frames.is_empty()),
        other => panic!("expected Merged, got {other:?}"),
    }
    match on_room_frame(&mut pending, &g, b"c", RoomFrame::Commit) {
        RoomStep::Merged(frames) => assert_eq!(frames, vec![b"1".to_vec(), b"2".to_vec()]),
        other => panic!("expected Merged, got {other:?}"),
    }
    assert!(pending.drain(&g).is_empty());
}

/// A frame of a group whose id is one byte, for this epoch.
fn frame(epoch: u64) -> Vec<u8> {
    let mut f = vec![0, 1, 0, 2, 1, 7];
    f.extend_from_slice(&epoch.to_be_bytes());
    f
}

/// A frame that fails again is kept if it is for a later epoch, and dropped if not.
#[test]
fn frames_that_fail_again_are_garbage_unless_early() {
    assert_eq!(frame_epoch(&frame(0x0102_0304_0506_0708)), Some(0x0102_0304_0506_0708));
    assert_eq!(frame_epoch(&frame(3)[..13]), None);
    assert_eq!(frame_epoch(b"junk"), None);
    let mut long = vec![0, 1, 0, 2, 0x40, 0x40];
    long.extend_from_slice(&[7; 64]);
    long.extend_from_slice(&9u64.to_be_bytes());
    assert_eq!(frame_epoch(&long), Some(9));
    let mut pending = PendingRoomFrames::new();
    for (f, epoch) in [(b"junk".to_vec(), 5), (frame(5), 5), (frame(4), 5)] {
        assert!(matches!(
            on_retried_frame(&mut pending, &[7], &f, RoomFrame::Failed, epoch),
            RoomStep::Drop
        ));
    }
    assert!(pending.drain(&[7]).is_empty());
    assert!(matches!(
        on_retried_frame(&mut pending, &[7], &frame(6), RoomFrame::Failed, 5),
        RoomStep::Kept
    ));
    match on_retried_frame(&mut pending, &[7], b"c", RoomFrame::Commit, 5) {
        RoomStep::Merged(frames) => assert_eq!(frames, vec![frame(6)]),
        other => panic!("expected Merged, got {other:?}"),
    }
    assert!(matches!(
        on_retried_frame(&mut pending, &[7], b"m", RoomFrame::Message, 5),
        RoomStep::Deliver
    ));
}

#[test]
fn the_oldest_early_frame_goes_first() {
    let mut pending = PendingRoomFrames::new();
    for i in 0..=PENDING_ROOM_FRAMES_PER_GROUP_MAX {
        pending.buffer(&[1], &[i as u8]);
    }
    let frames = pending.drain(&[1]);
    assert_eq!(frames.len(), 64);
    assert_eq!(frames[0], [1]);
    assert_eq!(frames[63], [64]);
}

#[test]
fn only_members_invite() {
    let roster = Some(vec![member(32, Some("alice")), member(32, Some("bob"))]);
    let gid = [0u8; 5];
    assert!(matches!(
        on_welcome(&None, &gid, "alice", None, None),
        WelcomeStep::Unreadable
    ));
    assert!(matches!(
        on_welcome(&roster, &gid, "mallory", None, Some("r".into())),
        WelcomeStep::Unsolicited
    ));
    match on_welcome(&roster, &gid, "alice", None, Some("room".into())) {
        WelcomeStep::Room { name, members_b32 } => {
            assert_eq!((name.as_str(), members_b32.as_str()), ("room", "alice,bob"));
        }
        other => panic!("expected Room, got {other:?}"),
    }
    match on_welcome(&roster, &gid, "alice", Some("hi".into()), None) {
        WelcomeStep::Direct { text } => assert_eq!(text, "hi"),
        other => panic!("expected Direct, got {other:?}"),
    }
    match on_welcome(&roster, &gid, "alice", None, None) {
        WelcomeStep::Direct { text } => {
            assert_eq!(text, "(joined MLS group aaaaaaaa via hub Welcome)");
        }
        other => panic!("expected Direct, got {other:?}"),
    }
}

#[test]
fn texts_through_hubs_are_marked() {
    let mut reg = ConversationRegistry::new();
    let mut events = reg.subscribe_events();
    deliver_via_hub(&mut reg, [0; 32], "fp".into(), "hello".into());
    deliver_via_hub(&mut reg, [0; 32], "fp".into(), "again".into());
    let history = reg.history("aaaaaaaa", 9).unwrap();
    assert_eq!(history.len(), 2);
    assert!(history.iter().all(|l| l.via_hub));
    assert!(matches!(events.try_recv(), Ok(ApiEvent::PeerConnected { .. })));
    assert!(matches!(events.try_recv(), Ok(ApiEvent::Message { via_hub: true, .. })));
    assert!(!reg.list()[0].connected);
}

#[test]
fn rosters() {
    let members = vec![
        member(32, Some("a")),
        member(31, Some("b")),
        member(32, None),
        member(32, Some("d")),
    ];
    assert_eq!(members_b32(&members), "a,d");
    assert_eq!(split_nonempty(&members_b32(&members), ','), vec!["a", "d"]);
    assert!(is_member(&members, "d"));
    assert!(!is_member(&members, "b"));
    assert_eq!(members_b32(&vec![]), "");
}

#[test]
fn rows_are_refreshed() {
    let row = |gid: u8, name: &str| RoomRow {
        group_id: vec![gid],
        name: name.into(),
        members_b32: "old".into(),
        created_at_ms: 5,
    };
    let rows = vec![row(1, "one"), row(2, "two"), row(2, "three")];
    assert_eq!(find_row(&rows, &[2]), Some(1));
    assert_eq!(find_row(&rows, &[3]), None);
    let r = refreshed_row(&rows, &[2], &vec![member(32, Some("a"))]).unwrap();
    assert_eq!(
        (r.group_id, r.name.as_str(), r.members_b32.as_str(), r.created_at_ms),
        (vec![2], "two", "a", 5)
    );
    assert!(refreshed_row(&rows, &[2], &vec![]).is_none());
    assert!(refreshed_row(&rows, &[3], &vec![member(32, Some("a"))]).is_none());
}
