use onyx::api::contact::{
    begin_bootstrap, begin_bootstrap_mls, parse_group_id, pin_block, Candidate,
};
use onyx::api::error::{unreadable_request, ApiError, ApiErrorCode, Fault};
use onyx::api::fanout::{
    announce_room_subscribe, direct_targets, fan_out_deliver, fan_out_outcome, hub_route,
    recipients, room_target, tally, FanStep, HubRoute, Reached, RoomFanOut,
};
use onyx::api::files::{
    cut_short, list_received, live_peer_for_file, plan_cleaned, plan_file, ReceivedFileRow,
};
use onyx::api::flow::{
    advance, bootstrap_tasks, create_tasks, delete_tasks, export_tasks, invite_tasks, leave_tasks,
    remove_tasks, send_piece_tasks, send_tasks, start, Progress, Step, Task,
};
use onyx::api::invite::{
    begin_fetch, check_fetched, check_invite, contact_tier, invite_expiry, invite_hubs,
    key_package_text, list_contacts, mint_time, unreadable_invite, ClockReading, Fetch, HubReply,
    InviteSignature, PinnedContact, DEFAULT_INVITE_TTL_SECS,
};
use onyx::api::messages::{
    check_members, history, hub_lines, live_peer, no_group_state, push_answer, room_members,
    room_to_send, send_first_message, send_text, send_welcome,
};
use onyx::api::request::{Action, Outcome, Peer, Purpose, Request};
use onyx::api::rooms::{
    begin_invite, begin_remove, commit_target, kem_advertisement, list_rooms, member_kems,
    new_room, no_group, not_a_member, plan_invite, plan_leave, plan_remove, room_history,
    room_to_invite, RoomMessageRow,
};
use onyx::channel::{PushError, Record};
use onyx::conversations::{ConversationRegistry, MessageDirection, PeerOutbound};
use onyx::daemon::HubConfig;
use onyx::files::sanitize::{CleanedFile, SanitizeError};
use onyx::files::transfer::FilesConfig;
use onyx::hub_client::HubOutbound;
use onyx::room::RoomAppMessage;
use onyx::roster::{Member, RoomRow};
use tokio::sync::mpsc;

fn code(e: &ApiError) -> ApiErrorCode {
    e.code
}

const FP: Option<[u8; 32]> = Some([9; 32]);

#[test]
fn send_bootstrap_without_hub_is_not_ready() {
    let e = begin_bootstrap(0, FP, "aaaa").unwrap_err();
    assert_eq!(code(&e), ApiErrorCode::NotReady);
    assert_eq!(
        e.message,
        "no hubs configured; relaunch with --hub onion:port,b32pubkey"
    );
}

#[test]
fn send_bootstrap_bad_fingerprint_is_malformed() {
    let e = begin_bootstrap(1, None, "aaaa").unwrap_err();
    assert_eq!(code(&e), ApiErrorCode::Malformed);
    assert_eq!(e.message, "peer_fingerprint did not parse");
}

#[test]
fn send_bootstrap_bad_kem_b32_is_malformed() {
    let e = begin_bootstrap(1, FP, "not-base32!@#$").unwrap_err();
    assert_eq!(code(&e), ApiErrorCode::Malformed);
    assert_eq!(e.message, "peer_kem_pub_b32 is not valid base32");
}

#[test]
fn send_bootstrap_wrong_length_kem_is_malformed() {
    // Valid base32 of an obviously wrong length for a key.
    let contact = begin_bootstrap(1, FP, "aaaaaaaaaaaa").unwrap();
    assert_eq!(contact.kem(), [0; 7]);
    assert_eq!(contact.fingerprint(), [9; 32]);
    let e = contact.sealable(false).unwrap_err();
    assert_eq!(code(&e), ApiErrorCode::Malformed);
    assert_eq!(
        e.message,
        "peer_kem_pub_b32 did not decode as HybridKemPublic"
    );
}

#[test]
fn send_bootstrap_happy_path_queues_outbound() {
    let recipient = begin_bootstrap(1, FP, "aebagbaf").unwrap().sealable(true).unwrap();
    assert_eq!(recipient.kem(), [1, 2, 3, 4, 5]);
    let (tx, mut rx) = mpsc::channel(8);
    assert_eq!(send_first_message(&mut Record::new(), &vec![tx], [0x77; 16], b"sealed").unwrap(), 1);
    match rx.try_recv().expect("HubOutbound delivered") {
        HubOutbound::Deliver { target, body } => {
            assert_eq!(target, [0x77; 16]);
            assert_eq!(body, b"sealed");
        }
        other => panic!("expected Deliver variant, got {other:?}"),
    }
}

fn candidate() -> Candidate {
    begin_bootstrap_mls(Some("hi"), 1, FP, "aebagbaf")
        .unwrap()
        .sealable(true)
        .unwrap()
        .with_key_package("a3A=")
        .unwrap()
}

/// A key package whose signing key is not the peer's is refused.
#[test]
fn send_bootstrap_mls_validation_step_exists() {
    let c = candidate();
    assert_eq!(c.key_package(), b"kp");
    let e = c.verify(Some([1; 32]), Some([8; 32])).unwrap_err();
    assert_eq!(code(&e), ApiErrorCode::Malformed);
    assert!(
        e.message.contains("KP signing key does not match peer_fingerprint"),
        "the refusal must say exactly what went wrong"
    );
    let v = candidate().verify(Some([1; 32]), FP).unwrap();
    assert_eq!(v.key_package(), b"kp");
    assert_eq!(v.kem(), [1, 2, 3, 4, 5]);
    assert_eq!(
        candidate().verify(None, FP).unwrap_err().message,
        "peer_kp_b64 did not validate as a KeyPackage"
    );
    assert_eq!(
        candidate().verify(Some([1; 32]), None).unwrap_err().message,
        "KP signing key is not a valid Ed25519 point"
    );
}

#[test]
fn send_bootstrap_full_mailbox_is_not_ready() {
    // Room for one; the second finds none.
    let (tx, _rx_held_open) = mpsc::channel(1);
    let hubs = vec![tx];
    assert!(send_first_message(&mut Record::new(), &hubs, [1; 16], b"1").is_ok());
    let e = send_first_message(&mut Record::new(), &hubs, [1; 16], b"2").unwrap_err();
    assert_eq!(code(&e), ApiErrorCode::NotReady);
    assert_eq!(e.message, "hub #0 outbound queue is full");
}

#[test]
fn intros_are_short() {
    let long = "é".repeat(513);
    let e = begin_bootstrap_mls(Some(&long), 0, None, "!").unwrap_err();
    assert_eq!(
        e.message,
        "initial_text too long (1026 bytes; max 1024) — keep intro short to avoid bumping the \
         sealed-envelope size bucket on the wire"
    );
    let just = "é".repeat(512);
    let e = begin_bootstrap_mls(Some(&just), 0, None, "!").unwrap_err();
    assert_eq!(code(&e), ApiErrorCode::NotReady);
}

#[test]
fn key_packages_are_read_as_base64() {
    let r = begin_bootstrap(1, FP, "aebagbaf").unwrap().sealable(true).unwrap();
    assert_eq!(
        r.with_key_package("***").unwrap_err().message,
        "peer_kp_b64 is not valid base64"
    );
    assert_eq!(key_package_text(b"kp"), "a3A=");
    assert_eq!(key_package_text(b"key"), "a2V5");
    assert_eq!(key_package_text(&[0xfb, 0xff, 0xfe, 0x00]), "+//+AA==");
    for text in ["a3A=", "a2V5", "+//+AA==", ""] {
        let c = begin_bootstrap(1, FP, "aebagbaf").unwrap().sealable(true).unwrap();
        let c = c.with_key_package(text).unwrap().verify(Some([1; 32]), FP).unwrap();
        assert_eq!(key_package_text(c.key_package()), text);
    }
    // No padding, too much of it, and bits that stand for nothing.
    for text in ["a3A", "a3A==", "a3B=", "a2V5=", "_w=="] {
        let c = begin_bootstrap(1, FP, "aebagbaf").unwrap().sealable(true).unwrap();
        assert!(c.with_key_package(text).is_err(), "{text}");
    }
}

#[test]
fn one_hub_is_enough() {
    let (open, _keep) = mpsc::channel(1);
    let (closed, gone) = mpsc::channel(1);
    drop(gone);
    assert_eq!(
        fan_out_deliver(&mut Record::new(), &vec![closed.clone(), open], [1; 16], b"x", "none").unwrap(),
        1
    );
    let e = fan_out_deliver(&mut Record::new(), &vec![closed.clone(), closed.clone()], [1; 16], b"x", "none");
    assert_eq!(e.unwrap_err().message, "hub #1 client task has ended");
    let e = send_welcome(&mut Record::new(), &vec![], [1; 16], b"x").unwrap_err();
    assert_eq!(e.message, "no hub accepted the Welcome envelope");
    assert_eq!(
        send_first_message(&mut Record::new(), &vec![], [1; 16], b"x").unwrap_err().message,
        "no hub accepted the delivery"
    );
    let results = vec![Err(PushError::Full), Ok(()), Err(PushError::Closed), Ok(())];
    assert_eq!(fan_out_outcome(&results, "").unwrap(), 2);
}

#[test]
fn subscriptions_go_to_every_hub() {
    let (a, mut rx) = mpsc::channel(2);
    let (b, _keep) = mpsc::channel(2);
    let hubs = vec![a, b];
    assert!(announce_room_subscribe(&mut Record::new(), &hubs, None).is_empty());
    assert!(rx.try_recv().is_err());
    assert_eq!(announce_room_subscribe(&mut Record::new(), &hubs, Some([4; 16])), vec![Ok(()), Ok(())]);
    match rx.try_recv().unwrap() {
        HubOutbound::Subscribe(ids) => assert_eq!(ids, vec![[4; 16]]),
        other => panic!("expected Subscribe, got {other:?}"),
    }
}

#[test]
fn recipients_leave_out_ourselves_and_the_invited() {
    assert_eq!(recipients("me,a,,b,me", "me", None), vec!["a", "b"]);
    assert_eq!(recipients("me,a,b", "me", Some("b")), vec!["a"]);
    assert!(recipients("", "me", None).is_empty());
}

#[test]
fn members_are_reached_one_way_or_another() {
    let mut reg = ConversationRegistry::new();
    let (_h, mut rx) = reg.register([1; 32], "aaaaaaaa", "a".into());
    let names: Vec<String> = ["a", "b", "c", "d", "e"].iter().map(|s| s.to_string()).collect();
    let handles = direct_targets(&reg, &names);
    assert!(handles[0].is_some() && handles[1].is_none());
    let (hub, mut hub_rx) = mpsc::channel(8);
    let hubs = vec![hub];
    let mut f = RoomFanOut::new(handles, b"ct".to_vec(), None);

    assert!(matches!(f.next(), FanStep::LookUpKey(1)));
    match rx.try_recv().unwrap() {
        PeerOutbound::RoomFrame(ct) => assert_eq!(ct, b"ct"),
        other => panic!("expected RoomFrame, got {other:?}"),
    }
    // No key is known.
    assert_eq!(f.on_key(None, Some([2; 16])), HubRoute::NoKey);
    assert!(matches!(f.next(), FanStep::LookUpKey(2)));
    // The key is none.
    assert_eq!(f.on_key(Some(false), Some([2; 16])), HubRoute::NoKey);
    assert!(matches!(f.next(), FanStep::LookUpKey(3)));
    // There is a key, and the envelope is sealed.
    assert_eq!(f.on_key(Some(true), Some([2; 16])), HubRoute::Seal([2; 16]));
    f.on_sealed(&hubs, &Some(b"env".to_vec()));
    match hub_rx.try_recv().unwrap() {
        HubOutbound::Deliver { target, body } => {
            assert_eq!((target, body), ([2; 16], b"env".to_vec()));
        }
        other => panic!("expected Deliver, got {other:?}"),
    }
    assert!(matches!(f.next(), FanStep::LookUpKey(4)));
    // Sealing fails.
    assert_eq!(f.on_key(Some(true), Some([2; 16])), HubRoute::Seal([2; 16]));
    f.on_sealed(&hubs, &None);
    match f.next() {
        FanStep::Done(t) => {
            assert_eq!(t.delivered_to_direct, 1);
            assert_eq!(t.delivered_to_hub, 1);
            assert_eq!(t.skipped_no_kem, 2);
            assert_eq!(t.total_members, 5);
        }
        other => panic!("expected Done, got {other:?}"),
    }
}

#[test]
fn routes_of_members() {
    let (room, inbox) = (Some([1; 16]), Some([2; 16]));
    assert_eq!(hub_route(Some(true), room, inbox), HubRoute::Seal([1; 16]));
    assert_eq!(hub_route(Some(true), None, inbox), HubRoute::Seal([2; 16]));
    assert_eq!(hub_route(Some(true), None, None), HubRoute::NoKey);
    assert_eq!(room_target(None, room), room);
    assert_eq!(commit_target(inbox, room), inbox);
    let t = tally(&vec![Reached::Direct, Reached::Lost, Reached::Hub]);
    assert_eq!((t.delivered_to_direct, t.delivered_to_hub, t.total_members), (1, 1, 3));
}

#[test]
fn changed_keys_stop_messages() {
    let e = pin_block("fp", Some(true)).unwrap();
    assert_eq!(code(&e), ApiErrorCode::Malformed);
    assert!(e.message.starts_with(
        "refusing to send: the pinned identity key for fp has CHANGED since first contact"
    ));
    assert!(pin_block("fp", Some(false)).is_none());
    assert!(pin_block("fp", None).is_none());
    assert!(pin_block("(peer/aaaaaaaa)", Some(true)).is_none());
    let names = vec!["me".to_string(), "a".to_string(), "b".to_string()];
    assert!(check_members(&names, "me", &vec![Some(true), None, Some(false)]).is_ok());
    let e = check_members(&names, "me", &vec![None, Some(true), Some(true)]).unwrap_err();
    assert!(e.message.contains("identity key for a has"));
}

#[test]
fn texts_are_sent_to_live_peers() {
    let mut reg = ConversationRegistry::new();
    assert_eq!(
        live_peer(&reg, "aaaaaaaa").unwrap_err().message,
        "no live conversation with peer aaaaaaaa"
    );
    assert_eq!(
        live_peer_for_file(&reg, "aaaaaaaa").unwrap_err().message,
        "no live conversation with peer aaaaaaaa (DM files are direct-only)"
    );
    let (_h, mut rx) = reg.register([1; 32], "aaaaaaaa", "fp".into());
    let handle = live_peer(&reg, "aaaaaaaa").unwrap();
    assert!(send_text(&mut Record::new(), &mut reg, "aaaaaaaa", &handle, Some(true), "no").is_err());
    assert!(rx.try_recv().is_err());
    assert!(send_text(&mut Record::new(), &mut reg, "aaaaaaaa", &handle, Some(false), "yes").is_ok());
    match rx.try_recv().unwrap() {
        PeerOutbound::Dm(text) => assert_eq!(text, "yes"),
        other => panic!("expected Dm, got {other:?}"),
    }
    let lines = history(&reg, "aaaaaaaa", 5000).unwrap();
    assert_eq!(lines.len(), 1);
    assert_eq!(lines[0].direction, MessageDirection::Outgoing);
    drop(rx);
    let e = send_text(&mut Record::new(), &mut reg, "aaaaaaaa", &handle, None, "late").unwrap_err();
    assert_eq!(e.message, "peer aaaaaaaa disconnected before send");
    assert_eq!(history(&reg, "aaaaaaaa", 9).unwrap().len(), 1);
    assert_eq!(
        push_answer(Err(PushError::Full), "x").unwrap_err().message,
        "outbound queue full for peer x"
    );
    assert_eq!(
        history(&reg, "zz", 1).unwrap_err().message,
        "no peer with short_id zz"
    );
    assert_eq!(cut_short("x").message, "peer x disconnected mid-transfer");
}

fn row(gid: u8, members: &str) -> RoomRow {
    RoomRow {
        group_id: vec![gid],
        name: "room".into(),
        members_b32: members.into(),
        created_at_ms: -5,
    }
}

fn roster(names: &[&str]) -> Vec<Member> {
    names
        .iter()
        .map(|n| Member {
            signing_key: vec![0; 32],
            fingerprint: Some(n.to_string()),
        })
        .collect()
}

#[test]
fn rooms_are_listed() {
    let infos = list_rooms(&vec![row(0, "a,,b")]);
    assert_eq!(infos[0].group_id_b32, "aa");
    assert_eq!(infos[0].members, vec!["a", "b"]);
    assert_eq!(infos[0].created_at_ms, 0);
    let r = new_room(&[1], "n", "me", 7);
    assert_eq!((r.members_b32.as_str(), r.created_at_ms), ("me", 7));
    let entries = room_history(&vec![RoomMessageRow {
        outgoing: true,
        sender_fp: "me".into(),
        text: "t".into(),
        created_at_ms: 3,
    }]);
    assert_eq!(entries[0].direction, MessageDirection::Outgoing);
    assert_eq!(entries[0].ts_unix_ms, 3);
}

#[test]
fn invitations_are_checked_in_order() {
    let text = |r: Result<_, ApiError>| -> String {
        match r {
            Ok(_) => panic!("expected an error"),
            Err(e) => e.message,
        }
    };
    assert!(text(begin_invite(0, "!", None, "!")).starts_with("no hubs configured"));
    assert_eq!(text(begin_invite(1, "!", None, "!")), "group_id_b32 is not valid base32");
    assert_eq!(text(begin_invite(1, "aa", None, "!")), "peer_fingerprint did not parse");
    assert_eq!(
        text(begin_invite(1, "aa", FP, "!")),
        "peer_kem_pub_b32 is not valid base32"
    );
    let (gid, contact) = begin_invite(1, "aa", FP, "aebagbaf").unwrap();
    assert_eq!(gid, vec![0]);
    assert_eq!(contact.kem(), [1, 2, 3, 4, 5]);
    let peer = candidate().verify(Some([1; 32]), FP).unwrap();
    assert_eq!(room_to_invite(&peer, &vec![row(1, ""), row(0, "")], &gid).unwrap(), 1);
    assert_eq!(
        room_to_invite(&peer, &vec![], &gid).unwrap_err().message,
        "no room with that group_id (create one first with CreateRoom)"
    );
    assert_eq!(
        room_to_send(&vec![], &gid).unwrap_err().message,
        "no room with that group_id"
    );
    assert_eq!(room_to_send(&vec![row(0, "")], &gid).unwrap(), 0);
    assert_eq!(parse_group_id("aa").unwrap(), vec![0]);
}

/// The commit goes to those who were there before; the new member starts from the
/// invitation.
#[test]
fn invitations_are_planned() {
    let plan = plan_invite(
        &row(0, "me,a"),
        "me",
        "new",
        &roster(&["me", "a", "b"]),
        &roster(&["me", "a", "b", "new"]),
    );
    assert_eq!(plan.row.members_b32, "me,a,b,new");
    assert_eq!(plan.row.name, "room");
    assert_eq!(plan.pre_existing, vec!["a", "b"]);
    assert_eq!(plan.known_to, vec!["a", "b"]);
    assert_eq!(plan.members, vec!["me", "a", "b", "new"]);
    let kems = member_kems("me", &[1], &plan.known_to, &vec![None, Some(vec![2])], "new", &[3]);
    let pairs: Vec<(&str, u8)> = kems
        .iter()
        .map(|k| (k.fingerprint.as_str(), k.kem_pub[0]))
        .collect();
    assert_eq!(pairs, vec![("me", 1), ("b", 2), ("new", 3)]);
    match kem_advertisement("new", &[3]) {
        RoomAppMessage::KemAdvertisement {
            fingerprint,
            kem_pub,
        } => assert_eq!((fingerprint.as_str(), kem_pub), ("new", vec![3])),
        other => panic!("expected KemAdvertisement, got {other:?}"),
    }
}

#[test]
fn members_leave_and_are_removed() {
    let plan = plan_leave(&roster(&["me", "a"]), "me", true);
    assert_eq!((plan.recipients, plan.notify, plan.members), (vec!["a".to_string()], true, 1));
    assert!(!plan_leave(&roster(&["me"]), "me", true).notify);
    assert!(!plan_leave(&roster(&["me", "a"]), "me", false).notify);

    let err = |hubs, gid: &str, fingerprint, peer: &str| {
        begin_remove(hubs, gid, fingerprint, peer, "me").unwrap_err().message
    };
    assert!(err(0, "!", None, "me").starts_with("no hubs configured"));
    assert_eq!(err(1, "!", None, "me"), "group_id_b32 is not valid base32");
    assert_eq!(err(1, "aa", None, "me"), "peer_fingerprint did not parse");
    assert_eq!(
        err(1, "aa", FP, "me"),
        "use `leave` to remove yourself, not `remove`"
    );
    let (gid, target) = begin_remove(1, "aa", FP, "a", "me").unwrap();
    assert_eq!(Some(target), FP);
    let plan = plan_remove(
        &vec![row(0, "me,a,b")],
        &gid,
        "me",
        &roster(&["me", "a", "b"]),
        &roster(&["me", "b"]),
    );
    // Who is removed is told.
    assert_eq!(plan.recipients, vec!["a", "b"]);
    assert_eq!(plan.members, vec!["me", "b"]);
    assert_eq!(plan.row.unwrap().members_b32, "me,b");
    assert_eq!(no_group().message, "no MLS group with that group_id");
    assert_eq!(
        not_a_member().message,
        "that fingerprint is not a current member of the room"
    );
    assert_eq!(
        no_group_state().message,
        "MLS state has no group with that group_id (vault drift?)"
    );
}

/// The steps of a request whose calls go as `ok` says.
fn run(tasks: Vec<Task>, ok: impl Fn(usize) -> bool) -> (Vec<Step>, Progress) {
    let mut made = Vec::new();
    let mut p = start(&tasks);
    while let Progress::At(i) = p {
        made.push(tasks[i].step);
        p = advance(&tasks, i, ok(i));
    }
    (made, p)
}

#[test]
fn nothing_is_sent_before_it_is_saved() {
    for failing in 0..8 {
        let (made, p) = run(invite_tasks(true), |i| i != failing);
        assert!(!made.contains(&Step::SendWelcome));
        assert_eq!(p, Progress::Failed(failing));
    }
    let (made, p) = run(invite_tasks(true), |_| true);
    assert_eq!(made.len(), 16);
    assert_eq!(p, Progress::Done);
    let (made, _) = run(invite_tasks(false), |_| true);
    assert_eq!(made.last(), Some(&Step::Subscribe));
    assert!(!made.contains(&Step::SendCommit));
}

#[test]
fn a_key_that_cannot_be_told_is_left_out() {
    // The tenth call encodes the new member's key.
    let (made, p) = run(invite_tasks(true), |i| i != 10);
    assert!(made.contains(&Step::SendCommit));
    assert!(!made.contains(&Step::SendKemAd));
    assert_eq!(made.last(), Some(&Step::Subscribe));
    assert_eq!(p, Progress::Done);
    // A snapshot that fails is not saved, and the key is told all the same.
    let (made, _) = run(invite_tasks(true), |i| i != 12);
    assert!(made.contains(&Step::SendKemAd));
}

#[test]
fn rooms_are_dropped_in_order() {
    let (made, p) = run(delete_tasks(), |i| i != 1);
    assert_eq!(
        made,
        vec![
            Step::ForgetGroup,
            Step::Snapshot,
            Step::ForgetMemberKems,
            Step::ForgetMessages,
            Step::DeleteRoom
        ]
    );
    assert_eq!(p, Progress::Done);
    assert_eq!(run(delete_tasks(), |i| i != 2).1, Progress::Failed(2));
    // Whoever is alone in a room makes no commit.
    let (made, p) = run(leave_tasks(), |i| i != 1);
    assert!(!made.contains(&Step::SendCommit));
    assert_eq!(p, Progress::Done);
}

#[test]
fn other_requests_run_to_their_end() {
    for (tasks, n) in [
        (export_tasks(), 3),
        (create_tasks(), 5),
        (bootstrap_tasks(), 8),
        (remove_tasks(), 6),
        (send_tasks(), 7),
        (send_piece_tasks(), 5),
    ] {
        let (made, p) = run(tasks, |_| true);
        assert_eq!((made.len(), p), (n, Progress::Done));
    }
    assert_eq!(start(&vec![]), Progress::Done);
}

fn cleaned(n: usize) -> CleanedFile {
    CleanedFile {
        bytes: vec![7; n],
        mime: "image/png".into(),
        stripped: true,
    }
}

#[test]
fn files_are_planned() {
    let mut cfg = FilesConfig::defaults("/d");
    cfg.chunk_size_bytes = 4;
    cfg.max_send_size_bytes = 10;
    let e = plan_cleaned(Ok(cleaned(11)), "n", false, [0; 16], &cfg).unwrap_err();
    assert_eq!(e.message, "file size 11 exceeds max_send_size_bytes 10");
    let plan = plan_cleaned(Ok(cleaned(10)), "p.png", false, [0; 16], &cfg).unwrap();
    assert_eq!((plan.messages.len(), plan.chunks, plan.size), (4, 3, 10));
    assert_eq!(plan.file_id_b32, "aaaaaaaaaaaaaaaaaaaaaaaaaa");
    match &plan.messages[0] {
        RoomAppMessage::FileMeta { name, mime, .. } => {
            assert_eq!((name.as_str(), mime.as_str()), ("file.png", "image/png"));
        }
        other => panic!("expected FileMeta, got {other:?}"),
    }
    let e = plan_cleaned(Err(SanitizeError::UnknownFormat), "n", false, [0; 16], &cfg);
    assert!(e.unwrap_err().message.starts_with("sanitize_file: could not identify"));
    let e = plan_file(&mut Record::new(), Err("gone".into()), "n", false, false, [0; 16], &cfg).unwrap_err();
    assert_eq!(e.message, "sanitize_file: I/O error: gone");
    let plan = plan_file(&mut Record::new(), Ok(b"plain".to_vec()), "n.txt", true, true, [0; 16], &cfg).unwrap();
    assert_eq!((plan.mime.as_str(), plan.stripped), ("application/octet-stream", false));
    let infos = list_received(&vec![ReceivedFileRow {
        sender_fp: "a".into(),
        name: "n".into(),
        mime: "m".into(),
        size: 1,
        content_hash: vec![0],
        path: "/p".into(),
        received_at_ms: -1,
    }]);
    assert_eq!((infos[0].content_hash_b32.as_str(), infos[0].received_at_ms), ("aa", 0));
}

#[test]
fn links_expire() {
    assert_eq!(invite_expiry(1000, None, u64::MAX), 1000 + DEFAULT_INVITE_TTL_SECS * 1000);
    assert_eq!(invite_expiry(1000, Some(10), 5), 6000);
    assert_eq!(invite_expiry(u64::MAX, Some(1), 5), u64::MAX);
    assert_eq!(invite_expiry(0, Some(u64::MAX), u64::MAX), u64::MAX);
    assert_eq!(mint_time(&ClockReading::Millis(5)).unwrap(), 5);
    assert_eq!(
        mint_time(&ClockReading::Millis(u128::MAX)).unwrap_err().message,
        "system clock value exceeds u64 ms — refusing to mint invite"
    );
    assert_eq!(
        mint_time(&ClockReading::BeforeEpoch("1s".into())).unwrap_err().message,
        "system clock is set before unix epoch (1s) — refusing to mint invite"
    );
}

fn contact(fp: &str, key_changed: bool) -> PinnedContact {
    PinnedContact {
        fingerprint: fp.into(),
        x25519_pub: [0; 32],
        first_seen_ms: 1,
        last_seen_ms: 2,
        key_changed,
    }
}

#[test]
fn links_are_checked() {
    let none = None;
    let err = |s: InviteSignature| check_invite(&s, false, "fp", &none).unwrap_err();
    assert_eq!(code(&err(InviteSignature::NoClock)), ApiErrorCode::Internal);
    assert_eq!(
        err(InviteSignature::Wrong("old".into())).message,
        "invite signature did not verify: old"
    );
    assert!(err(InviteSignature::Unsigned).message.starts_with("refusing unsigned (v1) invite"));
    assert_eq!(check_invite(&InviteSignature::Right, false, "fp", &none).unwrap(), true);
    assert_eq!(check_invite(&InviteSignature::Unsigned, true, "fp", &none).unwrap(), false);
    let list = Some(vec![contact("fp", false), contact("other", true)]);
    assert!(check_invite(&InviteSignature::Right, false, "fp", &list).is_ok());
    let e = check_invite(&InviteSignature::Right, false, "other", &list).unwrap_err();
    assert!(e.message.starts_with("fingerprint other is already pinned"));
    assert_eq!(
        unreadable_invite("junk").message,
        "invite URL did not parse: junk"
    );
    assert_eq!(contact_tier(true), "mls/v1");
    assert_eq!(contact_tier(false), "msg/v1");
    assert_eq!(list_contacts(&vec![contact("fp", true)])[0].x25519_pub_b32.len(), 52);
}

#[test]
fn hubs_are_shown_with_their_keys() {
    let hubs = vec![HubConfig {
        onion: "h:1".into(),
        pubkey: "k".into(),
    }];
    assert_eq!(hub_lines(&hubs), vec!["h:1,k"]);
    assert_eq!(invite_hubs(&hubs, true), vec!["h:1,k"]);
    assert!(invite_hubs(&hubs, false).is_empty());
}

#[test]
fn hubs_are_asked_in_order() {
    assert!(begin_fetch(0, FP).is_err());
    assert!(begin_fetch(1, None).is_err());
    assert_eq!(begin_fetch(1, FP).unwrap(), [9; 32]);

    let mut f = Fetch::new();
    assert_eq!(
        f.answer().message,
        "no configured hub has this peer's KeyPackage published"
    );
    assert!(f.note(HubReply::Missing).is_none());
    assert!(f.note(HubReply::Gone).is_none());
    let e = f.answer();
    assert_eq!(code(&e), ApiErrorCode::Internal);
    assert_eq!(e.message, "every hub session ended before responding");
    assert!(f.note(HubReply::NotSent(PushError::Full)).is_none());
    assert_eq!(f.answer().message, "hub #2 outbound queue: no available capacity");
    assert!(f.note(HubReply::NotSent(PushError::Closed)).is_none());
    assert_eq!(f.answer().message, "hub #3 outbound queue: channel closed");
    assert_eq!(f.note(HubReply::Found(vec![1])), Some(vec![1]));
}

#[test]
fn fetched_key_packages_are_checked() {
    let text = |key, owner| check_fetched(b"kp", key, owner, &[9; 32]).unwrap_err().message;
    assert_eq!(text(None, None), "fetched KP did not validate as a KeyPackage");
    assert_eq!(
        text(Some([1; 32]), None),
        "fetched KP signing key is not a valid Ed25519 point"
    );
    assert!(text(Some([1; 32]), Some([8; 32])).starts_with("fetched KP signing key does not"));
    assert_eq!(check_fetched(b"kp", Some([1; 32]), FP, &[9; 32]).unwrap(), "a3A=");
}

#[test]
fn faults_are_internal_errors() {
    for (fault, text) in [
        (Fault::MintKeyPackage("e".into()), "mls: failed to mint KeyPackage: e"),
        (Fault::CreateGroup("e".into()), "create_group failed: e"),
        (Fault::CreateDirectGroup, "create_group failed"),
        (Fault::LoadGroup("e".into()), "load_group: e"),
        (Fault::Invite, "invite failed"),
        (Fault::Encrypt, "encrypt_application failed"),
        (Fault::EncryptMidTransfer, "encrypt_application failed mid-transfer"),
        (Fault::EncodeMessage, "RoomAppMessage CBOR encode failed"),
        (Fault::EncodeEnvelope, "encoding BootstrapPayload failed"),
        (Fault::EncodeWelcome, "encoding mls/v1 BootstrapPayload failed"),
        (Fault::Seal, "seal_bootstrap failed"),
        (Fault::Snapshot, "snapshot_state failed"),
        (Fault::SaveState("e".into()), "save_mls_state: e"),
        (
            Fault::SaveStateAfterForget("e".into()),
            "save_mls_state after forget_group: e",
        ),
        (Fault::SaveRoom("e".into()), "save_room: e"),
        (Fault::SaveMemberKem("e".into()), "save_room_member_kem: e"),
        (Fault::RecordPeerGroup("e".into()), "record_peer_group: e"),
        (Fault::ListRooms("e".into()), "list_rooms: e"),
        (Fault::ListPinned("e".into()), "list_pinned: e"),
        (Fault::ListReceivedFiles("e".into()), "list_received_files: e"),
        (Fault::RoomHistory("e".into()), "room_history: e"),
        (Fault::RenameRoom("e".into()), "rename_room: e"),
        (Fault::ForgetGroup("e".into()), "forget_group: e"),
        (Fault::ForgetMemberKems("e".into()), "forget_room_member_kems: e"),
        (Fault::DeleteRoom("e".into()), "delete_room: e"),
    ] {
        let e = fault.error();
        assert_eq!(e.code, ApiErrorCode::Internal);
        assert_eq!(e.message, text);
    }
    assert_eq!(
        unreadable_request("eof").message,
        "could not decode request: eof"
    );
}

fn invited_peer() -> Peer {
    let contact = begin_bootstrap_mls(None, 1, FP, "ae")
        .unwrap()
        .sealable(true)
        .unwrap()
        .with_key_package("a3A=")
        .unwrap()
        .verify(Some([1; 32]), FP)
        .unwrap();
    Peer {
        contact,
        fingerprint: "peer".into(),
        inbox: [9; 16],
    }
}

/// Every call of an invitation is handed what the calls before it gave.
#[test]
fn an_invitation_sends_what_was_planned() {
    assert_eq!(
        Request::invite("me", &[7], invited_peer(), vec![row(8, "me")]).err().unwrap().message,
        "no room with that group_id (create one first with CreateRoom)"
    );
    let rows = vec![row(7, "me,a")];
    let mut r = Request::invite("me", &[7], invited_peer(), rows).ok().unwrap();
    assert_eq!(r.purpose(), Purpose::Invite);
    let mut sends = Vec::new();
    let mut saved = 0;
    while let Some(step) = r.step() {
        let outcome = match r.next().unwrap() {
            Action::LoadGroup { group_id } => {
                assert_eq!(group_id, &vec![7]);
                Outcome::Loaded {
                    members: roster(&["me", "a"]),
                    token: Some([1; 16]),
                }
            }
            Action::InviteMember { peer } => {
                assert_eq!(peer.contact.key_package(), b"kp");
                Outcome::Changed {
                    commit: b"commit".to_vec(),
                    welcome: b"welcome".to_vec(),
                    members: roster(&["me", "a", "peer"]),
                    token: Some([2; 16]),
                }
            }
            Action::Snapshot => Outcome::Bytes(vec![saved]),
            Action::SaveState { snapshot } => {
                assert_eq!(snapshot, &vec![saved]);
                saved += 1;
                Outcome::Done
            }
            Action::SaveRoom { row } => {
                assert_eq!(row.members_b32, "me,a,peer");
                Outcome::Done
            }
            Action::EncodeWelcome { welcome, first_message, room, .. } => {
                assert_eq!(welcome, b"welcome");
                assert_eq!(first_message, &None);
                assert_eq!(room.unwrap().known_to, vec!["a"]);
                Outcome::Bytes(b"plain".to_vec())
            }
            Action::Seal { bytes, .. } => {
                assert_eq!(bytes, b"plain");
                Outcome::Bytes(b"sealed".to_vec())
            }
            Action::SendWelcome { target, sealed } => {
                assert_eq!(saved, 1, "nothing is sent before it is saved");
                assert_eq!((target, sealed.as_slice()), ([9; 16], b"sealed".as_slice()));
                Outcome::Done
            }
            Action::Encode { message } => {
                assert!(matches!(
                    message,
                    RoomAppMessage::KemAdvertisement { fingerprint, .. } if fingerprint == "peer"
                ));
                Outcome::Bytes(b"ad".to_vec())
            }
            Action::Encrypt { bytes } => {
                assert_eq!(bytes, b"ad");
                Outcome::Bytes(b"secret".to_vec())
            }
            Action::FanOut { members, target, bytes, .. } => {
                sends.push((members.clone(), target, bytes.clone()));
                Outcome::Done
            }
            Action::SaveMemberKem { .. } | Action::Subscribe { .. } => Outcome::Done,
            other => panic!("unexpected {other:?} at {step:?}"),
        };
        r.on_outcome(outcome);
    }
    assert_eq!(r.progress(), Progress::Done);
    assert_eq!(
        sends,
        vec![
            (vec!["a".to_string()], Some([1; 16]), b"commit".to_vec()),
            (vec!["a".to_string()], None, b"secret".to_vec()),
        ]
    );
    assert_eq!(r.invited().unwrap().members, vec!["me", "a", "peer"]);
}

/// A call that gives something else than such a call gives has failed.
#[test]
fn a_request_stops_where_a_needed_call_fails() {
    let mut r = Request::leave("me", &[7]);
    assert!(matches!(r.next(), Some(Action::LoadGroup { .. })));
    r.on_outcome(Outcome::Done);
    assert_eq!(r.progress(), Progress::Failed(0));
    assert!(r.next().is_none());
    r.on_outcome(Outcome::Done);
    assert_eq!(r.progress(), Progress::Failed(0));

    // Without anyone else in the room there is nobody to tell.
    let mut r = Request::leave("me", &[7]);
    r.on_outcome(Outcome::Loaded {
        members: roster(&["me"]),
        token: None,
    });
    r.on_outcome(Outcome::Changed {
        commit: vec![1],
        welcome: vec![],
        members: vec![],
        token: None,
    });
    assert_eq!(r.step(), Some(Step::SendCommit));
    assert!(matches!(r.next(), Some(Action::Nothing)));
    assert_eq!(r.stayers(), 0);

    let mut r = Request::export("me");
    r.on_outcome(Outcome::Bytes(b"kp".to_vec()));
    assert_eq!(r.key_package(), Some(&b"kp".to_vec()));

    let r = Request::delete("me", &[7]);
    match r.next() {
        Some(Action::ForgetGroup { group_id }) => assert_eq!(group_id, &vec![7]),
        other => panic!("unexpected {other:?}"),
    }
}

#[test]
fn a_new_room_has_a_name_and_a_time() {
    let mut r = Request::create("me", "room", 7);
    r.on_outcome(Outcome::Created(vec![8]));
    assert_eq!(r.group_id(), &vec![8]);
    r.on_outcome(Outcome::Bytes(b"state".to_vec()));
    r.on_outcome(Outcome::Done);
    match r.next() {
        Some(Action::SaveRoom { row }) => {
            assert_eq!(row.group_id, vec![8]);
            assert_eq!((row.name.as_str(), row.created_at_ms), ("room", 7));
            assert_eq!(row.members_b32, "me");
        }
        other => panic!("unexpected {other:?}"),
    }
}

/// The group that was made is on record for the peer before the invitation goes out.
#[test]
fn a_begun_conversation_is_put_on_record() {
    let mut r = Request::bootstrap("me", invited_peer(), Some("hi".into()));
    let mut recorded = false;
    while let Some(action) = r.next() {
        let outcome = match action {
            Action::CreateGroup => Outcome::Created(vec![8]),
            Action::InviteMember { .. } => Outcome::Changed {
                commit: vec![],
                welcome: b"welcome".to_vec(),
                members: roster(&["me", "peer"]),
                token: None,
            },
            Action::Snapshot => Outcome::Bytes(b"state".to_vec()),
            Action::EncodeWelcome { first_message, room, .. } => {
                assert_eq!(first_message, &Some("hi".to_string()));
                assert!(room.is_none());
                Outcome::Bytes(b"plain".to_vec())
            }
            Action::Seal { .. } => Outcome::Bytes(b"sealed".to_vec()),
            Action::SaveState { .. } => Outcome::Done,
            Action::RecordPeerGroup { peer, group_id } => {
                assert_eq!(peer.contact.fingerprint(), [9; 32]);
                assert_eq!(group_id, &vec![8]);
                recorded = true;
                Outcome::Done
            }
            Action::SendWelcome { .. } => {
                assert!(recorded);
                Outcome::Done
            }
            other => panic!("unexpected {other:?}"),
        };
        r.on_outcome(outcome);
    }
    assert_eq!(r.progress(), Progress::Done);
}

#[test]
fn a_removal_names_the_member() {
    let mut r = Request::remove("me", &[7], [4; 32], vec![row(7, "me,a,b")]);
    r.on_outcome(Outcome::Loaded {
        members: roster(&["me", "a", "b"]),
        token: Some([1; 16]),
    });
    match r.next() {
        Some(Action::RemoveMember { target }) => assert_eq!(target, &[4; 32]),
        other => panic!("unexpected {other:?}"),
    }
    r.on_outcome(Outcome::Changed {
        commit: b"commit".to_vec(),
        welcome: vec![],
        members: roster(&["me", "b"]),
        token: Some([2; 16]),
    });
    match r.next() {
        // Whoever is removed is told too.
        Some(Action::FanOut { members, target, bytes, .. }) => {
            assert_eq!(members, &vec!["a".to_string(), "b".to_string()]);
            assert_eq!((target, bytes.as_slice()), (Some([1; 16]), b"commit".as_slice()));
        }
        other => panic!("unexpected {other:?}"),
    }
}

#[test]
fn a_text_is_checked_encrypted_saved_and_kept() {
    let rows = vec![row(6, "x"), row(7, "me,a,b")];
    assert_eq!(room_members(&rows, &[7]).unwrap(), vec!["me", "a", "b"]);
    let missing = "no room with that group_id";
    assert_eq!(room_members(&rows, &[8]).unwrap_err().message, missing);
    let refused = |gid: u8, changed: Vec<Option<bool>>| {
        Request::send("me", &[gid], &rows, &changed, "hi").err().unwrap().message
    };
    assert_eq!(refused(8, vec![]), missing);
    assert!(refused(7, vec![None, None, Some(true)]).contains("identity key for b has"));
    let changed = vec![Some(true), None, Some(false)];
    let mut r = Request::send("me", &[7], &rows, &changed, "hi").ok().unwrap();
    let mut steps = Vec::new();
    while let Some(action) = r.next() {
        let outcome = match action {
            Action::Encode { message } => {
                assert!(matches!(message, RoomAppMessage::Text { text } if text == "hi"));
                Outcome::Bytes(b"plain".to_vec())
            }
            Action::LoadGroup { .. } => Outcome::Loaded {
                members: roster(&["me", "a", "b"]),
                token: None,
            },
            Action::Encrypt { bytes } => {
                assert_eq!(bytes, b"plain");
                Outcome::Bytes(b"secret".to_vec())
            }
            Action::Snapshot => Outcome::Bytes(b"state".to_vec()),
            Action::SaveState { .. } => {
                steps.push("save");
                Outcome::Done
            }
            Action::FanOut { members, target, bytes, .. } => {
                assert_eq!(members, &vec!["a".to_string(), "b".to_string()]);
                assert_eq!((target, bytes.as_slice()), (None, b"secret".as_slice()));
                steps.push("send");
                Outcome::Done
            }
            Action::StoreOutgoing { group_id, sender, text } => {
                assert_eq!(group_id, &vec![7]);
                assert_eq!((sender.as_str(), text.as_str()), ("me", "hi"));
                steps.push("keep");
                Outcome::Done
            }
            other => panic!("unexpected {other:?}"),
        };
        r.on_outcome(outcome);
    }
    assert_eq!(steps, ["save", "send", "keep"]);

    let piece = || kem_advertisement("a", &[1]);
    let blocked = vec![None, Some(true), None];
    assert!(Request::send_piece("me", &[7], &rows, &blocked, piece()).is_err());
    let r = Request::send_piece("me", &[7], &rows, &changed, piece()).ok().unwrap();
    assert!(matches!(
        r.next(),
        Some(Action::Encode { message: RoomAppMessage::KemAdvertisement { .. } })
    ));
}
