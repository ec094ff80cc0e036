use onyx::channel::Record;
use onyx::daemon::make_hub_outbound_channel;
use onyx::host_port::parse_host_port;
use onyx::hub::handler::parse_routing_ids;
use onyx::hub_client::{
    fill_slot, kp_publish_frame, next_slot, pad_frame, read_kp_response, subscribe_frame, HubFrame,
    HubOutbound, HubSession, HubStep, Polled, SelfPublish, ServeStep, SessionInput, WireKind,
};
use tokio::sync::{mpsc, oneshot};

#[test]
fn parse_host_port_with_explicit_port() {
    let (h, p) = parse_host_port("abc.onion:42", 99).unwrap();
    assert_eq!(h, "abc.onion");
    assert_eq!(p, 42);
}

#[test]
fn parse_host_port_uses_default_when_missing() {
    let (h, p) = parse_host_port("abc.onion", 1).unwrap();
    assert_eq!(h, "abc.onion");
    assert_eq!(p, 1);
}

#[test]
fn parse_host_port_rejects_garbage_port() {
    assert!(parse_host_port("abc.onion:notnum", 1).is_err());
}

#[test]
fn parse_host_port_takes_the_last_colon() {
    assert_eq!(parse_host_port("a:b:7", 1).unwrap(), ("a:b".to_string(), 7));
    assert_eq!(parse_host_port("a:+65535", 1).unwrap().1, 65535);
    assert!(parse_host_port("a:65536", 1).is_err());
    assert!(parse_host_port("a:", 1).is_err());
    assert_eq!(
        parse_host_port("a:x", 1).unwrap_err().message(),
        "bad port in \"a:x\""
    );
}

fn deliver_tagged(tag: u8) -> HubOutbound {
    HubOutbound::deliver([tag; 16], vec![tag])
}

/// What waits goes out first and in order, then cover frames.
#[test]
fn constant_rate_pacer_forwards_reals_in_order_then_pads() {
    let (api_tx, mut api_rx) = mpsc::channel(16);
    api_tx.try_send(deliver_tagged(7)).unwrap();
    api_tx.try_send(deliver_tagged(8)).unwrap();

    let mut got = Vec::new();
    for _ in 0..4 {
        got.push(next_slot(&mut Record::new(), &mut api_rx).expect("pacer channel should stay open"));
    }

    match &got[0] {
        HubOutbound::Deliver { target, .. } => assert_eq!(target[0], 7),
        other => panic!("slot 0 should be the first real frame, got {other:?}"),
    }
    match &got[1] {
        HubOutbound::Deliver { target, .. } => assert_eq!(target[0], 8),
        other => panic!("slot 1 should be the second real frame, got {other:?}"),
    }
    assert!(
        matches!(got[2], HubOutbound::Pad),
        "slot 2 should be a Pad once the real queue drained, got {:?}",
        got[2]
    );
    assert!(
        matches!(got[3], HubOutbound::Pad),
        "slot 3 should keep emitting Pad while idle, got {:?}",
        got[3]
    );
}

/// Without any traffic every slot is a cover frame.
#[test]
fn constant_rate_pacer_emits_pads_while_fully_idle() {
    let (_api_tx, mut api_rx) = mpsc::channel(16);
    for _ in 0..3 {
        let frame = next_slot(&mut Record::new(), &mut api_rx).expect("pacer channel should stay open");
        assert!(
            matches!(frame, HubOutbound::Pad),
            "idle slot must be a Pad, got {frame:?}"
        );
    }
}

#[test]
fn pacing_ends_with_its_input() {
    let (api_tx, mut api_rx) = mpsc::channel(16);
    api_tx.try_send(HubOutbound::Pad).unwrap();
    drop(api_tx);
    assert!(next_slot(&mut Record::new(), &mut api_rx).is_some());
    assert!(next_slot(&mut Record::new(), &mut api_rx).is_none());
    assert!(fill_slot(Polled::Closed).is_none());
}

#[test]
fn a_paced_channel_has_a_pacer_between_its_ends() {
    let plain = make_hub_outbound_channel(&mut Record::new(), false);
    assert!(plain.pacer.is_none());
    let mut output = plain.output;
    plain.input.try_send(HubOutbound::Pad).unwrap();
    assert!(matches!(output.try_recv(), Ok(HubOutbound::Pad)));

    let paced = make_hub_outbound_channel(&mut Record::new(), true);
    let (mut from_api, to_session) = paced.pacer.unwrap();
    let mut output = paced.output;
    paced.input.try_send(deliver_tagged(1)).unwrap();
    assert!(output.try_recv().is_err());
    to_session.try_send(next_slot(&mut Record::new(), &mut from_api).unwrap()).unwrap();
    assert!(matches!(output.try_recv(), Ok(HubOutbound::Deliver { .. })));
}

/// Both directions of a session: an envelope comes in, another goes out.
#[test]
fn bidirectional_session_round_trip() {
    let mut session = HubSession::new();
    let subscribe = subscribe_frame(&[[0xAA; 16], [0xBB; 16]]);
    assert_eq!(subscribe.kind, WireKind::Subscribe);
    assert_eq!(
        parse_routing_ids(&subscribe.payload).unwrap(),
        vec![[0xAA; 16], [0xBB; 16]]
    );

    let mut inbound = vec![0xAA; 16];
    inbound.extend_from_slice(b"hub-pushed body");
    match session.on_frame(HubFrame::Deliver, &inbound) {
        HubStep::Delivered { target, body } => {
            assert_eq!(target, [0xAA; 16]);
            assert_eq!(body, b"hub-pushed body");
        }
        other => panic!("expected Delivered, got {other:?}"),
    }
    assert!(matches!(session.on_frame(HubFrame::Deliver, &[0; 15]), HubStep::Ignore));
    assert!(matches!(session.on_frame(HubFrame::Other, &inbound), HubStep::Ignore));

    let out = session
        .on_outbound(HubOutbound::deliver([0xCC; 16], b"daemon-pushed body".to_vec()))
        .unwrap();
    assert_eq!(out.kind, WireKind::Deliver);
    assert_eq!(&out.payload[..16], &[0xCC; 16]);
    assert_eq!(&out.payload[16..], b"daemon-pushed body");
}

/// The nth answer goes to the nth request.
#[test]
fn answers_are_paired_in_order() {
    let mut session = HubSession::new();
    let (tx1, mut rx1) = oneshot::channel();
    let (tx2, mut rx2) = oneshot::channel();
    let (tx3, mut rx3) = oneshot::channel();
    for (id, tx) in [(1u8, tx1), (2, tx2), (3, tx3)] {
        let frame = session
            .on_outbound(HubOutbound::FetchKp {
                routing_id: [id; 16],
                responder: tx,
            })
            .unwrap();
        assert_eq!(frame.kind, WireKind::KpFetch);
        assert_eq!(frame.payload, vec![id; 16]);
    }
    assert!(matches!(session.on_frame(HubFrame::KpResponse, &[0, 9, 8]), HubStep::Answered));
    assert!(matches!(session.on_frame(HubFrame::KpResponse, &[1]), HubStep::Answered));
    assert!(matches!(session.on_frame(HubFrame::KpResponse, &[]), HubStep::Answered));
    assert!(matches!(session.on_frame(HubFrame::KpResponse, &[0]), HubStep::Ignore));
    assert_eq!(rx1.try_recv().unwrap(), Some(vec![9, 8]));
    assert_eq!(rx2.try_recv().unwrap(), None);
    assert_eq!(rx3.try_recv().unwrap(), None);
}

#[test]
fn frames_for_hubs() {
    let mut session = HubSession::new();
    assert!(session.on_outbound(HubOutbound::Subscribe(vec![])).is_none());
    let f = session.on_outbound(HubOutbound::Subscribe(vec![[5; 16]])).unwrap();
    assert_eq!((f.kind, f.payload), (WireKind::Subscribe, vec![5; 16]));
    let f = session.on_outbound(HubOutbound::Pad).unwrap();
    assert_eq!((f.kind, f.payload), (WireKind::Pad, vec![]));
    assert_eq!(pad_frame().kind, WireKind::Pad);
    let f = kp_publish_frame(&SelfPublish {
        routing_id: [4; 16],
        kp_bytes: vec![1, 2, 3],
    });
    assert_eq!(f.kind, WireKind::KpPublish);
    assert_eq!(&f.payload[..16], &[4; 16]);
    assert_eq!(&f.payload[16..], &[1, 2, 3]);
    assert_eq!(read_kp_response(&[0, 1, 2]), Some(vec![1, 2]));
    assert_eq!(read_kp_response(&[1, 1, 2]), None);
}

/// The nth answer goes to the nth that asked, whatever else comes in between.
#[test]
fn a_run_of_a_session_answers_in_order() {
    let frame = |kind, payload: &[u8]| SessionInput::Frame { kind, payload: payload.to_vec() };
    let ask = |id| {
        let (responder, answer) = oneshot::channel();
        (SessionInput::Outbound(HubOutbound::FetchKp { routing_id: [id; 16], responder }), answer)
    };
    let mut s = HubSession::new();
    // Nobody asked yet.
    assert!(matches!(s.serve(frame(HubFrame::KpResponse, &[0, 1])), ServeStep::Nothing));
    let (first, mut a) = ask(1);
    let (second, mut b) = ask(2);
    let (third, mut c) = ask(3);
    assert!(matches!(s.serve(first), ServeStep::Send(f) if f.payload == [1; 16]));
    assert!(matches!(s.serve(second), ServeStep::Send(f) if f.payload == [2; 16]));
    assert!(matches!(s.serve(frame(HubFrame::KpResponse, &[0, 7, 8])), ServeStep::Nothing));
    assert!(matches!(s.serve(frame(HubFrame::Deliver, &[5; 15])), ServeStep::Nothing));
    assert!(matches!(
        s.serve(frame(HubFrame::Deliver, &[5; 17])),
        ServeStep::Deliver { target, body } if target == [5; 16] && body == [5]
    ));
    assert!(matches!(s.serve(third), ServeStep::Send(_)));
    assert!(matches!(s.serve(frame(HubFrame::KpResponse, &[1])), ServeStep::Nothing));
    assert_eq!(a.try_recv().unwrap(), Some(vec![7, 8]));
    assert_eq!(b.try_recv().unwrap(), None);
    assert!(matches!(
        s.serve(SessionInput::Outbound(HubOutbound::Subscribe(vec![]))),
        ServeStep::Nothing
    ));
    assert!(matches!(s.serve(SessionInput::ReadFailed), ServeStep::End));
    // Whoever still waits learns that nothing comes any more.
    assert!(c.try_recv().is_err());
    assert!(matches!(HubSession::new().serve(SessionInput::WriteFailed), ServeStep::Fail));
}
