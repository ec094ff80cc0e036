use onyx::api::invite::PinnedContact;
use onyx::daemon::{
    clearnet_guard, default_api_socket_path, default_data_dir, default_vault_path, greeting,
    hub_policy, initial_guard, is_shared_dir, parse_dial_target, parse_hub, plan_connect,
    plan_startup, refusal_message, reply, tcp_hub_keys, ClearnetDecision, Config,
    HubConfig, Mode, SnapshotKeeper, StartupError,
};
use onyx::peer_groups::{is_recorded_anew, key_to_record, name_of_key, plan_dial, DialPlan};
use onyx::replay_guard::EnvelopeReplayGuard;

fn config() -> Config {
    Config {
        vault: "/d/vault.db".to_string(),
        no_tor: false,
        tor_state_dir: None,
        dial_onion: None,
        dial_pubkey: None,
        api_socket: "/d/api.sock".to_string(),
        hubs: Vec::new(),
        hub_tcp_addrs: Vec::new(),
        listen_tcp: None,
        dial_tcp: None,
        cover_traffic_mean_secs: None,
        constant_rate_ms: None,
        first_contact_reachable: false,
        allow_clearnet: false,
    }
}

fn hub(onion: &str, pubkey: &str) -> HubConfig {
    HubConfig {
        onion: onion.to_string(),
        pubkey: pubkey.to_string(),
    }
}

fn refusal(cfg: &Config) -> String {
    match clearnet_guard(cfg) {
        ClearnetDecision::Refused(flags) => refusal_message(&flags),
        other => panic!("expected a refusal, got {other:?}"),
    }
}

/// `--hub-tcp` without `--allow-clearnet` is refused, by name.
#[test]
fn run_refuses_hub_tcp_without_ack() {
    let mut cfg = config();
    cfg.hub_tcp_addrs = vec![hub("127.0.0.1:9999", "aaaa")];
    let msg = refusal(&cfg);
    assert!(
        msg.contains("REFUSING TO START"),
        "refusal must be the clearnet guard, got: {msg}"
    );
    assert!(
        msg.contains("--hub-tcp"),
        "refusal must name the offending flag, got: {msg}"
    );
}

#[test]
fn run_refuses_no_tor_without_ack() {
    let mut cfg = config();
    cfg.no_tor = true;
    let msg = refusal(&cfg);
    assert!(
        msg.contains("REFUSING TO START") && msg.contains("--no-tor"),
        "refusal must be the clearnet guard naming --no-tor, got: {msg}"
    );
}

#[test]
fn run_does_not_refuse_tor_only_config() {
    assert!(matches!(clearnet_guard(&config()), ClearnetDecision::AllTor));
}

#[test]
fn every_flag_is_named_and_can_be_accepted() {
    let mut cfg = config();
    cfg.hub_tcp_addrs = vec![hub("h", "k")];
    cfg.listen_tcp = Some("l".into());
    cfg.dial_tcp = Some("d".into());
    cfg.no_tor = true;
    assert_eq!(
        refusal(&cfg),
        "REFUSING TO START: --hub-tcp,--listen-tcp,--dial-tcp,--no-tor would send traffic \
         outside Tor; add --allow-clearnet to accept that"
    );
    cfg.allow_clearnet = true;
    match clearnet_guard(&cfg) {
        ClearnetDecision::Acknowledged(flags) => assert_eq!(flags.len(), 4),
        other => panic!("expected an acknowledgement, got {other:?}"),
    }
}

#[test]
fn default_paths() {
    assert_eq!(default_data_dir(Some("/home/u")), "/home/u/.onyx");
    assert_eq!(default_data_dir(None), "./.onyx");
    assert_eq!(default_vault_path(Some("/home/u")), "/home/u/.onyx/vault.db");
    assert_eq!(default_api_socket_path(None), "./.onyx/onyx.sock");
}

#[test]
fn pacing_and_cover_exclude_each_other() {
    let mut cfg = config();
    cfg.constant_rate_ms = Some(0);
    cfg.cover_traffic_mean_secs = Some(0);
    assert_eq!(plan_startup(&cfg).unwrap_err(), StartupError::PacingConflict);
    assert!(StartupError::PacingConflict.message().ends_with("Pick one."));
    cfg.cover_traffic_mean_secs = None;
    assert_eq!(plan_startup(&cfg).unwrap().constant_rate_ms, None);
    cfg.constant_rate_ms = Some(250);
    assert_eq!(plan_startup(&cfg).unwrap().constant_rate_ms, Some(250));
    cfg.constant_rate_ms = None;
    cfg.cover_traffic_mean_secs = Some(5);
    assert_eq!(plan_startup(&cfg).unwrap().cover_mean_secs, Some(5));
}

#[test]
fn the_mode_follows_the_flags() {
    let mut cfg = config();
    assert!(matches!(plan_startup(&cfg).unwrap().mode, Mode::AcceptTor));
    cfg.dial_onion = Some("o".into());
    assert!(matches!(plan_startup(&cfg).unwrap().mode, Mode::AcceptTor));
    cfg.dial_tcp = Some("a".into());
    let e = plan_startup(&cfg).unwrap_err();
    assert_eq!(e, StartupError::DialKeyMissing);
    assert_eq!(e.message(), "--dial-tcp requires --dial-pubkey");
    cfg.dial_tcp = None;
    cfg.dial_pubkey = Some("k".into());
    assert!(matches!(plan_startup(&cfg).unwrap().mode, Mode::DialTor { .. }));
    cfg.no_tor = true;
    assert!(matches!(plan_startup(&cfg).unwrap().mode, Mode::ApiOnly));
    cfg.dial_tcp = Some("a".into());
    match plan_startup(&cfg).unwrap().mode {
        Mode::DialTcp { addr, pubkey } => assert_eq!((addr.as_str(), pubkey.as_str()), ("a", "k")),
        other => panic!("expected DialTcp, got {other:?}"),
    }
    cfg.listen_tcp = Some("b".into());
    assert!(matches!(plan_startup(&cfg).unwrap().mode, Mode::ListenTcp(_)));
}

#[test]
fn hubs_are_counted() {
    let mut cfg = config();
    cfg.hubs = vec![hub("a", "b"), hub("c", "d")];
    cfg.hub_tcp_addrs = vec![hub("e", "f")];
    let plan = plan_startup(&cfg).unwrap();
    assert_eq!((plan.tor_hubs, plan.tcp_hubs), (2, 1));
    cfg.no_tor = true;
    let plan = plan_startup(&cfg).unwrap();
    assert_eq!((plan.tor_hubs, plan.tcp_hubs), (0, 1));
}

/// 32 zero bytes in base32.
const ZERO_KEY: &str = "aaaaaaaaaaaaaaaaaaaaaaaaaaaaaaaaaaaaaaaaaaaaaaaaaaaa";

#[test]
fn hub_values_are_read() {
    let t = parse_hub(0, &hub("h.onion:7", ZERO_KEY)).unwrap();
    assert_eq!((t.host.as_str(), t.port, t.key), ("h.onion", 7, [0u8; 32]));
    let t = parse_hub(0, &hub("h.onion", &format!(" {}\n", ZERO_KEY.to_uppercase()))).unwrap();
    assert_eq!(t.port, 1);
    assert_eq!(
        parse_hub(3, &hub("h:x", ZERO_KEY)).unwrap_err().message(),
        "--hub onion #3: h:x"
    );
    assert_eq!(
        parse_hub(1, &hub("h", "aaaa")).unwrap_err().message(),
        "--hub pubkey #1: aaaa"
    );
}

#[test]
fn tcp_hubs_stop_at_the_first_bad_key() {
    let keys = tcp_hub_keys(&vec![hub("a", ZERO_KEY), hub("b", "!"), hub("c", ZERO_KEY)]);
    assert_eq!(keys, vec![[0u8; 32]]);
}

#[test]
fn dial_targets_are_read() {
    let t = parse_dial_target("p.onion:9", ZERO_KEY).unwrap();
    assert_eq!((t.host.as_str(), t.port), ("p.onion", 9));
    assert_eq!(
        parse_dial_target("p.onion:nine", ZERO_KEY).unwrap_err().message(),
        "bad port in --dial-onion: nine"
    );
    assert_eq!(
        parse_dial_target("p.onion", "a").unwrap_err().message(),
        "--dial-pubkey must decode to 32 bytes"
    );
}

/// Who does not want to be reached by strangers tells hubs nothing that names it.
#[test]
fn private_sessions_hide_the_inbox() {
    let mut cfg = config();
    let inbox = [1u8; 16];
    let tokens = vec![Some([2u8; 16]), None, Some([3u8; 16])];
    let p = hub_policy(&cfg);
    assert!(p.ephemeral_static);
    let (ids, publish) = plan_connect(p, inbox, &tokens, Some(vec![9]));
    assert_eq!(ids, vec![[2u8; 16], [3u8; 16]]);
    assert!(publish.is_none());

    cfg.first_contact_reachable = true;
    let p = hub_policy(&cfg);
    assert!(!p.ephemeral_static);
    let (ids, publish) = plan_connect(p, inbox, &tokens, Some(vec![9]));
    assert_eq!(ids, vec![inbox, [2u8; 16], [3u8; 16]]);
    let publish = publish.unwrap();
    assert_eq!((publish.routing_id, publish.kp_bytes), (inbox, vec![9]));
    let (_, publish) = plan_connect(p, inbox, &tokens, None);
    assert!(publish.is_none());
}

#[test]
fn the_guard_is_taken_up_again() {
    let mut g = EnvelopeReplayGuard::with_capacity(3);
    g.check_and_record(b"seen");
    let saved = g.snapshot();
    let mut restored = initial_guard(Some(&saved));
    assert_eq!(restored.capacity(), 3);
    assert!(!restored.check_and_record(b"seen"));
    assert_eq!(initial_guard(Some(b"junk")).capacity(), 4096);
    assert!(initial_guard(None).is_empty());
}

#[test]
fn unchanged_snapshots_are_not_saved_again() {
    let mut k = SnapshotKeeper::new();
    assert!(k.is_due(b"a"));
    k.note(b"a", false);
    assert!(k.is_due(b"a"));
    k.note(b"a", true);
    assert!(!k.is_due(b"a"));
    assert!(k.is_due(b"b"));
}

#[test]
fn dialled_sessions_resume_or_begin() {
    let (me, other) = ([1u8; 32], [2u8; 32]);
    assert!(matches!(plan_dial(&me, &other, Some(vec![7]), None, true), DialPlan::WrongPeer));
    for (mapped, promised, expected) in [
        (Some(vec![7]), None, vec![7]),
        (Some(vec![7]), Some(vec![8]), vec![7]),
        (None, Some(vec![8]), vec![8]),
    ] {
        match plan_dial(&me, &me, mapped.clone(), promised.clone(), true) {
            DialPlan::Resume(gid) => assert_eq!(gid, expected),
            other => panic!("expected Resume, got {other:?}"),
        }
        assert!(matches!(
            plan_dial(&me, &me, mapped, promised, false),
            DialPlan::Bootstrap { forget: true }
        ));
    }
    assert!(matches!(
        plan_dial(&me, &me, None, None, false),
        DialPlan::Bootstrap { forget: false }
    ));
    assert!(is_recorded_anew(false, false) && is_recorded_anew(true, true));
    assert!(!is_recorded_anew(true, false));
    assert_eq!(greeting("fp"), "MLS hello from fp (initiator)");
    assert_eq!(reply("fp"), "MLS reply from fp (responder)");
}

fn contact(fingerprint: &str, key: u8) -> PinnedContact {
    PinnedContact {
        fingerprint: fingerprint.to_string(),
        x25519_pub: [key; 32],
        first_seen_ms: 0,
        last_seen_ms: 0,
        key_changed: false,
    }
}

/// A group that was begun with an invitation is on record for the peer's key, or for
/// its fingerprint as long as the key is not known.
#[test]
fn begun_groups_are_found_again() {
    let contacts = vec![contact("a", 1), contact("b", 2)];
    assert_eq!(key_to_record(&contacts, "b", &[9; 32]), [2; 32]);
    assert_eq!(key_to_record(&contacts, "c", &[9; 32]), [9; 32]);
    assert_eq!(name_of_key(&contacts, &[2; 32]), Some(&"b".to_string()));
    assert_eq!(name_of_key(&contacts, &[9; 32]), None);
}

#[test]
fn shared_directories_are_noticed() {
    assert!(!is_shared_dir(0o40700));
    assert!(is_shared_dir(0o40755));
    assert!(is_shared_dir(0o40701));
}
