use onyx::reporter::{
    frame_heartbeat, parse_reporter_target, MAX_FRAME_BYTES, METRICS_HS_PORT,
};
use std::time::Duration;

#[test]
fn parses_onion_without_port() {
    let cfg = parse_reporter_target("abc.onion", Duration::from_secs(300)).unwrap();
    assert_eq!(cfg.collector_host, "abc.onion");
    assert_eq!(cfg.collector_port, METRICS_HS_PORT);
    assert_eq!(cfg.interval, Duration::from_secs(300));
}

#[test]
fn parses_onion_with_port() {
    let cfg = parse_reporter_target("abc.onion:7", Duration::from_secs(60)).unwrap();
    assert_eq!(cfg.collector_host, "abc.onion");
    assert_eq!(cfg.collector_port, 7);
}

#[test]
fn rejects_empty_and_bad_port() {
    assert!(parse_reporter_target("", Duration::from_secs(300)).is_err());
    assert!(parse_reporter_target("  ", Duration::from_secs(300)).is_err());
    assert!(parse_reporter_target("abc.onion:notaport", Duration::from_secs(300)).is_err());
}

#[test]
fn errors_say_what_is_wrong() {
    let every = Duration::from_secs(1);
    let text = |raw: &str| parse_reporter_target(raw, every).unwrap_err().message();
    assert_eq!(text("\t"), "--metrics-report value is empty");
    assert_eq!(text("a:x"), "bad port in --metrics-report \"a:x\"");
    assert_eq!(text(":5"), "--metrics-report has empty host");
}

#[test]
fn heartbeats_are_framed() {
    assert_eq!(frame_heartbeat(b"abc").unwrap(), b"\0\0\0\x03abc");
    assert!(frame_heartbeat(&vec![0; MAX_FRAME_BYTES]).is_ok());
    assert_eq!(
        frame_heartbeat(&vec![0; MAX_FRAME_BYTES + 1]).unwrap_err().message(),
        "heartbeat frame too large (4097 bytes)"
    );
}
