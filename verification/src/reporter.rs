//! The opt-in liveness reporter of a hub.
//!
//! A hub can send a signed heartbeat to a collector at a fixed pace. Whoever
//! dials the collector and signs the heartbeat hands the bytes over here to be
//! framed.
use vstd::prelude::*;

use std::time::Duration;

use crate::bytes::{append_bytes, be32, be32_value, lemma_be32_round_trip, push_be32};
use crate::host_port::{host_and_port, law_host_alone, law_host_port_round_trip, parse_host_port};
use crate::text::{
    blank, decimal, decimal_text, is_blank, join3, last_position, law_last_position, port_value,
};

verus! {

/// The collector's port where none is given.
pub const METRICS_HS_PORT: u16 = 1;

/// The longest heartbeat that is sent.
pub const MAX_FRAME_BYTES: usize = 4096;

/// Where and how often to report.
#[derive(Debug)]
pub struct ReporterConfig {
    /// The collector's host, without the port.
    pub collector_host: String,
    /// The collector's port.
    pub collector_port: u16,
    /// The time between two heartbeats.
    pub interval: Duration,
}

/// What is wrong with a report.
#[derive(Debug, Clone, PartialEq, Eq)]
pub enum ReporterError {
    /// The target is blank.
    EmptyTarget,
    /// The target's port is no port number.
    BadPort(String),
    /// The target has no host.
    EmptyHost,
    /// The heartbeat is this many bytes long.
    FrameTooLarge(usize),
}

impl ReporterError {
    pub open spec fn text(self) -> Seq<char> {
        match self {
            ReporterError::EmptyTarget => "--metrics-report value is empty"@,
            ReporterError::BadPort(raw) => "bad port in --metrics-report \""@ + raw@ + "\""@,
            ReporterError::EmptyHost => "--metrics-report has empty host"@,
            ReporterError::FrameTooLarge(n) => "heartbeat frame too large ("@ + decimal(n as nat)
                + " bytes)"@,
        }
    }

    pub fn message(&self) -> (s: String)
        ensures
            s@ == self.text(),
    {
        match self {
            ReporterError::EmptyTarget => "--metrics-report value is empty".to_owned(),
            ReporterError::BadPort(raw) => join3(
                "bad port in --metrics-report \"",
                raw.as_str(),
                "\"",
            ),
            ReporterError::EmptyHost => "--metrics-report has empty host".to_owned(),
            ReporterError::FrameTooLarge(n) => join3(
                "heartbeat frame too large (",
                decimal_text(*n as u64).as_str(),
                " bytes)",
            ),
        }
    }
}

/// The collector that a text names, or what is wrong with the text.
pub open spec fn is_reporter_target(
    r: Result<ReporterConfig, ReporterError>,
    raw: Seq<char>,
    interval: Duration,
) -> bool {
    match r {
        Ok(cfg) => {
            &&& !is_blank(raw)
            &&& host_and_port(raw, METRICS_HS_PORT) == Some(
                (cfg.collector_host@, cfg.collector_port),
            )
            &&& cfg.collector_host@.len() > 0
            &&& cfg.interval == interval
        },
        Err(ReporterError::EmptyTarget) => is_blank(raw),
        Err(ReporterError::BadPort(s)) => !is_blank(raw) && s@ == raw && host_and_port(
            raw,
            METRICS_HS_PORT,
        ) is None,
        Err(ReporterError::EmptyHost) => !is_blank(raw) && (host_and_port(raw, METRICS_HS_PORT)
            matches Some((host, _)) && host.len() == 0),
        Err(ReporterError::FrameTooLarge(_)) => false,
    }
}

/// The frame of a heartbeat, or that it is too long for one.
pub open spec fn is_framed(r: Result<Vec<u8>, ReporterError>, bytes: Seq<u8>) -> bool {
    match r {
        Ok(out) => bytes.len() <= MAX_FRAME_BYTES && out@ == be32(bytes.len() as u32) + bytes,
        Err(e) => bytes.len() > MAX_FRAME_BYTES && e == ReporterError::FrameTooLarge(
            bytes.len() as usize,
        ),
    }
}

/// Read the collector's address: `onion` or `onion:port`.
pub fn parse_reporter_target(raw: &str, interval: Duration) -> (r: Result<
    ReporterConfig,
    ReporterError,
>)
    ensures
        is_reporter_target(r, raw@, interval),
{
    if blank(raw) {
        return Err(ReporterError::EmptyTarget);
    }
    match parse_host_port(raw, METRICS_HS_PORT) {
        Err(e) => Err(ReporterError::BadPort(e.input)),
        Ok((collector_host, collector_port)) => if collector_host.as_str().is_empty() {
            Err(ReporterError::EmptyHost)
        } else {
            Ok(ReporterConfig { collector_host, collector_port, interval })
        },
    }
}

/// Put a heartbeat into a frame: its length in four bytes, then the heartbeat.
pub fn frame_heartbeat(bytes: &[u8]) -> (r: Result<Vec<u8>, ReporterError>)
    ensures
        is_framed(r, bytes@),
{
    if bytes.len() > MAX_FRAME_BYTES {
        return Err(ReporterError::FrameTooLarge(bytes.len()));
    }
    let mut out: Vec<u8> = Vec::new();
    push_be32(&mut out, bytes.len() as u32);
    append_bytes(&mut out, bytes);
    assert(out@ =~= be32(bytes@.len() as u32) + bytes@);
    Ok(out)
}

/// A collector that is named by a host and a port is reported to there, and one
/// that is named by a host alone at port 1, at the pace that was asked for.
pub proof fn law_reports_go_where_named(
    r: Result<ReporterConfig, ReporterError>,
    host: Seq<char>,
    port: Seq<char>,
    raw: Seq<char>,
    interval: Duration,
)
    requires
        is_reporter_target(r, raw, interval),
        host.len() > 0,
        !is_blank(raw),
        raw == host && !host.contains(':') || raw == host.push(':') + port && port_value(
            port,
        ) is Some,
    ensures
        r is Ok,
        r->Ok_0.collector_host@ == host,
        r->Ok_0.interval == interval,
        raw == host ==> r->Ok_0.collector_port == 1,
        raw != host ==> r->Ok_0.collector_port == port_value(port)->0,
{
    if port_value(port) is Some {
        law_host_port_round_trip(host, port, METRICS_HS_PORT);
        assert((host.push(':') + port).len() > host.len());
    }
    if raw == host && !host.contains(':') {
        law_host_alone(host, METRICS_HS_PORT);
    }
}

/// A heartbeat of up to 4096 bytes can be read off its frame; a longer one gets
/// none.
pub proof fn law_heartbeat_is_framed(r: Result<Vec<u8>, ReporterError>, bytes: Seq<u8>)
    requires
        is_framed(r, bytes),
    ensures
        r is Ok <==> bytes.len() <= 4096,
        r matches Ok(out) ==> out@.len() == 4 + bytes.len() && be32_value(out@.take(4))
            == bytes.len() && out@.skip(4) == bytes,
{
    if let Ok(out) = r {
        let n = bytes.len() as u32;
        lemma_be32_round_trip(n);
        assert(out@.take(4) =~= be32(n));
        assert(out@.skip(4) =~= bytes);
    }
}

/// What is wrong with a target is told: nothing but white space, no host before the colon,
/// or a port that is none, with the whole text. A target that is taken names a host.
pub proof fn law_bad_targets_are_told(
    r: Result<ReporterConfig, ReporterError>,
    host: Seq<char>,
    port: Seq<char>,
    raw: Seq<char>,
    interval: Duration,
)
    requires
        is_reporter_target(r, raw, interval),
    ensures
        is_blank(raw) <==> r is Err && r->Err_0 is EmptyTarget,
        !is_blank(raw) && raw == Seq::<char>::empty().push(':') + port && port_value(port) is Some
            ==> r is Err && r->Err_0 is EmptyHost,
        !is_blank(raw) && raw == host.push(':') + port && !port.contains(':') && port_value(
            port,
        ) is None ==> r is Err && r->Err_0 is BadPort && r->Err_0->BadPort_0@ == raw,
        r is Ok ==> r->Ok_0.collector_host@.len() > 0,
        !(r is Err && r->Err_0 is FrameTooLarge),
{
    if port_value(port) is Some {
        law_host_port_round_trip(Seq::empty(), port, METRICS_HS_PORT);
    }
    if raw == host.push(':') + port && !port.contains(':') {
        law_last_position(raw, ':');
        assert(raw[host.len() as int] == ':');
        let i = last_position(raw, ':')->0;
        if i > host.len() {
            assert(port[i - host.len() - 1] == ':');
        }
        assert(raw.skip(host.len() as int + 1) =~= port);
    }
}

} // verus!
