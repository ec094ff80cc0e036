//! What the daemon is told at its start, and what follows from it: whether it
//! may start at all, in which mode it runs, which hubs it talks to and what it
//! lets them know.
use vstd::prelude::*;

use tokio::sync::mpsc;

use crate::bytes::copy_bytes;
use crate::channel::{mailbox, Ends, Record};
use crate::codec::{b32_decoded, decode_b32_32, key_of_bytes, KeyTextError};
use crate::files::names::{join_path, joined_path};
use crate::host_port::{host_and_port, law_host_alone, law_host_port_round_trip, parse_host_port};
use crate::hub::config::cover_mean;
use crate::hub::gossip::RoutingId;
use crate::hub_client::{HubOutbound, SelfPublish, OUTBOUND_QUEUE_CAPACITY};
use crate::list_map::same_bytes;
use crate::replay_guard::{
    guard_wf, law_snapshot_round_trip, parsed_snapshot, snapshot_bytes, EnvelopeReplayGuard,
    GuardModel, DEFAULT_CAPACITY,
};
use crate::roster::joined;
use crate::text::{
    chars_of, decimal, decimal_text, find_last, folded, join2, join3, last_position, port_value,
    text_of, texts,
};

verus! {

/// The port of a daemon's hidden service.
pub const ONYX_HS_PORT: u16 = 1;

/// How often the set of seen envelopes is saved, in seconds.
pub const REPLAY_SNAPSHOT_INTERVAL_SECS: u64 = 60;

/// The directory of a user's data: `.onyx` in the home directory, or in the
/// current directory where no home directory is known.
pub open spec fn data_dir(home: Option<Seq<char>>) -> Seq<char> {
    match home {
        Some(h) => joined_path(h, ".onyx"@),
        None => joined_path("."@, ".onyx"@),
    }
}

/// The characters of a text, if there is one.
pub open spec fn opt_chars(s: Option<&str>) -> Option<Seq<char>> {
    match s {
        Some(t) => Some(t@),
        None => None,
    }
}

/// The directory of a user's data.
pub fn default_data_dir(home: Option<&str>) -> (dir: String)
    ensures
        dir@ == data_dir(opt_chars(home)),
{
    match home {
        Some(h) => join_path(h, ".onyx"),
        None => join_path(".", ".onyx"),
    }
}

/// Where the vault is kept by default.
pub fn default_vault_path(home: Option<&str>) -> (path: String)
    ensures
        path@ == joined_path(data_dir(opt_chars(home)), "vault.db"@),
{
    join_path(default_data_dir(home).as_str(), "vault.db")
}

/// Where the socket for local clients is by default.
pub fn default_api_socket_path(home: Option<&str>) -> (path: String)
    ensures
        path@ == joined_path(data_dir(opt_chars(home)), "onyx.sock"@),
{
    join_path(default_data_dir(home).as_str(), "onyx.sock")
}

/// A hub as the operator names it.
#[derive(Debug)]
pub struct HubConfig {
    /// `onion:port`, or the onion alone.
    pub onion: String,
    /// The hub's key, in base32.
    pub pubkey: String,
}

/// What the daemon is told at its start. The vault's passphrase is not part of
/// it: it is handed to the vault and wiped.
#[derive(Debug)]
pub struct Config {
    pub vault: String,
    /// Serve local clients only.
    pub no_tor: bool,
    pub tor_state_dir: Option<String>,
    pub dial_onion: Option<String>,
    pub dial_pubkey: Option<String>,
    pub api_socket: String,
    pub hubs: Vec<HubConfig>,
    /// Hubs that are dialled over plain TCP, for tests.
    pub hub_tcp_addrs: Vec<HubConfig>,
    pub listen_tcp: Option<String>,
    pub dial_tcp: Option<String>,
    /// The mean pause between cover frames, in seconds.
    pub cover_traffic_mean_secs: Option<u64>,
    /// The length of a slot of a paced session, in milliseconds.
    pub constant_rate_ms: Option<u64>,
    /// Strangers may reach this identity through hubs. Else hubs are not told
    /// who it is.
    pub first_contact_reachable: bool,
    /// The operator accepts that traffic leaves Tor.
    pub allow_clearnet: bool,
}

/// The flags that let traffic leave Tor.
pub open spec fn clearnet_flags(cfg: Config) -> Seq<Seq<char>> {
    let a = if cfg.hub_tcp_addrs@.len() > 0 {
        seq!["--hub-tcp"@]
    } else {
        seq![]
    };
    let b = if cfg.listen_tcp is Some {
        a.push("--listen-tcp"@)
    } else {
        a
    };
    let c = if cfg.dial_tcp is Some {
        b.push("--dial-tcp"@)
    } else {
        b
    };
    if cfg.no_tor {
        c.push("--no-tor"@)
    } else {
        c
    }
}

/// Whether the daemon may start, as far as Tor is concerned.
#[derive(Debug)]
pub enum ClearnetDecision {
    /// All traffic goes through Tor.
    AllTor,
    /// Traffic leaves Tor because of these flags, and the operator accepts it.
    Acknowledged(Vec<String>),
    /// Traffic would leave Tor because of these flags.
    Refused(Vec<String>),
}

/// The decision about traffic outside Tor that a configuration asks for.
pub open spec fn is_decision(d: ClearnetDecision, cfg: Config) -> bool {
    match d {
        ClearnetDecision::AllTor => clearnet_flags(cfg).len() == 0,
        ClearnetDecision::Acknowledged(flags) => texts(flags@) == clearnet_flags(cfg)
            && flags@.len() > 0 && cfg.allow_clearnet,
        ClearnetDecision::Refused(flags) => texts(flags@) == clearnet_flags(cfg) && flags@.len()
            > 0 && !cfg.allow_clearnet,
    }
}

/// Decide whether the daemon may start.
pub fn clearnet_guard(cfg: &Config) -> (d: ClearnetDecision)
    ensures
        is_decision(d, *cfg),
{
    let mut flags: Vec<String> = Vec::new();
    if cfg.hub_tcp_addrs.len() > 0 {
        flags.push("--hub-tcp".to_owned());
    }
    if cfg.listen_tcp.is_some() {
        flags.push("--listen-tcp".to_owned());
    }
    if cfg.dial_tcp.is_some() {
        flags.push("--dial-tcp".to_owned());
    }
    if cfg.no_tor {
        flags.push("--no-tor".to_owned());
    }
    assert(texts(flags@) =~= clearnet_flags(*cfg));
    if flags.len() == 0 {
        ClearnetDecision::AllTor
    } else if cfg.allow_clearnet {
        ClearnetDecision::Acknowledged(flags)
    } else {
        ClearnetDecision::Refused(flags)
    }
}

/// Texts put one after the other with a comma between them.
fn comma_list(parts: &Vec<String>) -> (s: String)
    ensures
        s@ == joined(texts(parts@), ','),
{
    let mut out = String::new();
    let mut i: usize = 0;
    proof {
        assert(texts(parts@).take(0) =~= Seq::<Seq<char>>::empty());
    }
    while i < parts.len()
        invariant
            i <= parts@.len(),
            out@ == joined(texts(parts@).take(i as int), ','),
        decreases parts@.len() - i,
    {
        if i > 0 {
            out.push(',');
        }
        out.append(parts[i].as_str());
        i += 1;
        proof {
            let t = texts(parts@).take(i as int);
            assert(t.drop_last() =~= texts(parts@).take(i - 1));
            assert(t.last() == parts@[i - 1]@);
            assert(out@ =~= joined(t, ','));
        }
    }
    proof {
        assert(texts(parts@).take(i as int) =~= texts(parts@));
    }
    out
}

/// What the daemon says when it refuses to start: it names the flags.
pub fn refusal_message(flags: &Vec<String>) -> (s: String)
    ensures
        s@ == "REFUSING TO START: "@ + joined(texts(flags@), ',')
            + " would send traffic outside Tor; add --allow-clearnet to accept that"@,
{
    join3(
        "REFUSING TO START: ",
        comma_list(flags).as_str(),
        " would send traffic outside Tor; add --allow-clearnet to accept that",
    )
}

/// The daemon never lets traffic leave Tor without being told that it may: where
/// it starts without that, no hub is dialled over TCP, nothing is accepted or
/// dialled over TCP, and Tor is on.
pub proof fn law_no_clearnet_unasked(cfg: Config)
    requires
        clearnet_flags(cfg).len() == 0,
    ensures
        cfg.hub_tcp_addrs@.len() == 0,
        cfg.listen_tcp is None,
        cfg.dial_tcp is None,
        !cfg.no_tor,
{
}

/// What the daemon mainly does.
#[derive(Debug)]
pub enum Mode {
    /// Accept peers over TCP.
    ListenTcp(String),
    /// Dial a peer over TCP.
    DialTcp {
        addr: String,
        pubkey: String,
    },
    /// Serve local clients only.
    ApiOnly,
    /// Dial a peer through Tor.
    DialTor {
        onion: String,
        pubkey: String,
    },
    /// Accept peers through Tor.
    AcceptTor,
}

/// How the daemon runs.
#[derive(Debug)]
pub struct StartupPlan {
    pub mode: Mode,
    /// How many hubs are dialled through Tor. Their channels come first.
    pub tor_hubs: usize,
    /// How many hubs are dialled over TCP. Their channels come behind.
    pub tcp_hubs: usize,
    /// The length of a slot, if sessions with hubs are paced.
    pub constant_rate_ms: Option<u64>,
    /// The mean pause between cover frames, if there are any.
    pub cover_mean_secs: Option<u64>,
}

/// Why the daemon does not start with its settings.
#[derive(Debug, Clone, Copy, PartialEq, Eq, Structural)]
pub enum StartupError {
    /// Two settings exclude each other.
    PacingConflict,
    /// A peer is dialled over TCP without its key.
    DialKeyMissing,
}

impl StartupError {
    pub open spec fn text(self) -> Seq<char> {
        match self {
            StartupError::PacingConflict =>
            "--constant-rate-ms and --cover-traffic-mean-secs are mutually exclusive: constant-rate already emits a PAD on every idle slot. Pick one."@,
            StartupError::DialKeyMissing => "--dial-tcp requires --dial-pubkey"@,
        }
    }

    pub fn message(&self) -> (s: String)
        ensures
            s@ == self.text(),
    {
        match self {
            StartupError::PacingConflict =>
            "--constant-rate-ms and --cover-traffic-mean-secs are mutually exclusive: constant-rate already emits a PAD on every idle slot. Pick one.".to_owned(),
            StartupError::DialKeyMissing => "--dial-tcp requires --dial-pubkey".to_owned(),
        }
    }
}

/// A setting in which zero means off.
pub open spec fn above_zero(v: Option<u64>) -> Option<u64> {
    match v {
        Some(n) => if n > 0 {
            Some(n)
        } else {
            None
        },
        None => None,
    }
}

/// The mode that the settings call for.
pub open spec fn is_mode(mode: Mode, cfg: Config) -> bool {
    if cfg.listen_tcp is Some {
        mode matches Mode::ListenTcp(addr) && addr@ == cfg.listen_tcp->0@
    } else if cfg.dial_tcp is Some {
        mode matches Mode::DialTcp { addr, pubkey } && addr@ == cfg.dial_tcp->0@ && pubkey@
            == cfg.dial_pubkey->0@
    } else if cfg.no_tor {
        mode is ApiOnly
    } else if cfg.dial_onion is Some && cfg.dial_pubkey is Some {
        mode matches Mode::DialTor { onion, pubkey } && onion@ == cfg.dial_onion->0@ && pubkey@
            == cfg.dial_pubkey->0@
    } else {
        mode is AcceptTor
    }
}

/// What is wrong with the settings, if anything.
pub open spec fn startup_fault(cfg: Config) -> Option<StartupError> {
    if cfg.constant_rate_ms is Some && cfg.cover_traffic_mean_secs is Some {
        Some(StartupError::PacingConflict)
    } else if cfg.listen_tcp is None && cfg.dial_tcp is Some && cfg.dial_pubkey is None {
        Some(StartupError::DialKeyMissing)
    } else {
        None
    }
}

/// The plan that a configuration without a fault leads to.
pub open spec fn is_startup_plan(p: StartupPlan, cfg: Config) -> bool {
    &&& is_mode(p.mode, cfg)
    &&& p.tor_hubs == if cfg.no_tor {
        0
    } else {
        cfg.hubs@.len()
    }
    &&& p.tcp_hubs == cfg.hub_tcp_addrs@.len()
    &&& p.constant_rate_ms == above_zero(cfg.constant_rate_ms)
    &&& p.cover_mean_secs == above_zero(cfg.cover_traffic_mean_secs)
}

/// Decide how the daemon runs. A peer that is dialled over TCP comes with its key.
pub fn plan_startup(cfg: &Config) -> (r: Result<StartupPlan, StartupError>)
    ensures
        match r {
            Err(e) => startup_fault(*cfg) == Some(e),
            Ok(_) => startup_fault(*cfg) is None,
        },
        r matches Ok(p) ==> is_startup_plan(p, *cfg),
{
    if cfg.constant_rate_ms.is_some() && cfg.cover_traffic_mean_secs.is_some() {
        return Err(StartupError::PacingConflict);
    }
    if cfg.listen_tcp.is_none() && cfg.dial_tcp.is_some() && cfg.dial_pubkey.is_none() {
        return Err(StartupError::DialKeyMissing);
    }
    let tor_hubs: usize = if cfg.no_tor {
        0
    } else {
        cfg.hubs.len()
    };
    let mode = plan_mode(cfg);
    Ok(
        StartupPlan {
            mode,
            tor_hubs,
            tcp_hubs: cfg.hub_tcp_addrs.len(),
            constant_rate_ms: cover_mean(cfg.constant_rate_ms),
            cover_mean_secs: cover_mean(cfg.cover_traffic_mean_secs),
        },
    )
}

fn plan_mode(cfg: &Config) -> (mode: Mode)
    requires
        cfg.listen_tcp is None && cfg.dial_tcp is Some ==> cfg.dial_pubkey is Some,
    ensures
        is_mode(mode, *cfg),
{
    if let Some(addr) = &cfg.listen_tcp {
        return Mode::ListenTcp(addr.clone());
    }
    if let Some(addr) = &cfg.dial_tcp {
        if let Some(key) = &cfg.dial_pubkey {
            return Mode::DialTcp { addr: addr.clone(), pubkey: key.clone() };
        }
    }
    if cfg.no_tor {
        return Mode::ApiOnly;
    }
    if let Some(onion) = &cfg.dial_onion {
        if let Some(key) = &cfg.dial_pubkey {
            return Mode::DialTor { onion: onion.clone(), pubkey: key.clone() };
        }
    }
    Mode::AcceptTor
}

/// A channel to a hub's session. Where the session is paced, a pacer stands
/// between the two ends.
#[derive(Debug)]
pub struct HubChannel {
    /// Where actions go in.
    pub input: mpsc::Sender<HubOutbound>,
    /// Where the session takes them out.
    pub output: mpsc::Receiver<HubOutbound>,
    /// The ends of a pacer: it takes actions from the one and hands one on to the
    /// other in each slot.
    pub pacer: Option<(mpsc::Receiver<HubOutbound>, mpsc::Sender<HubOutbound>)>,
}

/// A channel for actions.
pub open spec fn hub_ends(
    tx: mpsc::Sender<HubOutbound>,
    rx: mpsc::Receiver<HubOutbound>,
) -> Ends<HubOutbound> {
    Ends { tx, rx, capacity: OUTBOUND_QUEUE_CAPACITY as nat }
}

/// The channels that the way to a hub's session is made of: one from end to end,
/// or one to the pacer and one from it.
pub open spec fn channels_of(c: HubChannel) -> Seq<Ends<HubOutbound>> {
    match c.pacer {
        None => seq![hub_ends(c.input, c.output)],
        Some((rx, tx)) => seq![hub_ends(c.input, rx), hub_ends(tx, c.output)],
    }
}

/// Make the channel to a hub's session.
pub fn make_hub_outbound_channel(made: &mut Record<Ends<HubOutbound>>, paced: bool) -> (c:
    HubChannel)
    ensures
        c.pacer is Some <==> paced,
        final(made)@ == old(made)@ + channels_of(c),
{
    let ghost before = made@;
    let (api_tx, api_rx) = mailbox(made, OUTBOUND_QUEUE_CAPACITY);
    proof {
        assert(made@ =~= before + seq![hub_ends(api_tx, api_rx)]);
    }
    if paced {
        let (session_tx, session_rx) = mailbox(made, OUTBOUND_QUEUE_CAPACITY);
        proof {
            assert(made@ =~= before + seq![
                hub_ends(api_tx, api_rx),
                hub_ends(session_tx, session_rx),
            ]);
        }
        HubChannel { input: api_tx, output: session_rx, pacer: Some((api_rx, session_tx)) }
    } else {
        HubChannel { input: api_tx, output: api_rx, pacer: None }
    }
}

/// A hub that can be dialled through Tor.
#[derive(Debug)]
pub struct HubTarget {
    pub host: String,
    pub port: u16,
    pub key: [u8; 32],
}

/// What is wrong with a hub.
#[derive(Debug)]
pub enum HubTargetError {
    /// The port of this `--hub` value is none.
    Onion(usize, String),
    /// The key of this `--hub` value is none.
    Pubkey(usize, String),
}

impl HubTargetError {
    pub open spec fn text(self) -> Seq<char> {
        match self {
            HubTargetError::Onion(i, s) => "--hub onion #"@ + decimal(i as nat) + (": "@ + s@),
            HubTargetError::Pubkey(i, s) => "--hub pubkey #"@ + decimal(i as nat) + (": "@ + s@),
        }
    }

    pub fn message(&self) -> (s: String)
        ensures
            s@ == self.text(),
    {
        match self {
            HubTargetError::Onion(i, s) => join3(
                "--hub onion #",
                decimal_text(*i as u64).as_str(),
                join2(": ", s.as_str()).as_str(),
            ),
            HubTargetError::Pubkey(i, s) => join3(
                "--hub pubkey #",
                decimal_text(*i as u64).as_str(),
                join2(": ", s.as_str()).as_str(),
            ),
        }
    }
}

/// The target that a hub's two texts name, or which of them is wrong.
pub open spec fn is_hub_target(
    r: Result<HubTarget, HubTargetError>,
    idx: usize,
    hub: HubConfig,
) -> bool {
    match host_and_port(hub.onion@, ONYX_HS_PORT) {
        None => r matches Err(HubTargetError::Onion(i, s)) && i == idx && s@ == hub.onion@,
        Some((host, port)) => match key_of_bytes(b32_decoded(folded(hub.pubkey@))) {
            Err(_) => r matches Err(HubTargetError::Pubkey(i, s)) && i == idx && s@ == hub.pubkey@,
            Ok(key) => r matches Ok(t) && t.host@ == host && t.port == port && t.key@ == key,
        },
    }
}

/// Read the `idx`th `--hub` value.
pub fn parse_hub(idx: usize, hub: &HubConfig) -> (r: Result<HubTarget, HubTargetError>)
    ensures
        is_hub_target(r, idx, *hub),
{
    match parse_host_port(hub.onion.as_str(), ONYX_HS_PORT) {
        Err(_) => Err(HubTargetError::Onion(idx, hub.onion.clone())),
        Ok((host, port)) => match decode_b32_32(hub.pubkey.as_str()) {
            Err(_) => Err(HubTargetError::Pubkey(idx, hub.pubkey.clone())),
            Ok(key) => Ok(HubTarget { host, port, key }),
        },
    }
}

/// The keys of the hubs that are dialled over TCP, up to the first that has none:
/// a hub without a key is no reason not to start, but the hubs behind it are not
/// dialled either.
pub open spec fn readable_hubs(hubs: Seq<HubConfig>) -> nat
    decreases hubs.len(),
{
    if hubs.len() == 0 || key_of_bytes(b32_decoded(folded(hubs[0].pubkey@))) is Err {
        0
    } else {
        1 + readable_hubs(hubs.skip(1))
    }
}

/// Read the keys of the hubs that are dialled over TCP.
pub fn tcp_hub_keys(hubs: &Vec<HubConfig>) -> (keys: Vec<[u8; 32]>)
    ensures
        keys@.len() == readable_hubs(hubs@),
        keys@.len() <= hubs@.len(),
        forall|i: int|
            0 <= i < keys@.len() ==> key_of_bytes(b32_decoded(folded(hubs@[i].pubkey@)))
                == Ok::<Seq<u8>, KeyTextError>((#[trigger] keys@[i])@),
{
    let mut keys: Vec<[u8; 32]> = Vec::new();
    let mut i: usize = 0;
    proof {
        assert(hubs@.skip(0) =~= hubs@);
    }
    while i < hubs.len()
        invariant
            i <= hubs@.len(),
            keys@.len() == i,
            readable_hubs(hubs@) == i + readable_hubs(hubs@.skip(i as int)),
            forall|j: int|
                0 <= j < keys@.len() ==> key_of_bytes(b32_decoded(folded(hubs@[j].pubkey@)))
                    == Ok::<Seq<u8>, KeyTextError>((#[trigger] keys@[j])@),
        decreases hubs@.len() - i,
    {
        proof {
            assert(hubs@.skip(i as int)[0] == hubs@[i as int]);
            assert(hubs@.skip(i as int).skip(1) =~= hubs@.skip(i + 1));
        }
        match decode_b32_32(hubs[i].pubkey.as_str()) {
            Err(_) => {
                return keys;
            },
            Ok(key) => {
                keys.push(key);
            },
        }
        i += 1;
    }
    keys
}

/// What is wrong with the peer to dial.
#[derive(Debug)]
pub enum DialError {
    /// This is no port.
    Port(String),
    /// The key is none.
    Pubkey(KeyTextError),
}

impl DialError {
    pub open spec fn text(self) -> Seq<char> {
        match self {
            DialError::Port(p) => "bad port in --dial-onion: "@ + p@,
            DialError::Pubkey(_) => "--dial-pubkey must decode to 32 bytes"@,
        }
    }

    pub fn message(&self) -> (s: String)
        ensures
            s@ == self.text(),
    {
        match self {
            DialError::Port(p) => join2("bad port in --dial-onion: ", p.as_str()),
            DialError::Pubkey(_) => "--dial-pubkey must decode to 32 bytes".to_owned(),
        }
    }
}

/// What stands behind the last colon of a text.
pub open spec fn behind_colon(s: Seq<char>) -> Seq<char> {
    match last_position(s, ':') {
        Some(i) => s.skip(i + 1),
        None => Seq::empty(),
    }
}

fn port_part(s: &str) -> (p: String)
    ensures
        p@ == behind_colon(s@),
{
    let v = chars_of(s);
    let n: usize = v.len();
    match find_last(v.as_slice(), ':') {
        Some(i) => {
            let tail = vstd::slice::slice_subrange(v.as_slice(), i + 1, n);
            assert(tail@ =~= s@.skip(i + 1));
            text_of(tail)
        },
        None => String::new(),
    }
}

/// The target that the two texts of a dial name, or which of them is wrong.
pub open spec fn is_dial_target(
    r: Result<HubTarget, DialError>,
    onion: Seq<char>,
    pubkey: Seq<char>,
) -> bool {
    match host_and_port(onion, ONYX_HS_PORT) {
        None => r matches Err(DialError::Port(p)) && p@ == behind_colon(onion),
        Some((host, port)) => match key_of_bytes(b32_decoded(folded(pubkey))) {
            Err(e) => r matches Err(DialError::Pubkey(k)) && k == e,
            Ok(key) => r matches Ok(t) && t.host@ == host && t.port == port && t.key@ == key,
        },
    }
}

/// Read the peer to dial through Tor.
pub fn parse_dial_target(onion: &str, pubkey: &str) -> (r: Result<HubTarget, DialError>)
    ensures
        is_dial_target(r, onion@, pubkey@),
{
    match parse_host_port(onion, ONYX_HS_PORT) {
        Err(_) => Err(DialError::Port(port_part(onion))),
        Ok((host, port)) => match decode_b32_32(pubkey) {
            Err(e) => Err(DialError::Pubkey(e)),
            Ok(key) => Ok(HubTarget { host, port, key }),
        },
    }
}

/// What a hub gets to know in a session.
#[derive(Debug, Clone, Copy, PartialEq, Eq, Structural)]
pub struct HubPolicy {
    /// Subscribe to the inbox for strangers.
    pub subscribe_inbox: bool,
    /// File a key package under the inbox.
    pub publish_key_package: bool,
    /// Use a new transport key for the session.
    pub ephemeral_static: bool,
}

/// What the hubs may know of a daemon that strangers can reach, or cannot.
pub open spec fn policy_of(reachable: bool) -> HubPolicy {
    HubPolicy {
        subscribe_inbox: reachable,
        publish_key_package: reachable,
        ephemeral_static: !reachable,
    }
}

/// What hubs get to know: who can be reached by strangers is known to hubs, and
/// who cannot tells them nothing that names it.
pub fn hub_policy(cfg: &Config) -> (p: HubPolicy)
    ensures
        p == policy_of(cfg.first_contact_reachable),
{
    HubPolicy {
        subscribe_inbox: cfg.first_contact_reachable,
        publish_key_package: cfg.first_contact_reachable,
        ephemeral_static: !cfg.first_contact_reachable,
    }
}

/// The routing ids that rooms have.
pub open spec fn known_tokens(tokens: Seq<Option<RoutingId>>) -> Seq<RoutingId>
    decreases tokens.len(),
{
    if tokens.len() == 0 {
        Seq::empty()
    } else {
        match tokens.last() {
            Some(t) => known_tokens(tokens.drop_last()).push(t),
            None => known_tokens(tokens.drop_last()),
        }
    }
}

/// What a session with a hub begins with: the inbox, if strangers may reach it,
/// and the routing id of every room that has one; and the key package to file.
pub open spec fn subscriptions(policy: HubPolicy, inbox: RoutingId, tokens: Seq<Option<RoutingId>>) -> Seq<
    RoutingId,
> {
    if policy.subscribe_inbox {
        seq![inbox] + known_tokens(tokens)
    } else {
        known_tokens(tokens)
    }
}

/// The key package that is filed when a session begins.
pub open spec fn is_publication(
    publish: Option<SelfPublish>,
    policy: HubPolicy,
    inbox: RoutingId,
    kp: Option<Vec<u8>>,
) -> bool {
    match publish {
        Some(p) => policy.publish_key_package && p.routing_id == inbox && kp == Some(p.kp_bytes),
        None => !policy.publish_key_package || kp is None,
    }
}

/// Decide what a session with a hub begins with. `kp` is a fresh key package, if
/// one could be made.
pub fn plan_connect(
    policy: HubPolicy,
    inbox: RoutingId,
    tokens: &Vec<Option<RoutingId>>,
    kp: Option<Vec<u8>>,
) -> (r: (Vec<RoutingId>, Option<SelfPublish>))
    ensures
        r.0@ == subscriptions(policy, inbox, tokens@),
        is_publication(r.1, policy, inbox, kp),
{
    let mut ids: Vec<RoutingId> = Vec::new();
    if policy.subscribe_inbox {
        ids.push(inbox);
    }
    let ghost first = ids@;
    let mut i: usize = 0;
    proof {
        assert(tokens@.take(0) =~= Seq::<Option<RoutingId>>::empty());
        assert(ids@ =~= first + known_tokens(tokens@.take(0)));
    }
    while i < tokens.len()
        invariant
            i <= tokens@.len(),
            ids@ == first + known_tokens(tokens@.take(i as int)),
        decreases tokens@.len() - i,
    {
        let ghost before = known_tokens(tokens@.take(i as int));
        if let Some(t) = tokens[i] {
            ids.push(t);
            proof {
                assert(ids@ =~= first + before.push(t));
            }
        }
        i += 1;
        proof {
            assert(tokens@.take(i as int).drop_last() =~= tokens@.take(i - 1));
            assert(tokens@.take(i as int).last() == tokens@[i - 1]);
        }
    }
    proof {
        assert(tokens@.take(i as int) =~= tokens@);
        assert(ids@ =~= subscriptions(policy, inbox, tokens@));
    }
    let publish = if policy.publish_key_package {
        match kp {
            Some(kp_bytes) => Some(SelfPublish { routing_id: inbox, kp_bytes }),
            None => None,
        }
    } else {
        None
    };
    (ids, publish)
}

/// Who does not want to be reached by strangers does not show its inbox to a
/// hub: the hub sees the routing ids of rooms alone.
pub proof fn law_private_session_hides_inbox(
    policy: HubPolicy,
    inbox: RoutingId,
    tokens: Seq<Option<RoutingId>>,
)
    requires
        !policy.subscribe_inbox,
        !tokens.contains(Some(inbox)),
    ensures
        !subscriptions(policy, inbox, tokens).contains(inbox),
    decreases tokens.len(),
{
    if tokens.len() > 0 {
        let front = tokens.drop_last();
        assert(!front.contains(Some(inbox))) by {
            if front.contains(Some(inbox)) {
                let i = choose|i: int| 0 <= i < front.len() && front[i] == Some(inbox);
                assert(tokens[i] == Some(inbox));
            }
        }
        law_private_session_hides_inbox(policy, inbox, front);
        assert(tokens[tokens.len() - 1] == tokens.last());
        let all = known_tokens(tokens);
        if all.contains(inbox) {
            let i = choose|i: int| 0 <= i < all.len() && all[i] == inbox;
            if i < known_tokens(front).len() {
                assert(known_tokens(front)[i] == inbox);
            }
        }
    }
}

/// What a guard remembers after a restart: what was saved, and nothing where
/// nothing was or where it cannot be read.
pub open spec fn guard_after_restart(saved: Option<Seq<u8>>) -> GuardModel {
    match saved {
        Some(bytes) => match parsed_snapshot(bytes) {
            Some(m) => m,
            None => GuardModel { order: Seq::empty(), capacity: DEFAULT_CAPACITY as nat },
        },
        None => GuardModel { order: Seq::empty(), capacity: DEFAULT_CAPACITY as nat },
    }
}

/// The set of seen envelopes that the daemon starts with: the one that was saved,
/// or an empty one where none was or it cannot be read.
pub fn initial_guard(saved: Option<&[u8]>) -> (g: EnvelopeReplayGuard)
    ensures
        g.wf(),
        g@ == guard_after_restart(
            match saved {
                Some(bytes) => Some(bytes@),
                None => None,
            },
        ),
{
    match saved {
        Some(bytes) => match EnvelopeReplayGuard::restore(bytes) {
            Ok(g) => g,
            Err(_) => EnvelopeReplayGuard::new(),
        },
        None => EnvelopeReplayGuard::new(),
    }
}

/// What was last saved of the seen envelopes.
#[derive(Debug)]
pub struct SnapshotKeeper {
    last: Option<Vec<u8>>,
}

impl View for SnapshotKeeper {
    type V = Option<Seq<u8>>;

    closed spec fn view(&self) -> Option<Seq<u8>> {
        match self.last {
            Some(v) => Some(v@),
            None => None,
        }
    }
}

/// Whether a snapshot has to be saved: not where it is what was saved last.
pub open spec fn due(last: Option<Seq<u8>>, snapshot: Seq<u8>) -> bool {
    last != Some(snapshot)
}

/// What was saved last, after an attempt to save.
pub open spec fn noted(last: Option<Seq<u8>>, snapshot: Seq<u8>, saved: bool) -> Option<Seq<u8>> {
    if saved {
        Some(snapshot)
    } else {
        last
    }
}

impl SnapshotKeeper {
    pub fn new() -> (k: Self)
        ensures
            k@ is None,
    {
        SnapshotKeeper { last: None }
    }

    /// Whether a snapshot is to be saved: only where it differs from the last.
    pub fn is_due(&self, snapshot: &[u8]) -> (r: bool)
        ensures
            r == due(self@, snapshot@),
    {
        match &self.last {
            Some(v) => !same_bytes(v.as_slice(), snapshot),
            None => true,
        }
    }

    /// Take note of how saving a snapshot went: one that was not saved is tried
    /// again.
    pub fn note(&mut self, snapshot: &[u8], saved: bool)
        ensures
            final(self)@ == noted(old(self)@, snapshot@, saved),
    {
        if saved {
            self.last = Some(copy_bytes(snapshot));
        }
    }
}

/// Whether others than the owner can get at a directory with this mode.
pub fn is_shared_dir(mode: u32) -> (r: bool)
    ensures
        r == (mode & 0o077 != 0),
{
    mode & 0o077 != 0
}

/// The first words of the side that dials.
pub fn greeting(fingerprint: &str) -> (s: String)
    ensures
        s@ == "MLS hello from "@ + fingerprint@ + " (initiator)"@,
{
    join3("MLS hello from ", fingerprint, " (initiator)")
}

/// The first words of the side that accepts.
pub fn reply(fingerprint: &str) -> (s: String)
    ensures
        s@ == "MLS reply from "@ + fingerprint@ + " (responder)"@,
{
    join3("MLS reply from ", fingerprint, " (responder)")
}

/// The daemon starts on its own only where nothing goes outside Tor. Otherwise it
/// is the word of the configuration that decides, and the flags that are named are
/// those that were given.
pub proof fn law_clearnet_is_acknowledged(cfg: Config, d: ClearnetDecision)
    requires
        is_decision(d, cfg),
    ensures
        d is AllTor <==> cfg.hub_tcp_addrs@.len() == 0 && cfg.listen_tcp is None
            && cfg.dial_tcp is None && !cfg.no_tor,
        d is Acknowledged ==> cfg.allow_clearnet,
        d is Refused ==> !cfg.allow_clearnet,
        d matches ClearnetDecision::Refused(flags) ==> names_flags(texts(flags@), cfg),
        d matches ClearnetDecision::Acknowledged(flags) ==> names_flags(texts(flags@), cfg),
{
    let all = clearnet_flags(cfg);
    reveal_strlit("--hub-tcp");
    reveal_strlit("--listen-tcp");
    reveal_strlit("--dial-tcp");
    reveal_strlit("--no-tor");
    let a = if cfg.hub_tcp_addrs@.len() > 0 {
        1int
    } else {
        0int
    };
    let b = if cfg.listen_tcp is Some {
        a + 1
    } else {
        a
    };
    let c = if cfg.dial_tcp is Some {
        b + 1
    } else {
        b
    };
    if cfg.hub_tcp_addrs@.len() > 0 {
        assert(all[0] == "--hub-tcp"@);
    }
    if cfg.listen_tcp is Some {
        assert(all[a] == "--listen-tcp"@);
    }
    if cfg.dial_tcp is Some {
        assert(all[b] == "--dial-tcp"@);
    }
    if cfg.no_tor {
        assert(all[c] == "--no-tor"@);
    }
    assert("--hub-tcp"@.len() == 9 && "--listen-tcp"@.len() == 12 && "--dial-tcp"@.len() == 10
        && "--no-tor"@.len() == 8);
    assert(names_flags(all, cfg)) by {
        if all.contains("--hub-tcp"@) {
            let i = choose|i: int| 0 <= i < all.len() && all[i] == "--hub-tcp"@;
        }
        if all.contains("--listen-tcp"@) {
            let i = choose|i: int| 0 <= i < all.len() && all[i] == "--listen-tcp"@;
        }
        if all.contains("--dial-tcp"@) {
            let i = choose|i: int| 0 <= i < all.len() && all[i] == "--dial-tcp"@;
        }
        if all.contains("--no-tor"@) {
            let i = choose|i: int| 0 <= i < all.len() && all[i] == "--no-tor"@;
        }
    }
}

/// A list names exactly the flags of a configuration that lead outside Tor.
pub open spec fn names_flags(flags: Seq<Seq<char>>, cfg: Config) -> bool {
    &&& flags.contains("--hub-tcp"@) <==> cfg.hub_tcp_addrs@.len() > 0
    &&& flags.contains("--listen-tcp"@) <==> cfg.listen_tcp is Some
    &&& flags.contains("--dial-tcp"@) <==> cfg.dial_tcp is Some
    &&& flags.contains("--no-tor"@) <==> cfg.no_tor
}

/// The daemon refuses to start for two reasons and no other: two ways of pacing at
/// once, and an address to dial without the key to expect there.
pub proof fn law_reasons_not_to_start(cfg: Config)
    ensures
        startup_fault(cfg) == Some(StartupError::PacingConflict) <==> cfg.constant_rate_ms is Some
            && cfg.cover_traffic_mean_secs is Some,
        startup_fault(cfg) == Some(StartupError::DialKeyMissing) <==> !(cfg.constant_rate_ms is Some
            && cfg.cover_traffic_mean_secs is Some) && cfg.listen_tcp is None && cfg.dial_tcp is Some
            && cfg.dial_pubkey is None,
{
}

/// What a daemon that starts will do: listen where it is told to, otherwise dial
/// where it is told to, with the key that it was given; Tor is used for nothing
/// where it is switched off; every hub is kept; and a pace of zero is no pace.
pub proof fn law_start(cfg: Config, p: StartupPlan)
    requires
        startup_fault(cfg) is None,
        is_startup_plan(p, cfg),
    ensures
        p.mode is ListenTcp <==> cfg.listen_tcp is Some,
        p.mode is ListenTcp ==> p.mode->ListenTcp_0@ == cfg.listen_tcp->0@,
        p.mode is DialTcp <==> cfg.listen_tcp is None && cfg.dial_tcp is Some,
        p.mode is DialTcp ==> p.mode->addr@ == cfg.dial_tcp->0@ && p.mode->DialTcp_pubkey@
            == cfg.dial_pubkey->0@,
        p.mode is ApiOnly <==> cfg.listen_tcp is None && cfg.dial_tcp is None && cfg.no_tor,
        p.mode is DialTor <==> cfg.listen_tcp is None && cfg.dial_tcp is None && !cfg.no_tor
            && cfg.dial_onion is Some && cfg.dial_pubkey is Some,
        p.mode is DialTor ==> p.mode->onion@ == cfg.dial_onion->0@ && p.mode->DialTor_pubkey@
            == cfg.dial_pubkey->0@,
        cfg.no_tor ==> p.tor_hubs == 0,
        !cfg.no_tor ==> p.tor_hubs == cfg.hubs@.len(),
        p.tcp_hubs == cfg.hub_tcp_addrs@.len(),
        p.constant_rate_ms is Some <==> cfg.constant_rate_ms is Some && cfg.constant_rate_ms->0 > 0,
        p.constant_rate_ms is Some ==> p.constant_rate_ms == cfg.constant_rate_ms,
        p.cover_mean_secs is Some <==> cfg.cover_traffic_mean_secs is Some
            && cfg.cover_traffic_mean_secs->0 > 0,
        p.cover_mean_secs is Some ==> p.cover_mean_secs == cfg.cover_traffic_mean_secs,
        !(p.constant_rate_ms is Some && p.cover_mean_secs is Some),
{
}

/// A hub named by a host and a port is dialled there; one named by a host alone is
/// dialled at port 1. It is expected to have the key that its text decodes to, and
/// whatever is wrong is told with the number of the hub and the text in question.
pub proof fn law_hub_is_dialled_where_named(
    idx: usize,
    hub: HubConfig,
    host: Seq<char>,
    port: Seq<char>,
    r: Result<HubTarget, HubTargetError>,
)
    requires
        is_hub_target(r, idx, hub),
        hub.onion@ == host && !host.contains(':') || hub.onion@ == host.push(':') + port
            && port_value(port) is Some,
    ensures
        r matches Ok(t) ==> t.host@ == host && b32_decoded(folded(hub.pubkey@)) == Some(t.key@),
        r is Ok && hub.onion@ == host ==> r->Ok_0.port == 1,
        r is Ok && hub.onion@ == host.push(':') + port && port_value(port) is Some
            ==> r->Ok_0.port == port_value(port)->0,
        r is Ok <==> b32_decoded(folded(hub.pubkey@)) is Some && b32_decoded(
            folded(hub.pubkey@),
        )->0.len() == 32,
        r is Err ==> r->Err_0 is Pubkey && r->Err_0->Pubkey_0 == idx && r->Err_0->Pubkey_1@
            == hub.pubkey@,
{
    if port_value(port) is Some {
        law_host_port_round_trip(host, port, ONYX_HS_PORT);
    }
    if hub.onion@ == host && !host.contains(':') {
        law_host_alone(host, ONYX_HS_PORT);
        assert(port_value(port) is Some ==> host != host.push(':') + port) by {
            assert((host.push(':') + port).len() > host.len());
        }
    } else {
        assert((host.push(':') + port).len() > host.len());
    }
}

/// A peer is dialled where it is named, at port 1 where no port is, and is expected
/// to have the key that its text decodes to.
pub proof fn law_peer_is_dialled_where_named(
    onion: Seq<char>,
    pubkey: Seq<char>,
    host: Seq<char>,
    port: Seq<char>,
    r: Result<HubTarget, DialError>,
)
    requires
        is_dial_target(r, onion, pubkey),
        onion == host && !host.contains(':') || onion == host.push(':') + port && port_value(
            port,
        ) is Some,
    ensures
        r matches Ok(t) ==> t.host@ == host && b32_decoded(folded(pubkey)) == Some(t.key@),
        r is Ok && onion == host ==> r->Ok_0.port == 1,
        r is Ok && onion == host.push(':') + port && port_value(port) is Some
            ==> r->Ok_0.port == port_value(port)->0,
        r is Ok <==> b32_decoded(folded(pubkey)) is Some && b32_decoded(folded(pubkey))->0.len()
            == 32,
        r is Err ==> r->Err_0 is Pubkey,
{
    if port_value(port) is Some {
        law_host_port_round_trip(host, port, ONYX_HS_PORT);
    }
    if onion == host && !host.contains(':') {
        law_host_alone(host, ONYX_HS_PORT);
        assert(port_value(port) is Some ==> host != host.push(':') + port) by {
            assert((host.push(':') + port).len() > host.len());
        }
    } else {
        assert((host.push(':') + port).len() > host.len());
    }
}

/// The hubs whose keys are read are those before the first that cannot be.
pub proof fn law_hubs_up_to_the_first_bad_one(hubs: Seq<HubConfig>)
    ensures
        readable_hubs(hubs) <= hubs.len(),
        forall|i: int|
            0 <= i < readable_hubs(hubs) ==> (b32_decoded(folded((#[trigger] hubs[i]).pubkey@))
                matches Some(k) && k.len() == 32),
        readable_hubs(hubs) < hubs.len() ==> {
            let k = b32_decoded(folded(hubs[readable_hubs(hubs) as int].pubkey@));
            k is None || k->0.len() != 32
        },
    decreases hubs.len(),
{
    if hubs.len() > 0 && key_of_bytes(b32_decoded(folded(hubs[0].pubkey@))) is Ok {
        let rest = hubs.skip(1);
        law_hubs_up_to_the_first_bad_one(rest);
        assert forall|i: int| 0 <= i < readable_hubs(hubs) implies (b32_decoded(
            folded((#[trigger] hubs[i]).pubkey@),
        ) matches Some(k) && k.len() == 32) by {
            if i > 0 {
                assert(rest[i - 1] == hubs[i]);
            }
        }
        if readable_hubs(hubs) < hubs.len() {
            assert(rest[readable_hubs(rest) as int] == hubs[readable_hubs(hubs) as int]);
        }
    }
}

/// A session asks for the daemon's inbox only where strangers may reach it, and
/// then first; it asks for the token of every room that has one, and for nothing
/// else.
pub proof fn law_subscriptions(reachable: bool, inbox: RoutingId, tokens: Seq<Option<RoutingId>>)
    ensures
        reachable ==> subscriptions(policy_of(reachable), inbox, tokens)[0] == inbox,
        reachable ==> subscriptions(policy_of(reachable), inbox, tokens).len() == 1 + known_tokens(
            tokens,
        ).len(),
        !reachable ==> subscriptions(policy_of(reachable), inbox, tokens).len() == known_tokens(
            tokens,
        ).len(),
        forall|t: RoutingId| tokens.contains(Some(t)) ==> #[trigger] subscriptions(
            policy_of(reachable),
            inbox,
            tokens,
        ).contains(t),
        forall|t: RoutingId| #[trigger]
            subscriptions(policy_of(reachable), inbox, tokens).contains(t) ==> tokens.contains(
                Some(t),
            ) || reachable && t == inbox,
{
    let all = subscriptions(policy_of(reachable), inbox, tokens);
    let known = known_tokens(tokens);
    lemma_known_tokens(tokens);
    let n = if reachable {
        1int
    } else {
        0int
    };
    assert forall|t: RoutingId| tokens.contains(Some(t)) implies #[trigger] all.contains(t) by {
        assert(known.contains(t));
        let i = choose|i: int| 0 <= i < known.len() && known[i] == t;
        assert(all[i + n] == t);
    }
    assert forall|t: RoutingId| #[trigger] all.contains(t) implies tokens.contains(Some(t))
        || reachable && t == inbox by {
        let i = choose|i: int| 0 <= i < all.len() && all[i] == t;
        if i >= n {
            assert(known[i - n] == t);
            assert(known.contains(t));
        }
    }
}

proof fn lemma_known_tokens(tokens: Seq<Option<RoutingId>>)
    ensures
        forall|t: RoutingId| #[trigger] known_tokens(tokens).contains(t) <==> tokens.contains(
            Some(t),
        ),
        known_tokens(tokens).len() <= tokens.len(),
    decreases tokens.len(),
{
    if tokens.len() > 0 {
        let front = tokens.drop_last();
        let known = known_tokens(tokens);
        lemma_known_tokens(front);
        assert forall|t: RoutingId| #[trigger] known.contains(t) <==> tokens.contains(
            Some(t),
        ) by {
            if known.contains(t) {
                let i = choose|i: int| 0 <= i < known.len() && known[i] == t;
                if i < known_tokens(front).len() {
                    assert(known_tokens(front).contains(t));
                    let j = choose|j: int| 0 <= j < front.len() && front[j] == Some(t);
                    assert(tokens[j] == Some(t));
                } else {
                    assert(tokens[tokens.len() - 1] == Some(t));
                }
            }
            if tokens.contains(Some(t)) {
                let j = choose|j: int| 0 <= j < tokens.len() && tokens[j] == Some(t);
                if j < front.len() {
                    assert(front[j] == Some(t));
                    assert(known_tokens(front).contains(t));
                    let i = choose|i: int|
                        0 <= i < known_tokens(front).len() && known_tokens(front)[i] == t;
                    assert(known[i] == t);
                } else {
                    assert(known[known.len() - 1] == t);
                }
            }
        }
    }
}

/// A key package is filed only where strangers may reach the daemon, under its own
/// inbox and as it was given; a daemon that they cannot reach shows the hub a
/// passing key.
pub proof fn law_only_the_reachable_publish(
    reachable: bool,
    publish: Option<SelfPublish>,
    inbox: RoutingId,
    kp: Option<Vec<u8>>,
)
    requires
        is_publication(publish, policy_of(reachable), inbox, kp),
    ensures
        publish is Some <==> reachable && kp is Some,
        publish is Some ==> publish->0.routing_id == inbox && publish->0.kp_bytes == kp->0,
        policy_of(reachable).ephemeral_static <==> !reachable,
{
}

/// A restart between two saves loses no more than what came after the first: what
/// was saved is what the guard starts with. Where nothing was saved, or what was
/// saved is broken, it starts empty, with room for 4096.
pub proof fn law_guard_survives_restart(m: GuardModel, broken: Seq<u8>)
    requires
        guard_wf(m),
        m.capacity <= u32::MAX,
        broken.len() < 12,
    ensures
        guard_after_restart(Some(snapshot_bytes(m))) == m,
        guard_after_restart(Some(broken)).order.len() == 0,
        guard_after_restart(Some(broken)).capacity == 4096,
        guard_after_restart(None).order.len() == 0,
        guard_after_restart(None).capacity == 4096,
{
    law_snapshot_round_trip(m);
}

/// A snapshot that was saved is not saved again; every other one is, also after a
/// save that failed.
pub proof fn law_every_change_is_saved(last: Option<Seq<u8>>, snapshot: Seq<u8>, next: Seq<u8>)
    ensures
        !due(noted(last, snapshot, true), snapshot),
        next != snapshot ==> due(noted(last, snapshot, true), next),
        due(noted(last, snapshot, false), next) == due(last, next),
        due(None, next),
{
}

/// Without pacing an action goes from the input straight to the output, and with pacing
/// through the pacer; each channel on the way has room for 64.
pub proof fn law_channels_of_a_hub(c: HubChannel)
    ensures
        c.pacer is None ==> channels_of(c).len() == 1 && channels_of(c)[0].tx == c.input
            && channels_of(c)[0].rx == c.output,
        c.pacer matches Some((rx, tx)) ==> channels_of(c).len() == 2 && channels_of(c)[0].tx
            == c.input && channels_of(c)[0].rx == rx && channels_of(c)[1].tx == tx && channels_of(
            c,
        )[1].rx == c.output,
        forall|i: int| 0 <= i < channels_of(c).len() ==> (#[trigger] channels_of(c)[i]).capacity == 64,
{
}

/// The text that is told for a bad port is what stands behind the last colon.
pub proof fn law_bad_port_is_told(host: Seq<char>, port: Seq<char>)
    requires
        !port.contains(':'),
    ensures
        behind_colon(host.push(':') + port) == port,
{
    let s = host.push(':') + port;
    crate::text::law_last_position(s, ':');
    assert(s[host.len() as int] == ':');
    let i = last_position(s, ':')->0;
    if i > host.len() {
        assert(port[i - host.len() - 1] == ':');
    }
    assert(s.skip(host.len() as int + 1) =~= port);
}

/// The data is kept below the home directory, and below the present one where there is no
/// home.
pub proof fn law_data_is_kept_at_home(home: Seq<char>)
    requires
        home.len() > 0,
        home.last() != '/',
    ensures
        data_dir(Some(home)) == home.push('/') + ".onyx"@,
        data_dir(None) == "./.onyx"@,
{
    crate::files::names::law_paths_are_joined(home, ".onyx"@);
    crate::files::names::law_paths_are_joined("."@, ".onyx"@);
    reveal_strlit(".");
    reveal_strlit(".onyx");
    reveal_strlit("./.onyx");
    assert("."@.push('/') + ".onyx"@ =~= "./.onyx"@);
}

} // verus!
