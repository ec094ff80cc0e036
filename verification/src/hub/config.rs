//! What an operator tells a hub, and how its tasks pace themselves.
use vstd::prelude::*;

use crate::codec::{b32_decoded, decode_b32_32_exact, key_of_bytes, KeyTextError};
use crate::host_port::{host_and_port, law_host_alone, parse_host_port};
use crate::hub::gossip::GossipMode;
use crate::hub::state::PeerHubConfig;
use crate::text::{
    chars_of, find_first, first_position, join2, join3, lemma_first_position, same_text, text_of,
};

verus! {

/// The port of a hub's hidden service.
pub const HUB_HS_PORT: u16 = 1;

/// How many gossip frames wait for a slow hub at most.
pub const PEER_OUTBOUND_CAPACITY: usize = 256;

/// The first pause before a session is tried again, in milliseconds.
pub const BACKOFF_INITIAL_MS: u64 = 500;

/// The longest pause before a session is tried again, in milliseconds.
pub const BACKOFF_MAX_MS: u64 = 30_000;

/// What is wrong with a `--peer-hub` value.
#[derive(Debug, Clone, PartialEq, Eq)]
pub enum PeerHubError {
    /// No comma between the address and the key.
    MissingComma(String),
    /// The address or the key is empty.
    EmptyField(String),
    /// The address has a bad port.
    Onion(String),
    /// The key is no key.
    Pubkey(KeyTextError),
}

impl PeerHubError {
    pub open spec fn text(self) -> Seq<char> {
        match self {
            PeerHubError::MissingComma(raw) =>
                "--peer-hub value must be `onion:port,b32pubkey` (missing comma): "@ + raw@,
            PeerHubError::EmptyField(raw) => "--peer-hub value has empty field: "@ + raw@,
            PeerHubError::Onion(raw) => "--peer-hub onion: bad port in \""@ + raw@ + "\""@,
            PeerHubError::Pubkey(KeyTextError::NotBase32) => "--peer-hub pubkey: not valid base32"@,
            PeerHubError::Pubkey(KeyTextError::WrongLength(_)) =>
                "--peer-hub pubkey: base32 must decode to exactly 32 bytes"@,
        }
    }

    pub fn message(&self) -> (s: String)
        ensures
            s@ == self.text(),
    {
        match self {
            PeerHubError::MissingComma(raw) => join2(
                "--peer-hub value must be `onion:port,b32pubkey` (missing comma): ",
                raw.as_str(),
            ),
            PeerHubError::EmptyField(raw) => join2("--peer-hub value has empty field: ", raw.as_str()),
            PeerHubError::Onion(raw) => join3(
                "--peer-hub onion: bad port in \"",
                raw.as_str(),
                "\"",
            ),
            PeerHubError::Pubkey(KeyTextError::NotBase32) =>
            "--peer-hub pubkey: not valid base32".to_owned(),
            PeerHubError::Pubkey(KeyTextError::WrongLength(_)) =>
            "--peer-hub pubkey: base32 must decode to exactly 32 bytes".to_owned(),
        }
    }
}

/// A hub to gossip with, ready to be dialled.
#[derive(Debug)]
pub struct PeerHubTarget {
    pub config: PeerHubConfig,
    pub host: String,
    pub port: u16,
    pub key: [u8; 32],
}

/// The outcome of reading a `--peer-hub` value.
pub open spec fn peer_hub_outcome(raw: Seq<char>, r: Result<PeerHubTarget, PeerHubError>) -> bool {
    match first_position(raw, ',', 0) {
        None => r matches Err(PeerHubError::MissingComma(s)) && s@ == raw,
        Some(i) => {
            let onion = raw.take(i);
            let pubkey = raw.skip(i + 1);
            if onion.len() == 0 || pubkey.len() == 0 {
                r matches Err(PeerHubError::EmptyField(s)) && s@ == raw
            } else {
                match host_and_port(onion, HUB_HS_PORT) {
                    None => r matches Err(PeerHubError::Onion(s)) && s@ == onion,
                    Some((host, port)) => match key_of_bytes(b32_decoded(pubkey)) {
                        Err(e) => r matches Err(PeerHubError::Pubkey(k)) && k == e,
                        Ok(key) => r matches Ok(t) && t.config.onion@ == onion
                            && t.config.pubkey@ == pubkey && t.host@ == host && t.port == port
                            && t.key@ == key,
                    },
                }
            }
        },
    }
}

/// Read a `--peer-hub` value: `onion:port,key`, split at the first comma.
pub fn parse_peer_hub(raw: &str) -> (r: Result<PeerHubTarget, PeerHubError>)
    ensures
        peer_hub_outcome(raw@, r),
{
    let v = chars_of(raw);
    let n: usize = v.len();
    let i: usize = match find_first(v.as_slice(), ',') {
        None => {
            return Err(PeerHubError::MissingComma(raw.to_owned()));
        },
        Some(i) => i,
    };
    let head = vstd::slice::slice_subrange(v.as_slice(), 0, i);
    let tail = vstd::slice::slice_subrange(v.as_slice(), i + 1, n);
    let onion = text_of(head);
    let pubkey = text_of(tail);
    assert(onion@ =~= raw@.take(i as int));
    assert(pubkey@ =~= raw@.skip(i + 1));
    if head.len() == 0 || tail.len() == 0 {
        return Err(PeerHubError::EmptyField(raw.to_owned()));
    }
    match parse_host_port(onion.as_str(), HUB_HS_PORT) {
        Err(_) => Err(PeerHubError::Onion(onion)),
        Ok((host, port)) => match decode_b32_32_exact(pubkey.as_str()) {
            Err(e) => Err(PeerHubError::Pubkey(e)),
            Ok(key) => Ok(
                PeerHubTarget { config: PeerHubConfig { onion, pubkey }, host, port, key },
            ),
        },
    }
}

/// The gossip mode that a `--gossip-mode` value names: `eager`, or lazy.
pub fn parse_gossip_mode(s: &str) -> (mode: GossipMode)
    ensures
        mode == if s@ == "eager"@ {
            GossipMode::Eager
        } else {
            GossipMode::Lazy
        },
{
    if same_text(s, "eager") {
        GossipMode::Eager
    } else {
        GossipMode::Lazy
    }
}

/// The pause after a failed attempt that came after a pause of `ms`: twice as
/// long, up to the longest.
pub open spec fn backoff_after(ms: nat) -> nat {
    if 2 * ms <= BACKOFF_MAX_MS {
        2 * ms
    } else {
        BACKOFF_MAX_MS as nat
    }
}

/// The pause after `n` failed attempts in a row.
pub open spec fn backoff_at(n: nat) -> nat
    decreases n,
{
    if n == 0 {
        BACKOFF_INITIAL_MS as nat
    } else {
        backoff_after(backoff_at((n - 1) as nat))
    }
}

/// The next pause before a session is tried again.
pub fn next_backoff(ms: u64) -> (next: u64)
    ensures
        next == backoff_after(ms as nat),
{
    if ms <= BACKOFF_MAX_MS / 2 {
        ms * 2
    } else {
        BACKOFF_MAX_MS
    }
}

/// Pauses grow, and stay between the first and the longest.
pub proof fn law_backoff_bounds(n: nat)
    ensures
        BACKOFF_INITIAL_MS <= backoff_at(n) <= BACKOFF_MAX_MS,
        backoff_at(n) <= backoff_at(n + 1),
    decreases n,
{
    if n > 0 {
        law_backoff_bounds((n - 1) as nat);
    }
}

/// The mean pause between cover frames in seconds, if cover traffic is on: a
/// mean of zero means off.
pub fn cover_mean(mean_secs: Option<u64>) -> (r: Option<u64>)
    ensures
        r == match mean_secs {
            Some(s) => if s > 0 {
                Some(s)
            } else {
                None
            },
            None => None,
        },
{
    match mean_secs {
        Some(s) => if s > 0 {
            Some(s)
        } else {
            None
        },
        None => None,
    }
}

/// Pauses begin with half a second and double until they are half a minute long.
pub proof fn law_backoff_doubles(n: nat)
    ensures
        backoff_at(0) == 500,
        backoff_at(n) < 15_000 ==> backoff_at(n + 1) == 2 * backoff_at(n),
        backoff_at(n) >= 15_000 ==> backoff_at(n + 1) == 30_000,
{
}

/// A `--peer-hub` value that is read is the address, a comma and the key, neither of
/// them empty and the address without a comma; the key is 32 bytes in base32. Where no
/// address was given a port the hub's own is taken.
pub proof fn law_peer_hub_parts(raw: Seq<char>, t: PeerHubTarget)
    requires
        peer_hub_outcome(raw, Ok(t)),
    ensures
        raw == t.config.onion@ + seq![','] + t.config.pubkey@,
        !t.config.onion@.contains(','),
        t.config.onion@.len() > 0,
        t.config.pubkey@.len() > 0,
        b32_decoded(t.config.pubkey@) == Some(t.key@),
        !t.config.onion@.contains(':') ==> t.host@ == t.config.onion@ && t.port == 1,
{
    lemma_first_position(raw, ',', 0);
    let i = first_position(raw, ',', 0)->0;
    assert(raw =~= raw.take(i) + seq![','] + raw.skip(i + 1));
    assert forall|k: int| 0 <= k < i implies raw.take(i)[k] != ',' by {
        assert(raw[k] != ',');
    }
    if !raw.take(i).contains(':') {
        law_host_alone(raw.take(i), HUB_HS_PORT);
    }
}

} // verus!
