//! First contact: who is written to is checked before anything is sealed, and a
//! key package is used only if it is the peer's own.
use vstd::prelude::*;
use vstd::utf8::*;

use crate::api::error::{malformed, not_ready, ApiError, ApiErrorCode};
use crate::codec::{
    b32_decoded, b32_encoded, b64_decoded, base64_decode, decode_b32, encodable,
    law_b32_round_trip, law_b64_round_trip,
};
use crate::list_map::same_array;
use crate::session::is_placeholder;
use crate::text::{decimal, decimal_text, has_prefix, join3};

verus! {

/// The longest text that goes along with an invitation, in bytes. A longer one
/// would move the envelope into another size class.
pub const FIRST_MESSAGE_MAX_BYTES: usize = 1024;

/// What a client is told where no hub is there to send through.
pub open spec fn no_hubs() -> (ApiErrorCode, Seq<char>) {
    (
        ApiErrorCode::NotReady,
        "no hubs configured; relaunch with --hub onion:port,b32pubkey"@,
    )
}

/// Sending through hubs takes a hub.
pub fn require_hubs(hubs: usize) -> (r: Result<(), ApiError>)
    ensures
        match r {
            Ok(_) => hubs > 0,
            Err(e) => hubs == 0 && e@ == no_hubs(),
        },
{
    if hubs == 0 {
        Err(not_ready("no hubs configured; relaunch with --hub onion:port,b32pubkey"))
    } else {
        Ok(())
    }
}

/// Read the id of a room's group.
pub fn parse_group_id(group_id_b32: &str) -> (r: Result<Vec<u8>, ApiError>)
    requires
        encodable(group_id_b32@.len()),
    ensures
        match r {
            Ok(id) => b32_decoded(group_id_b32@) == Some(id@),
            Err(e) => b32_decoded(group_id_b32@) is None && e@ == (
                ApiErrorCode::Malformed,
                "group_id_b32 is not valid base32"@,
            ),
        },
{
    match decode_b32(group_id_b32) {
        Some(id) => Ok(id),
        None => Err(malformed("group_id_b32 is not valid base32")),
    }
}

/// The text is too long to go along with an invitation.
pub open spec fn is_too_long(text: Seq<char>) -> bool {
    encode_utf8(text).len() > FIRST_MESSAGE_MAX_BYTES
}

/// A text that goes along with an invitation must be short.
pub fn check_intro(initial_text: Option<&str>) -> (r: Result<(), ApiError>)
    ensures
        match r {
            Ok(_) => initial_text matches Some(t) ==> !is_too_long(t@),
            Err(e) => initial_text matches Some(t) && is_too_long(t@) && e@ == (
                ApiErrorCode::Malformed,
                "initial_text too long ("@ + decimal(encode_utf8(t@).len())
                    + " bytes; max 1024) — keep intro short to avoid bumping the sealed-envelope size bucket on the wire"@,
            ),
        },
{
    match initial_text {
        Some(t) => {
            let n: usize = t.as_bytes().len();
            if n > FIRST_MESSAGE_MAX_BYTES {
                let message = join3(
                    "initial_text too long (",
                    decimal_text(n as u64).as_str(),
                    " bytes; max 1024) — keep intro short to avoid bumping the sealed-envelope size bucket on the wire",
                );
                Err(malformed(message.as_str()))
            } else {
                Ok(())
            }
        },
        None => Ok(()),
    }
}

/// A peer as a client names it: a fingerprint that parses, and a key in base32.
#[derive(Debug)]
pub struct Contact {
    fingerprint: [u8; 32],
    kem: Vec<u8>,
}

/// A peer as a value.
pub struct ContactModel {
    pub fingerprint: [u8; 32],
    pub kem: Seq<u8>,
}

impl View for Contact {
    type V = ContactModel;

    closed spec fn view(&self) -> ContactModel {
        ContactModel { fingerprint: self.fingerprint, kem: self.kem@ }
    }
}

/// Read a peer. `fingerprint` is what the peer's fingerprint parses to, if it
/// does.
pub fn parse_contact(fingerprint: Option<[u8; 32]>, peer_kem_pub_b32: &str) -> (r: Result<
    Contact,
    ApiError,
>)
    requires
        encodable(peer_kem_pub_b32@.len()),
    ensures
        match fingerprint {
            None => r matches Err(e) && e@ == (
                ApiErrorCode::Malformed,
                "peer_fingerprint did not parse"@,
            ),
            Some(fp) => match b32_decoded(peer_kem_pub_b32@) {
                None => r matches Err(e) && e@ == (
                    ApiErrorCode::Malformed,
                    "peer_kem_pub_b32 is not valid base32"@,
                ),
                Some(kem) => r matches Ok(c) && c@.fingerprint == fp && c@.kem == kem,
            },
        },
{
    match fingerprint {
        None => Err(malformed("peer_fingerprint did not parse")),
        Some(fp) => match decode_b32(peer_kem_pub_b32) {
            None => Err(malformed("peer_kem_pub_b32 is not valid base32")),
            Some(kem) => Ok(Contact { fingerprint: fp, kem }),
        },
    }
}

impl Contact {
    /// The bytes of the key that envelopes are sealed to.
    pub fn kem(&self) -> (k: &[u8])
        ensures
            k@ == self@.kem,
    {
        self.kem.as_slice()
    }

    /// What the fingerprint parses to.
    pub fn fingerprint(&self) -> (fp: [u8; 32])
        ensures
            fp == self@.fingerprint,
    {
        self.fingerprint
    }

    /// Go on with a peer whose key is one. `kem_is_key` says whether its bytes
    /// are a key.
    pub fn sealable(self, kem_is_key: bool) -> (r: Result<Recipient, ApiError>)
        ensures
            match r {
                Ok(p) => kem_is_key && p@ == self@,
                Err(e) => !kem_is_key && e@ == (
                    ApiErrorCode::Malformed,
                    "peer_kem_pub_b32 did not decode as HybridKemPublic"@,
                ),
            },
    {
        if kem_is_key {
            Ok(Recipient { contact: self })
        } else {
            Err(malformed("peer_kem_pub_b32 did not decode as HybridKemPublic"))
        }
    }
}

/// A peer that an envelope can be sealed to.
#[derive(Debug)]
pub struct Recipient {
    contact: Contact,
}

impl View for Recipient {
    type V = ContactModel;

    closed spec fn view(&self) -> ContactModel {
        self.contact@
    }
}

impl Recipient {
    /// The bytes of the key that envelopes are sealed to.
    pub fn kem(&self) -> (k: &[u8])
        ensures
            k@ == self@.kem,
    {
        self.contact.kem()
    }

    /// Go on with the peer's key package, in base64.
    pub fn with_key_package(self, peer_kp_b64: &str) -> (r: Result<Candidate, ApiError>)
        ensures
            match r {
                Ok(c) => c@ == self@ && b64_decoded(peer_kp_b64@) == Some(c.kp()),
                Err(e) => b64_decoded(peer_kp_b64@) is None && e@ == (
                    ApiErrorCode::Malformed,
                    "peer_kp_b64 is not valid base64"@,
                ),
            },
    {
        match base64_decode(peer_kp_b64) {
            Some(kp) => {
                proof {
                    law_b64_round_trip(kp@, peer_kp_b64@);
                }
                Ok(Candidate { contact: self.contact, kp })
            },
            None => Err(malformed("peer_kp_b64 is not valid base64")),
        }
    }
}

/// A peer with a key package that may be another's.
#[derive(Debug)]
pub struct Candidate {
    contact: Contact,
    kp: Vec<u8>,
}

impl View for Candidate {
    type V = ContactModel;

    closed spec fn view(&self) -> ContactModel {
        self.contact@
    }
}

/// What is wrong with a key package, if anything. `signing_key` is the key that
/// signed it, if it is a key package at all; `owner` is the fingerprint of that
/// key, if it is a key.
pub open spec fn kp_fault(
    signing_key: Option<[u8; 32]>,
    owner: Option<[u8; 32]>,
    expected: [u8; 32],
) -> Option<Seq<char>> {
    if signing_key is None {
        Some("peer_kp_b64 did not validate as a KeyPackage"@)
    } else if owner is None {
        Some("KP signing key is not a valid Ed25519 point"@)
    } else if owner->0 != expected {
        Some(
            "KP signing key does not match peer_fingerprint — refusing to invite (potential hub-directory tampering)"@,
        )
    } else {
        None
    }
}

impl Candidate {
    /// The key package.
    pub closed spec fn kp(&self) -> Seq<u8> {
        self.kp@
    }

    pub fn key_package(&self) -> (kp: &[u8])
        ensures
            kp@ == self.kp(),
    {
        self.kp.as_slice()
    }

    /// Go on only if the key package is the peer's own.
    pub fn verify(self, signing_key: Option<[u8; 32]>, owner: Option<[u8; 32]>) -> (r: Result<
        VerifiedContact,
        ApiError,
    >)
        ensures
            match r {
                Ok(v) => kp_fault(signing_key, owner, self@.fingerprint) is None && v@ == self@
                    && v.kp() == self.kp(),
                Err(e) => kp_fault(signing_key, owner, self@.fingerprint) is Some && e@ == (
                    ApiErrorCode::Malformed,
                    kp_fault(signing_key, owner, self@.fingerprint)->0,
                ),
            },
    {
        if signing_key.is_none() {
            return Err(malformed("peer_kp_b64 did not validate as a KeyPackage"));
        }
        match owner {
            None => Err(malformed("KP signing key is not a valid Ed25519 point")),
            Some(fp) => if same_array(&fp, &self.contact.fingerprint) {
                Ok(VerifiedContact { contact: self.contact, kp: self.kp })
            } else {
                Err(
                    malformed(
                        "KP signing key does not match peer_fingerprint — refusing to invite (potential hub-directory tampering)",
                    ),
                )
            },
        }
    }
}

/// A peer with a key package of its own: only such a peer is invited.
#[derive(Debug)]
pub struct VerifiedContact {
    contact: Contact,
    kp: Vec<u8>,
}

impl View for VerifiedContact {
    type V = ContactModel;

    closed spec fn view(&self) -> ContactModel {
        self.contact@
    }
}

impl VerifiedContact {
    /// The key package.
    pub closed spec fn kp(&self) -> Seq<u8> {
        self.kp@
    }

    pub fn key_package(&self) -> (kp: &[u8])
        ensures
            kp@ == self.kp(),
    {
        self.kp.as_slice()
    }

    pub fn kem(&self) -> (k: &[u8])
        ensures
            k@ == self@.kem,
    {
        self.contact.kem()
    }

    pub fn fingerprint(&self) -> (fp: [u8; 32])
        ensures
            fp == self@.fingerprint,
    {
        self.contact.fingerprint()
    }
}

/// A key package in another's name is refused, whoever hands it out: the owner of
/// a key package that passes is the peer that was asked for.
pub proof fn law_foreign_key_package_refused(
    signing_key: Option<[u8; 32]>,
    owner: Option<[u8; 32]>,
    expected: [u8; 32],
)
    ensures
        kp_fault(signing_key, owner, expected) is None <==> signing_key is Some && owner == Some(
            expected,
        ),
{
}

/// Begin a first message in a sealed envelope: there must be a hub, then the peer
/// must be readable.
pub fn begin_bootstrap(hubs: usize, fingerprint: Option<[u8; 32]>, peer_kem_pub_b32: &str) -> (r:
    Result<Contact, ApiError>)
    requires
        encodable(peer_kem_pub_b32@.len()),
    ensures
        bootstrap_begins(r, hubs, fingerprint, peer_kem_pub_b32@),
{
    match require_hubs(hubs) {
        Err(e) => Err(e),
        Ok(_) => parse_contact(fingerprint, peer_kem_pub_b32),
    }
}

/// How a first message begins.
pub open spec fn bootstrap_begins(
    r: Result<Contact, ApiError>,
    hubs: usize,
    fingerprint: Option<[u8; 32]>,
    kem_b32: Seq<char>,
) -> bool {
    if hubs == 0 {
        r matches Err(e) && e@ == no_hubs()
    } else if fingerprint is None {
        r matches Err(e) && e@ == (ApiErrorCode::Malformed, "peer_fingerprint did not parse"@)
    } else {
        match b32_decoded(kem_b32) {
            None => r matches Err(e) && e@ == (
                ApiErrorCode::Malformed,
                "peer_kem_pub_b32 is not valid base32"@,
            ),
            Some(kem) => r matches Ok(c) && c@.fingerprint == fingerprint->0 && c@.kem == kem,
        }
    }
}

/// Begin a conversation with an invitation: the text that goes along must be
/// short, and the rest is as for a first message.
pub fn begin_bootstrap_mls(
    initial_text: Option<&str>,
    hubs: usize,
    fingerprint: Option<[u8; 32]>,
    peer_kem_pub_b32: &str,
) -> (r: Result<Contact, ApiError>)
    requires
        encodable(peer_kem_pub_b32@.len()),
    ensures
        if initial_text matches Some(t) && is_too_long(t@) {
            r matches Err(e) && e@ == (
                ApiErrorCode::Malformed,
                "initial_text too long ("@ + decimal(encode_utf8(initial_text->0@).len())
                    + " bytes; max 1024) — keep intro short to avoid bumping the sealed-envelope size bucket on the wire"@,
            )
        } else {
            bootstrap_begins(r, hubs, fingerprint, peer_kem_pub_b32@)
        },
{
    match check_intro(initial_text) {
        Err(e) => Err(e),
        Ok(_) => begin_bootstrap(hubs, fingerprint, peer_kem_pub_b32),
    }
}

/// What is said where a contact's key is not the one from first contact.
pub open spec fn changed_key_text(fingerprint: Seq<char>) -> Seq<char> {
    "refusing to send: the pinned identity key for "@ + fingerprint
        + " has CHANGED since first contact (possible MITM or key rotation). Verify the fingerprint out of band; clear the pin only if you trust the new key. (`onyx contact list` shows the flag.)"@
}

/// Whether nothing may be sent to a peer. `changed` says whether the key of a
/// known contact is not the one from first contact; it is nothing where that
/// could not be read, which is no reason not to send.
pub open spec fn is_blocked(fingerprint: Seq<char>, changed: Option<bool>) -> bool {
    !is_placeholder(fingerprint) && changed == Some(true)
}

/// Refuse to send to a contact whose key has changed.
pub fn pin_block(fingerprint: &str, changed: Option<bool>) -> (r: Option<ApiError>)
    ensures
        match r {
            Some(e) => is_blocked(fingerprint@, changed) && e@ == (
                ApiErrorCode::Malformed,
                changed_key_text(fingerprint@),
            ),
            None => !is_blocked(fingerprint@, changed),
        },
{
    if has_prefix(fingerprint, "(peer/") {
        return None;
    }
    match changed {
        Some(true) => {
            let message = join3(
                "refusing to send: the pinned identity key for ",
                fingerprint,
                " has CHANGED since first contact (possible MITM or key rotation). Verify the fingerprint out of band; clear the pin only if you trust the new key. (`onyx contact list` shows the flag.)",
            );
            Some(malformed(message.as_str()))
        },
        _ => None,
    }
}

/// A text of up to 1024 bytes may go along with an invitation, and no longer one.
pub proof fn law_intro_is_short(text: Seq<char>)
    ensures
        is_too_long(text) <==> encode_utf8(text).len() >= 1025,
{
}

/// A first message begins exactly if there is a hub, the fingerprint parses and the key is
/// readable; it then goes to that fingerprint and is sealed to that very key.
pub proof fn law_first_message_begins(
    r: Result<Contact, ApiError>,
    hubs: usize,
    fingerprint: Option<[u8; 32]>,
    kem: Seq<u8>,
)
    requires
        bootstrap_begins(r, hubs, fingerprint, b32_encoded(kem)),
    ensures
        r is Ok <==> hubs > 0 && fingerprint is Some,
        r matches Ok(c) ==> Some(c@.fingerprint) == fingerprint && c@.kem == kem,
        r matches Err(e) ==> (e@.0 == ApiErrorCode::NotReady <==> hubs == 0),
{
    law_b32_round_trip(kem);
}

/// Nothing is sent to a contact whose key is known to have changed; as long as that is not
/// known, or the peer has only a label, sending goes on.
pub proof fn law_changed_key_blocks(fingerprint: Seq<char>, changed: Option<bool>)
    requires
        fingerprint.len() == 0 || fingerprint[0] != '(',
    ensures
        is_blocked(fingerprint, changed) <==> changed is Some && changed->0,
{
    reveal_strlit("(peer/");
    if is_placeholder(fingerprint) {
        assert(fingerprint.take(6)[0] == "(peer/"@[0]);
    }
}

} // verus!
