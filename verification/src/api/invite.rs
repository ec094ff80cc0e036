//! Invitations as links, contacts, and key packages from hubs.
use vstd::prelude::*;

use crate::api::contact::{no_hubs, require_hubs};
use crate::api::error::{internal, malformed, not_ready, ApiError, ApiErrorCode};
use crate::api::messages::{hub_line, hub_lines};
use crate::channel::PushError;
use crate::codec::{
    b32_decoded, b32_encoded, b64_decoded, b64_encoded, base64_encode, encodable, encode_b32,
    law_b32_round_trip, law_b64_round_trip,
};
use crate::daemon::HubConfig;
use crate::list_map::same_array;
use crate::text::{decimal, decimal_text, join2, join3, same_text};

verus! {

/// How long a link is good for where the client does not say: thirty days, in
/// seconds.
pub const DEFAULT_INVITE_TTL_SECS: u64 = 2_592_000;

/// What the system clock says.
#[derive(Debug)]
pub enum ClockReading {
    /// It is set before the epoch, by so much.
    BeforeEpoch(String),
    /// Milliseconds since the epoch.
    Millis(u128),
}

/// The time at which a link is made, or why none is made.
pub open spec fn is_mint_time(reading: ClockReading, r: Result<u64, ApiError>) -> bool {
    match reading {
        ClockReading::BeforeEpoch(by) => r matches Err(e) && e@ == (
            ApiErrorCode::Internal,
            "system clock is set before unix epoch ("@ + by@ + ") — refusing to mint invite"@,
        ),
        ClockReading::Millis(ms) => if ms <= u64::MAX {
            r matches Ok(n) && n == ms
        } else {
            r matches Err(e) && e@ == (
                ApiErrorCode::Internal,
                "system clock value exceeds u64 ms — refusing to mint invite"@,
            )
        },
    }
}

/// The time at which a link is made. A clock that cannot be right is an error: a
/// link must not be made that has long expired.
pub fn mint_time(reading: &ClockReading) -> (r: Result<u64, ApiError>)
    ensures
        is_mint_time(*reading, r),
{
    match reading {
        ClockReading::BeforeEpoch(by) => Err(
            internal(
                join3(
                    "system clock is set before unix epoch (",
                    by.as_str(),
                    ") — refusing to mint invite",
                ).as_str(),
            ),
        ),
        ClockReading::Millis(ms) => if *ms <= u64::MAX as u128 {
            Ok(*ms as u64)
        } else {
            Err(internal("system clock value exceeds u64 ms — refusing to mint invite"))
        },
    }
}

/// The lesser of two numbers.
pub open spec fn lesser(a: int, b: int) -> int {
    if a <= b {
        a
    } else {
        b
    }
}

/// How long a link is good for, in seconds: as long as the client says, no longer
/// than the longest.
pub open spec fn effective_ttl(ttl_secs: Option<u64>, max_ttl_secs: u64) -> int {
    lesser(
        match ttl_secs {
            Some(t) => t as int,
            None => DEFAULT_INVITE_TTL_SECS as int,
        },
        max_ttl_secs as int,
    )
}

/// When a link expires, in milliseconds since the epoch.
pub open spec fn expiry_of(now_ms: u64, ttl_secs: Option<u64>, max_ttl_secs: u64) -> int {
    lesser(
        now_ms + lesser(effective_ttl(ttl_secs, max_ttl_secs) * 1000, u64::MAX as int),
        u64::MAX as int,
    )
}

/// Work out when a link expires.
pub fn invite_expiry(now_ms: u64, ttl_secs: Option<u64>, max_ttl_secs: u64) -> (exp_ms: u64)
    ensures
        exp_ms == expiry_of(now_ms, ttl_secs, max_ttl_secs),
{
    let asked: u64 = match ttl_secs {
        Some(t) => t,
        None => DEFAULT_INVITE_TTL_SECS,
    };
    let ttl: u64 = if asked <= max_ttl_secs {
        asked
    } else {
        max_ttl_secs
    };
    let span: u64 = if ttl <= u64::MAX / 1000 {
        ttl * 1000
    } else {
        u64::MAX
    };
    now_ms.saturating_add(span)
}

/// A link is never made that has expired already, nor one that is good for longer
/// than the longest.
pub proof fn law_invite_lifetime(now_ms: u64, ttl_secs: Option<u64>, max_ttl_secs: u64)
    ensures
        now_ms <= expiry_of(now_ms, ttl_secs, max_ttl_secs) <= now_ms + max_ttl_secs * 1000,
        expiry_of(now_ms, ttl_secs, max_ttl_secs) <= u64::MAX,
{
}

/// The hubs that a link names.
pub fn invite_hubs(hubs: &Vec<HubConfig>, with_hubs: bool) -> (v: Vec<String>)
    ensures
        with_hubs ==> v@.len() == hubs@.len() && (forall|i: int|
            0 <= i < v@.len() ==> (#[trigger] v@[i])@ == hub_line(hubs@[i])),
        !with_hubs ==> v@.len() == 0,
{
    if with_hubs {
        hub_lines(hubs)
    } else {
        Vec::new()
    }
}

/// A key package as clients are given it.
pub fn key_package_text(kp: &[u8]) -> (s: String)
    requires
        encodable(kp@.len()),
    ensures
        s@ == b64_encoded(kp@),
        b64_decoded(s@) == Some(kp@),
{
    proof {
        law_b64_round_trip(kp@, b64_encoded(kp@));
    }
    base64_encode(kp)
}

/// What is known of a contact.
#[derive(Debug)]
pub struct PinnedContact {
    pub fingerprint: String,
    pub x25519_pub: [u8; 32],
    pub first_seen_ms: u64,
    pub last_seen_ms: u64,
    /// Its key is not the one from first contact.
    pub key_changed: bool,
}

/// A contact as clients are shown it.
#[derive(Debug)]
pub struct ContactInfo {
    pub fingerprint: String,
    pub x25519_pub_b32: String,
    pub first_seen_ms: u64,
    pub last_seen_ms: u64,
    pub key_changed: bool,
}

/// What clients are shown of a contact.
pub open spec fn is_contact_info(i: ContactInfo, c: PinnedContact) -> bool {
    &&& i.fingerprint@ == c.fingerprint@
    &&& i.x25519_pub_b32@ == b32_encoded(c.x25519_pub@)
    &&& i.first_seen_ms == c.first_seen_ms
    &&& i.last_seen_ms == c.last_seen_ms
    &&& i.key_changed == c.key_changed
}

/// The contacts as clients are shown them.
pub fn list_contacts(rows: &Vec<PinnedContact>) -> (v: Vec<ContactInfo>)
    ensures
        v@.len() == rows@.len(),
        forall|i: int| 0 <= i < v@.len() ==> is_contact_info(#[trigger] v@[i], rows@[i]),
{
    let mut v: Vec<ContactInfo> = Vec::new();
    let mut i: usize = 0;
    while i < rows.len()
        invariant
            i <= rows@.len(),
            v@.len() == i,
            forall|j: int| 0 <= j < v@.len() ==> is_contact_info(#[trigger] v@[j], rows@[j]),
        decreases rows@.len() - i,
    {
        let c = &rows[i];
        v.push(
            ContactInfo {
                fingerprint: c.fingerprint.clone(),
                x25519_pub_b32: encode_b32(c.x25519_pub.as_slice()),
                first_seen_ms: c.first_seen_ms,
                last_seen_ms: c.last_seen_ms,
                key_changed: c.key_changed,
            },
        );
        i += 1;
    }
    v
}

/// What the signature of a link is worth.
#[derive(Debug)]
pub enum InviteSignature {
    /// It has none.
    Unsigned,
    /// It cannot be judged, because the clock cannot be read.
    NoClock,
    /// It is wrong, for this reason.
    Wrong(String),
    /// It is right.
    Right,
}

/// What is said of a link that cannot be read.
pub fn unreadable_invite(reason: &str) -> (e: ApiError)
    ensures
        e@ == (ApiErrorCode::Malformed, "invite URL did not parse: "@ + reason@),
{
    malformed(join2("invite URL did not parse: ", reason).as_str())
}

/// A contact with this fingerprint whose key has changed is on the list.
pub open spec fn has_changed(contacts: Seq<PinnedContact>, fingerprint: Seq<char>) -> bool {
    exists|i: int|
        0 <= i < contacts.len() && (#[trigger] contacts[i]).fingerprint@ == fingerprint
            && contacts[i].key_changed
}

/// Why a link is refused, if it is. The list of contacts is nothing where it could
/// not be read.
pub open spec fn invite_fault(
    signature: InviteSignature,
    accept_unsigned: bool,
    fingerprint: Seq<char>,
    contacts: Option<Seq<PinnedContact>>,
) -> Option<(ApiErrorCode, Seq<char>)> {
    if signature is NoClock {
        Some(
            (
                ApiErrorCode::Internal,
                "system clock unreadable — refusing to verify invite signature"@,
            ),
        )
    } else if signature is Wrong {
        Some(
            (
                ApiErrorCode::Malformed,
                "invite signature did not verify: "@ + signature->Wrong_0@,
            ),
        )
    } else if signature is Unsigned && !accept_unsigned {
        Some(
            (
                ApiErrorCode::Malformed,
                "refusing unsigned (v1) invite; pass insecure_accept_unsigned=true to opt in (DANGEROUS — side-channel could have substituted any field)"@,
            ),
        )
    } else if contacts is Some && has_changed(contacts->0, fingerprint) {
        Some(
            (
                ApiErrorCode::Malformed,
                "fingerprint "@ + fingerprint
                    + " is already pinned AND its identity key has changed since first contact (T-1). Refusing — verify out of band and clear the pin before re-accepting."@,
            ),
        )
    } else {
        None
    }
}

fn changed_on_list(contacts: &Vec<PinnedContact>, fingerprint: &str) -> (r: bool)
    ensures
        r == has_changed(contacts@, fingerprint@),
{
    let mut i: usize = 0;
    while i < contacts.len()
        invariant
            i <= contacts@.len(),
            forall|j: int|
                0 <= j < i ==> !((#[trigger] contacts@[j]).fingerprint@ == fingerprint@
                    && contacts@[j].key_changed),
        decreases contacts@.len() - i,
    {
        if contacts[i].key_changed && same_text(contacts[i].fingerprint.as_str(), fingerprint) {
            assert(contacts@[i as int].fingerprint@ == fingerprint@);
            return true;
        }
        i += 1;
    }
    false
}

/// Whether a link is followed, and whether it was signed.
pub open spec fn is_checked(
    r: Result<bool, ApiError>,
    signature: InviteSignature,
    accept_unsigned: bool,
    fingerprint: Seq<char>,
    contacts: Option<Seq<PinnedContact>>,
) -> bool {
    match invite_fault(signature, accept_unsigned, fingerprint, contacts) {
        Some(f) => r matches Err(e) && e@ == f,
        None => r matches Ok(signed) && signed == (signature is Right),
    }
}

/// Decide whether a link is followed; says whether it was signed.
pub fn check_invite(
    signature: &InviteSignature,
    accept_unsigned: bool,
    fingerprint: &str,
    contacts: &Option<Vec<PinnedContact>>,
) -> (r: Result<bool, ApiError>)
    ensures
        is_checked(
            r,
            *signature,
            accept_unsigned,
            fingerprint@,
            match *contacts {
                Some(v) => Some(v@),
                None => None,
            },
        ),
{
    let signed = match signature {
        InviteSignature::NoClock => {
            return Err(internal("system clock unreadable — refusing to verify invite signature"));
        },
        InviteSignature::Wrong(why) => {
            return Err(malformed(join2("invite signature did not verify: ", why.as_str()).as_str()));
        },
        InviteSignature::Unsigned => {
            if !accept_unsigned {
                return Err(
                    malformed(
                        "refusing unsigned (v1) invite; pass insecure_accept_unsigned=true to opt in (DANGEROUS — side-channel could have substituted any field)",
                    ),
                );
            }
            false
        },
        InviteSignature::Right => true,
    };
    if let Some(list) = contacts {
        if changed_on_list(list, fingerprint) {
            let message = join3(
                "fingerprint ",
                fingerprint,
                " is already pinned AND its identity key has changed since first contact (T-1). Refusing — verify out of band and clear the pin before re-accepting.",
            );
            return Err(malformed(message.as_str()));
        }
    }
    Ok(signed)
}

/// A link is followed only if its signature is right, or if it has none and the
/// client takes that upon itself; and never to a contact whose key has changed.
pub proof fn law_followed_links_are_trusted(
    signature: InviteSignature,
    accept_unsigned: bool,
    fingerprint: Seq<char>,
    contacts: Seq<PinnedContact>,
)
    requires
        invite_fault(signature, accept_unsigned, fingerprint, Some(contacts)) is None,
    ensures
        signature is Right || (signature is Unsigned && accept_unsigned),
        !has_changed(contacts, fingerprint),
{
}

/// How first contact is made: with a key package by inviting to a group, without
/// one by a sealed text.
pub fn contact_tier(has_key_package: bool) -> (s: String)
    ensures
        s@ == if has_key_package {
            "mls/v1"@
        } else {
            "msg/v1"@
        },
{
    if has_key_package {
        "mls/v1".to_owned()
    } else {
        "msg/v1".to_owned()
    }
}

/// Begin to fetch a key package: there must be a hub, and the fingerprint must
/// parse.
pub fn begin_fetch(hubs: usize, fingerprint: Option<[u8; 32]>) -> (r: Result<[u8; 32], ApiError>)
    ensures
        if hubs == 0 {
            r matches Err(e) && e@ == no_hubs()
        } else {
            match fingerprint {
                None => r matches Err(e) && e@ == (
                    ApiErrorCode::Malformed,
                    "peer_fingerprint did not parse"@,
                ),
                Some(fp) => r == Ok::<[u8; 32], ApiError>(fp),
            }
        },
{
    match require_hubs(hubs) {
        Err(e) => Err(e),
        Ok(_) => match fingerprint {
            None => Err(malformed("peer_fingerprint did not parse")),
            Some(fp) => Ok(fp),
        },
    }
}

/// What came of asking a hub.
#[derive(Debug)]
pub enum HubReply {
    /// The request was not taken.
    NotSent(PushError),
    /// The hub has this key package.
    Found(Vec<u8>),
    /// The hub has none.
    Missing,
    /// The session ended before an answer.
    Gone,
}

/// What is known after some hubs were asked.
pub struct FetchModel {
    /// The last hub that did not take the request, and why.
    pub refused: Option<(int, PushError)>,
    /// A session ended before an answer.
    pub gone: bool,
}

/// What is known after these replies, of which none held a key package.
pub open spec fn asked(replies: Seq<HubReply>) -> FetchModel
    decreases replies.len(),
{
    if replies.len() == 0 {
        FetchModel { refused: None, gone: false }
    } else {
        let before = asked(replies.drop_last());
        match replies.last() {
            HubReply::NotSent(why) => FetchModel {
                refused: Some((replies.len() - 1, why)),
                ..before
            },
            HubReply::Gone => FetchModel { gone: true, ..before },
            _ => before,
        }
    }
}

/// Where the first reply with a key package stands.
pub open spec fn first_found(replies: Seq<HubReply>, from: int) -> Option<int>
    decreases replies.len() - from,
{
    if from < 0 || from >= replies.len() {
        None
    } else if replies[from] is Found {
        Some(from)
    } else {
        first_found(replies, from + 1)
    }
}

/// What is said where no hub had the key package.
pub open spec fn fetch_fault(m: FetchModel) -> (ApiErrorCode, Seq<char>) {
    match m.refused {
        Some((hub, why)) => (
            ApiErrorCode::NotReady,
            "hub #"@ + decimal(hub as nat) + match why {
                PushError::Full => " outbound queue: no available capacity"@,
                PushError::Closed => " outbound queue: channel closed"@,
            },
        ),
        None => if m.gone {
            (ApiErrorCode::Internal, "every hub session ended before responding"@)
        } else {
            (
                ApiErrorCode::NotReady,
                "no configured hub has this peer's KeyPackage published"@,
            )
        },
    }
}

/// The asking of hubs, one after the other.
#[derive(Debug)]
pub struct Fetch {
    hub: usize,
    refused: Option<(usize, PushError)>,
    gone: bool,
}

impl Fetch {
    /// How many hubs were asked.
    pub closed spec fn count(&self) -> nat {
        self.hub as nat
    }

    /// What is known.
    pub closed spec fn model(&self) -> FetchModel {
        FetchModel {
            refused: match self.refused {
                Some((hub, why)) => Some((hub as int, why)),
                None => None,
            },
            gone: self.gone,
        }
    }

    pub fn new() -> (f: Self)
        ensures
            f.count() == 0,
            f.model() == asked(Seq::empty()),
    {
        Fetch { hub: 0, refused: None, gone: false }
    }

    /// Take note of the next hub's reply. The key package of the first hub that
    /// has one is returned, and no other hub is asked.
    pub fn note(&mut self, reply: HubReply) -> (found: Option<Vec<u8>>)
        requires
            old(self).count() < usize::MAX,
        ensures
            final(self).count() == old(self).count() + 1,
            match reply {
                HubReply::Found(kp) => found == Some(kp) && final(self).model() == old(
                    self,
                ).model(),
                HubReply::Missing => found is None && final(self).model() == old(self).model(),
                HubReply::Gone => found is None && final(self).model() == (FetchModel {
                    gone: true,
                    ..old(self).model()
                }),
                HubReply::NotSent(why) => found is None && final(self).model() == (FetchModel {
                    refused: Some((old(self).count() as int, why)),
                    ..old(self).model()
                }),
            },
    {
        let i: usize = self.hub;
        self.hub = i + 1;
        match reply {
            HubReply::Found(kp) => Some(kp),
            HubReply::Missing => None,
            HubReply::Gone => {
                self.gone = true;
                None
            },
            HubReply::NotSent(why) => {
                self.refused = Some((i, why));
                None
            },
        }
    }

    /// The answer where no hub had the key package.
    pub fn answer(&self) -> (e: ApiError)
        ensures
            e@ == fetch_fault(self.model()),
    {
        match self.refused {
            Some((hub, PushError::Full)) => not_ready(
                join3(
                    "hub #",
                    decimal_text(hub as u64).as_str(),
                    " outbound queue: no available capacity",
                ).as_str(),
            ),
            Some((hub, PushError::Closed)) => not_ready(
                join3(
                    "hub #",
                    decimal_text(hub as u64).as_str(),
                    " outbound queue: channel closed",
                ).as_str(),
            ),
            None => if self.gone {
                internal("every hub session ended before responding")
            } else {
                not_ready("no configured hub has this peer's KeyPackage published")
            },
        }
    }
}

/// Asking hubs one after the other: as long as none has the key package, the
/// asking knows what all replies so far say.
pub proof fn law_asking_in_order(replies: Seq<HubReply>, next: HubReply)
    requires
        first_found(replies, 0) is None,
    ensures
        asked(replies.push(next)) == match next {
            HubReply::NotSent(why) => FetchModel {
                refused: Some((replies.len() as int, why)),
                ..asked(replies)
            },
            HubReply::Gone => FetchModel { gone: true, ..asked(replies) },
            _ => asked(replies),
        },
{
    assert(replies.push(next).drop_last() =~= replies);
}

/// What is wrong with a fetched key package, if anything.
pub open spec fn fetched_fault(
    signing_key: Option<[u8; 32]>,
    owner: Option<[u8; 32]>,
    expected: [u8; 32],
) -> Option<Seq<char>> {
    if signing_key is None {
        Some("fetched KP did not validate as a KeyPackage"@)
    } else if owner is None {
        Some("fetched KP signing key is not a valid Ed25519 point"@)
    } else if owner->0 != expected {
        Some(
            "fetched KP signing key does not match peer_fingerprint — refusing (potential hub-directory tampering)"@,
        )
    } else {
        None
    }
}

/// Hand a fetched key package out only if it is the peer's own.
pub fn check_fetched(
    kp: &[u8],
    signing_key: Option<[u8; 32]>,
    owner: Option<[u8; 32]>,
    expected: &[u8; 32],
) -> (r: Result<String, ApiError>)
    requires
        encodable(kp@.len()),
    ensures
        match fetched_fault(signing_key, owner, *expected) {
            Some(text) => r matches Err(e) && e@ == (ApiErrorCode::Malformed, text),
            None => r matches Ok(s) && s@ == b64_encoded(kp@) && b64_decoded(s@) == Some(kp@),
        },
{
    if signing_key.is_none() {
        return Err(malformed("fetched KP did not validate as a KeyPackage"));
    }
    match owner {
        None => Err(malformed("fetched KP signing key is not a valid Ed25519 point")),
        Some(fp) => if same_array(&fp, expected) {
            proof {
                law_b64_round_trip(kp@, b64_encoded(kp@));
            }
            Ok(base64_encode(kp))
        } else {
            Err(
                malformed(
                    "fetched KP signing key does not match peer_fingerprint — refusing (potential hub-directory tampering)",
                ),
            )
        },
    }
}

/// A link is made at the time that the clock says, and none is made where the clock
/// cannot be right.
pub proof fn law_links_are_made_now(reading: ClockReading, r: Result<u64, ApiError>)
    requires
        is_mint_time(reading, r),
    ensures
        r is Ok <==> reading is Millis && reading->Millis_0 <= u64::MAX,
        r matches Ok(n) ==> reading == ClockReading::Millis(n as u128),
        r matches Err(e) ==> e@.0 == ApiErrorCode::Internal,
{
}

/// A link is good for exactly as many seconds as the client asks for, but for no longer
/// than the longest, and for thirty days where the client does not say.
pub proof fn law_link_lives_as_asked(now_ms: u64, asked_secs: u64, max_ttl_secs: u64)
    ensures
        asked_secs <= max_ttl_secs && now_ms + asked_secs * 1000 <= u64::MAX ==> expiry_of(
            now_ms,
            Some(asked_secs),
            max_ttl_secs,
        ) == now_ms + asked_secs * 1000,
        asked_secs > max_ttl_secs && now_ms + max_ttl_secs * 1000 <= u64::MAX ==> expiry_of(
            now_ms,
            Some(asked_secs),
            max_ttl_secs,
        ) == now_ms + max_ttl_secs * 1000,
        asked_secs <= max_ttl_secs && now_ms + asked_secs * 1000 > u64::MAX ==> expiry_of(
            now_ms,
            Some(asked_secs),
            max_ttl_secs,
        ) == u64::MAX,
        expiry_of(now_ms, None, max_ttl_secs) == expiry_of(
            now_ms,
            Some(2_592_000),
            max_ttl_secs,
        ),
{
}

/// Who asks for a longer life gets no shorter one, and a link that is made later does not
/// expire earlier.
pub proof fn law_longer_and_later(
    now_ms: u64,
    later_ms: u64,
    asked: u64,
    more: u64,
    max_ttl_secs: u64,
)
    requires
        now_ms <= later_ms,
        asked <= more,
    ensures
        expiry_of(now_ms, Some(asked), max_ttl_secs) <= expiry_of(
            later_ms,
            Some(more),
            max_ttl_secs,
        ),
        asked < more <= max_ttl_secs && now_ms + more * 1000 <= u64::MAX ==> expiry_of(
            now_ms,
            Some(asked),
            max_ttl_secs,
        ) < expiry_of(now_ms, Some(more), max_ttl_secs),
{
}

/// A link is followed exactly if its signature is right, or it has none and the client
/// takes that upon itself, and no contact of that fingerprint is on the list with a
/// changed key; the answer says whether it was signed.
pub proof fn law_link_is_followed(
    r: Result<bool, ApiError>,
    signature: InviteSignature,
    accept_unsigned: bool,
    fingerprint: Seq<char>,
    contacts: Option<Seq<PinnedContact>>,
)
    requires
        is_checked(r, signature, accept_unsigned, fingerprint, contacts),
    ensures
        r is Ok <==> (signature is Right || (signature is Unsigned && accept_unsigned)) && !(
        contacts matches Some(c) && exists|i: int|
            0 <= i < c.len() && (#[trigger] c[i]).fingerprint@ == fingerprint && c[i].key_changed),
        r matches Ok(signed) ==> (signed <==> signature is Right),
        r matches Err(e) ==> (e@.0 == ApiErrorCode::Internal <==> signature is NoClock),
{
}

/// What clients are shown of a contact leads back to its key, and is what is known of it.
pub proof fn law_contact_is_shown(i: ContactInfo, c: PinnedContact)
    requires
        is_contact_info(i, c),
    ensures
        i.fingerprint@ == c.fingerprint@,
        b32_decoded(i.x25519_pub_b32@) == Some(c.x25519_pub@),
        i.first_seen_ms == c.first_seen_ms,
        i.last_seen_ms == c.last_seen_ms,
        i.key_changed <==> c.key_changed,
{
    law_b32_round_trip(c.x25519_pub@);
}

/// A fetched key package is handed out exactly if it is well formed and its signing key
/// is the one of the peer that was asked for.
pub proof fn law_fetched_is_the_peers_own(
    signing_key: Option<[u8; 32]>,
    owner: Option<[u8; 32]>,
    expected: [u8; 32],
)
    ensures
        fetched_fault(signing_key, owner, expected) is None <==> signing_key is Some && owner is Some
            && owner->0 == expected,
{
}

/// What is known after asking hubs: of those that did not take the request the last one,
/// and whether a session ended.
pub proof fn law_replies_are_remembered(replies: Seq<HubReply>)
    ensures
        match asked(replies).refused {
            Some((hub, why)) => 0 <= hub < replies.len() && replies[hub] == HubReply::NotSent(why)
                && forall|j: int| hub < j < replies.len() ==> !(#[trigger] replies[j] is NotSent),
            None => forall|j: int| 0 <= j < replies.len() ==> !(#[trigger] replies[j] is NotSent),
        },
        asked(replies).gone <==> exists|j: int| 0 <= j < replies.len() && #[trigger] replies[j] is Gone,
    decreases replies.len(),
{
    if replies.len() > 0 {
        let front = replies.drop_last();
        law_replies_are_remembered(front);
        assert(replies[replies.len() - 1] == replies.last());
        assert forall|j: int| 0 <= j < front.len() implies front[j] == #[trigger] replies[j] by {}
        if exists|j: int| 0 <= j < replies.len() && #[trigger] replies[j] is Gone {
            let j = choose|j: int| 0 <= j < replies.len() && #[trigger] replies[j] is Gone;
            if j < front.len() {
                assert(front[j] is Gone);
            }
        }
        if asked(front).gone {
            let j = choose|j: int| 0 <= j < front.len() && #[trigger] front[j] is Gone;
            assert(replies[j] is Gone);
        }
    }
}

/// The error where no hub had the key package: it may come yet, unless sessions ended
/// and nothing else is known.
pub proof fn law_failed_fetch(m: FetchModel)
    ensures
        fetch_fault(m).0 == ApiErrorCode::Internal <==> m.refused is None && m.gone,
        fetch_fault(m).0 != ApiErrorCode::Malformed,
{
}

} // verus!
