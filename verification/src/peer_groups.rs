//! Which group a session with a peer goes on with.
//!
//! Groups are on record under the peer's key for sessions. An invitation that begins
//! a conversation may go to a peer whose key for sessions is not known yet; its group
//! is then on record under the peer's fingerprint, until the key is learned.
use vstd::prelude::*;

use crate::api::invite::PinnedContact;
use crate::list_map::same_array;
use crate::text::same_text;

verus! {

/// The key that the first contact of this fingerprint is pinned with, from the
/// `from`th contact on.
pub open spec fn pinned_key(contacts: Seq<PinnedContact>, name: Seq<char>, from: int) -> Option<
    [u8; 32],
>
    decreases contacts.len() - from,
{
    if from < 0 || from >= contacts.len() {
        None
    } else if contacts[from].fingerprint@ == name {
        Some(contacts[from].x25519_pub)
    } else {
        pinned_key(contacts, name, from + 1)
    }
}

/// The fingerprint of the first contact that is pinned with this key, from the
/// `from`th contact on.
pub open spec fn pinned_name(contacts: Seq<PinnedContact>, key: [u8; 32], from: int) -> Option<
    Seq<char>,
>
    decreases contacts.len() - from,
{
    if from < 0 || from >= contacts.len() {
        None
    } else if contacts[from].x25519_pub == key {
        Some(contacts[from].fingerprint@)
    } else {
        pinned_name(contacts, key, from + 1)
    }
}

/// Under which key the group with a peer is put on record: the one that the peer is
/// pinned with, or else its fingerprint.
pub open spec fn record_key(
    contacts: Seq<PinnedContact>,
    name: Seq<char>,
    fingerprint: [u8; 32],
) -> [u8; 32] {
    match pinned_key(contacts, name, 0) {
        Some(key) => key,
        None => fingerprint,
    }
}

/// Find under which key the group with a peer is put on record. `name` is the text of
/// the peer's fingerprint.
pub fn key_to_record(contacts: &Vec<PinnedContact>, name: &str, fingerprint: &[u8; 32]) -> (key: [u8;
    32])
    ensures
        key == record_key(contacts@, name@, *fingerprint),
{
    let mut i: usize = 0;
    while i < contacts.len()
        invariant
            i <= contacts@.len(),
            pinned_key(contacts@, name@, 0) == pinned_key(contacts@, name@, i as int),
        decreases contacts@.len() - i,
    {
        if same_text(contacts[i].fingerprint.as_str(), name) {
            return contacts[i].x25519_pub;
        }
        i += 1;
    }
    *fingerprint
}

/// Find whose key this is.
pub fn name_of_key<'a>(contacts: &'a Vec<PinnedContact>, key: &[u8; 32]) -> (name: Option<&'a String>)
    ensures
        match name {
            Some(n) => pinned_name(contacts@, *key, 0) == Some(n@),
            None => pinned_name(contacts@, *key, 0) is None,
        },
{
    let mut i: usize = 0;
    while i < contacts.len()
        invariant
            i <= contacts@.len(),
            pinned_name(contacts@, *key, 0) == pinned_name(contacts@, *key, i as int),
        decreases contacts@.len() - i,
    {
        if same_array(&contacts[i].x25519_pub, key) {
            return Some(&contacts[i].fingerprint);
        }
        i += 1;
    }
    None
}

/// How a session with a dialled peer goes on.
#[derive(Debug)]
pub enum DialPlan {
    /// The peer has another key than the one that was dialled: stop.
    WrongPeer,
    /// Go on with this group.
    Resume(Vec<u8>),
    /// Make a group. Where `forget` is set, the group on record is gone, and its
    /// record goes too.
    Bootstrap {
        forget: bool,
    },
}

/// How a session with a dialled peer goes on.
pub open spec fn is_dial_plan(
    plan: DialPlan,
    dialled: [u8; 32],
    learned: [u8; 32],
    mapped: Option<Vec<u8>>,
    promised: Option<Vec<u8>>,
    have_group: bool,
) -> bool {
    if dialled != learned {
        plan is WrongPeer
    } else {
        match (mapped, promised) {
            (Some(gid), _) | (None, Some(gid)) => if have_group {
                plan == DialPlan::Resume(gid)
            } else {
                plan == (DialPlan::Bootstrap { forget: true })
            },
            (None, None) => plan == (DialPlan::Bootstrap { forget: false }),
        }
    }
}

/// Decide how a session with a dialled peer goes on. `mapped` is the group on record
/// for the peer's key, `promised` the one on record for its fingerprint, and
/// `have_group` says whether there still is such a group: the first of the two that
/// is on record.
pub fn plan_dial(
    dialled: &[u8; 32],
    learned: &[u8; 32],
    mapped: Option<Vec<u8>>,
    promised: Option<Vec<u8>>,
    have_group: bool,
) -> (plan: DialPlan)
    ensures
        is_dial_plan(plan, *dialled, *learned, mapped, promised, have_group),
{
    if !same_array(dialled, learned) {
        return DialPlan::WrongPeer;
    }
    let gid = match (mapped, promised) {
        (Some(gid), _) => gid,
        (None, Some(gid)) => gid,
        (None, None) => {
            return DialPlan::Bootstrap { forget: false };
        },
    };
    if have_group {
        DialPlan::Resume(gid)
    } else {
        DialPlan::Bootstrap { forget: true }
    }
}

/// Whether the group of a dialled session is put on record under the peer's key: if it
/// is a new one, or was on record under the fingerprint alone.
pub fn is_recorded_anew(was_mapped: bool, was_bootstrap: bool) -> (r: bool)
    ensures
        r == (was_bootstrap || !was_mapped),
{
    was_bootstrap || !was_mapped
}

/// The group that a dialled session finds on record: the one for the peer's key, or
/// else the one for the fingerprint of the contact that is pinned with this key.
pub open spec fn group_on_record(
    records: Map<[u8; 32], Seq<u8>>,
    learned: [u8; 32],
    fingerprint: Option<[u8; 32]>,
) -> Option<Seq<u8>> {
    if records.dom().contains(learned) {
        Some(records[learned])
    } else {
        match fingerprint {
            Some(fp) => if records.dom().contains(fp) {
                Some(records[fp])
            } else {
                None
            },
            None => None,
        }
    }
}

/// The group of an invitation that began a conversation is the one that a later
/// session with that peer finds on record. Either the peer was pinned with its key
/// when the invitation was sent, or there was no group on record for that key, and
/// the contact that the key belongs to when the peer is dialled is the invited one.
pub proof fn law_begun_group_is_found(
    records: Map<[u8; 32], Seq<u8>>,
    then: Seq<PinnedContact>,
    now: Seq<PinnedContact>,
    name: Seq<char>,
    fingerprint: [u8; 32],
    learned: [u8; 32],
    group_id: Seq<u8>,
)
    requires
        match pinned_key(then, name, 0) {
            Some(key) => key == learned,
            None => !records.dom().contains(learned) && pinned_name(now, learned, 0) == Some(name),
        },
    ensures
        group_on_record(
            records.insert(record_key(then, name, fingerprint), group_id),
            learned,
            match pinned_name(now, learned, 0) {
                Some(n) => if n == name {
                    Some(fingerprint)
                } else {
                    None
                },
                None => None,
            },
        ) == Some(group_id),
{
}

/// A session goes on only with the peer that was dialled; then with the group on record
/// for its key, or else with the one that was left for its fingerprint, as long as there
/// still is such a group.
pub proof fn law_dialled_session(
    plan: DialPlan,
    dialled: [u8; 32],
    learned: [u8; 32],
    mapped: Option<Vec<u8>>,
    promised: Option<Vec<u8>>,
    have_group: bool,
)
    requires
        is_dial_plan(plan, dialled, learned, mapped, promised, have_group),
    ensures
        plan is WrongPeer <==> dialled != learned,
        plan is Resume <==> dialled == learned && have_group && (mapped is Some || promised is Some),
        plan matches DialPlan::Resume(gid) ==> (mapped matches Some(g) ==> gid == g) && (mapped is None
            ==> promised == Some(gid)),
        plan matches DialPlan::Bootstrap { forget } ==> (forget <==> mapped is Some || promised is Some),
{
}

/// Whose key this is, and which key a fingerprint has, agree with the contacts: what is
/// found stands on the list.
pub proof fn law_contacts_are_found(
    contacts: Seq<PinnedContact>,
    name: Seq<char>,
    key: [u8; 32],
    from: int,
)
    requires
        0 <= from,
    ensures
        pinned_key(contacts, name, from) matches Some(k) ==> exists|i: int|
            from <= i < contacts.len() && (#[trigger] contacts[i]).fingerprint@ == name
                && contacts[i].x25519_pub == k,
        pinned_key(contacts, name, from) is None ==> forall|i: int|
            from <= i < contacts.len() ==> (#[trigger] contacts[i]).fingerprint@ != name,
        pinned_name(contacts, key, from) matches Some(n) ==> exists|i: int|
            from <= i < contacts.len() && (#[trigger] contacts[i]).x25519_pub == key
                && contacts[i].fingerprint@ == n,
        pinned_name(contacts, key, from) is None ==> forall|i: int|
            from <= i < contacts.len() ==> (#[trigger] contacts[i]).x25519_pub != key,
    decreases contacts.len() - from,
{
    if from < contacts.len() {
        law_contacts_are_found(contacts, name, key, from + 1);
        if contacts[from].fingerprint@ != name && pinned_key(contacts, name, from) is Some {
            let i = choose|i: int|
                from + 1 <= i < contacts.len() && (#[trigger] contacts[i]).fingerprint@ == name
                    && contacts[i].x25519_pub == pinned_key(contacts, name, from)->0;
            assert(contacts[i].fingerprint@ == name);
        }
        if contacts[from].x25519_pub != key && pinned_name(contacts, key, from) is Some {
            let i = choose|i: int|
                from + 1 <= i < contacts.len() && (#[trigger] contacts[i]).x25519_pub == key
                    && contacts[i].fingerprint@ == pinned_name(contacts, key, from)->0;
            assert(contacts[i].x25519_pub == key);
        }
    }
}

/// A group is put on record under the key of a contact with the peer's fingerprint, and
/// under the fingerprint itself exactly where there is no such contact.
pub proof fn law_key_of_a_record(
    contacts: Seq<PinnedContact>,
    name: Seq<char>,
    fingerprint: [u8; 32],
)
    ensures
        (exists|i: int| 0 <= i < contacts.len() && (#[trigger] contacts[i]).fingerprint@ == name)
            ==> exists|i: int|
            0 <= i < contacts.len() && (#[trigger] contacts[i]).fingerprint@ == name && record_key(
                contacts,
                name,
                fingerprint,
            ) == contacts[i].x25519_pub,
        (forall|i: int| 0 <= i < contacts.len() ==> (#[trigger] contacts[i]).fingerprint@ != name)
            ==> record_key(contacts, name, fingerprint) == fingerprint,
{
    law_contacts_are_found(contacts, name, fingerprint, 0);
}

} // verus!
