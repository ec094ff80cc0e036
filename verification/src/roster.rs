//! Members of a room, and the row that is kept of a room.
use vstd::prelude::*;

use crate::bytes::copy_bytes;
use crate::list_map::same_bytes;
use crate::text::{chars_of, nonempty_pieces, pieces, same_text};

verus! {

/// A member of a group, as the group's state lists it.
#[derive(Debug)]
pub struct Member {
    /// The member's signing key.
    pub signing_key: Vec<u8>,
    /// The fingerprint of that key, where it is a key at all.
    pub fingerprint: Option<String>,
}

/// A member that can be told by its fingerprint.
pub open spec fn has_fingerprint(m: Member) -> bool {
    m.signing_key@.len() == 32 && m.fingerprint is Some
}

/// The fingerprints of the members that have one, in the order of the group.
pub open spec fn fingerprints(members: Seq<Member>) -> Seq<Seq<char>>
    decreases members.len(),
{
    if members.len() == 0 {
        Seq::empty()
    } else if has_fingerprint(members.last()) {
        fingerprints(members.drop_last()).push(members.last().fingerprint->0@)
    } else {
        fingerprints(members.drop_last())
    }
}

/// Texts put one after the other with `sep` between them.
pub open spec fn joined(parts: Seq<Seq<char>>, sep: char) -> Seq<char>
    decreases parts.len(),
{
    if parts.len() == 0 {
        Seq::empty()
    } else if parts.len() == 1 {
        parts[0]
    } else {
        joined(parts.drop_last(), sep).push(sep) + parts.last()
    }
}

/// The list of a room's members, as it is kept with the room.
pub fn members_b32(members: &Vec<Member>) -> (s: String)
    ensures
        s@ == joined(fingerprints(members@), ','),
{
    let mut out = String::new();
    let mut any = false;
    let mut i: usize = 0;
    proof {
        assert(members@.take(0) =~= Seq::<Member>::empty());
    }
    while i < members.len()
        invariant
            i <= members@.len(),
            any == (fingerprints(members@.take(i as int)).len() > 0),
            out@ == joined(fingerprints(members@.take(i as int)), ','),
        decreases members@.len() - i,
    {
        let m = &members[i];
        let ghost before = fingerprints(members@.take(i as int));
        i += 1;
        proof {
            assert(members@.take(i as int).drop_last() =~= members@.take(i - 1));
            assert(members@.take(i as int).last() == members@[i - 1]);
        }
        if m.signing_key.len() == 32 {
            if let Some(fp) = &m.fingerprint {
                if any {
                    out.push(',');
                }
                out.append(fp.as_str());
                any = true;
                proof {
                    assert(before.push(fp@).drop_last() =~= before);
                    assert(out@ =~= joined(before.push(fp@), ','));
                }
            }
        }
    }
    proof {
        assert(members@.take(i as int) =~= members@);
    }
    out
}

/// Whether someone with this fingerprint is a member.
pub fn is_member(members: &Vec<Member>, fingerprint: &str) -> (r: bool)
    ensures
        r == fingerprints(members@).contains(fingerprint@),
{
    let mut i: usize = 0;
    proof {
        assert(members@.take(0) =~= Seq::<Member>::empty());
    }
    while i < members.len()
        invariant
            i <= members@.len(),
            !fingerprints(members@.take(i as int)).contains(fingerprint@),
        decreases members@.len() - i,
    {
        let m = &members[i];
        let ghost before = fingerprints(members@.take(i as int));
        i += 1;
        proof {
            assert(members@.take(i as int).drop_last() =~= members@.take(i - 1));
            assert(members@.take(i as int).last() == members@[i - 1]);
        }
        if m.signing_key.len() == 32 {
            if let Some(fp) = &m.fingerprint {
                if same_text(fp.as_str(), fingerprint) {
                    proof {
                        assert(before.push(fp@).last() == fingerprint@);
                        lemma_fingerprints_prefix(members@, i as int, fingerprint@);
                    }
                    return true;
                }
            }
        }
    }
    proof {
        assert(members@.take(i as int) =~= members@);
    }
    false
}

proof fn lemma_fingerprints_prefix(members: Seq<Member>, n: int, fp: Seq<char>)
    requires
        0 <= n <= members.len(),
        fingerprints(members.take(n)).contains(fp),
    ensures
        fingerprints(members).contains(fp),
    decreases members.len() - n,
{
    if n == members.len() {
        assert(members.take(n) =~= members);
    } else {
        let a = fingerprints(members.take(n));
        assert(members.take(n + 1).drop_last() =~= members.take(n));
        let i = choose|i: int| 0 <= i < a.len() && a[i] == fp;
        assert(fingerprints(members.take(n + 1))[i] == fp);
        lemma_fingerprints_prefix(members, n + 1, fp);
    }
}

proof fn lemma_pieces_ext(s: Seq<char>, t: Seq<char>, c: char, from: int, piece: Seq<char>)
    requires
        0 <= from <= s.len(),
    ensures
        pieces(s + t, c, from, piece) == pieces(s, c, from, piece).drop_last() + pieces(
            t,
            c,
            0,
            pieces(s, c, from, piece).last(),
        ),
        pieces(s, c, from, piece).len() > 0,
    decreases s.len() - from,
{
    let st = s + t;
    if from == s.len() {
        lemma_pieces_shift(s, t, c, from, piece);
        assert(pieces(s, c, from, piece) =~= seq![piece]);
        assert(seq![piece].drop_last() =~= Seq::<Seq<char>>::empty());
        assert(pieces(st, c, from, piece) =~= seq![piece].drop_last() + pieces(t, c, 0, piece));
    } else if s[from] == c {
        lemma_pieces_ext(s, t, c, from + 1, Seq::empty());
        let rest = pieces(s, c, from + 1, Seq::empty());
        assert(st[from] == s[from]);
        assert((seq![piece] + rest).drop_last() =~= seq![piece] + rest.drop_last());
        assert((seq![piece] + rest).last() == rest.last());
        assert(pieces(st, c, from, piece) =~= (seq![piece] + rest).drop_last() + pieces(
            t,
            c,
            0,
            rest.last(),
        ));
    } else {
        lemma_pieces_ext(s, t, c, from + 1, piece.push(s[from]));
        assert(st[from] == s[from]);
    }
}

proof fn lemma_pieces_shift(s: Seq<char>, t: Seq<char>, c: char, at: int, piece: Seq<char>)
    requires
        s.len() <= at,
    ensures
        pieces(s + t, c, at, piece) == pieces(t, c, at - s.len(), piece),
    decreases s.len() + t.len() - at,
{
    let st = s + t;
    let k = at - s.len();
    if k < t.len() {
        assert(st[at] == t[k]);
        if t[k] == c {
            lemma_pieces_shift(s, t, c, at + 1, Seq::empty());
        } else {
            lemma_pieces_shift(s, t, c, at + 1, piece.push(t[k]));
        }
    }
}

proof fn lemma_pieces_plain(t: Seq<char>, c: char, from: int, piece: Seq<char>)
    requires
        0 <= from <= t.len(),
        !t.contains(c),
    ensures
        pieces(t, c, from, piece) == seq![piece + t.skip(from)],
    decreases t.len() - from,
{
    if from == t.len() {
        assert(piece + t.skip(from) =~= piece);
    } else {
        assert(t[from] != c);
        lemma_pieces_plain(t, c, from + 1, piece.push(t[from]));
        assert(piece.push(t[from]) + t.skip(from + 1) =~= piece + t.skip(from));
    }
}

proof fn lemma_pieces_joined(parts: Seq<Seq<char>>, sep: char)
    requires
        parts.len() > 0,
        forall|i: int| 0 <= i < parts.len() ==> !(#[trigger] parts[i]).contains(sep),
    ensures
        pieces(joined(parts, sep), sep, 0, Seq::empty()) == parts,
    decreases parts.len(),
{
    let e = Seq::<char>::empty();
    let last = parts.last();
    assert(!parts[parts.len() - 1].contains(sep));
    lemma_pieces_plain(last, sep, 0, e);
    assert(e + last.skip(0) =~= last);
    if parts.len() == 1 {
        assert(seq![last] =~= parts);
    } else {
        let front = parts.drop_last();
        assert forall|i: int| 0 <= i < front.len() implies !(#[trigger] front[i]).contains(
            sep,
        ) by {
            assert(front[i] == parts[i]);
        }
        lemma_pieces_joined(front, sep);
        let j = joined(front, sep);
        let one = seq![sep];
        assert(j.push(sep) + last =~= j + (one + last));
        lemma_pieces_ext(j, one + last, sep, 0, e);
        lemma_pieces_shift(one, last, sep, 1, e);
        assert((one + last)[0] == sep);
        assert(pieces(one + last, sep, 0, front.last()) =~= seq![front.last()] + seq![last]);
        assert(front.drop_last() + (seq![front.last()] + seq![last]) =~= parts);
    }
}

proof fn lemma_filter_all(s: Seq<Seq<char>>, keep: spec_fn(Seq<char>) -> bool)
    requires
        forall|i: int| 0 <= i < s.len() ==> keep(#[trigger] s[i]),
    ensures
        s.filter(keep) == s,
    decreases s.len(),
{
    reveal(Seq::filter);
    if s.len() > 0 {
        let front = s.drop_last();
        assert forall|i: int| 0 <= i < front.len() implies keep(#[trigger] front[i]) by {
            assert(front[i] == s[i]);
        }
        lemma_filter_all(front, keep);
        assert(keep(s[s.len() - 1]));
        assert(front.push(s.last()) =~= s);
    }
}

/// The list that is kept of a room's members gives back the very members, as long
/// as no fingerprint is empty or has a comma in it.
pub proof fn law_members_round_trip(parts: Seq<Seq<char>>)
    requires
        forall|i: int|
            0 <= i < parts.len() ==> (#[trigger] parts[i]).len() > 0 && !parts[i].contains(','),
    ensures
        nonempty_pieces(joined(parts, ','), ',') == parts,
{
    let keep = |p: Seq<char>| p.len() > 0;
    let e = Seq::<char>::empty();
    if parts.len() == 0 {
        reveal(Seq::filter);
        let p = pieces(e, ',', 0, e);
        assert(p =~= seq![e]);
        assert(p.drop_last() =~= Seq::<Seq<char>>::empty());
        assert(p.drop_last().filter(keep) =~= Seq::<Seq<char>>::empty());
        assert(p.filter(keep) =~= Seq::<Seq<char>>::empty());
        assert(parts =~= Seq::<Seq<char>>::empty());
    } else {
        lemma_pieces_joined(parts, ',');
        lemma_filter_all(parts, keep);
    }
}

/// What is kept of a room.
#[derive(Debug)]
pub struct RoomRow {
    pub group_id: Vec<u8>,
    pub name: String,
    /// The members' fingerprints, with commas between them.
    pub members_b32: String,
    pub created_at_ms: i64,
}

/// Where the first row of a room stands.
pub open spec fn row_of(rows: Seq<RoomRow>, group_id: Seq<u8>, from: int) -> Option<int>
    decreases rows.len() - from,
{
    if from < 0 || from >= rows.len() {
        None
    } else if rows[from].group_id@ == group_id {
        Some(from)
    } else {
        row_of(rows, group_id, from + 1)
    }
}

/// Find the row of a room.
pub fn find_row(rows: &Vec<RoomRow>, group_id: &[u8]) -> (r: Option<usize>)
    ensures
        match r {
            Some(i) => row_of(rows@, group_id@, 0) == Some(i as int) && i < rows@.len()
                && rows@[i as int].group_id@ == group_id@,
            None => row_of(rows@, group_id@, 0) is None,
        },
{
    let mut i: usize = 0;
    while i < rows.len()
        invariant
            i <= rows@.len(),
            row_of(rows@, group_id@, 0) == row_of(rows@, group_id@, i as int),
        decreases rows@.len() - i,
    {
        if same_bytes(rows[i].group_id.as_slice(), group_id) {
            return Some(i);
        }
        i += 1;
    }
    None
}

/// The row to save after a commit changed a room's members: nothing where the
/// members are not known or the room has no row.
pub fn refreshed_row(rows: &Vec<RoomRow>, group_id: &[u8], members: &Vec<Member>) -> (r: Option<
    RoomRow,
>)
    ensures
        match r {
            Some(row) => {
                let list = joined(fingerprints(members@), ',');
                &&& list.len() > 0
                &&& row_of(rows@, group_id@, 0) matches Some(i) && row.group_id@ == group_id@
                    && row.name@ == rows@[i].name@ && row.members_b32@ == list && row.created_at_ms
                    == rows@[i].created_at_ms
            },
            None => joined(fingerprints(members@), ',').len() == 0 || row_of(
                rows@,
                group_id@,
                0,
            ) is None,
        },
{
    let list = members_b32(members);
    if chars_of(list.as_str()).len() == 0 {
        return None;
    }
    match find_row(rows, group_id) {
        None => None,
        Some(i) => Some(
            RoomRow {
                group_id: copy_bytes(group_id),
                name: rows[i].name.clone(),
                members_b32: list,
                created_at_ms: rows[i].created_at_ms,
            },
        ),
    }
}

/// The row that is found for a room is one of that room, and the first of them; none is
/// found only where there is none.
pub proof fn law_row_is_found(rows: Seq<RoomRow>, group_id: Seq<u8>, from: int)
    requires
        0 <= from,
    ensures
        match row_of(rows, group_id, from) {
            Some(i) => from <= i < rows.len() && rows[i].group_id@ == group_id && forall|j: int|
                from <= j < i ==> (#[trigger] rows[j]).group_id@ != group_id,
            None => forall|j: int| from <= j < rows.len() ==> (#[trigger] rows[j]).group_id@ != group_id,
        },
    decreases rows.len() - from,
{
    if from < rows.len() && rows[from].group_id@ != group_id {
        law_row_is_found(rows, group_id, from + 1);
    }
}

/// The fingerprints of a group are those of its members that have a key of 32 bytes and
/// a fingerprint, in the order of the members.
pub proof fn law_fingerprints_of_members(members: Seq<Member>, m: Member)
    ensures
        fingerprints(Seq::empty()) == Seq::<Seq<char>>::empty(),
        m.signing_key@.len() == 32 && m.fingerprint is Some ==> fingerprints(members.push(m))
            == fingerprints(members).push(m.fingerprint->0@),
        m.signing_key@.len() != 32 || m.fingerprint is None ==> fingerprints(members.push(m))
            == fingerprints(members),
{
    assert(members.push(m).drop_last() =~= members);
}

} // verus!
