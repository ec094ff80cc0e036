//! Names that reach the file system: file names, conversation keys, paths.
use vstd::prelude::*;

use crate::codec::{
    all_b32_digits, b32_encoded, is_b32_digit, lemma_b32_digits, short_label,
};
use crate::text::{
    chars_of, find_first, first_position, join2, join3, lemma_first_position, prefix_of, same_text,
    text_of,
};

verus! {

/// The longest file name that is stored.
pub const MAX_NAME_CHARS: usize = 64;

/// A character that may stand in a stored file name.
pub open spec fn is_safe(c: char) -> bool {
    ||| 'a' <= c <= 'z'
    ||| 'A' <= c <= 'Z'
    ||| '0' <= c <= '9'
    ||| c == '.'
    ||| c == '_'
    ||| c == '-'
}

/// Every character that may not stand in a file name replaced by `_`.
pub open spec fn masked(s: Seq<char>) -> Seq<char> {
    s.map_values(
        |c: char|
            if is_safe(c) {
                c
            } else {
                '_'
            },
    )
}

/// Nothing but dots.
pub open spec fn all_dots(s: Seq<char>) -> bool {
    forall|i: int| 0 <= i < s.len() ==> #[trigger] s[i] == '.'
}

/// The name under which a file is stored: unsafe characters masked, at most 64
/// characters, and `unnamed` where nothing but dots is left.
pub open spec fn sanitized_name(raw: Seq<char>) -> Seq<char> {
    let name = prefix_of(masked(raw), MAX_NAME_CHARS as int);
    if all_dots(name) {
        "unnamed"@
    } else {
        name
    }
}

/// Make a file name safe to store.
pub fn sanitize_filename(raw: &str) -> (out: String)
    ensures
        out@ == sanitized_name(raw@),
{
    let v = chars_of(raw);
    let n: usize = if v.len() > MAX_NAME_CHARS {
        MAX_NAME_CHARS
    } else {
        v.len()
    };
    let mut out: Vec<char> = Vec::new();
    let mut dots = true;
    let mut i: usize = 0;
    while i < n
        invariant
            i <= n <= v@.len(),
            v@ == raw@,
            out@ == masked(raw@).take(i as int),
            dots == all_dots(out@),
        decreases n - i,
    {
        let c = v[i];
        let safe = ('a' <= c && c <= 'z') || ('A' <= c && c <= 'Z') || ('0' <= c && c <= '9') || c
            == '.' || c == '_' || c == '-';
        let kept = if safe {
            c
        } else {
            '_'
        };
        let ghost before = out@;
        out.push(kept);
        proof {
            assert(masked(raw@)[i as int] == kept);
            assert(masked(raw@).take(i + 1) =~= before.push(kept));
            if dots && kept == '.' {
                assert(all_dots(out@));
            } else if kept != '.' {
                assert(out@[i as int] != '.');
            } else {
                let j = choose|j: int| 0 <= j < before.len() && #[trigger] before[j] != '.';
                assert(out@[j] != '.');
            }
        }
        dots = dots && kept == '.';
        i += 1;
    }
    proof {
        assert(masked(raw@).len() == raw@.len());
        assert(masked(raw@).take(n as int) =~= prefix_of(masked(raw@), MAX_NAME_CHARS as int));
    }
    if dots {
        "unnamed".to_owned()
    } else {
        text_of(out.as_slice())
    }
}

/// A stored name is never empty, never longer than 64 characters, holds safe
/// characters only (so no path separator), and is neither `.` nor `..`.
pub proof fn law_sanitized_name_is_safe(raw: Seq<char>)
    ensures
        0 < sanitized_name(raw).len() <= MAX_NAME_CHARS,
        forall|i: int|
            0 <= i < sanitized_name(raw).len() ==> is_safe(#[trigger] sanitized_name(raw)[i]),
        !sanitized_name(raw).contains('/'),
        !sanitized_name(raw).contains('\\'),
        !all_dots(sanitized_name(raw)),
{
    reveal_strlit("unnamed");
    let name = prefix_of(masked(raw), MAX_NAME_CHARS as int);
    assert forall|i: int| 0 <= i < name.len() implies is_safe(#[trigger] name[i]) by {
        assert(name[i] == masked(raw)[i]);
    }
    if all_dots(name) {
        assert("unnamed"@[0] == 'u');
        assert(!all_dots("unnamed"@));
    }
    let out = sanitized_name(raw);
    assert forall|i: int| 0 <= i < out.len() implies is_safe(#[trigger] out[i]) by {}
    if out.contains('/') {
        let i = choose|i: int| 0 <= i < out.len() && out[i] == '/';
        assert(is_safe(out[i]));
    }
    if out.contains('\\') {
        let i = choose|i: int| 0 <= i < out.len() && out[i] == '\\';
        assert(is_safe(out[i]));
    }
}

/// A name that is safe already is kept: making a stored name safe again changes
/// nothing.
pub proof fn law_sanitize_idempotent(raw: Seq<char>)
    ensures
        sanitized_name(sanitized_name(raw)) == sanitized_name(raw),
{
    law_sanitized_name_is_safe(raw);
    let out = sanitized_name(raw);
    assert(masked(out) =~= out) by {
        assert forall|i: int| 0 <= i < out.len() implies masked(out)[i] == out[i] by {
            assert(is_safe(out[i]));
        }
    }
    assert(prefix_of(masked(out), MAX_NAME_CHARS as int) =~= out);
}

/// The shape of a conversation key: `room/` or `peer/` and one to sixteen
/// base32 digits.
pub open spec fn is_conversation_key(s: Seq<char>) -> bool {
    match first_position(s, '/', 0) {
        None => false,
        Some(i) => {
            &&& s.take(i) == "room"@ || s.take(i) == "peer"@
            &&& 1 <= s.skip(i + 1).len() <= 16
            &&& all_b32_digits(s.skip(i + 1))
        },
    }
}

/// Whether a text has the shape of a conversation key, so that it can be part of
/// a path.
pub fn is_valid_conversation_key(conversation: &str) -> (r: bool)
    ensures
        r == is_conversation_key(conversation@),
{
    let v = chars_of(conversation);
    let n: usize = v.len();
    match find_first(v.as_slice(), '/') {
        None => false,
        Some(i) => {
            let prefix = text_of(vstd::slice::slice_subrange(v.as_slice(), 0, i));
            let tail = vstd::slice::slice_subrange(v.as_slice(), i + 1, n);
            assert(prefix@ =~= conversation@.take(i as int));
            assert(tail@ =~= conversation@.skip(i + 1));
            if !same_text(prefix.as_str(), "room") && !same_text(prefix.as_str(), "peer") {
                return false;
            }
            if tail.len() == 0 || tail.len() > 16 {
                return false;
            }
            let mut k: usize = 0;
            while k < tail.len()
                invariant
                    k <= tail@.len(),
                    tail@ == conversation@.skip(i + 1),
                    first_position(conversation@, '/', 0) == Some(i as int),
                    forall|j: int| 0 <= j < k ==> is_b32_digit(#[trigger] tail@[j]),
                decreases tail@.len() - k,
            {
                let c = tail[k];
                if !(('a' <= c && c <= 'z') || ('2' <= c && c <= '7')) {
                    assert(!is_b32_digit(tail@[k as int]));
                    return false;
                }
                k += 1;
            }
            true
        },
    }
}

/// The key of a room's conversation.
pub open spec fn room_key(group_id: Seq<u8>) -> Seq<char> {
    "room/"@ + short_label(b32_encoded(group_id))
}

/// The key of the conversation with a peer whose key has this label.
pub open spec fn peer_key(short_id: Seq<char>) -> Seq<char> {
    "peer/"@ + short_id
}

proof fn lemma_key_shape(prefix: Seq<char>, tail: Seq<char>)
    requires
        prefix == "room/"@ || prefix == "peer/"@,
        1 <= tail.len() <= 16,
        all_b32_digits(tail),
    ensures
        is_conversation_key(prefix + tail),
{
    reveal_strlit("room/");
    reveal_strlit("peer/");
    reveal_strlit("room");
    reveal_strlit("peer");
    let s = prefix + tail;
    lemma_first_position(s, '/', 0);
    assert(s[4] == '/');
    let i = first_position(s, '/', 0)->0;
    assert(i == 4) by {
        assert(s[0] != '/' && s[1] != '/' && s[2] != '/' && s[3] != '/');
    }
    assert(s.skip(5) =~= tail);
    if prefix == "room/"@ {
        assert(s.take(4) =~= "room"@);
    } else {
        assert(s.take(4) =~= "peer"@);
    }
}

/// The keys that the daemon makes itself are well-formed: that of every room
/// with a group id, and that of every peer. They are made of the first eight digits
/// of the base32 text of the id, or of all where there are fewer.
pub proof fn law_own_keys_are_valid(group_id: Seq<u8>, peer_pub: Seq<u8>)
    requires
        group_id.len() > 0,
        peer_pub.len() == 32,
    ensures
        is_conversation_key(room_key(group_id)),
        is_conversation_key(peer_key(short_label(b32_encoded(peer_pub)))),
        ({
            let all = b32_encoded(group_id);
            let n = (8 * group_id.len() + 4) / 5;
            &&& all.len() == n
            &&& short_label(all) == all.take(
                if n < 8 {
                    n as int
                } else {
                    8
                },
            )
            &&& room_key(group_id) == "room/"@ + short_label(all)
        }),
{
    lemma_b32_digits(group_id);
    lemma_b32_digits(peer_pub);
    lemma_label(b32_encoded(group_id));
    lemma_label(b32_encoded(peer_pub));
    lemma_key_shape("room/"@, short_label(b32_encoded(group_id)));
    lemma_key_shape("peer/"@, short_label(b32_encoded(peer_pub)));
}

proof fn lemma_label(s: Seq<char>)
    requires
        all_b32_digits(s),
        s.len() > 0,
    ensures
        1 <= short_label(s).len() <= 8,
        all_b32_digits(short_label(s)),
{
    let l = short_label(s);
    assert forall|i: int| 0 <= i < l.len() implies is_b32_digit(#[trigger] l[i]) by {
        assert(l[i] == s[i]);
    }
}

/// A path and one more segment: a `/` goes between them unless the path is empty
/// or ends in one.
pub open spec fn joined_path(base: Seq<char>, segment: Seq<char>) -> Seq<char> {
    if base.len() == 0 || base.last() == '/' {
        base + segment
    } else {
        base + "/"@ + segment
    }
}

/// Append a relative segment to a path.
pub fn join_path(base: &str, segment: &str) -> (r: String)
    ensures
        r@ == joined_path(base@, segment@),
{
    let v = chars_of(base);
    if v.len() == 0 || v[v.len() - 1] == '/' {
        join2(base, segment)
    } else {
        join3(base, "/", segment)
    }
}

/// Types of files that are refused because they can be run.
pub open spec fn is_executable(mime: Seq<char>) -> bool {
    ||| mime == "application/x-msdownload"@
    ||| mime == "application/x-msdos-program"@
    ||| mime == "application/x-executable"@
    ||| mime == "application/x-mach-binary"@
    ||| mime == "application/x-apple-diskimage"@
    ||| mime == "application/x-newton-compatible-pkg"@
    ||| mime == "application/vnd.debian.binary-package"@
    ||| mime == "application/x-rpm"@
    ||| mime == "application/vnd.microsoft.portable-executable"@
    ||| mime == "application/x-bat"@
    ||| mime == "application/x-sh"@
}

/// Whether a type of file is refused because it can be run.
pub fn is_executable_mime(mime: &str) -> (r: bool)
    ensures
        r == is_executable(mime@),
{
    same_text(mime, "application/x-msdownload") || same_text(mime, "application/x-msdos-program")
        || same_text(mime, "application/x-executable") || same_text(
        mime,
        "application/x-mach-binary",
    ) || same_text(mime, "application/x-apple-diskimage") || same_text(
        mime,
        "application/x-newton-compatible-pkg",
    ) || same_text(mime, "application/vnd.debian.binary-package") || same_text(
        mime,
        "application/x-rpm",
    ) || same_text(mime, "application/vnd.microsoft.portable-executable") || same_text(
        mime,
        "application/x-bat",
    ) || same_text(mime, "application/x-sh")
}

/// A name that is safe already, not too long and more than dots is kept as it is; of any
/// other, each character that may stay stays in its place.
pub proof fn law_safe_names_are_kept(raw: Seq<char>, i: int)
    requires
        0 <= i < raw.len(),
        i < 64,
        exists|k: int| 0 <= k < raw.len() && k < 64 && #[trigger] raw[k] != '.',
    ensures
        (forall|k: int| 0 <= k < raw.len() ==> is_safe(#[trigger] raw[k])) && raw.len() <= 64
            ==> sanitized_name(raw) == raw,
        sanitized_name(raw).len() == (if raw.len() < 64 {
            raw.len()
        } else {
            64
        }),
        ('a' <= raw[i] <= 'z' || 'A' <= raw[i] <= 'Z' || '0' <= raw[i] <= '9' || raw[i] == '.'
            || raw[i] == '_' || raw[i] == '-') ==> sanitized_name(raw)[i] == raw[i],
        !('a' <= raw[i] <= 'z' || 'A' <= raw[i] <= 'Z' || '0' <= raw[i] <= '9' || raw[i] == '.'
            || raw[i] == '_' || raw[i] == '-') ==> sanitized_name(raw)[i] == '_',
{
    let k = choose|k: int| 0 <= k < raw.len() && k < 64 && #[trigger] raw[k] != '.';
    let name = prefix_of(masked(raw), 64);
    assert(name[k] != '.');
    if (forall|k: int| 0 <= k < raw.len() ==> is_safe(#[trigger] raw[k])) && raw.len() <= 64 {
        assert(name =~= raw);
    }
}

/// A name of nothing but dots, or none at all, is not kept.
pub proof fn law_dots_are_no_name(raw: Seq<char>)
    requires
        forall|k: int| 0 <= k < raw.len() ==> #[trigger] raw[k] == '.',
    ensures
        sanitized_name(raw) == "unnamed"@,
{
    let name = prefix_of(masked(raw), 64);
    assert forall|k: int| 0 <= k < name.len() implies #[trigger] name[k] == '.' by {
        assert(raw[k] == '.');
    }
}

/// The keys of conversations are `room/` or `peer/` and one to sixteen of the digits `a` to
/// `z` and `2` to `7`, and nothing else is one.
pub proof fn law_conversation_keys(s: Seq<char>)
    ensures
        is_conversation_key(s) <==> s.len() > 5 && s.len() <= 21 && (s.take(5) == "room/"@ || s.take(
            5,
        ) == "peer/"@) && forall|k: int|
            5 <= k < s.len() ==> ('a' <= #[trigger] s[k] <= 'z' || '2' <= s[k] <= '7'),
{
    reveal_strlit("room/");
    reveal_strlit("peer/");
    reveal_strlit("room");
    reveal_strlit("peer");
    lemma_first_position(s, '/', 0);
    if is_conversation_key(s) {
        let i = first_position(s, '/', 0)->0;
        let tail = s.skip(i + 1);
        assert(s.take(i).len() == 4);
        assert(i == 4);
        assert(s.take(5) =~= s.take(4).push('/'));
        assert("room"@.push('/') =~= "room/"@);
        assert("peer"@.push('/') =~= "peer/"@);
        assert forall|k: int| 5 <= k < s.len() implies ('a' <= #[trigger] s[k] <= 'z' || '2' <= s[k]
            <= '7') by {
            assert(is_b32_digit(tail[k - 5]));
        }
    }
    if s.len() > 5 && s.len() <= 21 && (s.take(5) == "room/"@ || s.take(5) == "peer/"@) && forall|
        k: int,
    |
        5 <= k < s.len() ==> ('a' <= #[trigger] s[k] <= 'z' || '2' <= s[k] <= '7') {
        let tail = s.skip(5);
        assert forall|k: int| 0 <= k < tail.len() implies is_b32_digit(#[trigger] tail[k]) by {
            assert(tail[k] == s[k + 5]);
        }
        lemma_key_shape(s.take(5), tail);
        assert(s =~= s.take(5) + tail);
    }
}

/// Paths are put together with one separator between their parts.
pub proof fn law_paths_are_joined(base: Seq<char>, segment: Seq<char>)
    ensures
        base.len() > 0 && base.last() != '/' ==> joined_path(base, segment) == base.push('/')
            + segment,
        base.len() > 0 && base.last() == '/' ==> joined_path(base, segment) == base + segment,
        base.len() == 0 ==> joined_path(base, segment) == segment,
{
    reveal_strlit("/");
    assert(base + "/"@ =~= base.push('/'));
    if base.len() == 0 {
        assert(base + segment =~= segment);
    }
}

} // verus!
