//! Base32, base64 and digests.
//!
//! Keys, group ids and fingerprints travel as lower-case RFC 4648 base32
//! without padding; key packages travel as standard base64.
use vstd::prelude::*;

use crate::text::{chars_of, decimal, decimal_text, fold, folded, join2, prefix_of, take_chars};

verus! {

/// The base32 digit of a value below 32: `a` to `z`, then `2` to `7`.
pub open spec fn b32_digit(v: int) -> char {
    if v < 26 {
        ('a' as int + v) as char
    } else {
        ('2' as int + (v - 26)) as char
    }
}

/// `c` is a lower-case base32 digit.
pub open spec fn is_b32_digit(c: char) -> bool {
    'a' <= c <= 'z' || '2' <= c <= '7'
}

/// The value of a base32 digit.
pub open spec fn b32_digit_value(c: char) -> int {
    if 'a' <= c <= 'z' {
        c as int - 'a' as int
    } else {
        c as int - '2' as int + 26
    }
}

/// 2 to the power of `k`, for `k` from 0 to 7.
pub open spec fn weight(k: int) -> int {
    if k == 0 {
        1
    } else if k == 1 {
        2
    } else if k == 2 {
        4
    } else if k == 3 {
        8
    } else if k == 4 {
        16
    } else if k == 5 {
        32
    } else if k == 6 {
        64
    } else {
        128
    }
}

/// Bit `j` of a row of bytes, the high bit of each byte first; zero past the
/// end.
pub open spec fn byte_bit(data: Seq<u8>, j: int) -> int {
    if 0 <= j / 8 < data.len() {
        (data[j / 8] as int / weight(7 - j % 8)) % 2
    } else {
        0
    }
}

/// Bits `5 i` to `5 i + 4` of a row of bytes, as a number below 32.
pub open spec fn b32_group(data: Seq<u8>, i: int) -> int {
    16 * byte_bit(data, 5 * i) + 8 * byte_bit(data, 5 * i + 1) + 4 * byte_bit(data, 5 * i + 2) + 2
        * byte_bit(data, 5 * i + 3) + byte_bit(data, 5 * i + 4)
}

/// The base32 text of a row of bytes: one digit for each five bits.
pub open spec fn b32_encoded(data: Seq<u8>) -> Seq<char> {
    Seq::new(((8 * data.len() + 4) / 5) as nat, |i: int| b32_digit(b32_group(data, i)))
}

/// Bit `j` of a row of base32 digits, five bits to a digit.
#[verifier::opaque]
pub open spec fn digit_bit(s: Seq<char>, j: int) -> int {
    (b32_digit_value(s[j / 5]) / weight(4 - j % 5)) % 2
}

/// Bits `8 i` to `8 i + 7` of a row of base32 digits, as a byte.
pub open spec fn b32_byte(s: Seq<char>, i: int) -> u8 {
    (128 * digit_bit(s, 8 * i) + 64 * digit_bit(s, 8 * i + 1) + 32 * digit_bit(s, 8 * i + 2) + 16
        * digit_bit(s, 8 * i + 3) + 8 * digit_bit(s, 8 * i + 4) + 4 * digit_bit(s, 8 * i + 5) + 2
        * digit_bit(s, 8 * i + 6) + digit_bit(s, 8 * i + 7)) as u8
}

pub open spec fn all_b32_digits(s: Seq<char>) -> bool {
    forall|i: int| 0 <= i < s.len() ==> is_b32_digit(#[trigger] s[i])
}

/// The bytes that a base32 text stands for: nothing where a character is no
/// digit, else one byte for each eight bits; bits left over are dropped.
pub open spec fn b32_decoded(s: Seq<char>) -> Option<Seq<u8>> {
    if all_b32_digits(s) {
        Some(Seq::new((5 * s.len() / 8) as nat, |i: int| b32_byte(s, i)))
    } else {
        None
    }
}

/// Sizes whose text or bytes stay within the address space of the machine.
pub open spec fn encodable(n: nat) -> bool {
    5 * n <= usize::MAX
}

/// `base32::encode` with the alphabet `Rfc4648Lower { padding: false }`: the
/// base32 text of the bytes.
#[verifier::external_body]
pub(crate) fn encode_b32(bytes: &[u8]) -> (r: String)
    requires
        encodable(bytes@.len()),
    ensures
        r@ == b32_encoded(bytes@),
{
    base32::encode(base32::Alphabet::Rfc4648Lower { padding: false }, bytes)
}

/// `base32::decode` with the alphabet `Rfc4648Lower { padding: false }`: the
/// bytes that the text stands for, or nothing where a character is not one of
/// `a` to `z` and `2` to `7`.
#[verifier::external_body]
pub(crate) fn decode_b32(s: &str) -> (r: Option<Vec<u8>>)
    requires
        encodable(s@.len()),
    ensures
        match r {
            Some(v) => b32_decoded(s@) == Some(v@),
            None => b32_decoded(s@) is None,
        },
{
    base32::decode(base32::Alphabet::Rfc4648Lower { padding: false }, s)
}

/// The base64 digit of a number below 64: `A` to `Z`, `a` to `z`, `0` to `9`, `+`
/// and `/`.
pub open spec fn b64_digit(v: int) -> char {
    if v < 26 {
        (65 + v) as char
    } else if v < 52 {
        (97 + v - 26) as char
    } else if v < 62 {
        (48 + v - 52) as char
    } else if v == 62 {
        '+'
    } else {
        '/'
    }
}

/// The byte at a position, and 0 behind the end.
pub open spec fn lead(data: Seq<u8>, i: int) -> int {
    if i < data.len() {
        data[i] as int
    } else {
        0
    }
}

/// The standard base64 text of a row of bytes: four digits for each three bytes,
/// and the last four filled up with `=`.
pub open spec fn b64_encoded(data: Seq<u8>) -> Seq<char>
    decreases data.len(),
{
    if data.len() == 0 {
        Seq::empty()
    } else {
        let x = lead(data, 0);
        let y = lead(data, 1);
        let z = lead(data, 2);
        seq![
            b64_digit(x / 4),
            b64_digit(x % 4 * 16 + y / 16),
            if data.len() > 1 {
                b64_digit(y % 16 * 4 + z / 64)
            } else {
                '='
            },
            if data.len() > 2 {
                b64_digit(z % 64)
            } else {
                '='
            },
        ] + if data.len() > 3 {
            b64_encoded(data.skip(3))
        } else {
            Seq::empty()
        }
    }
}

/// The bytes whose standard base64 text this is; nothing where it is none.
pub open spec fn b64_decoded(s: Seq<char>) -> Option<Seq<u8>> {
    if exists|data: Seq<u8>| b64_encoded(data) == s {
        Some(choose|data: Seq<u8>| b64_encoded(data) == s)
    } else {
        None
    }
}

/// `Engine::encode` of `base64::engine::general_purpose::STANDARD`: the base64
/// text of the bytes, with padding.
#[verifier::external_body]
pub(crate) fn base64_encode(bytes: &[u8]) -> (r: String)
    requires
        encodable(bytes@.len()),
    ensures
        r@ == b64_encoded(bytes@),
{
    base64::Engine::encode(&base64::engine::general_purpose::STANDARD, bytes)
}

/// `Engine::decode` of `base64::engine::general_purpose::STANDARD`: the bytes
/// whose base64 text this is. It takes such a text and no other: the padding must
/// be there, and bits that stand for nothing must be zero.
#[verifier::external_body]
pub(crate) fn base64_decode(s: &str) -> (r: Option<Vec<u8>>)
    ensures
        match r {
            Some(v) => b64_encoded(v@) == s@,
            None => b64_decoded(s@) is None,
        },
{
    base64::Engine::decode(&base64::engine::general_purpose::STANDARD, s).ok()
}

proof fn lemma_b64_digit(a: int, b: int)
    requires
        0 <= a < 64,
        0 <= b < 64,
    ensures
        b64_digit(a) == b64_digit(b) ==> a == b,
        b64_digit(a) != '=',
{
}

proof fn lemma_b64_injective(a: Seq<u8>, b: Seq<u8>)
    requires
        b64_encoded(a) == b64_encoded(b),
    ensures
        a == b,
    decreases a.len(),
{
    let s = b64_encoded(a);
    let t = b64_encoded(b);
    if a.len() == 0 || b.len() == 0 {
        assert(s.len() == 0 || t.len() == 0);
        assert(a =~= b);
    } else {
        assert(s[0] == t[0] && s[1] == t[1] && s[2] == t[2] && s[3] == t[3]);
        let (a1, b1) = (lead(a, 1), lead(b, 1));
        let (a2, b2) = (lead(a, 2), lead(b, 2));
        let (a0, b0) = (lead(a, 0), lead(b, 0));
        lemma_b64_digit(a0 / 4, b0 / 4);
        lemma_b64_digit(a0 % 4 * 16 + a1 / 16, b0 % 4 * 16 + b1 / 16);
        lemma_b64_digit(a1 % 16 * 4 + a2 / 64, b1 % 16 * 4 + b2 / 64);
        lemma_b64_digit(a2 % 64, b2 % 64);
        if a.len() >= 3 && b.len() >= 3 {
            assert(s.skip(4) =~= b64_encoded(a.skip(3)));
            assert(t.skip(4) =~= b64_encoded(b.skip(3)));
            lemma_b64_injective(a.skip(3), b.skip(3));
            assert forall|i: int| 0 <= i < a.len() implies a[i] == b[i] by {
                if i >= 3 {
                    assert(a.skip(3)[i - 3] == b.skip(3)[i - 3]);
                }
            }
            assert(a.len() == b.len()) by {
                assert(a.skip(3).len() == b.skip(3).len());
            }
            assert(a =~= b);
        } else {
            assert(s.len() == t.len());
            assert(a =~= b);
        }
    }
}

/// Base64 reads back what it wrote: every row of bytes comes back from its own
/// text, and from no other.
pub proof fn law_b64_round_trip(data: Seq<u8>, s: Seq<char>)
    ensures
        b64_decoded(b64_encoded(data)) == Some(data),
        b64_decoded(s) == Some(data) <==> s == b64_encoded(data),
{
    let d = choose|d: Seq<u8>| b64_encoded(d) == b64_encoded(data);
    lemma_b64_injective(d, data);
    if b64_decoded(s) is Some {
        let e = choose|e: Seq<u8>| b64_encoded(e) == s;
        assert(b64_encoded(e) == s);
    }
}

/// BLAKE2b with a 16-byte output, without key.
pub uninterp spec fn blake2b_16(data: Seq<u8>) -> Seq<u8>;

/// BLAKE2b with a 32-byte output, without key.
pub uninterp spec fn blake2b_32(data: Seq<u8>) -> Seq<u8>;

/// `Digest::digest` of `blake2::Blake2b<U16>`: the 16-byte BLAKE2b digest of the
/// bytes.
#[verifier::external_body]
pub(crate) fn blake2b_128(data: &[u8]) -> (r: [u8; 16])
    ensures
        r@ == blake2b_16(data@),
{
    <blake2::Blake2b<blake2::digest::consts::U16> as blake2::Digest>::digest(data).into()
}

/// `Digest::digest` of `blake2::Blake2b<U32>`: the 32-byte BLAKE2b digest of the
/// bytes.
#[verifier::external_body]
pub(crate) fn blake2b_256(data: &[u8]) -> (r: [u8; 32])
    ensures
        r@ == blake2b_32(data@),
{
    <blake2::Blake2b<blake2::digest::consts::U32> as blake2::Digest>::digest(data).into()
}

/// Base32 reads back what it wrote: every row of bytes comes back from its own
/// text.
pub proof fn law_b32_round_trip(data: Seq<u8>)
    ensures
        b32_decoded(b32_encoded(data)) == Some(data),
{
    let s = b32_encoded(data);
    let n = data.len();
    lemma_b32_digits(data);
    assert(s.len() == (8 * n + 4) / 5);
    assert(5 * s.len() / 8 == n);
    let back = Seq::new((5 * s.len() / 8) as nat, |i: int| b32_byte(s, i));
    assert forall|i: int| 0 <= i < n implies back[i] == data[i] by {
        lemma_digit_bits(data, i);
        lemma_byte_from_bits(data[i]);
    }
    assert(back =~= data);
}

/// Each bit of the text is the bit of the bytes at the same place.
proof fn lemma_same_bit(data: Seq<u8>, j: int)
    requires
        0 <= j < 8 * data.len(),
    ensures
        digit_bit(b32_encoded(data), j) == byte_bit(data, j),
{
    reveal(digit_bit);
    let s = b32_encoded(data);
    let g = j / 5;
    assert(0 <= g < (8 * data.len() + 4) / 5);
    assert(s[g] == b32_digit(b32_group(data, g)));
    lemma_group_bits(data, g);
    let v = b32_group(data, g);
    assert(b32_digit_value(s[g]) == v);
    let r = j % 5;
    assert(5 * g + r == j);
    assert(0 <= r < 5);
    if r == 0 {
        assert(weight(4 - r) == 16);
    } else if r == 1 {
        assert(weight(4 - r) == 8);
    } else if r == 2 {
        assert(weight(4 - r) == 4);
    } else if r == 3 {
        assert(weight(4 - r) == 2);
    } else {
        assert(weight(4 - r) == 1);
    }
}

proof fn lemma_digit_bits(data: Seq<u8>, i: int)
    requires
        0 <= i < data.len(),
    ensures
        digit_bit(b32_encoded(data), 8 * i) == (data[i] as int / 128) % 2,
        digit_bit(b32_encoded(data), 8 * i + 1) == (data[i] as int / 64) % 2,
        digit_bit(b32_encoded(data), 8 * i + 2) == (data[i] as int / 32) % 2,
        digit_bit(b32_encoded(data), 8 * i + 3) == (data[i] as int / 16) % 2,
        digit_bit(b32_encoded(data), 8 * i + 4) == (data[i] as int / 8) % 2,
        digit_bit(b32_encoded(data), 8 * i + 5) == (data[i] as int / 4) % 2,
        digit_bit(b32_encoded(data), 8 * i + 6) == (data[i] as int / 2) % 2,
        digit_bit(b32_encoded(data), 8 * i + 7) == data[i] as int % 2,
{
    lemma_digit_bit(data, i, 0);
    lemma_digit_bit(data, i, 1);
    lemma_digit_bit(data, i, 2);
    lemma_digit_bit(data, i, 3);
    lemma_digit_bit(data, i, 4);
    lemma_digit_bit(data, i, 5);
    lemma_digit_bit(data, i, 6);
    lemma_digit_bit(data, i, 7);
}

proof fn lemma_digit_bit(data: Seq<u8>, i: int, k: int)
    requires
        0 <= i < data.len(),
        0 <= k < 8,
    ensures
        digit_bit(b32_encoded(data), 8 * i + k) == (data[i] as int / weight(7 - k)) % 2,
{
    lemma_same_bit(data, 8 * i + k);
    assert((8 * i + k) / 8 == i);
    assert((8 * i + k) % 8 == k);
}

/// The text of a row of bytes holds base32 digits only.
pub proof fn lemma_b32_digits(data: Seq<u8>)
    ensures
        all_b32_digits(b32_encoded(data)),
{
    assert forall|i: int| 0 <= i < b32_encoded(data).len() implies is_b32_digit(
        #[trigger] b32_encoded(data)[i],
    ) by {
        lemma_group_bits(data, i);
    }
}

proof fn lemma_group_bits(data: Seq<u8>, g: int)
    ensures
        0 <= b32_group(data, g) < 32,
        is_b32_digit(b32_digit(b32_group(data, g))),
        b32_digit_value(b32_digit(b32_group(data, g))) == b32_group(data, g),
        (b32_group(data, g) / 16) % 2 == byte_bit(data, 5 * g),
        (b32_group(data, g) / 8) % 2 == byte_bit(data, 5 * g + 1),
        (b32_group(data, g) / 4) % 2 == byte_bit(data, 5 * g + 2),
        (b32_group(data, g) / 2) % 2 == byte_bit(data, 5 * g + 3),
        b32_group(data, g) % 2 == byte_bit(data, 5 * g + 4),
{
    lemma_bit_range(data, 5 * g);
    lemma_bit_range(data, 5 * g + 1);
    lemma_bit_range(data, 5 * g + 2);
    lemma_bit_range(data, 5 * g + 3);
    lemma_bit_range(data, 5 * g + 4);
}

proof fn lemma_bit_range(data: Seq<u8>, j: int)
    ensures
        0 <= byte_bit(data, j) <= 1,
{
}

proof fn lemma_byte_from_bits(b: u8)
    ensures
        128 * ((b as int / 128) % 2) + 64 * ((b as int / 64) % 2) + 32 * ((b as int / 32) % 2) + 16
            * ((b as int / 16) % 2) + 8 * ((b as int / 8) % 2) + 4 * ((b as int / 4) % 2) + 2 * ((
        b as int / 2) % 2) + (b as int % 2) == b,
{
    assert(128 * ((b / 128) % 2) + 64 * ((b / 64) % 2) + 32 * ((b / 32) % 2) + 16 * ((b / 16) % 2)
        + 8 * ((b / 8) % 2) + 4 * ((b / 4) % 2) + 2 * ((b / 2) % 2) + (b % 2) == b) by (bit_vector);
}

/// Why a text does not name a 32-byte key.
#[derive(Debug, Clone, Copy, PartialEq, Eq, Structural)]
pub enum KeyTextError {
    /// A character is no base32 digit.
    NotBase32,
    /// The text stands for this many bytes instead of 32.
    WrongLength(usize),
}

impl KeyTextError {
    /// What the error says to a user.
    pub open spec fn text(self) -> Seq<char> {
        match self {
            KeyTextError::NotBase32 => "not valid base32"@,
            KeyTextError::WrongLength(n) => "expected 32 bytes, got "@ + decimal(n as nat),
        }
    }

    pub fn message(&self) -> (s: String)
        ensures
            s@ == self.text(),
    {
        match self {
            KeyTextError::NotBase32 => "not valid base32".to_owned(),
            KeyTextError::WrongLength(n) => join2(
                "expected 32 bytes, got ",
                decimal_text(*n as u64).as_str(),
            ),
        }
    }
}

/// What a row of decoded bytes, if any, says as a 32-byte key.
pub open spec fn key_of_bytes(bytes: Option<Seq<u8>>) -> Result<Seq<u8>, KeyTextError> {
    match bytes {
        None => Err(KeyTextError::NotBase32),
        Some(b) => if b.len() == 32 {
            Ok(b)
        } else {
            Err(KeyTextError::WrongLength(b.len() as usize))
        },
    }
}

/// The outcome of reading a key, with the key as a row of bytes.
pub open spec fn key_view(r: Result<[u8; 32], KeyTextError>) -> Result<Seq<u8>, KeyTextError> {
    match r {
        Ok(k) => Ok(k@),
        Err(e) => Err(e),
    }
}

/// A row of exactly `N` bytes as an array.
pub fn to_array<const N: usize>(bytes: &[u8]) -> (r: [u8; N])
    requires
        bytes@.len() == N,
    ensures
        r@ == bytes@,
{
    let mut out: [u8; N] = [0u8;N];
    let mut i: usize = 0;
    while i < N
        invariant
            i <= N,
            bytes@.len() == N,
            forall|j: int| 0 <= j < i ==> out@[j] == bytes@[j],
        decreases N - i,
    {
        out[i] = bytes[i];
        i += 1;
    }
    assert(out@ =~= bytes@);
    out
}

fn key_from(bytes: Option<Vec<u8>>) -> (r: Result<[u8; 32], KeyTextError>)
    ensures
        key_view(r) == key_of_bytes(
            match bytes {
                Some(v) => Some(v@),
                None => None,
            },
        ),
{
    match bytes {
        None => Err(KeyTextError::NotBase32),
        Some(v) => if v.len() == 32 {
            Ok(to_array::<32>(v.as_slice()))
        } else {
            Err(KeyTextError::WrongLength(v.len()))
        },
    }
}

/// Read a 32-byte key that a user typed: white space is ignored and capitals
/// count as small letters.
pub fn decode_b32_32(s: &str) -> (r: Result<[u8; 32], KeyTextError>)
    ensures
        key_view(r) == key_of_bytes(b32_decoded(folded(s@))),
{
    let cleaned = fold(s);
    decode_b32_32_exact(cleaned.as_str())
}

/// Read a 32-byte key exactly as it is written.
pub fn decode_b32_32_exact(s: &str) -> (r: Result<[u8; 32], KeyTextError>)
    ensures
        key_view(r) == key_of_bytes(b32_decoded(s@)),
{
    let digits = chars_of(s);
    if digits.len() <= usize::MAX / 5 {
        key_from(decode_b32(s))
    } else {
        Err(oversized_key(digits.as_slice()))
    }
}

/// What is wrong with a text that is far too long for a key.
fn oversized_key(digits: &[char]) -> (r: KeyTextError)
    requires
        digits@.len() > usize::MAX / 5,
    ensures
        key_of_bytes(b32_decoded(digits@)) == Err::<Seq<u8>, KeyTextError>(r),
{
    let n: usize = digits.len();
    let mut i: usize = 0;
    while i < n
        invariant
            i <= n,
            n == digits@.len(),
            forall|j: int| 0 <= j < i ==> is_b32_digit(#[trigger] digits@[j]),
        decreases n - i,
    {
        let c = digits[i];
        if !(('a' <= c && c <= 'z') || ('2' <= c && c <= '7')) {
            assert(!is_b32_digit(digits@[i as int]));
            return KeyTextError::NotBase32;
        }
        i += 1;
    }
    KeyTextError::WrongLength(n / 8 * 5 + n % 8 * 5 / 8)
}

/// The eight-character label of a base32 text.
pub open spec fn short_label(b32: Seq<char>) -> Seq<char> {
    prefix_of(b32, 8)
}

/// The eight-character label that users see in place of a full base32 key.
pub fn short_id_of(pubkey_b32: &str) -> (r: String)
    ensures
        r@ == short_label(pubkey_b32@),
{
    take_chars(pubkey_b32, 8)
}

/// The eight-character label of a group id.
pub fn short_id_of_group(group_id: &[u8]) -> (r: String)
    requires
        encodable(group_id@.len()),
    ensures
        r@ == short_label(b32_encoded(group_id@)),
{
    let full = encode_b32(group_id);
    take_chars(full.as_str(), 8)
}

/// The eight-character label of a peer's public key.
pub fn short_id_of_peer_pub(peer_pub: &[u8; 32]) -> (r: String)
    ensures
        r@ == short_label(b32_encoded(peer_pub@)),
{
    let full = encode_b32(peer_pub.as_slice());
    take_chars(full.as_str(), 8)
}

/// Two keys with the same base32 text are the same key.
pub proof fn law_b32_injective(a: Seq<u8>, b: Seq<u8>)
    ensures
        b32_encoded(a) == b32_encoded(b) ==> a == b,
{
    law_b32_round_trip(a);
    law_b32_round_trip(b);
}

} // verus!
