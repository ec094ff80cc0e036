//! Small operations on text, stated over the characters of a string.
use vstd::prelude::*;
use vstd::string::*;

verus! {

/// `str::eq`: two string slices are equal exactly when they hold the same
/// characters in the same order.
pub assume_specification[ <str as PartialEq<str>>::eq ](x: &str, y: &str) -> (r: bool)
    ensures
        r == (x@ == y@),
;

/// `String::push`: appends one character at the end.
pub assume_specification[ String::push ](s: &mut String, c: char)
    ensures
        final(s)@ == old(s)@.push(c),
;

/// What `char::to_lowercase` yields for a character.
pub uninterp spec fn lowercase_of(c: char) -> Seq<char>;

/// `char::to_lowercase`: the lower-case mapping of one character, which is one
/// or more characters. An ASCII capital maps to its small letter; an ASCII
/// character that is no capital maps to itself.
#[verifier::external_body]
fn to_lowercase(c: char) -> (r: Vec<char>)
    ensures
        r@ == lowercase_of(c),
        'A' <= c <= 'Z' ==> r@ == seq![(c as int + 32) as char],
        c as int <= 127 && !('A' <= c <= 'Z') ==> r@ == seq![c],
{
    c.to_lowercase().collect()
}

/// Whether two texts hold the same characters.
pub fn same_text(a: &str, b: &str) -> (r: bool)
    ensures
        r == (a@ == b@),
{
    *a == *b
}

/// The characters of `s`, in order.
pub fn chars_of(s: &str) -> (v: Vec<char>)
    ensures
        v@ == s@,
{
    let mut v: Vec<char> = Vec::new();
    for c in it: s.chars()
        invariant
            v@ == s@.take(it.index()),
            it.seq() == s@,
    {
        v.push(c);
    }
    v
}

/// The text whose characters are those of `v`.
pub fn text_of(v: &[char]) -> (s: String)
    ensures
        s@ == v@,
{
    let mut s = String::new();
    let mut i: usize = 0;
    while i < v.len()
        invariant
            i <= v.len(),
            s@ == v@.take(i as int),
        decreases v.len() - i,
    {
        s.push(v[i]);
        i += 1;
    }
    s
}

/// `a` followed by `b`.
pub fn join2(a: &str, b: &str) -> (s: String)
    ensures
        s@ == a@ + b@,
{
    let mut s = a.to_owned();
    s.append(b);
    s
}

/// `a`, `b` and `c`, one after the other.
pub fn join3(a: &str, b: &str, c: &str) -> (s: String)
    ensures
        s@ == a@ + b@ + c@,
{
    let mut s = a.to_owned();
    s.append(b);
    s.append(c);
    s
}

/// The first `n` characters, or all of them where there are fewer.
pub open spec fn prefix_of(s: Seq<char>, n: int) -> Seq<char> {
    if s.len() <= n {
        s
    } else {
        s.take(n)
    }
}

/// The first `n` characters of `s`.
pub fn take_chars(s: &str, n: usize) -> (r: String)
    ensures
        r@ == prefix_of(s@, n as int),
{
    let v = chars_of(s);
    if v.len() <= n {
        text_of(v.as_slice())
    } else {
        text_of(vstd::slice::slice_subrange(v.as_slice(), 0, n))
    }
}

/// `s` begins with `p`.
pub open spec fn starts_with(s: Seq<char>, p: Seq<char>) -> bool {
    p.len() <= s.len() && s.take(p.len() as int) == p
}

/// Whether `s` begins with `p`.
pub fn has_prefix(s: &str, p: &str) -> (r: bool)
    ensures
        r == starts_with(s@, p@),
{
    let a = chars_of(s);
    let b = chars_of(p);
    if b.len() > a.len() {
        return false;
    }
    let mut i: usize = 0;
    while i < b.len()
        invariant
            i <= b.len() <= a.len(),
            a@ == s@,
            b@ == p@,
            forall|j: int| 0 <= j < i ==> a@[j] == b@[j],
        decreases b.len() - i,
    {
        if a[i] != b[i] {
            assert(s@.take(p@.len() as int)[i as int] != p@[i as int]);
            return false;
        }
        i += 1;
    }
    assert(s@.take(p@.len() as int) =~= p@);
    true
}

/// The position of the last `c` in `s`.
pub open spec fn last_position(s: Seq<char>, c: char) -> Option<int>
    decreases s.len(),
{
    if s.len() == 0 {
        None
    } else if s.last() == c {
        Some(s.len() - 1)
    } else {
        last_position(s.drop_last(), c)
    }
}

/// The position of the last `c` in `v`.
pub fn find_last(v: &[char], c: char) -> (r: Option<usize>)
    ensures
        match r {
            Some(i) => i < v@.len() && last_position(v@, c) == Some(i as int),
            None => last_position(v@, c) is None,
        },
{
    let mut n: usize = v.len();
    proof {
        assert(v@.take(n as int) =~= v@);
    }
    while n > 0
        invariant
            n <= v.len(),
            last_position(v@, c) == last_position(v@.take(n as int), c),
        decreases n,
    {
        proof {
            assert(v@.take(n as int).drop_last() =~= v@.take(n - 1));
            assert(v@.take(n as int).last() == v@[n - 1]);
        }
        if v[n - 1] == c {
            return Some(n - 1);
        }
        n -= 1;
    }
    None
}

/// The position of the first `c` in `s`, from `from` on.
pub open spec fn first_position(s: Seq<char>, c: char, from: int) -> Option<int>
    decreases s.len() - from,
{
    if from < 0 || from >= s.len() {
        None
    } else if s[from] == c {
        Some(from)
    } else {
        first_position(s, c, from + 1)
    }
}

/// The position of the first `c` in `v`.
pub fn find_first(v: &[char], c: char) -> (r: Option<usize>)
    ensures
        match r {
            Some(i) => i < v@.len() && first_position(v@, c, 0) == Some(i as int),
            None => first_position(v@, c, 0) is None,
        },
{
    let mut i: usize = 0;
    while i < v.len()
        invariant
            i <= v.len(),
            first_position(v@, c, 0) == first_position(v@, c, i as int),
        decreases v.len() - i,
    {
        if v[i] == c {
            return Some(i);
        }
        i += 1;
    }
    None
}

/// A position that `first_position` finds holds `c`, and none before it does.
pub proof fn lemma_first_position(s: Seq<char>, c: char, from: int)
    requires
        0 <= from,
    ensures
        match first_position(s, c, from) {
            Some(i) => from <= i < s.len() && s[i] == c && forall|j: int|
                from <= j < i ==> s[j] != c,
            None => forall|j: int| from <= j < s.len() ==> s[j] != c,
        },
    decreases s.len() - from,
{
    if from < s.len() && s[from] != c {
        lemma_first_position(s, c, from + 1);
    }
}

/// The pieces of `s` between the separators `c`, from position `from` on, the
/// piece under way being `piece`.
pub open spec fn pieces(s: Seq<char>, c: char, from: int, piece: Seq<char>) -> Seq<Seq<char>>
    decreases s.len() - from,
{
    if from < 0 || from >= s.len() {
        seq![piece]
    } else if s[from] == c {
        seq![piece] + pieces(s, c, from + 1, Seq::empty())
    } else {
        pieces(s, c, from + 1, piece.push(s[from]))
    }
}

/// The pieces of `s` between the separators `c` that are not empty.
pub open spec fn nonempty_pieces(s: Seq<char>, c: char) -> Seq<Seq<char>> {
    pieces(s, c, 0, Seq::empty()).filter(|p: Seq<char>| p.len() > 0)
}

/// The characters of each text of a list.
pub open spec fn texts(v: Seq<String>) -> Seq<Seq<char>> {
    v.map_values(|s: String| s@)
}

/// Split `s` at every `c` and drop the empty pieces.
pub fn split_nonempty(s: &str, c: char) -> (r: Vec<String>)
    ensures
        texts(r@) == nonempty_pieces(s@, c),
{
    let v = chars_of(s);
    let mut out: Vec<String> = Vec::new();
    let mut piece = String::new();
    let mut i: usize = 0;
    let ghost keep = |p: Seq<char>| p.len() > 0;
    proof {
        assert(texts(out@) =~= Seq::<Seq<char>>::empty());
        assert(texts(out@) + pieces(s@, c, 0, piece@).filter(keep) =~= nonempty_pieces(s@, c));
    }
    while i < v.len()
        invariant
            i <= v.len(),
            v@ == s@,
            keep == (|p: Seq<char>| p.len() > 0),
            texts(out@) + pieces(s@, c, i as int, piece@).filter(keep) == nonempty_pieces(s@, c),
        decreases v.len() - i,
    {
        if v[i] == c {
            let ghost rest = pieces(s@, c, i + 1, Seq::empty());
            let ghost before = texts(out@);
            let ghost p = piece@;
            proof {
                lemma_filter_head(p, rest, keep);
            }
            if chars_of(piece.as_str()).len() > 0 {
                out.push(piece);
                proof {
                    assert(texts(out@) =~= before.push(p));
                    assert(before.push(p) + rest.filter(keep) =~= before + (seq![p] + rest.filter(
                        keep,
                    )));
                }
            }
            piece = String::new();
        } else {
            piece.push(v[i]);
        }
        i += 1;
    }
    let ghost before = texts(out@);
    let ghost p = piece@;
    proof {
        assert(pieces(s@, c, i as int, p) == seq![p]);
        assert(seq![p] =~= seq![p] + Seq::<Seq<char>>::empty());
        lemma_filter_head(p, Seq::<Seq<char>>::empty(), keep);
        reveal(Seq::filter);
        assert(Seq::<Seq<char>>::empty().filter(keep) =~= Seq::<Seq<char>>::empty());
    }
    if chars_of(piece.as_str()).len() > 0 {
        out.push(piece);
        proof {
            assert(texts(out@) =~= before.push(p));
        }
    }
    proof {
        assert(texts(out@) =~= nonempty_pieces(s@, c));
    }
    out
}

proof fn lemma_filter_head<A>(a: A, rest: Seq<A>, keep: spec_fn(A) -> bool)
    ensures
        (seq![a] + rest).filter(keep) == if keep(a) {
            seq![a] + rest.filter(keep)
        } else {
            rest.filter(keep)
        },
    decreases rest.len(),
{
    reveal(Seq::filter);
    let whole = seq![a] + rest;
    if rest.len() == 0 {
        assert(whole.drop_last() =~= Seq::<A>::empty());
        assert(rest =~= Seq::<A>::empty());
        assert(whole.last() == a);
        assert(whole.filter(keep) =~= if keep(a) {
            seq![a] + rest.filter(keep)
        } else {
            rest.filter(keep)
        });
    } else {
        assert(whole.drop_last() =~= seq![a] + rest.drop_last());
        assert(whole.last() == rest.last());
        lemma_filter_head(a, rest.drop_last(), keep);
        assert(whole.filter(keep) =~= if keep(a) {
            seq![a] + rest.filter(keep)
        } else {
            rest.filter(keep)
        });
    }
}

/// The characters with the Unicode property `White_Space`.
pub open spec fn is_white_space(c: char) -> bool {
    ||| '\u{9}' <= c <= '\u{d}'
    ||| c == ' '
    ||| c == '\u{85}'
    ||| c == '\u{a0}'
    ||| c == '\u{1680}'
    ||| '\u{2000}' <= c <= '\u{200a}'
    ||| c == '\u{2028}'
    ||| c == '\u{2029}'
    ||| c == '\u{202f}'
    ||| c == '\u{205f}'
    ||| c == '\u{3000}'
}

/// Whether `c` is white space.
pub fn white_space(c: char) -> (r: bool)
    ensures
        r == is_white_space(c),
{
    ('\u{9}' <= c && c <= '\u{d}') || c == ' ' || c == '\u{85}' || c == '\u{a0}' || c == '\u{1680}'
        || ('\u{2000}' <= c && c <= '\u{200a}') || c == '\u{2028}' || c == '\u{2029}' || c
        == '\u{202f}' || c == '\u{205f}' || c == '\u{3000}'
}

/// Nothing but white space.
pub open spec fn is_blank(s: Seq<char>) -> bool {
    forall|i: int| 0 <= i < s.len() ==> is_white_space(#[trigger] s[i])
}

/// Whether `s` holds nothing but white space.
pub fn blank(s: &str) -> (r: bool)
    ensures
        r == is_blank(s@),
{
    let v = chars_of(s);
    let mut i: usize = 0;
    while i < v.len()
        invariant
            i <= v.len(),
            v@ == s@,
            forall|j: int| 0 <= j < i ==> is_white_space(#[trigger] s@[j]),
        decreases v.len() - i,
    {
        if !white_space(v[i]) {
            assert(!is_white_space(s@[i as int]));
            return false;
        }
        i += 1;
    }
    true
}

/// White space dropped, the rest in lower case.
pub open spec fn folded(s: Seq<char>) -> Seq<char>
    decreases s.len(),
{
    if s.len() == 0 {
        Seq::empty()
    } else if is_white_space(s.last()) {
        folded(s.drop_last())
    } else {
        folded(s.drop_last()) + lowercase_of(s.last())
    }
}

/// Drop the white space of `s` and put the rest in lower case.
pub fn fold(s: &str) -> (r: String)
    ensures
        r@ == folded(s@),
{
    let v = chars_of(s);
    let mut out: Vec<char> = Vec::new();
    let mut i: usize = 0;
    while i < v.len()
        invariant
            i <= v.len(),
            v@ == s@,
            out@ == folded(s@.take(i as int)),
        decreases v.len() - i,
    {
        proof {
            assert(s@.take(i + 1).drop_last() =~= s@.take(i as int));
            assert(s@.take(i + 1).last() == s@[i as int]);
        }
        if !white_space(v[i]) {
            let mut low = to_lowercase(v[i]);
            out.append(&mut low);
        }
        i += 1;
    }
    proof {
        assert(s@.take(i as int) =~= s@);
    }
    text_of(out.as_slice())
}

pub open spec fn is_digit(c: char) -> bool {
    '0' <= c <= '9'
}

/// The number that a row of decimal digits stands for.
pub open spec fn digits_value(s: Seq<char>) -> int
    decreases s.len(),
{
    if s.len() == 0 {
        0
    } else {
        10 * digits_value(s.drop_last()) + (s.last() as int - '0' as int)
    }
}

pub open spec fn all_digits(s: Seq<char>) -> bool {
    forall|i: int| 0 <= i < s.len() ==> is_digit(#[trigger] s[i])
}

/// The port number that a text stands for: an optional `+`, then one or more
/// decimal digits, of value at most 65535.
pub open spec fn port_value(s: Seq<char>) -> Option<u16> {
    let d = if s.len() > 0 && s[0] == '+' {
        s.skip(1)
    } else {
        s
    };
    if d.len() > 0 && all_digits(d) && digits_value(d) <= 65535 {
        Some(digits_value(d) as u16)
    } else {
        None
    }
}

proof fn lemma_digits_prefix(s: Seq<char>, n: int)
    requires
        all_digits(s),
        0 <= n <= s.len(),
    ensures
        0 <= digits_value(s.take(n)) <= digits_value(s),
    decreases s.len(),
{
    if n == s.len() {
        assert(s.take(n) =~= s);
        if n > 0 {
            assert(is_digit(s[n - 1]));
            assert(s.drop_last() =~= s.take(n - 1));
            assert(all_digits(s.drop_last())) by {
                assert forall|i: int| 0 <= i < s.drop_last().len() implies is_digit(
                    #[trigger] s.drop_last()[i],
                ) by {
                    assert(is_digit(s[i]));
                }
            }
            lemma_digits_prefix(s.drop_last(), n - 1);
        }
    } else {
        assert(all_digits(s.drop_last())) by {
            assert forall|i: int| 0 <= i < s.drop_last().len() implies is_digit(
                #[trigger] s.drop_last()[i],
            ) by {
                assert(is_digit(s[i]));
            }
        }
        assert(is_digit(s[s.len() - 1]));
        assert(s.drop_last().take(n) =~= s.take(n));
        lemma_digits_prefix(s.drop_last(), n);
    }
}

/// Read the port number that a row of characters stands for.
pub fn read_port(v: &[char]) -> (r: Option<u16>)
    ensures
        r == port_value(v@),
{
    let start: usize = if v.len() > 0 && v[0] == '+' {
        1
    } else {
        0
    };
    let ghost d = if v@.len() > 0 && v@[0] == '+' {
        v@.skip(1)
    } else {
        v@
    };
    proof {
        assert(d =~= v@.subrange(start as int, v@.len() as int));
    }
    if start == v.len() {
        return None;
    }
    let mut value: u32 = 0;
    let mut i: usize = start;
    while i < v.len()
        invariant
            start <= i <= v.len(),
            start <= 1,
            d == v@.subrange(start as int, v@.len() as int),
            d == if v@.len() > 0 && v@[0] == '+' {
                v@.skip(1)
            } else {
                v@
            },
            value <= 65535,
            value == digits_value(d.take(i - start)),
            forall|j: int| 0 <= j < i - start ==> is_digit(#[trigger] d[j]),
        decreases v.len() - i,
    {
        let c = v[i];
        proof {
            assert(d[i - start] == c);
            assert(d.take(i - start + 1).drop_last() =~= d.take(i - start));
            assert(d.take(i - start + 1).last() == c);
        }
        if !('0' <= c && c <= '9') {
            assert(!is_digit(d[i - start]));
            return None;
        }
        value = value * 10 + (c as u32 - '0' as u32);
        if value > 65535 {
            proof {
                if all_digits(d) {
                    lemma_digits_prefix(d, i - start + 1);
                }
            }
            return None;
        }
        i += 1;
    }
    proof {
        assert(d.take(i - start) =~= d);
    }
    Some(value as u16)
}

/// The decimal digits of a number, without leading zeros.
pub open spec fn decimal(n: nat) -> Seq<char>
    decreases n,
{
    if n < 10 {
        seq![(n + '0' as int) as char]
    } else {
        decimal(n / 10).push((n % 10 + '0' as int) as char)
    }
}

/// Write a number in decimal.
pub fn decimal_text(n: u64) -> (s: String)
    ensures
        s@ == decimal(n as nat),
    decreases n,
{
    let mut s = if n < 10 {
        String::new()
    } else {
        decimal_text(n / 10)
    };
    let d: u8 = (n % 10) as u8;
    s.push((d + 48) as char);
    proof {
        assert(decimal(n as nat) =~= s@);
    }
    s
}

/// The position of the last occurrence holds the character, and no later one does.
pub proof fn law_last_position(s: Seq<char>, c: char)
    ensures
        match last_position(s, c) {
            Some(i) => 0 <= i < s.len() && s[i] == c && forall|j: int|
                i < j < s.len() ==> s[j] != c,
            None => forall|j: int| 0 <= j < s.len() ==> s[j] != c,
        },
    decreases s.len(),
{
    if s.len() > 0 && s.last() != c {
        let front = s.drop_last();
        law_last_position(front, c);
        assert forall|j: int|
            0 <= j < s.len() && (last_position(s, c) is Some ==> last_position(s, c)->0 < j) implies s[j]
            != c by {
            if j < front.len() {
                assert(front[j] == s[j]);
            }
        }
        if last_position(s, c) is Some {
            assert(front[last_position(s, c)->0] == s[last_position(s, c)->0]);
        }
    }
}

/// A number that is written in decimal reads back as itself, has no other digits
/// than decimal ones, and does not begin with a zero unless it is zero.
pub proof fn law_decimal_reads_back(n: nat)
    ensures
        decimal(n).len() > 0,
        all_digits(decimal(n)),
        digits_value(decimal(n)) == n,
        decimal(n)[0] == '0' ==> n == 0,
        n <= 65535 ==> port_value(decimal(n)) == Some(n as u16),
    decreases n,
{
    let s = decimal(n);
    if n < 10 {
        assert(s.drop_last() =~= Seq::<char>::empty());
        assert(digits_value(s.drop_last()) == 0);
        assert(s.last() == (n + '0' as int) as char);
        assert(digits_value(s) == n);
    } else {
        law_decimal_reads_back(n / 10);
        assert(s.drop_last() =~= decimal(n / 10));
        assert(s.last() == (n % 10 + '0' as int) as char);
        assert(digits_value(s) == n);
        assert(s[0] == decimal(n / 10)[0]);
    }
    assert(is_digit(s[0]));
}

/// The code points of white space.
pub proof fn law_white_space(c: char)
    ensures
        is_white_space(c) <==> {
            let n = c as int;
            ||| 9 <= n <= 13
            ||| 8192 <= n <= 8202
            ||| set![32int, 133, 160, 5760, 8232, 8233, 8239, 8287, 12288].contains(n)
        },
{
}

/// Folding leaves no white space of its input and keeps the order of the rest; what is
/// folded in two parts is folded as a whole.
pub proof fn law_folding(a: Seq<char>, b: Seq<char>)
    ensures
        folded(a + b) == folded(a) + folded(b),
        is_blank(a) ==> folded(a) == Seq::<char>::empty(),
        a.len() == 1 && !is_white_space(a[0]) ==> folded(a) == lowercase_of(a[0]),
    decreases b.len(), a.len(),
{
    if b.len() > 0 {
        law_folding(a, b.drop_last());
        assert((a + b).drop_last() =~= a + b.drop_last());
        assert(folded(a + b) =~= folded(a) + folded(b));
    } else {
        assert(a + b =~= a);
        if a.len() > 0 {
            law_folding(a.drop_last(), b);
            if is_blank(a) {
                assert(is_white_space(a[a.len() - 1]));
                assert forall|i: int| 0 <= i < a.drop_last().len() implies is_white_space(
                    #[trigger] a.drop_last()[i],
                ) by {
                    assert(is_white_space(a[i]));
                }
            }
            if a.len() == 1 {
                assert(a.drop_last() =~= Seq::<char>::empty());
                assert(folded(a) =~= if is_white_space(a[0]) {
                    Seq::empty()
                } else {
                    lowercase_of(a[0])
                });
            }
        }
        assert(folded(a + b) =~= folded(a) + folded(b));
    }
}

} // verus!
