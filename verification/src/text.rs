//! Text primitives: byte lengths of char sequences, UTF-8 boundaries,
//! prefix tests and the char predicates that the matchers use.
use vstd::prelude::*;
use vstd::std_specs::iter::IteratorSpec;
use vstd::utf8::*;

verus! {

broadcast use vstd::string::group_string_axioms;

/// The number of bytes of the UTF-8 encoding of `c`.
pub open spec fn char_width(c: char) -> nat {
    if (c as u32) <= 0x7f {
        1
    } else if (c as u32) <= 0x7ff {
        2
    } else if (c as u32) <= 0xffff {
        3
    } else {
        4
    }
}

/// The number of bytes of the UTF-8 encoding of `cs`.
pub open spec fn byte_len(cs: Seq<char>) -> nat {
    encode_utf8(cs).len()
}

/// Whether `s` starts with `p` (char by char).
pub open spec fn seq_starts_with(s: Seq<char>, p: Seq<char>) -> bool {
    p.len() <= s.len() && s.take(p.len() as int) == p
}

pub proof fn lemma_char_width(c: char)
    ensures
        encode_scalar(c as u32).len() == char_width(c),
        1 <= char_width(c) <= 4,
{
    char_is_scalar(c);
}

pub proof fn lemma_encode_add(a: Seq<char>, b: Seq<char>)
    ensures
        encode_utf8(a + b) == encode_utf8(a) + encode_utf8(b),
    decreases a.len(),
{
    if a.len() == 0 {
        assert(a + b == b);
        assert(encode_utf8(a) + encode_utf8(b) == encode_utf8(b));
    } else {
        lemma_encode_add(a.drop_first(), b);
        assert((a + b).drop_first() == a.drop_first() + b);
        assert((a + b)[0] == a[0]);
        assert(encode_utf8(a + b) == encode_scalar(a[0] as u32) + encode_utf8(a.drop_first() + b));
        assert(encode_utf8(a) == encode_scalar(a[0] as u32) + encode_utf8(a.drop_first()));
    }
}

pub proof fn lemma_byte_len_add(a: Seq<char>, b: Seq<char>)
    ensures
        byte_len(a + b) == byte_len(a) + byte_len(b),
{
    lemma_encode_add(a, b);
}

pub proof fn lemma_byte_len_empty()
    ensures
        byte_len(Seq::<char>::empty()) == 0,
{
}

pub proof fn lemma_byte_len_single(c: char)
    ensures
        byte_len(seq![c]) == char_width(c),
{
    lemma_char_width(c);
    assert(seq![c].drop_first() == Seq::<char>::empty());
    assert(encode_utf8(seq![c]) == encode_scalar(c as u32) + encode_utf8(Seq::<char>::empty()));
}

pub proof fn lemma_byte_len_push(a: Seq<char>, c: char)
    ensures
        byte_len(a.push(c)) == byte_len(a) + char_width(c),
{
    lemma_byte_len_add(a, seq![c]);
    lemma_byte_len_single(c);
    assert(a.push(c) == a + seq![c]);
}

/// A char sequence takes some bytes iff it is not empty.
pub proof fn lemma_byte_len_pos(cs: Seq<char>)
    ensures
        cs.len() > 0 <==> byte_len(cs) > 0,
{
    if cs.len() > 0 {
        lemma_byte_len_take_next(cs, 0);
        lemma_byte_len_split(cs, 1);
        assert(cs.take(0) == Seq::<char>::empty());
        lemma_char_width(cs[0]);
    } else {
        assert(cs == Seq::<char>::empty());
    }
}

/// Splitting a char sequence at `k` splits its byte length.
pub proof fn lemma_byte_len_split(cs: Seq<char>, k: int)
    requires
        0 <= k <= cs.len(),
    ensures
        byte_len(cs) == byte_len(cs.take(k)) + byte_len(cs.skip(k)),
        byte_len(cs.take(k)) <= byte_len(cs),
{
    assert(cs == cs.take(k) + cs.skip(k));
    lemma_byte_len_add(cs.take(k), cs.skip(k));
}

/// The byte length of a prefix grows with the prefix.
pub proof fn lemma_byte_len_take_mono(cs: Seq<char>, i: int, j: int)
    requires
        0 <= i <= j <= cs.len(),
    ensures
        byte_len(cs.take(i)) <= byte_len(cs.take(j)),
        i < j ==> byte_len(cs.take(i)) < byte_len(cs.take(j)),
{
    let t = cs.take(j);
    lemma_byte_len_split(t, i);
    assert(t.take(i) == cs.take(i));
    if i < j {
        assert(t.skip(i)[0] == cs[i]);
        assert(t.skip(i) == seq![cs[i]] + t.skip(i).drop_first());
        lemma_byte_len_add(seq![cs[i]], t.skip(i).drop_first());
        lemma_byte_len_single(cs[i]);
        lemma_char_width(cs[i]);
    }
}

/// The byte length of a prefix taken one char further.
pub proof fn lemma_byte_len_take_next(cs: Seq<char>, i: int)
    requires
        0 <= i < cs.len(),
    ensures
        byte_len(cs.take(i + 1)) == byte_len(cs.take(i)) + char_width(cs[i]),
{
    assert(cs.take(i + 1) == cs.take(i).push(cs[i]));
    lemma_byte_len_push(cs.take(i), cs[i]);
}

pub proof fn lemma_encode_first(cs: Seq<char>)
    requires
        cs.len() > 0,
    ensures
        pop_first_scalar(encode_utf8(cs)) == encode_utf8(cs.drop_first()),
        length_of_first_scalar(encode_utf8(cs)) == char_width(cs[0]),
        valid_first_scalar(encode_utf8(cs)),
{
    encode_utf8_first_scalar(cs);
    lemma_char_width(cs[0]);
    assert(pop_first_scalar(encode_utf8(cs)) =~= encode_utf8(cs.drop_first()));
}

/// Every prefix of a char sequence ends on a char boundary of its encoding.
pub proof fn lemma_boundary_of_prefix(cs: Seq<char>, k: int)
    requires
        0 <= k <= cs.len(),
    ensures
        is_char_boundary(encode_utf8(cs), byte_len(cs.take(k)) as int),
    decreases cs.len(),
{
    encode_utf8_valid_utf8(cs);
    if k == 0 {
        assert(cs.take(0) == Seq::<char>::empty());
    } else {
        lemma_encode_first(cs);
        lemma_boundary_of_prefix(cs.drop_first(), k - 1);
        assert(cs.take(k) == seq![cs[0]] + cs.drop_first().take(k - 1));
        lemma_byte_len_add(seq![cs[0]], cs.drop_first().take(k - 1));
        lemma_byte_len_single(cs[0]);
        lemma_byte_len_split(cs.drop_first(), k - 1);
        lemma_byte_len_split(cs, k);
    }
}

/// Every char boundary of an encoding is the end of some prefix.
pub proof fn lemma_prefix_of_boundary(cs: Seq<char>, p: int)
    requires
        is_char_boundary(encode_utf8(cs), p),
    ensures
        exists|k: int| 0 <= k <= cs.len() && p == byte_len(#[trigger] cs.take(k)),
    decreases cs.len(),
{
    encode_utf8_valid_utf8(cs);
    if p == 0 {
        assert(cs.take(0) == Seq::<char>::empty());
        assert(p == byte_len(cs.take(0)));
    } else {
        if cs.len() == 0 {
            assert(encode_utf8(cs).len() == 0);
        } else {
            lemma_encode_first(cs);
            let w = char_width(cs[0]) as int;
            lemma_prefix_of_boundary(cs.drop_first(), p - w);
            let k0 = choose|k: int|
                0 <= k <= cs.drop_first().len() && p - w == byte_len(
                    #[trigger] cs.drop_first().take(k),
                );
            assert(cs.take(k0 + 1) == seq![cs[0]] + cs.drop_first().take(k0));
            lemma_byte_len_add(seq![cs[0]], cs.drop_first().take(k0));
            lemma_byte_len_single(cs[0]);
            assert(p == byte_len(cs.take(k0 + 1)));
        }
    }
}

/// The bytes that follow a prefix encode the remaining chars.
pub proof fn lemma_encode_skip(cs: Seq<char>, k: int)
    requires
        0 <= k <= cs.len(),
    ensures
        encode_utf8(cs).subrange(byte_len(cs.take(k)) as int, encode_utf8(cs).len() as int)
            == encode_utf8(cs.skip(k)),
{
    assert(cs == cs.take(k) + cs.skip(k));
    lemma_encode_add(cs.take(k), cs.skip(k));
    assert(encode_utf8(cs).subrange(byte_len(cs.take(k)) as int, encode_utf8(cs).len() as int)
        =~= encode_utf8(cs.skip(k)));
}

/// Two strings with the same encoding hold the same chars.
pub proof fn lemma_encode_injective(a: Seq<char>, b: Seq<char>)
    requires
        encode_utf8(a) == encode_utf8(b),
    ensures
        a == b,
{
    encode_utf8_decode_utf8(a);
    encode_utf8_decode_utf8(b);
}

/// Return the part of `s` after its first `k` chars, which take `n` bytes.
pub fn str_skip<'a>(s: &'a str, n: usize, Ghost(k): Ghost<int>) -> (r: &'a str)
    requires
        0 <= k <= s@.len(),
        n == byte_len(s@.take(k)),
    ensures
        r@ == s@.skip(k),
{
    proof {
        lemma_boundary_of_prefix(s@, k);
    }
    let (_, r) = s.split_at(n);
    proof {
        lemma_encode_skip(s@, k);
        lemma_encode_injective(r@, s@.skip(k));
    }
    r
}


/// Return the first `k` chars of `s`, which take `n` bytes.
pub fn str_take<'a>(s: &'a str, n: usize, Ghost(k): Ghost<int>) -> (r: &'a str)
    requires
        0 <= k <= s@.len(),
        n == byte_len(s@.take(k)),
    ensures
        r@ == s@.take(k),
{
    proof {
        lemma_boundary_of_prefix(s@, k);
    }
    let (r, _) = s.split_at(n);
    proof {
        assert(s@ == s@.take(k) + s@.skip(k));
        lemma_encode_add(s@.take(k), s@.skip(k));
        assert(encode_utf8(s@).subrange(0, n as int) =~= encode_utf8(s@.take(k)));
        lemma_encode_injective(r@, s@.take(k));
    }
    r
}

/// Whether byte offset `pos` of a text with chars `t` lies between two chars.
pub open spec fn is_boundary(t: Seq<char>, pos: int) -> bool {
    exists|k: int| 0 <= k <= t.len() && pos == byte_len(#[trigger] t.take(k))
}

/// The number of chars before byte offset `pos`.
pub open spec fn char_index(t: Seq<char>, pos: int) -> int {
    choose|k: int| 0 <= k <= t.len() && pos == byte_len(#[trigger] t.take(k))
}

/// The chars after byte offset `pos`.
pub open spec fn chars_after(t: Seq<char>, pos: int) -> Seq<char> {
    t.skip(char_index(t, pos))
}

/// Byte offsets of prefixes are distinct.
pub proof fn lemma_take_unique(t: Seq<char>, i: int, j: int)
    requires
        0 <= i <= t.len(),
        0 <= j <= t.len(),
        byte_len(t.take(i)) == byte_len(t.take(j)),
    ensures
        i == j,
{
    if i < j {
        lemma_byte_len_take_mono(t, i, j);
    } else if j < i {
        lemma_byte_len_take_mono(t, j, i);
    }
}

/// The char index of the end of the `k`-char prefix is `k`.
pub proof fn lemma_char_index(t: Seq<char>, k: int)
    requires
        0 <= k <= t.len(),
    ensures
        is_boundary(t, byte_len(t.take(k)) as int),
        char_index(t, byte_len(t.take(k)) as int) == k,
        chars_after(t, byte_len(t.take(k)) as int) == t.skip(k),
{
    let p = byte_len(t.take(k)) as int;
    assert(is_boundary(t, p));
    let k2 = char_index(t, p);
    lemma_take_unique(t, k, k2);
}

/// Boundaries in the sense of `is_boundary` are UTF-8 char boundaries.
pub proof fn lemma_is_boundary_iff(t: Seq<char>, pos: int)
    ensures
        is_boundary(t, pos) <==> is_char_boundary(encode_utf8(t), pos),
{
    if is_boundary(t, pos) {
        let k = char_index(t, pos);
        lemma_boundary_of_prefix(t, k);
    }
    if is_char_boundary(encode_utf8(t), pos) {
        lemma_prefix_of_boundary(t, pos);
    }
}

/// Return the part of `s` after byte offset `pos`.
pub fn str_after<'a>(s: &'a str, pos: usize) -> (r: &'a str)
    requires
        is_boundary(s@, pos as int),
    ensures
        r@ == chars_after(s@, pos as int),
{
    let ghost k = char_index(s@, pos as int);
    str_skip(s, pos, Ghost(k))
}

/// The number of bytes of the UTF-8 encoding of `c`, like `char::len_utf8`.
pub fn len_utf8(c: char) -> (n: usize)
    ensures
        n == char_width(c),
        1 <= n <= 4,
{
    let v = c as u32;
    if v <= 0x7f {
        1
    } else if v <= 0x7ff {
        2
    } else if v <= 0xffff {
        3
    } else {
        4
    }
}

/// The byte length of `s`.
pub fn str_len(s: &str) -> (n: usize)
    ensures
        n == byte_len(s@),
{
    s.as_bytes().len()
}

/// The first char of `s`, if any.
pub fn first_char(s: &str) -> (r: Option<char>)
    ensures
        r == (if s@.len() == 0 { None } else { Some(s@[0]) }),
{
    let mut it = s.chars();
    it.next()
}

/// Whether `rest` starts with `prefix`.
pub fn str_starts_with(rest: &str, prefix: &str) -> (b: bool)
    ensures
        b == seq_starts_with(rest@, prefix@),
{
    let mut it1 = rest.chars();
    let mut it2 = prefix.chars();
    let ghost mut i: int = 0;
    loop
        invariant
            0 <= i <= prefix@.len(),
            i <= rest@.len(),
            it1.remaining() == rest@.skip(i),
            it2.remaining() == prefix@.skip(i),
            rest@.take(i) == prefix@.take(i),
        decreases prefix@.len() - i,
    {
        match it2.next() {
            None => {
                assert(prefix@.take(i) == prefix@);
                return true;
            },
            Some(c2) => {
                match it1.next() {
                    None => {
                        return false;
                    },
                    Some(c1) => {
                        if c1 != c2 {
                            proof {
                                if prefix@.len() <= rest@.len() {
                                    assert(rest@.take(prefix@.len() as int)[i] == rest@[i]);
                                }
                            }
                            return false;
                        }
                        proof {
                            assert(rest@.take(i + 1) == rest@.take(i).push(c1));
                            assert(prefix@.take(i + 1) == prefix@.take(i).push(c2));
                            i = i + 1;
                        }
                    },
                }
            },
        }
    }
}

/// Whether `rest` starts with the char `c`.
pub fn str_starts_with_char(rest: &str, c: char) -> (b: bool)
    ensures
        b == (rest@.len() > 0 && rest@[0] == c),
{
    match first_char(rest) {
        Some(f) => f == c,
        None => false,
    }
}

/// Whether `c` is an ASCII hexadecimal digit.
pub open spec fn is_ascii_hexdigit(c: char) -> bool {
    ('0' <= c && c <= '9') || ('a' <= c && c <= 'f') || ('A' <= c && c <= 'F')
}

/// The value of a hexadecimal digit.
pub open spec fn hex_value(c: char) -> u32 {
    if '0' <= c && c <= '9' {
        (c as u32 - '0' as u32) as u32
    } else if 'a' <= c && c <= 'f' {
        (c as u32 - 'a' as u32 + 10) as u32
    } else {
        (c as u32 - 'A' as u32 + 10) as u32
    }
}

/// The value of a hex digit is what `char::to_digit(16)` gives: `0` to `9`
/// for the code points 48 to 57, and `10` to `15` for both `a`..`f` (97 to
/// 102) and `A`..`F` (65 to 70), so case does not matter; the hex digits
/// are exactly those chars, and their values are below 16.
pub proof fn law_hex_digit_values(c: char)
    ensures
        is_ascii_hexdigit(c) <==> ((48 <= c as u32 && c as u32 <= 57) || (97 <= c as u32 && c as u32 <= 102) || (
        65 <= c as u32 && c as u32 <= 70)),
        48 <= c as u32 && c as u32 <= 57 ==> hex_value(c) == c as u32 - 48,
        97 <= c as u32 && c as u32 <= 102 ==> hex_value(c) == c as u32 - 97 + 10,
        65 <= c as u32 && c as u32 <= 70 ==> hex_value(c) == c as u32 - 65 + 10,
        65 <= c as u32 && c as u32 <= 70 ==> hex_value(c) == hex_value(((c as u32) + 32) as char),
        is_ascii_hexdigit(c) ==> hex_value(c) < 16,
{
    if 65 <= c as u32 && c as u32 <= 70 {
        let l = ((c as u32) + 32) as char;
        assert(97 <= l as u32 && l as u32 <= 102);
    }
}

/// The value of `c` as a hexadecimal digit, like `char::to_digit(16)`.
pub fn to_hex_digit(c: char) -> (r: Option<u32>)
    ensures
        r == (if is_ascii_hexdigit(c) { Some(hex_value(c)) } else { None }),
        r matches Some(d) ==> d < 16,
{
    if '0' <= c && c <= '9' {
        Some(c as u32 - '0' as u32)
    } else if 'a' <= c && c <= 'f' {
        Some(c as u32 - 'a' as u32 + 10)
    } else if 'A' <= c && c <= 'F' {
        Some(c as u32 - 'A' as u32 + 10)
    } else {
        None
    }
}

/// The chars that have the Unicode `White_Space` property.
pub open spec fn is_unicode_whitespace(c: char) -> bool {
    ||| ('\u{9}' <= c && c <= '\u{d}')
    ||| c == '\u{20}'
    ||| c == '\u{85}'
    ||| c == '\u{a0}'
    ||| c == '\u{1680}'
    ||| ('\u{2000}' <= c && c <= '\u{200a}')
    ||| c == '\u{2028}'
    ||| c == '\u{2029}'
    ||| c == '\u{202f}'
    ||| c == '\u{205f}'
    ||| c == '\u{3000}'
}

/// Whether `c` is whitespace, as `char::is_whitespace` answers: true
/// exactly for the chars with the Unicode `White_Space` property.
pub(crate) fn char_is_whitespace(c: char) -> (b: bool)
    ensures
        b == is_unicode_whitespace(c),
{
    ('\u{9}' <= c && c <= '\u{d}') || c == '\u{20}' || c == '\u{85}' || c == '\u{a0}' || c == '\u{1680}'
        || ('\u{2000}' <= c && c <= '\u{200a}') || c == '\u{2028}' || c == '\u{2029}' || c == '\u{202f}'
        || c == '\u{205f}' || c == '\u{3000}'
}

/// What `char::is_alphanumeric` returns for `c` (Unicode tables).
pub uninterp spec fn spec_is_alphanumeric(c: char) -> bool;

/// `char::is_alphanumeric`: its result is named by `spec_is_alphanumeric`;
/// for ASCII chars std documents that exactly the letters and digits qualify.
#[verifier::external_body]
pub(crate) fn char_is_alphanumeric(c: char) -> (b: bool)
    ensures
        b == spec_is_alphanumeric(c),
        (c as u32) < 0x80 ==> (b <==> (('0' <= c && c <= '9') || ('a' <= c && c <= 'z') || (
        'A' <= c && c <= 'Z'))),
{
    c.is_alphanumeric()
}

/// `char::from_u32`: `Some` exactly for Unicode scalar values.
#[verifier::external_body]
pub(crate) fn char_from_u32(v: u32) -> (r: Option<char>)
    ensures
        r == (if is_scalar(v) { Some(v as char) } else { None }),
        r matches Some(c) ==> c as u32 == v,
{
    char::from_u32(v)
}

/// `String::push`: appends `c`.
#[verifier::external_body]
pub(crate) fn string_push(s: &mut String, c: char)
    ensures
        final(s)@ == old(s)@.push(c),
{
    s.push(c)
}

/// `char::to_string`: the string holding `c`.
#[verifier::external_body]
pub(crate) fn char_to_string(c: char) -> (s: String)
    ensures
        s@ == seq![c],
{
    c.to_string()
}

} // verus!
