//! Classes of chars that matchers accept.
use crate::text::{char_is_alphanumeric, char_is_whitespace, is_unicode_whitespace, spec_is_alphanumeric};
use vstd::prelude::*;

verus! {

/// A class of chars.
#[derive(Clone, Debug)]
pub enum CharClass {
    /// `'0'..='9'`.
    AsciiDigit,
    /// `'0'..='9'`, `'a'..='f'` and `'A'..='F'`.
    AsciiHexDigit,
    /// `'0'` and `'1'`.
    BinaryDigit,
    /// `'0'..='7'`.
    OctalDigit,
    /// Chars with the Unicode `White_Space` property.
    Whitespace,
    /// Alphanumeric chars (`char::is_alphanumeric`).
    Alphanumeric,
    /// The chars in an inclusive range.
    Range(char, char),
    /// The chars in a list.
    OneOf(Vec<char>),
    /// The chars in an inclusive range, except those in a list.
    RangeExcept(char, char, Vec<char>),
}

impl CharClass {
    /// Whether `c` belongs to the class.
    pub open spec fn spec_contains(&self, c: char) -> bool {
        match self {
            CharClass::AsciiDigit => '0' <= c && c <= '9',
            CharClass::AsciiHexDigit => ('0' <= c && c <= '9') || ('a' <= c && c <= 'f') || ('A'
                <= c && c <= 'F'),
            CharClass::BinaryDigit => c == '0' || c == '1',
            CharClass::OctalDigit => '0' <= c && c <= '7',
            CharClass::Whitespace => is_unicode_whitespace(c),
            CharClass::Alphanumeric => spec_is_alphanumeric(c),
            CharClass::Range(lo, hi) => (*lo as u32) <= (c as u32) && (c as u32) <= (*hi as u32),
            CharClass::OneOf(v) => v@.contains(c),
            CharClass::RangeExcept(lo, hi, v) => (*lo as u32) <= (c as u32) && (c as u32) <= (*hi as u32)
                && !v@.contains(c),
        }
    }

    /// Whether `c` belongs to the class.
    pub fn contains(&self, c: char) -> (b: bool)
        ensures
            b == self.spec_contains(c),
    {
        match self {
            CharClass::AsciiDigit => '0' <= c && c <= '9',
            CharClass::AsciiHexDigit => ('0' <= c && c <= '9') || ('a' <= c && c <= 'f') || ('A'
                <= c && c <= 'F'),
            CharClass::BinaryDigit => c == '0' || c == '1',
            CharClass::OctalDigit => '0' <= c && c <= '7',
            CharClass::Whitespace => char_is_whitespace(c),
            CharClass::Alphanumeric => char_is_alphanumeric(c),
            CharClass::Range(lo, hi) => (*lo as u32) <= (c as u32) && (c as u32) <= (*hi as u32),
            CharClass::OneOf(v) => vec_contains_char(v, c),
            CharClass::RangeExcept(lo, hi, v) => (*lo as u32) <= (c as u32) && (c as u32) <= (*hi as u32)
                && !vec_contains_char(v, c),
        }
    }
}

/// Whether `v` holds `c`.
pub fn vec_contains_char(v: &Vec<char>, c: char) -> (b: bool)
    ensures
        b == v@.contains(c),
{
    let mut i: usize = 0;
    while i < v.len()
        invariant
            i <= v@.len(),
            forall|j: int| 0 <= j < i ==> v@[j] != c,
        decreases v@.len() - i,
    {
        if v[i] == c {
            return true;
        }
        i = i + 1;
    }
    false
}

/// A copy of `v`.
pub fn copy_chars(v: &Vec<char>) -> (r: Vec<char>)
    ensures
        r@ == v@,
{
    let r = v.clone();
    assert(r@ =~= v@);
    r
}

/// The distinct chars of `v`, in the order they first appear.
pub fn dedup_chars(v: &Vec<char>) -> (r: Vec<char>)
    ensures
        r@.no_duplicates(),
        forall|c: char| r@.contains(c) <==> v@.contains(c),
{
    let mut r: Vec<char> = Vec::new();
    let mut i: usize = 0;
    while i < v.len()
        invariant
            i <= v@.len(),
            r@.no_duplicates(),
            forall|c: char| r@.contains(c) <==> v@.take(i as int).contains(c),
        decreases v@.len() - i,
    {
        let c = v[i];
        let ghost old_r = r@;
        let present = vec_contains_char(&r, c);
        if !present {
            r.push(c);
        }
        proof {
            if !present {
                assert forall|x: char| r@.contains(x) <==> (old_r.contains(x) || x == c) by {
                    if r@.contains(x) {
                        let j = choose|j: int| 0 <= j < r@.len() && r@[j] == x;
                        if j < old_r.len() {
                            assert(old_r[j] == x);
                        }
                    }
                    if old_r.contains(x) {
                        let j = choose|j: int| 0 <= j < old_r.len() && old_r[j] == x;
                        assert(r@[j] == x);
                    }
                    if x == c {
                        assert(r@[old_r.len() as int] == c);
                    }
                }
            }
            assert(forall|x: char| r@.contains(x) <==> (old_r.contains(x) || x == c));
        }
        proof {
            assert forall|x: char| v@.take(i + 1).contains(x) <==> (v@.take(i as int).contains(x)
                || x == c) by {
                let t = v@.take(i as int);
                let t1 = v@.take(i + 1);
                if t1.contains(x) {
                    let j = choose|j: int| 0 <= j < t1.len() && t1[j] == x;
                    if j < i {
                        assert(t[j] == x);
                    }
                }
                if t.contains(x) {
                    let j = choose|j: int| 0 <= j < t.len() && t[j] == x;
                    assert(v@.take(i + 1)[j] == x);
                }
                if x == c {
                    assert(v@.take(i + 1)[i as int] == c);
                }
            }
        }
        proof {
            assert forall|x: char| r@.contains(x) <==> v@.take(i + 1).contains(x) by {
                assert(old_r.contains(x) <==> v@.take(i as int).contains(x));
            }
        }
        i = i + 1;
    }
    assert(v@.take(v@.len() as int) == v@);
    r
}

/// The range class holds the chars of Rust's inclusive range `lo..=hi`,
/// both ends included (`RangeInclusive::contains`: `lo <= c && c <= hi`).
pub proof fn law_range_class_is_inclusive(lo: char, hi: char, c: char)
    ensures
        CharClass::Range(lo, hi).spec_contains(c) <==> (lo <= c && c <= hi),
        lo <= hi ==> CharClass::Range(lo, hi).spec_contains(lo) && CharClass::Range(lo, hi).spec_contains(hi),
{
}

/// The range class with exceptions holds the chars of Rust's inclusive
/// range `lo..=hi`, both ends included, less the listed chars.
pub proof fn law_range_except_class_is_inclusive(lo: char, hi: char, v: Vec<char>, c: char)
    ensures
        CharClass::RangeExcept(lo, hi, v).spec_contains(c) <==> (lo <= c && c <= hi && !v@.contains(c)),
        lo <= hi && !v@.contains(lo) ==> CharClass::RangeExcept(lo, hi, v).spec_contains(lo),
        lo <= hi && !v@.contains(hi) ==> CharClass::RangeExcept(lo, hi, v).spec_contains(hi),
{
}

/// The digit classes hold the chars `char::is_ascii_digit`,
/// `char::to_digit(2)` and `char::to_digit(8)` accept (code points 48 to 57,
/// 48 and 49, 48 to 55), and the whitespace class the chars with the
/// Unicode `White_Space` property, listed by code point.
pub proof fn law_digit_and_whitespace_classes(c: char)
    ensures
        CharClass::AsciiDigit.spec_contains(c) <==> (48 <= c as u32 && c as u32 <= 57),
        CharClass::BinaryDigit.spec_contains(c) <==> (c as u32 == 48 || c as u32 == 49),
        CharClass::OctalDigit.spec_contains(c) <==> (48 <= c as u32 && c as u32 <= 55),
        CharClass::Whitespace.spec_contains(c) <==> ((9 <= c as u32 && c as u32 <= 13) || c as u32 == 0x20 || c as u32
            == 0x85 || c as u32 == 0xa0 || c as u32 == 0x1680 || (0x2000 <= c as u32 && c as u32 <= 0x200a) || c as u32
            == 0x2028 || c as u32 == 0x2029 || c as u32 == 0x202f || c as u32 == 0x205f || c as u32 == 0x3000),
{
}

/// The ASCII hex digit class holds exactly the chars `char::to_digit(16)`
/// accepts: the code points of `0`..`9` (48 to 57), `a`..`f` (97 to 102)
/// and `A`..`F` (65 to 70).
pub proof fn law_ascii_hex_digit_class(c: char)
    ensures
        CharClass::AsciiHexDigit.spec_contains(c) <==> ((48 <= c as u32 && c as u32 <= 57) || (97 <= c as u32
            && c as u32 <= 102) || (65 <= c as u32 && c as u32 <= 70)),
        CharClass::AsciiHexDigit.spec_contains(c) <==> crate::text::is_ascii_hexdigit(c),
        CharClass::AsciiDigit.spec_contains(c) ==> CharClass::AsciiHexDigit.spec_contains(c),
{
}

} // verus!
