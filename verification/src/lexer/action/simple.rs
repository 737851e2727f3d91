//! Simple actions: runs of chars, exact strings and words.
use super::class::{dedup_chars, CharClass};
use super::{Action, HeadMatcher, Matcher};
use crate::text::{
    byte_len, char_width, first_char, is_boundary, lemma_byte_len_split, lemma_byte_len_take_next,
    lemma_char_index, lemma_is_boundary_iff, len_utf8, seq_starts_with, spec_is_alphanumeric,
    char_is_alphanumeric, str_len, str_skip, str_starts_with,
};
use crate::text::char_from_u32;
use vstd::prelude::*;
use vstd::std_specs::iter::IteratorSpec;

verus! {

broadcast use vstd::string::group_string_axioms;

/// The number of leading chars of `rest` that belong to `class`.
pub open spec fn class_scan_len(class: CharClass, rest: Seq<char>) -> nat
    decreases rest.len(),
{
    if rest.len() == 0 || !class.spec_contains(rest[0]) {
        0
    } else {
        1 + class_scan_len(class, rest.drop_first())
    }
}

/// The digest of an exact string `s` at the start of `rest`.
pub open spec fn exact_digest(s: Seq<char>, rest: Seq<char>) -> Option<nat> {
    if s.len() > 0 && seq_starts_with(rest, s) {
        Some(byte_len(s))
    } else {
        None
    }
}

/// The digest of an unchecked exact string `s`: as many bytes as `s` has,
/// if the rest has a char boundary there.
pub open spec fn unchecked_exact_digest(s: Seq<char>, rest: Seq<char>) -> Option<nat> {
    if s.len() > 0 && is_boundary(rest, byte_len(s) as int) {
        Some(byte_len(s))
    } else {
        None
    }
}

/// Whether a word may end right before `after`: `after` is empty or starts
/// with a char that is neither alphanumeric nor `_`.
pub open spec fn spec_word_boundary(after: Seq<char>) -> bool {
    after.len() == 0 || (!spec_is_alphanumeric(after[0]) && after[0] != '_')
}

/// The digest of a word `s` at the start of `rest`.
pub open spec fn word_digest(s: Seq<char>, rest: Seq<char>) -> Option<nat> {
    if s.len() > 0 && seq_starts_with(rest, s) && spec_word_boundary(rest.skip(s.len() as int)) {
        Some(byte_len(s))
    } else {
        None
    }
}

proof fn lemma_class_scan_step(class: CharClass, rest: Seq<char>, i: int)
    requires
        0 <= i < rest.len(),
        class.spec_contains(rest[i]),
        class_scan_len(class, rest) == i + class_scan_len(class, rest.skip(i)),
    ensures
        class_scan_len(class, rest) == i + 1 + class_scan_len(class, rest.skip(i + 1)),
{
    assert(rest.skip(i)[0] == rest[i]);
    assert(rest.skip(i).drop_first() == rest.skip(i + 1));
}

/// The number of leading chars of `rest` that belong to `class` is at most its length.
pub proof fn lemma_class_scan_len_bound(class: CharClass, rest: Seq<char>)
    ensures
        class_scan_len(class, rest) <= rest.len(),
    decreases rest.len(),
{
    if rest.len() > 0 {
        lemma_class_scan_len_bound(class, rest.drop_first());
    }
}

/// The leading chars of `rest` that belong to `class` all do, and the char
/// after them (if any) does not.
pub proof fn lemma_class_scan_run(class: CharClass, rest: Seq<char>)
    ensures
        class_scan_len(class, rest) <= rest.len(),
        forall|j: int| 0 <= j < class_scan_len(class, rest) ==> class.spec_contains(#[trigger] rest[j]),
        class_scan_len(class, rest) < rest.len() ==> !class.spec_contains(rest[class_scan_len(class, rest) as int]),
    decreases rest.len(),
{
    if rest.len() > 0 && class.spec_contains(rest[0]) {
        let t = rest.drop_first();
        lemma_class_scan_run(class, t);
        assert forall|j: int| 0 <= j < class_scan_len(class, rest) implies class.spec_contains(#[trigger] rest[j]) by {
            if j > 0 {
                assert(rest[j] == t[j - 1]);
            }
        }
        if class_scan_len(class, rest) < rest.len() {
            assert(rest[class_scan_len(class, rest) as int] == t[class_scan_len(class, t) as int]);
        }
    }
}

/// A `char_range(lo, hi)` matcher accepts a rest exactly when it starts
/// with a char of Rust's inclusive range `lo..=hi` (both ends included),
/// and digests the bytes of the whole run of such chars at its start.
pub proof fn law_char_range_digest(lo: char, hi: char, rest: Seq<char>)
    ensures
        Matcher::Chars(CharClass::Range(lo, hi)).spec_digest(rest) is Some <==> (rest.len() > 0 && lo <= rest[0]
            && rest[0] <= hi),
        ({
            let n = class_scan_len(CharClass::Range(lo, hi), rest);
            &&& n <= rest.len()
            &&& forall|j: int| 0 <= j < n ==> lo <= #[trigger] rest[j] && rest[j] <= hi
            &&& n < rest.len() ==> !(lo <= rest[n as int] && rest[n as int] <= hi)
            &&& n > 0 ==> Matcher::Chars(CharClass::Range(lo, hi)).spec_digest(rest) == Some(byte_len(rest.take(n as int)))
        }),
{
    let class = CharClass::Range(lo, hi);
    lemma_class_scan_run(class, rest);
    let n = class_scan_len(class, rest);
    assert forall|j: int| 0 <= j < n implies lo <= #[trigger] rest[j] && rest[j] <= hi by {
        assert(class.spec_contains(rest[j]));
        super::class::law_range_class_is_inclusive(lo, hi, rest[j]);
    }
    if n < rest.len() {
        super::class::law_range_class_is_inclusive(lo, hi, rest[n as int]);
    }
    if rest.len() > 0 {
        super::class::law_range_class_is_inclusive(lo, hi, rest[0]);
    }
}

/// The number of bytes of the leading chars of `rest` that belong to `class`.
pub fn class_prefix(rest: &str, class: &CharClass) -> (n: usize)
    ensures
        n == byte_len(rest@.take(class_scan_len(*class, rest@) as int)),
{
    let ghost s = rest@;
    let mut it = rest.chars();
    let mut n: usize = 0;
    let ghost mut i: int = 0;
    let total = str_len(rest);
    assert(s.skip(0) == s);
    assert(s.take(0) == Seq::<char>::empty());
    loop
        invariant_except_break
            it.remaining() == s.skip(i),
        invariant
            0 <= i <= s.len(),
            n == byte_len(s.take(i)),
            total == byte_len(s),
            class_scan_len(*class, s) == i + class_scan_len(*class, s.skip(i)),
        ensures
            class_scan_len(*class, s) == i,
        decreases s.len() - i,
    {
        proof {
            lemma_byte_len_split(s, i);
        }
        match it.next() {
            None => {
                assert(s.skip(i).len() == 0);
                break;
            },
            Some(c) => {
                assert(c == s[i]);
                assert(s.skip(i)[0] == c);
                if !class.contains(c) {
                    break;
                }
                proof {
                    lemma_byte_len_take_next(s, i);
                    lemma_byte_len_split(s, i + 1);
                    lemma_class_scan_step(*class, s, i);
                }
                n = n + len_utf8(c);
                proof {
                    i = i + 1;
                }
            },
        }
    }
    n
}

/// Run an exact matcher of `s` at the start of `rest`.
pub fn exact_exec(s: &str, rest: &str) -> (r: Option<usize>)
    ensures
        r is None <==> exact_digest(s@, rest@) is None,
        r matches Some(n) ==> exact_digest(s@, rest@) == Some(n as nat),
{
    if str_len(s) > 0 && str_starts_with(rest, s) {
        Some(str_len(s))
    } else {
        proof {
            if s@.len() > 0 {
                assert(byte_len(s@) > 0) by {
                    lemma_byte_len_take_next(s@, 0);
                    assert(s@.take(1) == seq![s@[0]]);
                    lemma_byte_len_split(s@, 1);
                    assert(s@.take(0) == Seq::<char>::empty());
                }
            }
        }
        None
    }
}

/// Whether `rest` has a char boundary at byte `n`.
pub fn str_is_boundary(rest: &str, n: usize) -> (b: bool)
    ensures
        b == is_boundary(rest@, n as int),
{
    proof {
        lemma_is_boundary_iff(rest@, n as int);
    }
    rest.is_char_boundary(n)
}

/// Run an unchecked exact matcher of `s` at the start of `rest`.
pub fn unchecked_exact_exec(s: &str, rest: &str) -> (r: Option<usize>)
    ensures
        r is None <==> unchecked_exact_digest(s@, rest@) is None,
        r matches Some(n) ==> unchecked_exact_digest(s@, rest@) == Some(n as nat),
{
    let n = str_len(s);
    proof {
        if s@.len() > 0 {
            lemma_byte_len_take_next(s@, 0);
            lemma_byte_len_split(s@, 1);
            assert(s@.take(0) == Seq::<char>::empty());
        } else {
            assert(s@ == Seq::<char>::empty());
        }
    }
    if n > 0 && str_is_boundary(rest, n) {
        Some(n)
    } else {
        None
    }
}

/// Whether `rest` starts with a word boundary: it is empty, or its first
/// char is neither alphanumeric nor `_`.
pub fn starts_with_word_boundary(rest: &str) -> (b: bool)
    ensures
        b == spec_word_boundary(rest@),
{
    match first_char(rest) {
        Some(c) => !char_is_alphanumeric(c) && c != '_',
        None => true,
    }
}

/// Whether the rest after an accepted match does not start with a word
/// boundary (a word matcher rejects then).
pub fn no_word_boundary_in_rest(rest: &str) -> (b: bool)
    ensures
        b == !spec_word_boundary(rest@),
{
    !starts_with_word_boundary(rest)
}

/// Run a word matcher of `s` at the start of `rest`.
pub fn word_exec(s: &str, rest: &str) -> (r: Option<usize>)
    ensures
        r is None <==> word_digest(s@, rest@) is None,
        r matches Some(n) ==> word_digest(s@, rest@) == Some(n as nat),
{
    match exact_exec(s, rest) {
        Some(n) => {
            proof {
                assert(rest@.take(s@.len() as int) == s@);
            }
            let after = str_skip(rest, n, Ghost(s@.len() as int));
            if no_word_boundary_in_rest(after) {
                None
            } else {
                Some(n)
            }
        },
        None => None,
    }
}

/// An action that accepts one or more chars of `class`.
pub fn chars(class: CharClass) -> (r: Action)
    ensures
        r == (Action {
            matcher: Matcher::Chars(class),
            kind: crate::kind::SubKindId(0),
            head: None,
            literal: None,
            muted: false,
        }),
{
    Action::new(Matcher::Chars(class))
}

/// The most chars that [`char_range`] lists in its head matcher.
pub const CHAR_RANGE_HEAD_LIMIT: u32 = 1024;

/// The chars of `lo..=hi`, in order.
fn range_chars(lo: char, hi: char) -> (r: Vec<char>)
    requires
        (hi as u32) < (lo as u32) + CHAR_RANGE_HEAD_LIMIT,
    ensures
        forall|c: char| r@.contains(c) <==> ((lo as u32) <= (c as u32) && (c as u32) <= (hi as u32)),
{
    broadcast use vstd::utf8::char_is_scalar;
    let lo_u = lo as u32;
    let hi_u = hi as u32;
    let mut r: Vec<char> = Vec::new();
    if hi_u < lo_u {
        return r;
    }
    let mut v: u32 = lo_u;
    while v <= hi_u
        invariant
            lo_u == lo as u32,
            hi_u == hi as u32,
            lo_u <= v <= hi_u + 1,
            hi_u <= 0x10ffff,
            forall|c: char| r@.contains(c) <==> (lo_u <= (c as u32) && (c as u32) < v),
        decreases hi_u + 1 - v,
    {
        let ghost old_r = r@;
        match char_from_u32(v) {
            Some(c) => {
                r.push(c);
                proof {
                    assert forall|x: char| r@.contains(x) <==> (lo_u <= (x as u32) && (x as u32) < v + 1) by {
                        if r@.contains(x) && x != c {
                            let j = choose|j: int| 0 <= j < r@.len() && r@[j] == x;
                            assert(j < old_r.len());
                            assert(old_r[j] == x);
                            assert(old_r.contains(x));
                        }
                        if lo_u <= (x as u32) && (x as u32) < v {
                            assert(old_r.contains(x));
                            let j = choose|j: int| 0 <= j < old_r.len() && old_r[j] == x;
                            assert(r@[j] == x);
                        }
                        if (x as u32) == v {
                            vstd::utf8::char_u32_cast(x, x as u32);
                            assert(x == c);
                            assert(r@[r@.len() - 1] == x);
                        }
                    }
                }
            },
            None => {
                proof {
                    assert forall|x: char| r@.contains(x) <==> (lo_u <= (x as u32) && (x as u32) < v + 1) by {
                        vstd::utf8::char_is_scalar(x);
                    }
                }
            },
        }
        v = v + 1;
    }
    r
}

/// An action that accepts one or more chars in `lo..=hi`, tried only on
/// rests that start with one of them. Where the range holds at least
/// [`CHAR_RANGE_HEAD_LIMIT`] chars, it has no head matcher.
pub fn char_range(lo: char, hi: char) -> (r: Action)
    ensures
        r.matcher == Matcher::Chars(CharClass::Range(lo, hi)),
        (hi as u32) < (lo as u32) + CHAR_RANGE_HEAD_LIMIT ==> (r.head matches Some(HeadMatcher::OneOf(v))
            && forall|c: char| v@.contains(c) <==> ((lo as u32) <= (c as u32) && (c as u32) <= (hi as u32))),
        (hi as u32) >= (lo as u32) + CHAR_RANGE_HEAD_LIMIT ==> r.head is None,
        r.kind == crate::kind::SubKindId(0),
        r.literal is None,
        !r.muted,
{
    let a = chars(CharClass::Range(lo, hi));
    if (hi as u32) < (lo as u32) + CHAR_RANGE_HEAD_LIMIT {
        let head = range_chars(lo, hi);
        a.unchecked_head_in(head)
    } else {
        a
    }
}

/// An action that accepts one or more chars of `set`, tried only on rests
/// that start with one of them.
pub fn charset(set: Vec<char>) -> (r: Action)
    ensures
        r.matcher == Matcher::Chars(CharClass::OneOf(set)),
        r.head matches Some(HeadMatcher::OneOf(v)) && v@.no_duplicates() && forall|c: char|
            v@.contains(c) <==> set@.contains(c),
        r.kind == crate::kind::SubKindId(0),
        r.literal is None,
        !r.muted,
{
    let head = dedup_chars(&set);
    chars(CharClass::OneOf(set)).unchecked_head_in(head)
}

/// The chars with the Unicode `White_Space` property.
pub fn whitespace_chars() -> (r: Vec<char>)
    ensures
        forall|c: char| r@.contains(c) <==> crate::text::is_unicode_whitespace(c),
{
    let mut r: Vec<char> = Vec::new();
    r.push('\u{0009}');
    r.push('\u{000A}');
    r.push('\u{000B}');
    r.push('\u{000C}');
    r.push('\u{000D}');
    r.push('\u{0020}');
    r.push('\u{0085}');
    r.push('\u{00A0}');
    r.push('\u{1680}');
    r.push('\u{2000}');
    r.push('\u{2001}');
    r.push('\u{2002}');
    r.push('\u{2003}');
    r.push('\u{2004}');
    r.push('\u{2005}');
    r.push('\u{2006}');
    r.push('\u{2007}');
    r.push('\u{2008}');
    r.push('\u{2009}');
    r.push('\u{200A}');
    r.push('\u{2028}');
    r.push('\u{2029}');
    r.push('\u{202F}');
    r.push('\u{205F}');
    r.push('\u{3000}');
    proof {
        assert forall|c: char| r@.contains(c) <==> crate::text::is_unicode_whitespace(c) by {
            if crate::text::is_unicode_whitespace(c) {
                if c == '\u{0009}' {
                    assert(r@[0] == c);
                } else if c == '\u{000A}' {
                    assert(r@[1] == c);
                } else if c == '\u{000B}' {
                    assert(r@[2] == c);
                } else if c == '\u{000C}' {
                    assert(r@[3] == c);
                } else if c == '\u{000D}' {
                    assert(r@[4] == c);
                } else if c == '\u{0020}' {
                    assert(r@[5] == c);
                } else if c == '\u{0085}' {
                    assert(r@[6] == c);
                } else if c == '\u{00A0}' {
                    assert(r@[7] == c);
                } else if c == '\u{1680}' {
                    assert(r@[8] == c);
                } else if c == '\u{2000}' {
                    assert(r@[9] == c);
                } else if c == '\u{2001}' {
                    assert(r@[10] == c);
                } else if c == '\u{2002}' {
                    assert(r@[11] == c);
                } else if c == '\u{2003}' {
                    assert(r@[12] == c);
                } else if c == '\u{2004}' {
                    assert(r@[13] == c);
                } else if c == '\u{2005}' {
                    assert(r@[14] == c);
                } else if c == '\u{2006}' {
                    assert(r@[15] == c);
                } else if c == '\u{2007}' {
                    assert(r@[16] == c);
                } else if c == '\u{2008}' {
                    assert(r@[17] == c);
                } else if c == '\u{2009}' {
                    assert(r@[18] == c);
                } else if c == '\u{200A}' {
                    assert(r@[19] == c);
                } else if c == '\u{2028}' {
                    assert(r@[20] == c);
                } else if c == '\u{2029}' {
                    assert(r@[21] == c);
                } else if c == '\u{202F}' {
                    assert(r@[22] == c);
                } else if c == '\u{205F}' {
                    assert(r@[23] == c);
                } else if c == '\u{3000}' {
                    assert(r@[24] == c);
                }
            }
        }
    }
    r
}

/// An action that accepts one or more whitespace chars (Unicode
/// `White_Space`), tried only on rests that start with one.
pub fn whitespaces() -> (r: Action)
    ensures
        r.matcher == Matcher::Chars(CharClass::Whitespace),
        r.head matches Some(HeadMatcher::OneOf(v)) && v@.no_duplicates() && forall|c: char|
            v@.contains(c) <==> crate::text::is_unicode_whitespace(c),
        r.kind == crate::kind::SubKindId(0),
        r.literal is None,
        !r.muted,
{
    chars(CharClass::Whitespace).unchecked_head_in(whitespace_chars())
}

/// An action that accepts `s` (which must not be empty), tried only on
/// rests that start with its first char, with `s` as its literal.
pub fn exact(s: &str) -> (r: Action)
    requires
        s@.len() > 0,
    ensures
        r.matcher == Matcher::Exact(r.literal->0),
        r.literal matches Some(l) && l@ == s@,
        r.head matches Some(HeadMatcher::OneOf(v)) && v@ == seq![s@[0]],
        r.kind == crate::kind::SubKindId(0),
        !r.muted,
{
    let head = match first_char(s) {
        Some(c) => c,
        None => ' ',
    };
    let l = s.to_owned();
    let m = l.clone();
    let r = Action {
        matcher: Matcher::Exact(m),
        kind: crate::kind::SubKindId(0),
        head: Some(HeadMatcher::OneOf(vec![head])),
        literal: Some(l),
        muted: false,
    };
    proof {
        assert(r.literal->0 == r.matcher->Exact_0);
    }
    r
}

/// One [`exact`] action per char of `s`.
pub fn exact_chars(s: &str) -> (r: Vec<Action>)
    ensures
        r@.len() == s@.len(),
        forall|i: int|
            0 <= i < s@.len() ==> {
                let a = #[trigger] r@[i];
                &&& a.matcher == Matcher::Exact(a.literal->0)
                &&& a.literal matches Some(l) && l@ == seq![s@[i]]
                &&& a.head matches Some(HeadMatcher::OneOf(v)) && v@ == seq![s@[i]]
                &&& a.kind == crate::kind::SubKindId(0)
                &&& !a.muted
            },
{
    let mut r: Vec<Action> = Vec::new();
    let mut it = s.chars();
    let ghost mut i: int = 0;
    assert(s@.skip(0) == s@);
    loop
        invariant
            0 <= i <= s@.len(),
            it.remaining() == s@.skip(i),
            r@.len() == i,
            forall|j: int|
                0 <= j < i ==> {
                    let a = #[trigger] r@[j];
                    &&& a.matcher == Matcher::Exact(a.literal->0)
                    &&& a.literal matches Some(l) && l@ == seq![s@[j]]
                    &&& a.head matches Some(HeadMatcher::OneOf(v)) && v@ == seq![s@[j]]
                    &&& a.kind == crate::kind::SubKindId(0)
                    &&& !a.muted
                },
        ensures
            i == s@.len(),
        decreases s@.len() - i,
    {
        match it.next() {
            None => {
                assert(s@.skip(i).len() == 0);
                break;
            },
            Some(c) => {
                assert(c == s@[i]);
                let cs = crate::text::char_to_string(c);
                let a = exact(cs.as_str());
                r.push(a);
                proof {
                    i = i + 1;
                }
            },
        }
    }
    r
}

/// An action that accepts as many bytes as `s` (which must not be empty)
/// has, whatever they hold; tried only on rests that start with the first
/// char of `s`, with `s` as its literal.
pub fn unchecked_exact(s: &str) -> (r: Action)
    requires
        s@.len() > 0,
    ensures
        r.matcher == Matcher::UncheckedExact(r.literal->0),
        r.literal matches Some(l) && l@ == s@,
        r.head matches Some(HeadMatcher::OneOf(v)) && v@ == seq![s@[0]],
        r.kind == crate::kind::SubKindId(0),
        !r.muted,
{
    let head = match first_char(s) {
        Some(c) => c,
        None => ' ',
    };
    let l = s.to_owned();
    let m = l.clone();
    let r = Action {
        matcher: Matcher::UncheckedExact(m),
        kind: crate::kind::SubKindId(0),
        head: Some(HeadMatcher::OneOf(vec![head])),
        literal: Some(l),
        muted: false,
    };
    proof {
        assert(r.literal->0 == r.matcher->UncheckedExact_0);
    }
    r
}

/// One [`unchecked_exact`] action per char of `s`.
pub fn unchecked_exact_chars(s: &str) -> (r: Vec<Action>)
    ensures
        r@.len() == s@.len(),
        forall|i: int|
            0 <= i < s@.len() ==> {
                let a = #[trigger] r@[i];
                &&& a.matcher == Matcher::UncheckedExact(a.literal->0)
                &&& a.literal matches Some(l) && l@ == seq![s@[i]]
                &&& a.head matches Some(HeadMatcher::OneOf(v)) && v@ == seq![s@[i]]
                &&& a.kind == crate::kind::SubKindId(0)
                &&& !a.muted
            },
{
    let mut r: Vec<Action> = Vec::new();
    let mut it = s.chars();
    let ghost mut i: int = 0;
    assert(s@.skip(0) == s@);
    loop
        invariant
            0 <= i <= s@.len(),
            it.remaining() == s@.skip(i),
            r@.len() == i,
            forall|j: int|
                0 <= j < i ==> {
                    let a = #[trigger] r@[j];
                    &&& a.matcher == Matcher::UncheckedExact(a.literal->0)
                    &&& a.literal matches Some(l) && l@ == seq![s@[j]]
                    &&& a.head matches Some(HeadMatcher::OneOf(v)) && v@ == seq![s@[j]]
                    &&& a.kind == crate::kind::SubKindId(0)
                    &&& !a.muted
                },
        ensures
            i == s@.len(),
        decreases s@.len() - i,
    {
        match it.next() {
            None => {
                assert(s@.skip(i).len() == 0);
                break;
            },
            Some(c) => {
                assert(c == s@[i]);
                let cs = crate::text::char_to_string(c);
                let a = unchecked_exact(cs.as_str());
                r.push(a);
                proof {
                    i = i + 1;
                }
            },
        }
    }
    r
}

/// An action that accepts the word `s` (which must not be empty): `s`
/// followed by a word boundary. Tried only on rests that start with the
/// first char of `s`, with `s` as its literal.
pub fn word(s: &str) -> (r: Action)
    requires
        s@.len() > 0,
    ensures
        r.matcher == Matcher::Word(r.literal->0),
        r.literal matches Some(l) && l@ == s@,
        r.head matches Some(HeadMatcher::OneOf(v)) && v@ == seq![s@[0]],
        r.kind == crate::kind::SubKindId(0),
        !r.muted,
{
    let head = match first_char(s) {
        Some(c) => c,
        None => ' ',
    };
    let l = s.to_owned();
    let m = l.clone();
    let r = Action {
        matcher: Matcher::Word(m),
        kind: crate::kind::SubKindId(0),
        head: Some(HeadMatcher::OneOf(vec![head])),
        literal: Some(l),
        muted: false,
    };
    proof {
        assert(r.literal->0 == r.matcher->Word_0);
    }
    r
}

} // verus!
