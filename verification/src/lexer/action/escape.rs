//! Escape handlers of string literals: what follows the escape starter
//! (e.g. the `n` of `\n`) and what it stands for.
use crate::text::{
    byte_len, char_from_u32, char_width, first_char, hex_value, is_ascii_hexdigit, is_boundary, len_utf8,
    lemma_byte_len_add, lemma_byte_len_single, lemma_byte_len_split, seq_starts_with, str_len,
    str_skip, str_starts_with, string_push, to_hex_digit,
};
use vstd::prelude::*;
use vstd::std_specs::iter::IteratorSpec;
use vstd::utf8::is_scalar;

verus! {

broadcast use vstd::string::group_string_axioms;

/// Errors of a hex escape (e.g. `\x1f`).
#[derive(Clone, Copy, Debug, PartialEq, Eq, Structural)]
pub enum HexEscapeError {
    /// Fewer hex digits than required.
    TooShort,
    /// The digits are not a Unicode scalar value.
    InvalidUnicode,
}

/// Errors of a code point escape (e.g. `\u{1f}`).
#[derive(Clone, Copy, Debug, PartialEq, Eq, Structural)]
pub enum CodePointEscapeError {
    /// No digit between the braces.
    Empty,
    /// The digits are not a Unicode scalar value.
    InvalidUnicode,
    /// A char that is neither a hex digit nor the close brace.
    InvalidChar,
    /// More digits than allowed.
    Overlong,
    /// The text ends before the close brace.
    Unterminated,
}

/// The error an escape handler reports.
#[derive(Clone, Copy, Debug, PartialEq, Eq, Structural)]
pub enum EscapeError {
    /// An error of a hex escape.
    Hex(HexEscapeError),
    /// An error of a code point escape.
    CodePoint(CodePointEscapeError),
    /// An escape that only a fallback handler accepts (the error to hand
    /// to [`fallback`] in a string body).
    Fallback,
}

/// Errors of a string literal.
#[derive(Clone, Copy, Debug, PartialEq, Eq, Structural)]
pub enum StringLiteralError<E = EscapeError> {
    /// The string is not terminated.
    Unterminated,
    /// No escape handler accepts what follows the escape starter.
    UnhandledEscape,
    /// An escape handler reports an error.
    Custom(E),
}

/// What an escape handler accepts: the bytes after the starter, the value
/// it stands for, and the error, if any.
#[derive(Clone, Debug)]
pub struct Escape<E = EscapeError> {
    /// The number of digested bytes after the escape starter.
    pub digested: usize,
    /// The value of the escape.
    pub value: String,
    /// The error, if any.
    pub error: Option<StringLiteralError<E>>,
}

/// Options of a hex escape: the prefix after the starter, the number of
/// hex digits, and the errors it reports, as its error mapper maps the
/// [`HexEscapeError`]s.
#[derive(Clone, Copy, Debug, PartialEq, Eq, Structural)]
pub struct HexEscapeOptions<E = EscapeError> {
    /// The prefix (e.g. `x` of `\x1f`).
    pub prefix: char,
    /// The number of hex digits.
    pub length: usize,
    /// The error reported for [`HexEscapeError::TooShort`].
    pub too_short_error: E,
    /// The error reported for [`HexEscapeError::InvalidUnicode`].
    pub invalid_unicode_error: E,
}

/// Hex escape options with the given prefix and length, which report the
/// [`HexEscapeError`]s themselves.
pub open spec fn hex_options(prefix: char, length: usize) -> HexEscapeOptions<HexEscapeError> {
    HexEscapeOptions {
        prefix,
        length,
        too_short_error: HexEscapeError::TooShort,
        invalid_unicode_error: HexEscapeError::InvalidUnicode,
    }
}

/// Hex escape options with the given prefix and length whose errors are
/// the [`HexEscapeError`]s wrapped in [`EscapeError::Hex`], as the escape
/// handlers of string bodies report them.
pub open spec fn hex_options_in_body(prefix: char, length: usize) -> HexEscapeOptions {
    HexEscapeOptions {
        prefix,
        length,
        too_short_error: EscapeError::Hex(HexEscapeError::TooShort),
        invalid_unicode_error: EscapeError::Hex(HexEscapeError::InvalidUnicode),
    }
}

impl HexEscapeOptions<HexEscapeError> {
    /// Prefix `x`, 2 digits; the errors are reported as they are.
    pub fn default() -> (r: Self)
        ensures
            r == hex_options('x', 2),
    {
        HexEscapeOptions {
            prefix: 'x',
            length: 2,
            too_short_error: HexEscapeError::TooShort,
            invalid_unicode_error: HexEscapeError::InvalidUnicode,
        }
    }

    /// Prefix `u`, 4 digits.
    pub fn unicode() -> (r: Self)
        ensures
            r == hex_options('u', 4),
    {
        HexEscapeOptions { prefix: 'u', length: 4, ..HexEscapeOptions::default() }
    }
}

impl<E> HexEscapeOptions<E> {
    /// Set the prefix.
    pub fn prefix(self, prefix: char) -> (r: Self)
        ensures
            r == (HexEscapeOptions { prefix, ..self }),
    {
        HexEscapeOptions { prefix, ..self }
    }

    /// Set the number of digits.
    pub fn length(self, length: usize) -> (r: Self)
        ensures
            r == (HexEscapeOptions { length, ..self }),
    {
        HexEscapeOptions { length, ..self }
    }

    /// Set the error mapper: the reported errors become what `mapper` maps
    /// the [`HexEscapeError`]s to (it is called here, once for each).
    pub fn error<NewE, F: Fn(HexEscapeError) -> NewE>(self, mapper: F) -> (r: HexEscapeOptions<NewE>)
        requires
            mapper.requires((HexEscapeError::TooShort,)),
            mapper.requires((HexEscapeError::InvalidUnicode,)),
        ensures
            r.prefix == self.prefix,
            r.length == self.length,
            mapper.ensures((HexEscapeError::TooShort,), r.too_short_error),
            mapper.ensures((HexEscapeError::InvalidUnicode,), r.invalid_unicode_error),
    {
        let too_short_error = mapper(HexEscapeError::TooShort);
        let invalid_unicode_error = mapper(HexEscapeError::InvalidUnicode);
        HexEscapeOptions { prefix: self.prefix, length: self.length, too_short_error, invalid_unicode_error }
    }
}

/// Options of a code point escape: the prefix, the open and close braces,
/// the maximum number of hex digits, and the errors it reports, as its
/// error mapper maps the [`CodePointEscapeError`]s.
#[derive(Clone, Copy, Debug, PartialEq, Eq, Structural)]
pub struct CodePointEscapeOptions<E = EscapeError> {
    /// The prefix (e.g. `u` of `\u{1f}`).
    pub prefix: char,
    /// The open brace.
    pub open: char,
    /// The close brace.
    pub close: char,
    /// The maximum number of hex digits.
    pub max_length: usize,
    /// The error reported for [`CodePointEscapeError::Empty`].
    pub empty_error: E,
    /// The error reported for [`CodePointEscapeError::InvalidUnicode`].
    pub invalid_unicode_error: E,
    /// The error reported for [`CodePointEscapeError::InvalidChar`].
    pub invalid_char_error: E,
    /// The error reported for [`CodePointEscapeError::Overlong`].
    pub overlong_error: E,
    /// The error reported for [`CodePointEscapeError::Unterminated`].
    pub unterminated_error: E,
}

/// Code point escape options with the given prefix, braces and maximum
/// length, which report the [`CodePointEscapeError`]s themselves.
pub open spec fn code_point_options(
    prefix: char,
    open: char,
    close: char,
    max_length: usize,
) -> CodePointEscapeOptions<CodePointEscapeError> {
    CodePointEscapeOptions {
        prefix,
        open,
        close,
        max_length,
        empty_error: CodePointEscapeError::Empty,
        invalid_unicode_error: CodePointEscapeError::InvalidUnicode,
        invalid_char_error: CodePointEscapeError::InvalidChar,
        overlong_error: CodePointEscapeError::Overlong,
        unterminated_error: CodePointEscapeError::Unterminated,
    }
}

impl CodePointEscapeOptions<CodePointEscapeError> {
    /// Prefix `u`, braces `{` and `}`, at most 6 digits; the errors are
    /// reported as they are.
    pub fn default() -> (r: Self)
        ensures
            r == code_point_options('u', '{', '}', 6),
    {
        CodePointEscapeOptions {
            prefix: 'u',
            open: '{',
            close: '}',
            max_length: 6,
            empty_error: CodePointEscapeError::Empty,
            invalid_unicode_error: CodePointEscapeError::InvalidUnicode,
            invalid_char_error: CodePointEscapeError::InvalidChar,
            overlong_error: CodePointEscapeError::Overlong,
            unterminated_error: CodePointEscapeError::Unterminated,
        }
    }
}

impl<E> CodePointEscapeOptions<E> {
    /// Set the prefix.
    pub fn prefix(self, prefix: char) -> (r: Self)
        ensures
            r == (CodePointEscapeOptions { prefix, ..self }),
    {
        CodePointEscapeOptions { prefix, ..self }
    }

    /// Set the open brace.
    pub fn open(self, open: char) -> (r: Self)
        ensures
            r == (CodePointEscapeOptions { open, ..self }),
    {
        CodePointEscapeOptions { open, ..self }
    }

    /// Set the close brace.
    pub fn close(self, close: char) -> (r: Self)
        ensures
            r == (CodePointEscapeOptions { close, ..self }),
    {
        CodePointEscapeOptions { close, ..self }
    }

    /// Set the maximum number of digits.
    pub fn max(self, max_length: usize) -> (r: Self)
        ensures
            r == (CodePointEscapeOptions { max_length, ..self }),
    {
        CodePointEscapeOptions { max_length, ..self }
    }

    /// Set the error mapper: the reported errors become what `mapper` maps
    /// the [`CodePointEscapeError`]s to (it is called here, once for each).
    pub fn error<NewE, F: Fn(CodePointEscapeError) -> NewE>(self, mapper: F) -> (r: CodePointEscapeOptions<NewE>)
        requires
            mapper.requires((CodePointEscapeError::Empty,)),
            mapper.requires((CodePointEscapeError::InvalidUnicode,)),
            mapper.requires((CodePointEscapeError::InvalidChar,)),
            mapper.requires((CodePointEscapeError::Overlong,)),
            mapper.requires((CodePointEscapeError::Unterminated,)),
        ensures
            r.prefix == self.prefix,
            r.open == self.open,
            r.close == self.close,
            r.max_length == self.max_length,
            mapper.ensures((CodePointEscapeError::Empty,), r.empty_error),
            mapper.ensures((CodePointEscapeError::InvalidUnicode,), r.invalid_unicode_error),
            mapper.ensures((CodePointEscapeError::InvalidChar,), r.invalid_char_error),
            mapper.ensures((CodePointEscapeError::Overlong,), r.overlong_error),
            mapper.ensures((CodePointEscapeError::Unterminated,), r.unterminated_error),
    {
        let empty_error = mapper(CodePointEscapeError::Empty);
        let invalid_unicode_error = mapper(CodePointEscapeError::InvalidUnicode);
        let invalid_char_error = mapper(CodePointEscapeError::InvalidChar);
        let overlong_error = mapper(CodePointEscapeError::Overlong);
        let unterminated_error = mapper(CodePointEscapeError::Unterminated);
        CodePointEscapeOptions {
            prefix: self.prefix,
            open: self.open,
            close: self.close,
            max_length: self.max_length,
            empty_error,
            invalid_unicode_error,
            invalid_char_error,
            overlong_error,
            unterminated_error,
        }
    }
}

/// An escape handler.
#[derive(Clone, Debug)]
pub enum EscapeHandler<E = EscapeError> {
    /// A char that stands for another char; the last pair with the char wins.
    CharMap(Vec<(char, char)>),
    /// One of the strings (the first that matches), which stands for nothing.
    LineContinuation(Vec<String>),
    /// A hex escape.
    Hex(HexEscapeOptions<E>),
    /// A code point escape.
    CodePoint(CodePointEscapeOptions<E>),
    /// Any char, which stands for itself, with the given error.
    Fallback(E),
}

/// What an escape handler accepts, in spec form: the digested bytes, the
/// value and the error.
pub type EscapeSpec<E = EscapeError> = (nat, Seq<char>, Option<StringLiteralError<E>>);


/// The value of a sequence of hex digits.
pub open spec fn hex_seq_value(s: Seq<char>) -> nat
    decreases s.len(),
{
    if s.len() == 0 {
        0
    } else {
        16 * hex_seq_value(s.drop_last()) + hex_value(s.last()) as nat
    }
}

/// Hex digits denote their number in base 16: one digit is its value, and
/// the digits of `a` followed by those of `b` denote `a`'s number times
/// 16 to the power of `b`'s length, plus `b`'s number.
pub proof fn law_hex_seq_value_base16(a: Seq<char>, b: Seq<char>, c: char)
    ensures
        hex_seq_value(seq![c]) == hex_value(c),
        hex_seq_value(a + b) == hex_seq_value(a) * vstd::arithmetic::power::pow(16, b.len()) + hex_seq_value(b),
    decreases b.len(),
{
    assert(seq![c].drop_last() =~= Seq::<char>::empty());
    assert(seq![c].last() == c);
    assert(hex_seq_value(Seq::<char>::empty()) == 0);
    assert(hex_seq_value(seq![c]) == 16 * hex_seq_value(seq![c].drop_last()) + hex_value(c) as nat);
    if b.len() == 0 {
        assert(a + b =~= a);
        assert(vstd::arithmetic::power::pow(16, 0) == 1) by {
            reveal(vstd::arithmetic::power::pow);
        }
    } else {
        let b2 = b.drop_last();
        law_hex_seq_value_base16(a, b2, c);
        assert((a + b).drop_last() =~= a + b2);
        assert((a + b).last() == b.last());
        let p = vstd::arithmetic::power::pow(16, b2.len());
        assert(vstd::arithmetic::power::pow(16, b.len()) == 16 * p) by {
            reveal(vstd::arithmetic::power::pow);
        }
        let x = hex_seq_value(a) as int;
        let y = hex_seq_value(b2) as int;
        assert(16 * (x * p + y) == x * (16 * p) + 16 * y) by (nonlinear_arith);
    }
}

/// The number of leading hex digits of `s`, at most `limit`.
pub open spec fn hex_run(s: Seq<char>, limit: nat) -> nat
    decreases s.len(),
{
    if limit == 0 || s.len() == 0 || !is_ascii_hexdigit(s[0]) {
        0
    } else {
        1 + hex_run(s.drop_first(), (limit - 1) as nat)
    }
}

/// An escape with the value `\0` and a custom error.
pub open spec fn escape_error_spec<E>(prefix: char, e: E) -> EscapeSpec<E> {
    (char_width(prefix), seq!['\0'], Some(StringLiteralError::Custom(e)))
}

/// What a hex escape accepts at `r` (the rest after the escape starter).
pub open spec fn hex_escape_spec<E>(o: HexEscapeOptions<E>, r: Seq<char>) -> Option<EscapeSpec<E>> {
    if r.len() == 0 || r[0] != o.prefix {
        None
    } else {
        let body = r.drop_first();
        if o.length == 0 || hex_run(body, o.length as nat) < o.length {
            Some(escape_error_spec(o.prefix, o.too_short_error))
        } else {
            let v = hex_seq_value(body.take(o.length as int));
            if v <= u32::MAX && is_scalar(v as u32) {
                Some(((char_width(o.prefix) + o.length) as nat, seq![v as u32 as char], None))
            } else {
                Some(escape_error_spec(o.prefix, o.invalid_unicode_error))
            }
        }
    }
}

/// What a code point escape yields from digit position `i` of `body` (the
/// rest after the prefix and the open brace).
pub open spec fn code_point_scan<E>(o: CodePointEscapeOptions<E>, body: Seq<char>, i: nat) -> EscapeSpec<E>
    decreases body.len() - i,
{
    if i >= body.len() {
        escape_error_spec(o.prefix, o.unterminated_error)
    } else if body[i as int] == o.close {
        if i == 0 {
            escape_error_spec(o.prefix, o.empty_error)
        } else {
            let v = hex_seq_value(body.take(i as int));
            if v <= u32::MAX && is_scalar(v as u32) {
                (
                    (char_width(o.prefix) + char_width(o.open) + i + char_width(o.close)) as nat,
                    seq![v as u32 as char],
                    None,
                )
            } else {
                escape_error_spec(o.prefix, o.invalid_unicode_error)
            }
        }
    } else if i == o.max_length {
        escape_error_spec(o.prefix, o.overlong_error)
    } else if !is_ascii_hexdigit(body[i as int]) {
        escape_error_spec(o.prefix, o.invalid_char_error)
    } else {
        code_point_scan(o, body, i + 1)
    }
}

/// What a code point escape accepts at `r` (the rest after the escape starter).
pub open spec fn code_point_escape_spec<E>(o: CodePointEscapeOptions<E>, r: Seq<char>) -> Option<EscapeSpec<E>> {
    if r.len() >= 2 && r[0] == o.prefix && r[1] == o.open {
        Some(code_point_scan(o, r.skip(2), 0))
    } else {
        None
    }
}

/// The position of the last pair of `pairs` whose key is `c`, before `j`.
pub open spec fn last_key(pairs: Seq<(char, char)>, c: char, j: nat) -> Option<nat>
    decreases j,
{
    if j == 0 {
        None
    } else if j <= pairs.len() && pairs[j - 1].0 == c {
        Some((j - 1) as nat)
    } else {
        last_key(pairs, c, (j - 1) as nat)
    }
}

/// The position of the first of `ss` that `r` starts with, from `j` on.
pub open spec fn first_prefix(ss: Seq<Seq<char>>, r: Seq<char>, j: nat) -> Option<nat>
    decreases ss.len() - j,
{
    if j >= ss.len() {
        None
    } else if seq_starts_with(r, ss[j as int]) {
        Some(j)
    } else {
        first_prefix(ss, r, j + 1)
    }
}

/// What escape handler `h` accepts at `r` (the rest after the escape starter, not empty).
pub open spec fn escape_spec<E>(h: EscapeHandler<E>, r: Seq<char>) -> Option<EscapeSpec<E>> {
    match h {
        EscapeHandler::CharMap(pairs) => match last_key(pairs@, r[0], pairs@.len()) {
            Some(j) => Some((char_width(r[0]), seq![pairs@[j as int].1], None)),
            None => None,
        },
        EscapeHandler::LineContinuation(ss) => match first_prefix(
            ss@.map_values(|s: String| s@),
            r,
            0,
        ) {
            Some(j) => Some((byte_len(ss@[j as int]@), Seq::empty(), None)),
            None => None,
        },
        EscapeHandler::Hex(o) => hex_escape_spec(o, r),
        EscapeHandler::CodePoint(o) => code_point_escape_spec(o, r),
        EscapeHandler::Fallback(e) => Some((char_width(r[0]), seq![r[0]], Some(StringLiteralError::Custom(e)))),
    }
}


/// Whether `e` is the escape `s`.
pub open spec fn escape_is<E>(e: Escape<E>, s: EscapeSpec<E>) -> bool {
    e.digested == s.0 && e.value@ == s.1 && e.error == s.2
}



/// One more hex digit.
proof fn lemma_hex_push(s: Seq<char>, c: char)
    ensures
        hex_seq_value(s.push(c)) == 16 * hex_seq_value(s) + hex_value(c) as nat,
{
    assert(s.push(c).drop_last() == s);
}

/// An escape with the value `\0` and a custom error.
fn escape_error<E>(prefix: char, e: E) -> (r: Escape<E>)
    ensures
        escape_is(r, escape_error_spec(prefix, e)),
{
    let mut value = String::new();
    string_push(&mut value, '\0');
    Escape { digested: len_utf8(prefix), value, error: Some(StringLiteralError::Custom(e)) }
}

/// The string holding the char of scalar value `v`, if it is one.
fn scalar_string(v: u32) -> (r: Option<String>)
    ensures
        r is Some <==> is_scalar(v),
        r matches Some(s) ==> s@ == seq![v as char],
{
    match char_from_u32(v) {
        Some(c) => {
            let mut s = String::new();
            string_push(&mut s, c);
            Some(s)
        },
        None => None,
    }
}

impl<E: Copy> EscapeHandler<E> {
    /// Run the handler at `r` (the rest after the escape starter, not empty).
    pub fn apply(&self, r: &str) -> (e: Option<Escape<E>>)
        requires
            r@.len() > 0,
        ensures
            e is Some <==> escape_spec(*self, r@) is Some,
            e matches Some(x) ==> escape_is(x, escape_spec(*self, r@)->0),
    {
        let next = match first_char(r) {
            Some(c) => c,
            None => ' ',
        };
        match self {
            EscapeHandler::CharMap(pairs) => {
                let mut j: usize = pairs.len();
                while j > 0
                    invariant
                        j <= pairs@.len(),
                        next == r@[0],
                        *self == EscapeHandler::<E>::CharMap(*pairs),
                        last_key(pairs@, next, pairs@.len()) == last_key(pairs@, next, j as nat),
                    decreases j,
                {
                    if pairs[j - 1].0 == next {
                        let mut value = String::new();
                        string_push(&mut value, pairs[j - 1].1);
                        return Some(Escape { digested: len_utf8(next), value, error: None });
                    }
                    j = j - 1;
                }
                None
            },
            EscapeHandler::LineContinuation(ss) => {
                let ghost view = ss@.map_values(|s: String| s@);
                let mut j: usize = 0;
                while j < ss.len()
                    invariant
                        j <= ss@.len(),
                        *self == EscapeHandler::<E>::LineContinuation(*ss),
                        view == ss@.map_values(|s: String| s@),
                        first_prefix(view, r@, 0) == first_prefix(view, r@, j as nat),
                    decreases ss@.len() - j,
                {
                    if str_starts_with(r, ss[j].as_str()) {
                        assert(view[j as int] == ss@[j as int]@);
                        return Some(Escape { digested: str_len(ss[j].as_str()), value: String::new(), error: None });
                    }
                    assert(view[j as int] == ss@[j as int]@);
                    j = j + 1;
                }
                None
            },
            EscapeHandler::Hex(o) => hex_apply(o, r),
            EscapeHandler::CodePoint(o) => code_point_apply(o, r),
            EscapeHandler::Fallback(e) => {
                let mut value = String::new();
                string_push(&mut value, next);
                Some(Escape { digested: len_utf8(next), value, error: Some(StringLiteralError::Custom(*e)) })
            },
        }
    }
}

/// Run a hex escape at `r` (the rest after the escape starter).
fn hex_apply<E: Copy>(o: &HexEscapeOptions<E>, r: &str) -> (e: Option<Escape<E>>)
    ensures
        e is Some <==> hex_escape_spec(*o, r@) is Some,
        e matches Some(x) ==> escape_is(x, hex_escape_spec(*o, r@)->0),
{
    match first_char(r) {
        Some(c) => {
            if c != o.prefix {
                return None;
            }
        },
        None => {
            return None;
        },
    }
    let ghost body = r@.drop_first();
    let mut it = r.chars();
    let _ = it.next();
    let mut value: u32 = 0;
    let mut over = false;
    let mut i: usize = 0;
    let mut digested: usize = len_utf8(o.prefix);
    let total = str_len(r);
    assert(body.skip(0) == body);
    assert(body.take(0) == Seq::<char>::empty());
    proof {
        lemma_byte_len_split(r@, 1);
        assert(r@.take(1) == seq![o.prefix]);
        lemma_byte_len_single(o.prefix);
        assert(r@.skip(1) == body);
    }
    while i < o.length
        invariant
            i <= o.length,
            r@.len() > 0 && r@[0] == o.prefix,
            body == r@.drop_first(),
            it.remaining() == body.skip(i as int),
            i <= body.len(),
            forall|j: int| 0 <= j < i ==> is_ascii_hexdigit(#[trigger] body[j]),
            over == (hex_seq_value(body.take(i as int)) > u32::MAX),
            !over ==> value == hex_seq_value(body.take(i as int)),
            digested == char_width(o.prefix) + i,
            total == byte_len(r@),
            byte_len(r@) == char_width(o.prefix) + byte_len(body),
            i + byte_len(body.skip(i as int)) <= byte_len(body),
            hex_run(body, o.length as nat) == i + hex_run(body.skip(i as int), (o.length - i) as nat),
        decreases o.length - i,
    {
        match it.next() {
            None => {
                proof {
                    assert(body.skip(i as int).len() == 0);
                }
                return Some(escape_error(o.prefix, o.too_short_error));
            },
            Some(c) => {
                assert(c == body[i as int]);
                match to_hex_digit(c) {
                    None => {
                        proof {
                            assert(body.skip(i as int)[0] == c);
                        }
                        return Some(escape_error(o.prefix, o.too_short_error));
                    },
                    Some(d) => {
                        proof {
                            assert(body.take(i + 1) == body.take(i as int).push(c));
                            lemma_hex_push(body.take(i as int), c);
                            let sk = body.skip(i as int);
                            lemma_byte_len_split(sk, 1);
                            assert(sk.take(1) == seq![c]);
                            lemma_byte_len_single(c);
                            crate::text::lemma_char_width(c);
                            assert(sk.skip(1) == body.skip(i + 1));
                            assert(body.skip(i as int)[0] == c);
                            assert(body.skip(i as int).drop_first() == body.skip(i + 1));
                        }
                        if !over {
                            let v: u64 = value as u64 * 16 + d as u64;
                            if v > 0xffff_ffff {
                                over = true;
                            } else {
                                value = v as u32;
                            }
                        }
                        i = i + 1;
                        digested = digested + 1;
                    },
                }
            },
        }
    }
    if i == 0 {
        return Some(escape_error(o.prefix, o.too_short_error));
    }
    proof {
        assert(hex_run(body, o.length as nat) >= o.length);
    }
    if over {
        return Some(escape_error(o.prefix, o.invalid_unicode_error));
    }
    match scalar_string(value) {
        None => Some(escape_error(o.prefix, o.invalid_unicode_error)),
        Some(s) => Some(Escape { digested, value: s, error: None }),
    }
}

/// Run a code point escape at `r` (the rest after the escape starter).
fn code_point_apply<E: Copy>(o: &CodePointEscapeOptions<E>, r: &str) -> (e: Option<Escape<E>>)
    ensures
        e is Some <==> code_point_escape_spec(*o, r@) is Some,
        e matches Some(x) ==> escape_is(x, code_point_escape_spec(*o, r@)->0),
{
    let mut it = r.chars();
    match it.next() {
        Some(c) => {
            if c != o.prefix {
                return None;
            }
        },
        None => {
            return None;
        },
    }
    match it.next() {
        Some(c) => {
            assert(c == r@[1]);
            if c != o.open {
                return None;
            }
        },
        None => {
            return None;
        },
    }
    let ghost body = r@.skip(2);
    assert(r@.skip(2) == body);
    let mut value: u32 = 0;
    let mut over = false;
    let mut i: usize = 0;
    let total = str_len(r);
    let mut digested: usize = len_utf8(o.prefix) + len_utf8(o.open);
    assert(body.take(0) == Seq::<char>::empty());
    assert(body.skip(0) == body);
    proof {
        lemma_byte_len_split(r@, 2);
        assert(r@.take(2) == seq![o.prefix] + seq![o.open]);
        lemma_byte_len_add(seq![o.prefix], seq![o.open]);
        lemma_byte_len_single(o.prefix);
        lemma_byte_len_single(o.open);
    }
    loop
        invariant
            i <= o.max_length,
            r@.len() >= 2 && r@[0] == o.prefix && r@[1] == o.open,
            body == r@.skip(2),
            it.remaining() == body.skip(i as int),
            i <= body.len(),
            forall|j: int| 0 <= j < i ==> is_ascii_hexdigit(#[trigger] body[j]),
            over == (hex_seq_value(body.take(i as int)) > u32::MAX),
            !over ==> value == hex_seq_value(body.take(i as int)),
            digested == char_width(o.prefix) + char_width(o.open) + i,
            total == byte_len(r@),
            byte_len(r@) == char_width(o.prefix) + char_width(o.open) + byte_len(body),
            i + byte_len(body.skip(i as int)) <= byte_len(body),
            code_point_scan(*o, body, 0) == code_point_scan(*o, body, i as nat),
        decreases body.len() - i,
    {
        match it.next() {
            None => {
                proof {
                    assert(body.skip(i as int).len() == 0);
                }
                return Some(escape_error(o.prefix, o.unterminated_error));
            },
            Some(c) => {
                assert(c == body[i as int]);
                if c == o.close {
                    if i == 0 {
                        return Some(escape_error(o.prefix, o.empty_error));
                    }
                    if over {
                        return Some(
                            escape_error(o.prefix, o.invalid_unicode_error),
                        );
                    }
                    return match scalar_string(value) {
                        None => Some(
                            escape_error(o.prefix, o.invalid_unicode_error),
                        ),
                        Some(s) => Some(Escape { digested: digested + len_utf8(c), value: s, error: None }),
                    };
                }
                if i == o.max_length {
                    return Some(escape_error(o.prefix, o.overlong_error));
                }
                match to_hex_digit(c) {
                    None => {
                        return Some(
                            escape_error(o.prefix, o.invalid_char_error),
                        );
                    },
                    Some(d) => {
                        proof {
                            assert(body.take(i + 1) == body.take(i as int).push(c));
                            lemma_hex_push(body.take(i as int), c);
                            let sk = body.skip(i as int);
                            lemma_byte_len_split(sk, 1);
                            assert(sk.take(1) == seq![c]);
                            lemma_byte_len_single(c);
                            crate::text::lemma_char_width(c);
                            assert(sk.skip(1) == body.skip(i + 1));
                        }
                        if !over {
                            let v: u64 = value as u64 * 16 + d as u64;
                            if v > 0xffff_ffff {
                                over = true;
                            } else {
                                value = v as u32;
                            }
                        }
                        i = i + 1;
                        digested = digested + 1;
                    },
                }
            },
        }
    }
}

/// A handler of the pairs `pairs`: a char that stands for another.
pub fn map(pairs: Vec<(char, char)>) -> (r: EscapeHandler)
    ensures
        r == EscapeHandler::<EscapeError>::CharMap(pairs),
{
    EscapeHandler::CharMap(pairs)
}

/// A handler of line continuations: one of `ss`, which stands for nothing.
pub fn line_continuation(ss: Vec<String>) -> (r: EscapeHandler)
    ensures
        r == EscapeHandler::<EscapeError>::LineContinuation(ss),
{
    EscapeHandler::LineContinuation(ss)
}

/// A handler that accepts any char, which stands for itself, with the
/// error `error`.
pub fn fallback<E>(error: E) -> (r: EscapeHandler<E>)
    ensures
        r == EscapeHandler::Fallback(error),
{
    EscapeHandler::Fallback(error)
}

/// A hex escape handler with prefix `x` and 2 digits.
pub fn hex() -> (r: EscapeHandler<HexEscapeError>)
    ensures
        r == EscapeHandler::Hex(hex_options('x', 2)),
{
    hex_with_options(HexEscapeOptions::default())
}

/// A hex escape handler with options built from the default ones.
pub fn hex_with<E, F: FnOnce(HexEscapeOptions<HexEscapeError>) -> HexEscapeOptions<E>>(options_builder: F) -> (r: EscapeHandler<E>)
    requires
        options_builder.requires((hex_options('x', 2),)),
    ensures
        r matches EscapeHandler::Hex(o) && options_builder.ensures((hex_options('x', 2),), o),
{
    EscapeHandler::Hex(options_builder(HexEscapeOptions::default()))
}

/// A hex escape handler: the prefix, then exactly `length` hex digits,
/// which stand for the char of that value; too few digits, or a value that
/// is no char, give the value `\0` and the matching error of the options.
pub fn hex_with_options<E>(options: HexEscapeOptions<E>) -> (r: EscapeHandler<E>)
    ensures
        r == EscapeHandler::Hex(options),
{
    EscapeHandler::Hex(options)
}

/// A hex escape handler with prefix `u` and 4 digits.
pub fn unicode() -> (r: EscapeHandler<HexEscapeError>)
    ensures
        r == EscapeHandler::Hex(hex_options('u', 4)),
{
    hex_with_options(HexEscapeOptions::unicode())
}

/// A hex escape handler with options built from prefix `u` and 4 digits.
pub fn unicode_with<E, F: FnOnce(HexEscapeOptions<HexEscapeError>) -> HexEscapeOptions<E>>(options_builder: F) -> (r: EscapeHandler<E>)
    requires
        options_builder.requires((hex_options('u', 4),)),
    ensures
        r matches EscapeHandler::Hex(o) && options_builder.ensures((hex_options('u', 4),), o),
{
    EscapeHandler::Hex(options_builder(HexEscapeOptions::unicode()))
}

/// A code point escape handler: the prefix, the open brace, one or more hex
/// digits (at most `max_length`) and the close brace, which stand for the
/// char of that value; otherwise the value `\0` and the matching error of
/// the options.
pub fn code_point_with_options<E>(options: CodePointEscapeOptions<E>) -> (r: EscapeHandler<E>)
    ensures
        r == EscapeHandler::CodePoint(options),
{
    EscapeHandler::CodePoint(options)
}

/// A code point escape handler with options built from the default ones.
pub fn code_point_with<E, F: FnOnce(CodePointEscapeOptions<CodePointEscapeError>) -> CodePointEscapeOptions<E>>(options_builder: F) -> (r: EscapeHandler<E>)
    requires
        options_builder.requires((code_point_options('u', '{', '}', 6),)),
    ensures
        r matches EscapeHandler::CodePoint(o) && options_builder.ensures((code_point_options('u', '{', '}', 6),), o),
{
    EscapeHandler::CodePoint(options_builder(CodePointEscapeOptions::default()))
}

/// Chars of width 1 take one byte each.
pub proof fn lemma_hex_digits_len(s: Seq<char>)
    requires
        forall|i: int| 0 <= i < s.len() ==> is_ascii_hexdigit(#[trigger] s[i]),
    ensures
        byte_len(s) == s.len(),
    decreases s.len(),
{
    if s.len() > 0 {
        let p = s.drop_last();
        assert forall|i: int| 0 <= i < p.len() implies is_ascii_hexdigit(#[trigger] p[i]) by {
            assert(p[i] == s[i]);
        }
        lemma_hex_digits_len(p);
        assert(s == p.push(s.last()));
        crate::text::lemma_byte_len_push(p, s.last());
        assert(is_ascii_hexdigit(s[s.len() - 1]));
    }
}

/// A run of `l` hex digits covers the first `l` chars.
pub proof fn lemma_hex_run(s: Seq<char>, l: nat)
    ensures
        hex_run(s, l) <= l,
        hex_run(s, l) <= s.len(),
        forall|i: int| 0 <= i < hex_run(s, l) ==> is_ascii_hexdigit(#[trigger] s[i]),
    decreases s.len(),
{
    if l > 0 && s.len() > 0 && is_ascii_hexdigit(s[0]) {
        lemma_hex_run(s.drop_first(), (l - 1) as nat);
        assert forall|i: int| 0 <= i < hex_run(s, l) implies is_ascii_hexdigit(#[trigger] s[i]) by {
            if i > 0 {
                assert(s[i] == s.drop_first()[i - 1]);
            }
        }
    }
}

/// The bytes of the first char.
proof fn lemma_first_char_bytes(r: Seq<char>)
    requires
        r.len() > 0,
    ensures
        byte_len(r.take(1)) == char_width(r[0]),
        is_boundary(r, char_width(r[0]) as int),
        char_width(r[0]) <= byte_len(r),
{
    assert(r.take(1) == seq![r[0]]);
    lemma_byte_len_single(r[0]);
    lemma_byte_len_split(r, 1);
}

/// What a code point scan accepts ends on a char boundary of `r`.
proof fn lemma_code_point_scan<E>(o: CodePointEscapeOptions<E>, r: Seq<char>, i: nat)
    requires
        r.len() >= 2 && r[0] == o.prefix && r[1] == o.open,
        i <= r.skip(2).len(),
        forall|m: int| 0 <= m < i ==> is_ascii_hexdigit(#[trigger] r.skip(2)[m]),
    ensures
        ({
            let e = code_point_scan(o, r.skip(2), i);
            &&& e.2 is Some ==> e.0 == char_width(o.prefix)
            &&& e.2 is None ==> is_boundary(r, e.0 as int) && e.0 <= byte_len(r)
        }),
    decreases r.skip(2).len() - i,
{
    let body = r.skip(2);
    if i < body.len() {
        if body[i as int] == o.close {
            if i > 0 {
                let k = (2 + i + 1) as int;
                assert(r.take(k) == seq![o.prefix] + seq![o.open] + body.take(i as int) + seq![o.close]);
                lemma_hex_digits_len(body.take(i as int));
                lemma_byte_len_add(seq![o.prefix] + seq![o.open] + body.take(i as int), seq![o.close]);
                lemma_byte_len_add(seq![o.prefix] + seq![o.open], body.take(i as int));
                lemma_byte_len_add(seq![o.prefix], seq![o.open]);
                lemma_byte_len_single(o.prefix);
                lemma_byte_len_single(o.open);
                lemma_byte_len_single(o.close);
                lemma_byte_len_split(r, k);
                assert(is_boundary(r, byte_len(r.take(k)) as int));
            }
        } else if i != o.max_length && is_ascii_hexdigit(body[i as int]) {
            lemma_code_point_scan(o, r, i + 1);
        }
    }
}

/// What an escape handler accepts ends on a char boundary of `r`.
pub proof fn lemma_escape_spec_fits<E>(h: EscapeHandler<E>, r: Seq<char>)
    requires
        r.len() > 0,
    ensures
        escape_spec(h, r) matches Some(e) ==> is_boundary(r, e.0 as int) && e.0 <= byte_len(r),
{
    lemma_first_char_bytes(r);
    match h {
        EscapeHandler::CharMap(_) => {},
        EscapeHandler::Fallback(_) => {},
        EscapeHandler::LineContinuation(ss) => {
            let view = ss@.map_values(|s: String| s@);
            lemma_first_prefix(view, r, 0);
            match first_prefix(view, r, 0) {
                Some(j) => {
                    let t = view[j as int];
                    assert(t == ss@[j as int]@);
                    assert(r.take(t.len() as int) == t);
                    lemma_byte_len_split(r, t.len() as int);
                    assert(is_boundary(r, byte_len(r.take(t.len() as int)) as int));
                },
                None => {},
            }
        },
        EscapeHandler::Hex(o) => {
            if r[0] == o.prefix && o.length > 0 {
                let body = r.drop_first();
                lemma_hex_run(body, o.length as nat);
                if hex_run(body, o.length as nat) >= o.length {
                    let k = 1 + o.length;
                    assert(r.take(k as int) == seq![o.prefix] + body.take(o.length as int));
                    assert forall|i: int| 0 <= i < o.length implies is_ascii_hexdigit(#[trigger] body.take(o.length as int)[i]) by {
                        assert(body.take(o.length as int)[i] == body[i]);
                    }
                    lemma_hex_digits_len(body.take(o.length as int));
                    lemma_byte_len_add(seq![o.prefix], body.take(o.length as int));
                    lemma_byte_len_single(o.prefix);
                    lemma_byte_len_split(r, k as int);
                    assert(is_boundary(r, byte_len(r.take(k as int)) as int));
                }
            }
        },
        EscapeHandler::CodePoint(o) => {
            if r.len() >= 2 && r[0] == o.prefix && r[1] == o.open {
                lemma_code_point_scan(o, r, 0);
            }
        },
    }
}

/// The first prefix that `r` starts with is one of them.
pub proof fn lemma_first_prefix(ss: Seq<Seq<char>>, r: Seq<char>, j: nat)
    ensures
        first_prefix(ss, r, j) matches Some(x) ==> j <= x < ss.len() && seq_starts_with(r, ss[x as int]),
    decreases ss.len() - j,
{
    if j < ss.len() && !seq_starts_with(r, ss[j as int]) {
        lemma_first_prefix(ss, r, j + 1);
    }
}

} // verus!
