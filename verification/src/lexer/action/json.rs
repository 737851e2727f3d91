//! Actions for JSON: whitespaces, boundaries, strings and numbers.
use super::class::CharClass;
use super::escape::{hex_with_options, EscapeError, EscapeHandler, HexEscapeError, HexEscapeOptions};
use super::float::{copy_strings, decimal_digits, float_action, FloatExponentOptions, FloatMatcher};
use super::simple::{charset, exact_chars};
use super::string::{string as string_literal, StringBodyMatcher, StringBodyOptions, StringMatcher};
use super::string_list::StringList;
use super::{Action, HeadMatcher, Matcher};
use crate::kind::SubKindId;
use vstd::prelude::*;

verus! {

/// An action that accepts JSON whitespace: one or more of space, line
/// feed, carriage return and tab.
pub fn whitespaces() -> (r: Action)
    ensures
        r.matcher matches Matcher::Chars(CharClass::OneOf(v)) && v@ == seq!['\x20', '\x0a', '\x0d', '\x09'],
        r.head matches Some(HeadMatcher::OneOf(h)) && forall|c: char|
            h@.contains(c) <==> seq!['\x20', '\x0a', '\x0d', '\x09'].contains(c),
        r.kind == SubKindId(0),
        !r.muted,
{
    let v = vec!['\x20', '\x0a', '\x0d', '\x09'];
    assert(v@ =~= seq!['\x20', '\x0a', '\x0d', '\x09']);
    charset(v)
}

/// The JSON boundary chars, in order.
pub open spec fn json_boundary_chars() -> Seq<char> {
    seq!['{', '}', ',', ':', '[', ']']
}

/// The escape pairs of JSON strings.
pub open spec fn json_escape_pairs() -> Seq<(char, char)> {
    seq![
        ('"', '"'),
        ('\\', '\\'),
        ('/', '/'),
        ('b', '\x08'),
        ('f', '\x0c'),
        ('n', '\n'),
        ('r', '\r'),
        ('t', '\t'),
        ('0', '\0'),
    ]
}

/// The char the JSON simple escape `\c` (after the backslash) stands for,
/// if `c` is one: the pair of [`json_escape_pairs`] that the escape handler
/// finds for it (see [`super::escape::escape_spec`]).
pub open spec fn json_simple_escape(c: char) -> Option<char> {
    let pairs = json_escape_pairs();
    match super::escape::last_key(pairs, c, pairs.len()) {
        Some(j) => Some(pairs[j as int].1),
        None => None,
    }
}

/// The JSON simple escapes stand for the chars the JSON standard names (by
/// code point): `\"` U+0022, `\\` U+005C, `\/` U+002F, `\b` U+0008,
/// `\f` U+000C, `\n` U+000A, `\r` U+000D, `\t` U+0009, and `\0` U+0000;
/// no other char is a simple escape, and no two escapes stand for the same
/// char.
pub proof fn law_json_simple_escapes(c: char, d: char)
    ensures
        json_simple_escape('"') == Some('\u{22}'),
        json_simple_escape('\\') == Some('\u{5c}'),
        json_simple_escape('/') == Some('\u{2f}'),
        json_simple_escape('b') == Some('\u{8}'),
        json_simple_escape('f') == Some('\u{c}'),
        json_simple_escape('n') == Some('\u{a}'),
        json_simple_escape('r') == Some('\u{d}'),
        json_simple_escape('t') == Some('\u{9}'),
        json_simple_escape('0') == Some('\u{0}'),
        json_simple_escape(c) is Some <==> (c == '"' || c == '\\' || c == '/' || c == 'b' || c == 'f' || c
            == 'n' || c == 'r' || c == 't' || c == '0'),
        json_simple_escape(c) is Some && json_simple_escape(c) == json_simple_escape(d) ==> c == d,
{
    reveal_with_fuel(super::escape::last_key, 10);
}

/// One exact action per JSON boundary char: `{`, `}`, `,`, `:`, `[`, `]`.
pub fn boundaries() -> (r: Vec<Action>)
    ensures
        r@.len() == 6,
        forall|i: int|
            0 <= i < 6 ==> {
                let a = #[trigger] r@[i];
                &&& a.matcher == Matcher::Exact(a.literal->0)
                &&& a.literal matches Some(l) && l@ == seq![json_boundary_chars()[i]]
                &&& a.head matches Some(HeadMatcher::OneOf(v)) && v@ == seq![json_boundary_chars()[i]]
                &&& a.kind == SubKindId(0)
                &&& !a.muted
            },
{
    let r = exact_chars("{},:[]");
    proof {
        reveal_strlit("{},:[]");
        assert("{},:[]"@ == json_boundary_chars());
    }
    r
}

/// The escapes of JSON strings: `\"`, `\\`, `\/`, `\b`, `\f`, `\n`, `\r`,
/// `\t`, `\0`, and `\u` with 4 hex digits.
pub fn json_escapes() -> (r: Vec<EscapeHandler>)
    ensures
        r@.len() == 2,
        r@[0] matches EscapeHandler::CharMap(pairs) && pairs@ == json_escape_pairs(),
        r@[1] == EscapeHandler::Hex(super::escape::hex_options_in_body('u', 4)),
{
    let pairs = vec![
        ('"', '"'),
        ('\\', '\\'),
        ('/', '/'),
        ('b', '\x08'),
        ('f', '\x0c'),
        ('n', '\n'),
        ('r', '\r'),
        ('t', '\t'),
        ('0', '\0'),
    ];
    assert(pairs@ == json_escape_pairs());
    let mut r: Vec<EscapeHandler> = Vec::new();
    r.push(crate::lexer::action::escape::map(pairs));
    let wrap = |e: HexEscapeError| -> (w: EscapeError)
        ensures
            w == EscapeError::Hex(e),
        { EscapeError::Hex(e) };
    r.push(hex_with_options(HexEscapeOptions::unicode().error(wrap)));
    r
}

/// Whether `m` is the matcher of a JSON string: the open quote `"`, then a
/// body of chars from space up except `"`, `\`, carriage return and line
/// feed, escapes after `\` ([`json_escapes`]), the close quote `"`, and a
/// line break that ends it unterminated.
pub open spec fn json_string_matcher(m: StringMatcher) -> bool {
    &&& m.open@.len() == 1
    &&& m.open@[0]@ == seq!['"']
    &&& m.body.matchers@.len() == 4
    &&& m.body.matchers@[0] matches StringBodyMatcher::Chars(CharClass::RangeExcept(lo, hi, ex)) && lo == '\x20'
        && hi == '\u{10ffff}' && ex@ == seq!['"', '\\', '\r', '\n']
    &&& m.body.matchers@[1] matches StringBodyMatcher::Escape(starter, hs) && starter == '\\' && hs@.len() == 2
        && (hs@[0] matches EscapeHandler::CharMap(pairs) && pairs@ == json_escape_pairs()) && hs@[1]
        == EscapeHandler::Hex(super::escape::hex_options_in_body('u', 4))
    &&& m.body.matchers@[2] matches StringBodyMatcher::CloseIf(CharClass::OneOf(q)) && q@ == seq!['"']
    &&& m.body.matchers@[3] == StringBodyMatcher::Singleline
    &&& m.body.acc@.len() == 0
}

/// The body chars of a JSON string are the chars from U+0020 up (that end
/// included) except `"` (U+0022), `\` (U+005C), carriage return (U+000D)
/// and line feed (U+000A), as the JSON standard has them (control chars
/// below U+0020 must be escaped); its escapes start with `\` and the first
/// escape handler is the table of [`law_json_simple_escapes`], the second
/// one `\u` with 4 hex digits.
pub proof fn law_json_string_body_chars(m: StringMatcher, c: char)
    requires
        json_string_matcher(m),
    ensures
        m.body.matchers@[0] matches StringBodyMatcher::Chars(k) && (k.spec_contains(c) <==> (0x20 <= c as u32
            && c as u32 != 0x22 && c as u32 != 0x5c && c as u32 != 0x0d && c as u32 != 0x0a)),
        m.body.matchers@[1] matches StringBodyMatcher::Escape(starter, hs) && starter as u32 == 0x5c && (
        hs@[0] matches EscapeHandler::CharMap(pairs) && pairs@ == json_escape_pairs()) && (
        hs@[1] matches EscapeHandler::Hex(o) && o.prefix as u32 == 0x75 && o.length == 4),
{
    if let StringBodyMatcher::Chars(CharClass::RangeExcept(lo, hi, ex)) = m.body.matchers@[0] {
        super::class::law_range_except_class_is_inclusive(lo, hi, ex, c);
        assert(ex@.contains(c) <==> (c == '"' || c == '\\' || c == '\r' || c == '\n')) by {
            if c == '"' {
                assert(ex@[0] == c);
            } else if c == '\\' {
                assert(ex@[1] == c);
            } else if c == '\r' {
                assert(ex@[2] == c);
            } else if c == '\n' {
                assert(ex@[3] == c);
            }
        }
    }
}

/// An action that accepts a JSON string: `"`, then chars from space up
/// except `"`, `\`, carriage return and line feed, and escapes; `"` closes
/// it, a line break ends it unterminated.
pub fn string() -> (r: Action)
    ensures
        r.matcher matches Matcher::Str(m) && json_string_matcher(m),
        r.head matches Some(HeadMatcher::OneOf(v)) && forall|c: char| v@.contains(c) <==> c == '"',
        r.kind == SubKindId(0),
        r.literal is None,
        !r.muted,
{
    let excluded = vec!['"', '\\', '\r', '\n'];
    assert(excluded@ == seq!['"', '\\', '\r', '\n']);
    let o0 = StringBodyOptions::new();
    let o1 = o0.chars(CharClass::RangeExcept('\x20', '\u{10ffff}', excluded));
    let o2 = o1.escape('\\', json_escapes());
    let o3 = o2.close('"');
    let options = o3.singleline();
    assert(options.matchers@ == o3.matchers@.push(StringBodyMatcher::Singleline));
    assert(o3.matchers@.drop_last() == o2.matchers@);
    assert(o3.matchers@[0] == o3.matchers@.drop_last()[0]);
    assert(o3.matchers@[1] == o3.matchers@.drop_last()[1]);
    assert(o2.matchers@[0] == o1.matchers@[0]);
    assert(options.matchers@[0] == o1.matchers@[0]);
    assert(options.matchers@[1] == o2.matchers@[1]);
    assert(options.matchers@[2] == o3.matchers@[2]);
    let mut open: Vec<String> = Vec::new();
    open.push("\"".to_owned());
    proof {
        reveal_strlit("\"");
        assert(open@[0]@.len() > 0);
        assert(open@[0]@ == seq!['"']);
    }
    let r = string_literal(StringList(open), options);
    proof {
        let v = r.head->0->OneOf_0;
        assert forall|c: char| v@.contains(c) <==> c == '"' by {
            if v@.contains(c) {
                let i = choose|i: int| 0 <= i < open@.len() && #[trigger] open@[i]@[0] == c;
                assert(i == 0);
            }
            if c == '"' {
                assert(open@[0]@[0] == c);
            }
        }
    }
    r
}

/// Accumulators of a JSON number's parts.
#[derive(Default, Debug, Clone)]
pub struct NumberOptions<SepAcc, IntAcc, FracAcc, ExpAcc> {
    /// The accumulator of separator indexes.
    pub separator: SepAcc,
    /// The accumulator of the integral digits.
    pub integer: IntAcc,
    /// The accumulator of the fractional digits.
    pub fraction: FracAcc,
    /// The accumulator of the exponent digits.
    pub exponent: ExpAcc,
}

impl NumberOptions<(), (), (), ()> {
    /// No accumulators.
    pub fn new() -> (r: Self)
        ensures
            r == (NumberOptions { separator: (), integer: (), fraction: (), exponent: () }),
    {
        NumberOptions { separator: (), integer: (), fraction: (), exponent: () }
    }
}

impl<SepAcc, IntAcc, FracAcc, ExpAcc> NumberOptions<SepAcc, IntAcc, FracAcc, ExpAcc> {
    /// Set the accumulator of separator indexes.
    pub fn separator<NewSepAcc>(self, acc: NewSepAcc) -> (r: NumberOptions<NewSepAcc, IntAcc, FracAcc, ExpAcc>)
        ensures
            r.separator == acc,
            r.integer == self.integer,
            r.fraction == self.fraction,
            r.exponent == self.exponent,
    {
        NumberOptions { separator: acc, integer: self.integer, fraction: self.fraction, exponent: self.exponent }
    }

    /// Set the accumulator of the integral digits.
    pub fn integer<NewIntAcc>(self, acc: NewIntAcc) -> (r: NumberOptions<SepAcc, NewIntAcc, FracAcc, ExpAcc>)
        ensures
            r.separator == self.separator,
            r.integer == acc,
            r.fraction == self.fraction,
            r.exponent == self.exponent,
    {
        NumberOptions { separator: self.separator, integer: acc, fraction: self.fraction, exponent: self.exponent }
    }

    /// Set the accumulator of the fractional digits.
    pub fn fraction<NewFracAcc>(self, acc: NewFracAcc) -> (r: NumberOptions<SepAcc, IntAcc, NewFracAcc, ExpAcc>)
        ensures
            r.separator == self.separator,
            r.integer == self.integer,
            r.fraction == acc,
            r.exponent == self.exponent,
    {
        NumberOptions { separator: self.separator, integer: self.integer, fraction: acc, exponent: self.exponent }
    }

    /// Set the accumulator of the exponent digits.
    pub fn exponent<NewExpAcc>(self, acc: NewExpAcc) -> (r: NumberOptions<SepAcc, IntAcc, FracAcc, NewExpAcc>)
        ensures
            r.separator == self.separator,
            r.integer == self.integer,
            r.fraction == self.fraction,
            r.exponent == acc,
    {
        NumberOptions { separator: self.separator, integer: self.integer, fraction: self.fraction, exponent: acc }
    }
}

/// An action that accepts a JSON number: an optional `-`, then a float
/// literal body with `_` separators, the point `.` and the default exponent
/// indicators; tried only on rests that start with `-` or a digit. Its data
/// holds the separator indexes and the digits of each part, whatever
/// accumulators the options name: the data of every action has the one type
/// [`super::ActionData`].
pub fn number<SepAcc, IntAcc, FracAcc, ExpAcc>(options: NumberOptions<SepAcc, IntAcc, FracAcc, ExpAcc>) -> (r: Action)
    ensures
        r.matcher matches Matcher::Float(m) && m.separator == Some('_') && m.point == Some('.') && m.minus
            && m.spec_indicators() == Some(seq!["e-"@, "e+"@, "e"@, "E-"@, "E+"@, "E"@]),
        r.head matches Some(HeadMatcher::OneOf(v)) && forall|c: char|
            v@.contains(c) <==> (c == '-' || ('0' <= c && c <= '9')),
        r.kind == SubKindId(0),
        r.literal is None,
        !r.muted,
{
    let e = FloatExponentOptions::new();
    let indicators = copy_strings(&e.indicators);
    let mut head = decimal_digits();
    let ghost digits = head@;
    head.push('-');
    proof {
        assert forall|c: char| head@.contains(c) <==> (c == '-' || ('0' <= c && c <= '9')) by {
            assert(head@ == digits.push('-'));
            if c == '-' {
                assert(head@[head@.len() - 1] == c);
            }
            if digits.contains(c) {
                let j = choose|j: int| 0 <= j < digits.len() && digits[j] == c;
                assert(head@[j] == c);
            }
            if head@.contains(c) {
                let j = choose|j: int| 0 <= j < head@.len() && head@[j] == c;
                if j < digits.len() {
                    assert(digits[j] == c);
                }
            }
        }
    }
    let m = FloatMatcher { separator: Some('_'), point: Some('.'), indicators: Some(indicators), minus: true };
    float_action(m, head)
}

} // verus!
