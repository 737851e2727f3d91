//! String literals: an open quote, then a body made of parts (runs of
//! chars, escapes), until a part closes it.
use super::accumulator::{acc_fold, Accumulator};
use super::class::{dedup_chars, CharClass};
use super::escape::{escape_is, escape_spec, EscapeHandler, StringLiteralError};
use super::string_list::StringList;
use super::simple::{class_prefix, class_scan_len, lemma_class_scan_len_bound};
use super::{Action, HeadMatcher, Matcher};
use crate::kind::SubKindId;
use crate::text::{
    byte_len, char_index, char_width, first_char, is_boundary, lemma_byte_len_add,
    lemma_byte_len_pos, lemma_byte_len_single, lemma_byte_len_split, lemma_char_index,
    lemma_char_width, len_utf8, seq_starts_with, str_after, str_len, str_skip, str_starts_with,
    string_push,
};
use vstd::prelude::*;

verus! {

broadcast use vstd::string::group_string_axioms;

/// A part of a string body: the digested bytes, its value, whether it
/// closes the string, and its error, if any.
#[derive(Clone, Debug)]
pub struct PartialStringBody {
    /// The number of digested bytes.
    pub digested: usize,
    /// The value of the part.
    pub value: String,
    /// Whether this part closes the string.
    pub close: bool,
    /// The error, if any.
    pub error: Option<StringLiteralError>,
}

/// A part of a string body in spec form: digested bytes, value, close, error.
pub type PartSpec = (nat, Seq<char>, bool, Option<StringLiteralError>);

/// The spec form of a part.
pub open spec fn part_view(p: PartialStringBody) -> PartSpec {
    (p.digested as nat, p.value@, p.close, p.error)
}

/// The spec forms of parts.
pub open spec fn parts_view(ps: Seq<PartialStringBody>) -> Seq<PartSpec> {
    ps.map_values(|p: PartialStringBody| part_view(p))
}

/// The part that closes an unterminated string: nothing digested, with an error.
pub open spec fn unterminated_part() -> PartSpec {
    (0, Seq::empty(), true, Some(StringLiteralError::Unterminated))
}

/// Values that string body parts can build from strings and chars.
pub trait PartialStringBodyValue: Sized {
    /// The value of `s`.
    fn value_of_str(s: &str) -> Self;

    /// The value of `c`.
    fn value_of_char(c: char) -> Self;
}

impl PartialStringBodyValue for String {
    fn value_of_str(s: &str) -> (r: Self)
        ensures
            r@ == s@,
    {
        s.to_owned()
    }

    fn value_of_char(c: char) -> (r: Self)
        ensures
            r@ == seq![c],
    {
        let mut r = String::new();
        string_push(&mut r, c);
        r
    }
}

impl PartialStringBodyValue for () {
    fn value_of_str(s: &str) -> (r: Self) {
    }

    fn value_of_char(c: char) -> (r: Self) {
    }
}

/// Collect the values of string body parts into a string.
impl Accumulator<PartialStringBody> for String {
    type AccView = Seq<char>;

    open spec fn acc_view(&self) -> Seq<char> {
        self@
    }

    open spec fn acc_step(v: Seq<char>, t: PartialStringBody) -> Seq<char> {
        v + t.value@
    }

    fn update(&mut self, t: PartialStringBody) {
        self.append(t.value.as_str());
    }

    fn duplicate(&self) -> (r: Self) {
        self.clone()
    }
}

/// Collect string body parts into a vector.
impl Accumulator<PartialStringBody> for Vec<PartialStringBody> {
    type AccView = Seq<PartSpec>;

    open spec fn acc_view(&self) -> Seq<PartSpec> {
        parts_view(self@)
    }

    open spec fn acc_step(v: Seq<PartSpec>, t: PartialStringBody) -> Seq<PartSpec> {
        v.push(part_view(t))
    }

    fn update(&mut self, t: PartialStringBody) {
        let ghost old_v = self@;
        self.push(t);
        assert(parts_view(self@) =~= parts_view(old_v).push(part_view(t)));
    }

    fn duplicate(&self) -> (r: Self) {
        let mut r: Vec<PartialStringBody> = Vec::new();
        let mut i: usize = 0;
        while i < self.len()
            invariant
                i <= self@.len(),
                parts_view(r@) == parts_view(self@.take(i as int)),
                r@.len() == i,
            decreases self@.len() - i,
        {
            let p = &self[i];
            let q = PartialStringBody {
                digested: p.digested,
                value: p.value.clone(),
                close: p.close,
                error: p.error,
            };
            let ghost old_r = r@;
            r.push(q);
            proof {
                assert(self@.take(i + 1) == self@.take(i as int).push(self@[i as int]));
                assert forall|j: int| 0 <= j < r@.len() implies #[trigger] parts_view(r@)[j]
                    == parts_view(self@.take(i + 1))[j] by {
                    if j < i {
                        assert(r@[j] == old_r[j]);
                        assert(parts_view(old_r)[j] == parts_view(self@.take(i as int))[j]);
                    }
                }
                assert(parts_view(r@) =~= parts_view(self@.take(i + 1)));
            }
            i = i + 1;
        }
        assert(self@.take(self@.len() as int) == self@);
        r
    }
}

/// A matcher of string body parts.
#[derive(Clone, Debug)]
pub enum StringBodyMatcher {
    /// One or more chars of a class; the value is those chars.
    Chars(CharClass),
    /// A char of a class that closes the string; no value.
    CloseIf(CharClass),
    /// A (non-empty) string that closes the string when the rest starts
    /// with it; no value.
    CloseMatch(String),
    /// An escape: the starter, then what the first accepting handler accepts.
    Escape(char, Vec<EscapeHandler>),
    /// A line break, which ends the string unterminated without being digested.
    Singleline,
}

/// What the first of `handlers` (from `j` on) that accepts `r` yields.
pub open spec fn first_escape(handlers: Seq<EscapeHandler>, r: Seq<char>, j: nat) -> Option<(super::escape::EscapeSpec)>
    decreases handlers.len() - j,
{
    if j >= handlers.len() {
        None
    } else {
        match escape_spec(handlers[j as int], r) {
            Some(e) => Some(e),
            None => first_escape(handlers, r, j + 1),
        }
    }
}

/// What matcher `m` yields at `r` (not empty), if it accepts.
pub open spec fn matcher_part(m: StringBodyMatcher, r: Seq<char>) -> Option<PartSpec> {
    match m {
        StringBodyMatcher::Chars(class) => {
            let n = class_scan_len(class, r);
            if n == 0 {
                None
            } else {
                Some((byte_len(r.take(n as int)), r.take(n as int), false, None))
            }
        },
        StringBodyMatcher::CloseIf(class) => if class.spec_contains(r[0]) {
            Some((char_width(r[0]), Seq::empty(), true, None))
        } else {
            None
        },
        StringBodyMatcher::Escape(starter, handlers) => if r[0] != starter {
            None
        } else if r.len() == 1 {
            Some((char_width(starter), seq![starter], true, Some(StringLiteralError::Unterminated)))
        } else {
            match first_escape(handlers@, r.drop_first(), 0) {
                Some(e) => Some(((char_width(starter) + e.0) as nat, e.1, false, e.2)),
                None => Some(
                    (char_width(starter), seq![starter], false, Some(StringLiteralError::UnhandledEscape)),
                ),
            }
        },
        StringBodyMatcher::CloseMatch(s) => if s@.len() > 0 && seq_starts_with(r, s@) {
            Some((byte_len(s@), Seq::empty(), true, None))
        } else {
            None
        },
        StringBodyMatcher::Singleline => if r[0] == '\n' {
            Some(unterminated_part())
        } else {
            None
        },
    }
}

/// What the first of `ms` (from `j` on) that accepts `r` yields.
pub open spec fn first_part(ms: Seq<StringBodyMatcher>, r: Seq<char>, j: nat) -> Option<PartSpec>
    decreases ms.len() - j,
{
    if j >= ms.len() {
        None
    } else {
        match matcher_part(ms[j as int], r) {
            Some(p) => Some(p),
            None => first_part(ms, r, j + 1),
        }
    }
}

/// The parts of a string body from char index `k` of `rest`, and the char
/// index where it ends. At each position the first accepting matcher gives
/// the next part; a closing part ends the body; at the end of the text, or
/// when no matcher accepts, an unterminated part ends it.
pub open spec fn body_spec(ms: Seq<StringBodyMatcher>, rest: Seq<char>, k: nat) -> (Seq<PartSpec>, nat)
    decreases rest.len() - k,
{
    if k >= rest.len() {
        (seq![unterminated_part()], k)
    } else {
        let r = rest.skip(k as int);
        match first_part(ms, r, 0) {
            None => (seq![unterminated_part()], k),
            Some(p) => {
                let n = char_index(r, p.0 as int);
                if p.2 {
                    (seq![p], (k + n) as nat)
                } else if n <= 0 || k + n > rest.len() {
                    (seq![p], k)
                } else {
                    let (tail, e) = body_spec(ms, rest, (k + n) as nat);
                    (seq![p] + tail, e)
                }
            },
        }
    }
}

/// Options of a string body: the matchers of its parts, tried in order,
/// and the accumulator of the parts.
#[derive(Clone, Debug)]
pub struct StringBodyOptions<Acc> {
    /// The matchers, tried in order.
    pub matchers: Vec<StringBodyMatcher>,
    /// The accumulator of the parts.
    pub acc: Acc,
}

impl StringBodyOptions<()> {
    /// No matchers, no accumulator.
    pub fn new() -> (r: Self)
        ensures
            r.matchers@ == Seq::<StringBodyMatcher>::empty(),
    {
        StringBodyOptions { matchers: Vec::new(), acc: () }
    }

    /// No matchers, no accumulator (for string values).
    pub fn with_value() -> (r: Self)
        ensures
            r.matchers@ == Seq::<StringBodyMatcher>::empty(),
    {
        StringBodyOptions::new()
    }

    /// No matchers, no accumulator (for custom errors).
    pub fn with_error() -> (r: Self)
        ensures
            r.matchers@ == Seq::<StringBodyMatcher>::empty(),
    {
        StringBodyOptions::new()
    }
}

impl<Acc> StringBodyOptions<Acc> {
    /// Add a matcher at the end.
    fn append_body_matcher(self, m: StringBodyMatcher) -> (r: Self)
        ensures
            r.matchers@ == self.matchers@.push(m),
            r.acc == self.acc,
    {
        let mut matchers = self.matchers;
        matchers.push(m);
        StringBodyOptions { matchers, acc: self.acc }
    }

    /// Add a matcher of runs of chars of `class`.
    pub fn chars(self, class: CharClass) -> (r: Self)
        ensures
            r.matchers@ == self.matchers@.push(StringBodyMatcher::Chars(class)),
            r.acc == self.acc,
    {
        self.append_body_matcher(StringBodyMatcher::Chars(class))
    }

    /// Add a matcher that closes the string on a char of `class`.
    pub fn close_if(self, class: CharClass) -> (r: Self)
        ensures
            r.matchers@ == self.matchers@.push(StringBodyMatcher::CloseIf(class)),
            r.acc == self.acc,
    {
        self.append_body_matcher(StringBodyMatcher::CloseIf(class))
    }

    /// Add a matcher that closes the string on `quote`.
    /// Close the string where the rest starts with `close` (not empty).
    pub fn close_match(self, close: String) -> (r: Self)
        ensures
            r.matchers@ == self.matchers@.push(StringBodyMatcher::CloseMatch(close)),
            r.acc == self.acc,
    {
        self.append_body_matcher(StringBodyMatcher::CloseMatch(close))
    }

    pub fn close(self, quote: char) -> (r: Self)
        ensures
            r.matchers@.len() == self.matchers@.len() + 1,
            r.matchers@.drop_last() == self.matchers@,
            r.matchers@.last() matches StringBodyMatcher::CloseIf(CharClass::OneOf(v)) && v@ == seq![quote],
            r.acc == self.acc,
    {
        let v = vec![quote];
        assert(v@ =~= seq![quote]);
        let r = self.close_if(CharClass::OneOf(v));
        assert(r.matchers@.drop_last() == self.matchers@);
        r
    }

    /// Add a matcher of escapes: `starter`, then what the first accepting
    /// handler accepts.
    pub fn escape(self, starter: char, handlers: Vec<EscapeHandler>) -> (r: Self)
        ensures
            r.matchers@ == self.matchers@.push(StringBodyMatcher::Escape(starter, handlers)),
            r.acc == self.acc,
    {
        self.append_body_matcher(StringBodyMatcher::Escape(starter, handlers))
    }

    /// Add a matcher that ends the string, unterminated, at a line break.
    pub fn singleline(self) -> (r: Self)
        ensures
            r.matchers@ == self.matchers@.push(StringBodyMatcher::Singleline),
            r.acc == self.acc,
    {
        self.append_body_matcher(StringBodyMatcher::Singleline)
    }

    /// Set the accumulator of the parts.
    pub fn acc<NewAcc>(self, acc: NewAcc) -> (r: StringBodyOptions<NewAcc>)
        ensures
            r.matchers == self.matchers,
            r.acc == acc,
    {
        StringBodyOptions { matchers: self.matchers, acc }
    }

    /// Accumulate the values of the parts into a string.
    pub fn acc_to_string(self) -> (r: StringBodyOptions<String>)
        ensures
            r.matchers == self.matchers,
            r.acc@ == Seq::<char>::empty(),
    {
        self.acc(String::new())
    }

    /// Accumulate the parts into a vector.
    pub fn acc_to_vec(self) -> (r: StringBodyOptions<Vec<PartialStringBody>>)
        ensures
            r.matchers == self.matchers,
            r.acc@ == Seq::<PartialStringBody>::empty(),
    {
        self.acc(Vec::new())
    }
}

/// The input of a string body matcher: the rest and its first char.
#[derive(Clone, Copy, Debug)]
pub struct StringBodyMatcherInput<'text> {
    /// The rest of the text.
    pub rest: &'text str,
    /// The first char of the rest.
    pub next: char,
}

impl<'text> StringBodyMatcherInput<'text> {
    /// The input for `rest`, `None` if it is empty.
    pub fn new(rest: &'text str) -> (r: Option<Self>)
        ensures
            r is Some <==> rest@.len() > 0,
            r matches Some(i) ==> i.rest == rest && i.next == rest@[0],
    {
        match first_char(rest) {
            Some(next) => Some(StringBodyMatcherInput { rest, next }),
            None => None,
        }
    }
}

/// The part that closes an unterminated string.
fn close_with_unterminated_err() -> (r: PartialStringBody)
    ensures
        part_view(r) == unterminated_part(),
{
    PartialStringBody {
        digested: 0,
        value: String::new(),
        close: true,
        error: Some(StringLiteralError::Unterminated),
    }
}

/// What the first accepting escape handler accepts ends on a char boundary.
pub proof fn lemma_escape_fits(handlers: Seq<EscapeHandler>, r: Seq<char>)
    requires
        r.len() > 0,
    ensures
        first_escape(handlers, r, 0) matches Some(e) ==> is_boundary(r, e.0 as int) && e.0 <= byte_len(r),
{
    lemma_first_escape_fits(handlers, r, 0);
}

proof fn lemma_first_escape_fits(handlers: Seq<EscapeHandler>, r: Seq<char>, j: nat)
    requires
        r.len() > 0,
    ensures
        first_escape(handlers, r, j) matches Some(e) ==> is_boundary(r, e.0 as int) && e.0 <= byte_len(r),
    decreases handlers.len() - j,
{
    if j < handlers.len() {
        super::escape::lemma_escape_spec_fits(handlers[j as int], r);
        if escape_spec(handlers[j as int], r) is None {
            lemma_first_escape_fits(handlers, r, j + 1);
        }
    }
}

/// Run escape handlers in order at `r` (not empty).
fn first_escape_exec(handlers: &Vec<EscapeHandler>, r: &str) -> (e: Option<super::escape::Escape>)
    requires
        r@.len() > 0,
    ensures
        e is Some <==> first_escape(handlers@, r@, 0) is Some,
        e matches Some(x) ==> escape_is(x, first_escape(handlers@, r@, 0)->0),
{
    let mut j: usize = 0;
    while j < handlers.len()
        invariant
            j <= handlers@.len(),
            r@.len() > 0,
            first_escape(handlers@, r@, 0) == first_escape(handlers@, r@, j as nat),
        decreases handlers@.len() - j,
    {
        match handlers[j].apply(r) {
            Some(e) => {
                return Some(e);
            },
            None => {},
        }
        j = j + 1;
    }
    None
}

impl StringBodyMatcher {
    /// Run the matcher at `r` (not empty).
    pub fn apply(&self, r: &str) -> (p: Option<PartialStringBody>)
        requires
            r@.len() > 0,
        ensures
            p is Some <==> matcher_part(*self, r@) is Some,
            p matches Some(x) ==> part_view(x) == matcher_part(*self, r@)->0,
    {
        let next = match first_char(r) {
            Some(c) => c,
            None => ' ',
        };
        match self {
            StringBodyMatcher::Chars(class) => {
                let n = class_prefix(r, class);
                proof {
                    let k = class_scan_len(*class, r@);
                    lemma_class_scan_len_bound(*class, r@);
                    lemma_byte_len_pos(r@.take(k as int));
                }
                if n == 0 {
                    return None;
                }
                let value = crate::text::str_take(r, n, Ghost(class_scan_len(*class, r@) as int));
                Some(PartialStringBody { digested: n, value: value.to_owned(), close: false, error: None })
            },
            StringBodyMatcher::CloseIf(class) => {
                if class.contains(next) {
                    Some(PartialStringBody { digested: len_utf8(next), value: String::new(), close: true, error: None })
                } else {
                    None
                }
            },
            StringBodyMatcher::Escape(starter, handlers) => {
                if next != *starter {
                    return None;
                }
                let w = len_utf8(next);
                proof {
                    assert(r@.take(1) == seq![next]);
                    lemma_byte_len_single(next);
                    assert(r@.skip(1) == r@.drop_first());
                }
                let after = str_skip(r, w, Ghost(1));
                let mut value = String::new();
                string_push(&mut value, next);
                if str_len(after) == 0 {
                    proof {
                        crate::text::lemma_byte_len_pos(after@);
                    }
                    return Some(
                        PartialStringBody {
                            digested: w,
                            value,
                            close: true,
                            error: Some(StringLiteralError::Unterminated),
                        },
                    );
                }
                proof {
                    crate::text::lemma_byte_len_pos(after@);
                }
                let total = str_len(r);
                proof {
                    lemma_byte_len_split(r@, 1);
                    lemma_escape_fits(handlers@, after@);
                }
                match first_escape_exec(handlers, after) {
                    Some(e) => {
                        Some(PartialStringBody { digested: w + e.digested, value: e.value, close: false, error: e.error })
                    },
                    None => Some(
                        PartialStringBody {
                            digested: w,
                            value,
                            close: false,
                            error: Some(StringLiteralError::UnhandledEscape),
                        },
                    ),
                }
            },
            StringBodyMatcher::CloseMatch(close) => {
                let n = str_len(close.as_str());
                if n > 0 && str_starts_with(r, close.as_str()) {
                    Some(PartialStringBody { digested: n, value: String::new(), close: true, error: None })
                } else {
                    proof {
                        crate::text::lemma_byte_len_pos(close@);
                    }
                    None
                }
            },
            StringBodyMatcher::Singleline => {
                if next == '\n' {
                    Some(close_with_unterminated_err())
                } else {
                    None
                }
            },
        }
    }
}

/// What a matcher accepts ends on a char boundary of `r`, and a part that
/// does not close the string digests something.
pub proof fn lemma_part_fits(m: StringBodyMatcher, r: Seq<char>)
    requires
        r.len() > 0,
    ensures
        matcher_part(m, r) matches Some(p) ==> is_boundary(r, p.0 as int) && p.0 <= byte_len(r) && (!p.2
            ==> p.0 > 0),
{
    assert(r.take(1) == seq![r[0]]);
    lemma_byte_len_single(r[0]);
    lemma_byte_len_split(r, 1);
    lemma_char_width(r[0]);
    assert(is_boundary(r, byte_len(r.take(1)) as int));
    match m {
        StringBodyMatcher::Chars(class) => {
            let n = class_scan_len(class, r);
            lemma_class_scan_len_bound(class, r);
            if n > 0 {
                super::lemma_prefix_digest(r, n as int);
            }
        },
        StringBodyMatcher::CloseIf(_) => {},
        StringBodyMatcher::CloseMatch(s) => {
            if s@.len() > 0 && seq_starts_with(r, s@) {
                assert(r.take(s@.len() as int) == s@);
                super::lemma_prefix_digest(r, s@.len() as int);
                crate::text::lemma_byte_len_split(r, s@.len() as int);
            }
        },
        StringBodyMatcher::Singleline => {
            assert(r.take(0) == Seq::<char>::empty());
            assert(is_boundary(r, byte_len(r.take(0)) as int));
        },
        StringBodyMatcher::Escape(starter, handlers) => {
            if r[0] == starter && r.len() > 1 {
                let after = r.drop_first();
                lemma_escape_fits(handlers@, after);
                match first_escape(handlers@, after, 0) {
                    Some(e) => {
                        let k = char_index(after, e.0 as int);
                        lemma_byte_len_split(after, k);
                        assert(r.take(1 + k) == seq![r[0]] + after.take(k));
                        lemma_byte_len_add(seq![r[0]], after.take(k));
                        lemma_byte_len_split(r, 1 + k);
                        assert(is_boundary(r, byte_len(r.take(1 + k)) as int));
                    },
                    None => {},
                }
            }
        },
    }
}

/// What the first accepting matcher accepts ends on a char boundary of `r`.
pub proof fn lemma_first_part_fits(ms: Seq<StringBodyMatcher>, r: Seq<char>, j: nat)
    requires
        r.len() > 0,
    ensures
        first_part(ms, r, j) matches Some(p) ==> is_boundary(r, p.0 as int) && p.0 <= byte_len(r) && (!p.2
            ==> p.0 > 0),
    decreases ms.len() - j,
{
    if j < ms.len() {
        lemma_part_fits(ms[j as int], r);
        if matcher_part(ms[j as int], r) is None {
            lemma_first_part_fits(ms, r, j + 1);
        }
    }
}

/// Run the matchers in order at `r` (not empty).
fn first_part_exec(ms: &Vec<StringBodyMatcher>, r: &str) -> (p: Option<PartialStringBody>)
    requires
        r@.len() > 0,
    ensures
        p is Some <==> first_part(ms@, r@, 0) is Some,
        p matches Some(x) ==> part_view(x) == first_part(ms@, r@, 0)->0,
{
    let mut j: usize = 0;
    while j < ms.len()
        invariant
            j <= ms@.len(),
            r@.len() > 0,
            first_part(ms@, r@, 0) == first_part(ms@, r@, j as nat),
        decreases ms@.len() - j,
    {
        match ms[j].apply(r) {
            Some(p) => {
                return Some(p);
            },
            None => {},
        }
        j = j + 1;
    }
    None
}

/// Match a string body at the start of `rest` (after the open quote): the
/// parts of [`body_spec`], accumulated in order into a copy of the
/// options' accumulator. Returns the digested bytes and the accumulator.
pub fn string_body<Acc: Accumulator<PartialStringBody>>(rest: &str, options: &StringBodyOptions<Acc>) -> (r: (
    usize,
    Acc,
))
    ensures
        ({
            let (parts, end) = body_spec(options.matchers@, rest@, 0);
            &&& end <= rest@.len()
            &&& r.0 == byte_len(rest@.take(end as int))
            &&& exists|ps: Seq<PartialStringBody>|
                parts_view(ps) == parts && #[trigger] acc_fold::<PartialStringBody, Acc>(
                    options.acc.acc_view(),
                    ps,
                ) == r.1.acc_view()
        }),
{
    let ghost ms = options.matchers@;
    let ghost t = rest@;
    let mut acc = options.acc.duplicate();
    let mut digested: usize = 0;
    let ghost mut k: nat = 0;
    let ghost mut ps: Seq<PartialStringBody> = Seq::empty();
    let total = str_len(rest);
    assert(t.take(0) == Seq::<char>::empty());
    assert(parts_view(ps) + body_spec(ms, t, 0).0 == body_spec(ms, t, 0).0);
    loop
        invariant
            ms == options.matchers@,
            t == rest@,
            k <= t.len(),
            total == byte_len(t),
            digested == byte_len(t.take(k as int)),
            body_spec(ms, t, 0).0 == parts_view(ps) + body_spec(ms, t, k).0,
            body_spec(ms, t, 0).1 == body_spec(ms, t, k).1,
            acc.acc_view() == acc_fold::<PartialStringBody, Acc>(options.acc.acc_view(), ps),
        decreases t.len() - k,
    {
        proof {
            lemma_byte_len_split(t, k as int);
            lemma_char_index(t, k as int);
        }
        let r = str_after(rest, digested);
        assert(r@ == t.skip(k as int));
        if str_len(r) == 0 {
            proof {
                lemma_byte_len_pos(r@);
                assert(k >= t.len());
            }
            let p = close_with_unterminated_err();
            acc.update(p);
            proof {
                crate::lexer::action::accumulator::lemma_acc_fold_push::<PartialStringBody, Acc>(
                    options.acc.acc_view(),
                    ps,
                    p,
                );
                assert(parts_view(ps.push(p)) =~= parts_view(ps).push(part_view(p)));
                ps = ps.push(p);
                assert(t.take(k as int) == t);
            }
            return (digested, acc);
        }
        proof {
            lemma_byte_len_pos(r@);
            lemma_first_part_fits(ms, r@, 0);
        }
        match first_part_exec(&options.matchers, r) {
            None => {
                let p = close_with_unterminated_err();
                acc.update(p);
                proof {
                    crate::lexer::action::accumulator::lemma_acc_fold_push::<PartialStringBody, Acc>(
                        options.acc.acc_view(),
                        ps,
                        p,
                    );
                    assert(parts_view(ps.push(p)) =~= parts_view(ps).push(part_view(p)));
                    ps = ps.push(p);
                }
                return (digested, acc);
            },
            Some(p) => {
                let ghost n = char_index(r@, p.digested as int);
                let close = p.close;
                proof {
                    lemma_byte_len_split(r@, n);
                    assert(t.take(k + n) == t.take(k as int) + r@.take(n));
                    lemma_byte_len_add(t.take(k as int), r@.take(n));
                    if !close {
                        if n == 0 {
                            assert(r@.take(0) == Seq::<char>::empty());
                        }
                    }
                }
                digested = digested + p.digested;
                acc.update(p);
                proof {
                    crate::lexer::action::accumulator::lemma_acc_fold_push::<PartialStringBody, Acc>(
                        options.acc.acc_view(),
                        ps,
                        p,
                    );
                    assert(parts_view(ps.push(p)) =~= parts_view(ps).push(part_view(p)));
                    assert(body_spec(ms, t, k).0 == seq![part_view(p)] + body_spec(ms, t, (k + n) as nat).0
                        || close);
                    ps = ps.push(p);
                    k = (k + n) as nat;
                }
                if close {
                    return (digested, acc);
                }
            },
        }
    }
}

/// Collecting parts into an empty vector collects their spec forms.
pub proof fn lemma_acc_fold_parts(v: Seq<PartSpec>, ps: Seq<PartialStringBody>)
    ensures
        acc_fold::<PartialStringBody, Vec<PartialStringBody>>(v, ps) == v + parts_view(ps),
    decreases ps.len(),
{
    if ps.len() > 0 {
        lemma_acc_fold_parts(v, ps.drop_last());
        assert(parts_view(ps) =~= parts_view(ps.drop_last()).push(part_view(ps.last())));
        assert(v + parts_view(ps) =~= (v + parts_view(ps.drop_last())).push(part_view(ps.last())));
    } else {
        assert(parts_view(ps) =~= Seq::<PartSpec>::empty());
        assert(v + parts_view(ps) =~= v);
    }
}

/// A string literal matcher: the first of the open quotes that the rest
/// starts with, then a string body.
#[derive(Clone, Debug)]
pub struct StringMatcher {
    /// The open quotes, tried in order.
    pub open: Vec<String>,
    /// The options of the body.
    pub body: StringBodyOptions<Vec<PartialStringBody>>,
}

impl StringMatcher {
    /// The open quotes, as char sequences.
    pub open spec fn spec_open(&self) -> Seq<Seq<char>> {
        self.open@.map_values(|s: String| s@)
    }

    /// The open quote that the rest starts with, if any.
    pub open spec fn spec_quote(&self, rest: Seq<char>) -> Option<Seq<char>> {
        match super::escape::first_prefix(self.spec_open(), rest, 0) {
            Some(j) => Some(self.spec_open()[j as int]),
            None => None,
        }
    }

    /// The number of bytes the matcher digests at the start of `rest`, or `None`.
    pub open spec fn spec_digest(&self, rest: Seq<char>) -> Option<nat> {
        match self.spec_quote(rest) {
            Some(q) => {
                let after = rest.skip(q.len() as int);
                let end = body_spec(self.body.matchers@, after, 0).1;
                let n = q.len() + end;
                if n == 0 {
                    None
                } else {
                    Some(byte_len(rest.take(n as int)))
                }
            },
            None => None,
        }
    }

    /// The parts of the body the matcher yields on `rest`.
    pub open spec fn spec_parts(&self, rest: Seq<char>) -> Seq<PartSpec> {
        let q = self.spec_quote(rest)->0;
        body_spec(self.body.matchers@, rest.skip(q.len() as int), 0).0
    }

    /// Run the matcher at the start of `rest`: the digested bytes and the
    /// parts of the body, appended to those the options' accumulator holds.
    pub fn exec(&self, rest: &str) -> (r: Option<(usize, Vec<PartialStringBody>)>)
        ensures
            r is None <==> self.spec_digest(rest@) is None,
            r matches Some((n, v)) ==> self.spec_digest(rest@) == Some(n as nat) && parts_view(v@)
                == parts_view(self.body.acc@) + self.spec_parts(rest@),
    {
        let ghost view = self.spec_open();
        let mut j: usize = 0;
        while j < self.open.len()
            invariant
                j <= self.open@.len(),
                view == self.spec_open(),
                super::escape::first_prefix(view, rest@, 0) == super::escape::first_prefix(view, rest@, j as nat),
            decreases self.open@.len() - j,
        {
            let q = self.open[j].as_str();
            assert(view[j as int] == q@);
            if str_starts_with(rest, q) {
                let qlen = str_len(q);
                proof {
                    assert(rest@.take(q@.len() as int) == q@);
                }
                let after = str_skip(rest, qlen, Ghost(q@.len() as int));
                let (d, acc) = string_body(after, &self.body);
                let total = str_len(rest);
                proof {
                    let end = body_spec(self.body.matchers@, after@, 0).1;
                    let ps = choose|ps: Seq<PartialStringBody>|
                        parts_view(ps) == body_spec(self.body.matchers@, after@, 0).0 && #[trigger] acc_fold::<
                            PartialStringBody,
                            Vec<PartialStringBody>,
                        >(self.body.acc.acc_view(), ps) == acc.acc_view();
                    lemma_acc_fold_parts(self.body.acc.acc_view(), ps);
                    let c = q@.len() as int;
                    assert(rest@.take(c + end) == q@ + after@.take(end as int));
                    lemma_byte_len_add(q@, after@.take(end as int));
                    lemma_byte_len_split(rest@, c + end);
                    lemma_byte_len_pos(rest@.take(c + end));
                }
                if qlen + d == 0 {
                    return None;
                }
                return Some((qlen + d, acc));
            }
            j = j + 1;
        }
        None
    }
}

/// A string literal action: the first of the open quotes (none empty) that
/// the rest starts with, then a string body with the options' matchers;
/// tried only on rests that start with the first char of an open quote.
/// Its data holds the parts of the body, whatever accumulator the options
/// name: the data of every action has the one type [`super::ActionData`]
/// ([`string_body`] fills the options' accumulator).
pub fn string<Acc>(open: StringList, options: StringBodyOptions<Acc>) -> (r: Action)
    requires
        forall|i: int| 0 <= i < open.0@.len() ==> #[trigger] open.0@[i]@.len() > 0,
    ensures
        r.matcher matches Matcher::Str(m) && m.open@ == open.0@ && m.body.matchers@ == options.matchers@
            && m.body.acc@ == Seq::<PartialStringBody>::empty(),
        r.head matches Some(HeadMatcher::OneOf(v)) && forall|c: char|
            v@.contains(c) <==> exists|i: int| 0 <= i < open.0@.len() && #[trigger] open.0@[i]@[0] == c,
        r.kind == SubKindId(0),
        r.literal is None,
        !r.muted,
{
    let open = open.0;
    let mut heads: Vec<char> = Vec::new();
    let mut i: usize = 0;
    while i < open.len()
        invariant
            i <= open@.len(),
            forall|j: int| 0 <= j < open@.len() ==> #[trigger] open@[j]@.len() > 0,
            heads@.len() == i,
            forall|j: int| 0 <= j < i ==> #[trigger] heads@[j] == open@[j]@[0],
        decreases open@.len() - i,
    {
        let c = match first_char(open[i].as_str()) {
            Some(c) => c,
            None => ' ',
        };
        assert(c == open@[i as int]@[0]);
        heads.push(c);
        i = i + 1;
    }
    proof {
        assert forall|x: char| heads@.contains(x) <==> exists|j: int| 0 <= j < open@.len() && #[trigger] open@[j]@[0] == x by {
            if heads@.contains(x) {
                let m = choose|m: int| 0 <= m < heads@.len() && heads@[m] == x;
                assert(open@[m]@[0] == x);
            }
            if exists|j: int| 0 <= j < open@.len() && #[trigger] open@[j]@[0] == x {
                let j = choose|j: int| 0 <= j < open@.len() && #[trigger] open@[j]@[0] == x;
                assert(heads@[j] == x);
            }
        }
    }
    let body = options.acc(Vec::new());
    let m = StringMatcher { open, body };
    Action::new(Matcher::Str(m)).unchecked_head_in(heads)
}

/// A string body from char index `k` ends at or after `k`, inside the rest.
pub proof fn lemma_body_spec_bound(ms: Seq<StringBodyMatcher>, rest: Seq<char>, k: nat)
    requires
        k <= rest.len(),
    ensures
        k <= body_spec(ms, rest, k).1 <= rest.len(),
    decreases rest.len() - k,
{
    if k < rest.len() {
        let r = rest.skip(k as int);
        lemma_first_part_fits(ms, r, 0);
        match first_part(ms, r, 0) {
            Some(p) => {
                let n = char_index(r, p.0 as int);
                if !p.2 && n > 0 && k + n <= rest.len() {
                    lemma_body_spec_bound(ms, rest, (k + n) as nat);
                }
            },
            None => {},
        }
    }
}

/// What a string matcher digests lies inside the rest.
pub proof fn lemma_string_matcher_len(m: StringMatcher, rest: Seq<char>)
    requires
        m.spec_quote(rest) is Some,
    ensures
        ({
            let q = m.spec_quote(rest)->0;
            let after = rest.skip(q.len() as int);
            q.len() + body_spec(m.body.matchers@, after, 0).1 <= rest.len()
        }),
{
    super::escape::lemma_first_prefix(m.spec_open(), rest, 0);
    let q = m.spec_quote(rest)->0;
    let after = rest.skip(q.len() as int);
    lemma_body_spec_bound(m.body.matchers@, after, 0);
}

} // verus!
