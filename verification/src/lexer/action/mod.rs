//! Actions: what the lexer tries at the current position.
pub mod accumulator;
pub mod class;
pub mod escape;
pub mod float;
pub mod integer;
pub mod json;
pub mod simple;
pub mod string;
pub mod string_list;

use crate::kind::SubKindId;
use crate::text::{byte_len, is_boundary};
use class::dedup_chars;
use integer::{body_scan_len, body_separators, body_values, IntegerLiteralData, IntegerMatcher};
use simple::{class_scan_len, exact_digest, unchecked_exact_digest, word_digest};
use vstd::prelude::*;

verus! {

/// Which first chars of the rest an action may accept.
#[derive(Clone, Debug)]
pub enum HeadMatcher {
    /// Only the listed chars.
    OneOf(Vec<char>),
    /// Any char but the listed ones.
    Not(Vec<char>),
    /// Only the chars that no head matcher of the lexer lists.
    Unknown,
}

impl HeadMatcher {
    /// The chars this head matcher lists.
    pub open spec fn named(&self) -> Seq<char> {
        match self {
            HeadMatcher::OneOf(v) => v@,
            HeadMatcher::Not(v) => v@,
            HeadMatcher::Unknown => Seq::empty(),
        }
    }
}

/// Whether an action with head matcher `head` is tried on a rest that
/// starts with `c`; `known` tells whether some head matcher of the lexer
/// lists `c`. An action without head matcher is always tried.
pub open spec fn head_accepts(head: Option<HeadMatcher>, c: char, known: bool) -> bool {
    match head {
        None => true,
        Some(HeadMatcher::OneOf(v)) => v@.contains(c),
        Some(HeadMatcher::Not(v)) => !v@.contains(c),
        Some(HeadMatcher::Unknown) => !known,
    }
}

/// The data an accepted action yields.
#[derive(Clone, Debug)]
pub enum ActionData {
    /// No data.
    Unit,
    /// The data of an integer literal: separator indexes and value chars.
    Integer(IntegerLiteralData<Vec<usize>, String>),
    /// The data of a float literal: separator indexes and digits of each part.
    Float(float::FloatLiteralData<Vec<usize>, String, String, String>),
    /// The parts of a string literal body.
    Str(Vec<string::PartialStringBody>),
}

/// Whether two action data hold the same values (compared by their views).
pub open spec fn same_data(a: ActionData, b: ActionData) -> bool {
    match (a, b) {
        (ActionData::Unit, ActionData::Unit) => true,
        (ActionData::Integer(x), ActionData::Integer(y)) => x.separators@ == y.separators@ && x.value@
            == y.value@,
        (ActionData::Float(x), ActionData::Float(y)) => float::float_data_same(x, y),
        (ActionData::Str(x), ActionData::Str(y)) => string::parts_view(x@) == string::parts_view(y@),
        _ => false,
    }
}

/// A copy of the indexes `v`.
fn copy_indexes(v: &Vec<usize>) -> (r: Vec<usize>)
    ensures
        r@ == v@,
{
    let mut r: Vec<usize> = Vec::new();
    let mut i: usize = 0;
    while i < v.len()
        invariant
            i <= v@.len(),
            r@ == v@.take(i as int),
        decreases v@.len() - i,
    {
        r.push(v[i]);
        i = i + 1;
        assert(r@ =~= v@.take(i as int));
    }
    assert(v@.take(v@.len() as int) =~= v@);
    r
}

/// A copy of the integer literal data `d`.
fn copy_integer_data(d: &IntegerLiteralData<Vec<usize>, String>) -> (r: IntegerLiteralData<Vec<usize>, String>)
    ensures
        r.separators@ == d.separators@,
        r.value@ == d.value@,
{
    IntegerLiteralData { separators: copy_indexes(&d.separators), value: d.value.clone() }
}

/// A copy of the string body parts `v`.
fn copy_parts(v: &Vec<string::PartialStringBody>) -> (r: Vec<string::PartialStringBody>)
    ensures
        string::parts_view(r@) == string::parts_view(v@),
{
    let mut r: Vec<string::PartialStringBody> = Vec::new();
    let mut i: usize = 0;
    while i < v.len()
        invariant
            i <= v@.len(),
            string::parts_view(r@) == string::parts_view(v@.take(i as int)),
        decreases v@.len() - i,
    {
        let p = &v[i];
        let ghost before = r@;
        r.push(string::PartialStringBody { digested: p.digested, value: p.value.clone(), close: p.close, error: p.error });
        proof {
            assert(string::parts_view(r@) =~= string::parts_view(before).push(string::part_view(v@[i as int])));
            assert(string::parts_view(v@.take(i + 1)) =~= string::parts_view(v@.take(i as int)).push(
                string::part_view(v@[i as int]),
            ));
        }
        i = i + 1;
    }
    assert(v@.take(v@.len() as int) =~= v@);
    r
}

/// A copy of the action data `d`, holding the same values.
pub(crate) fn copy_data(d: &ActionData) -> (r: ActionData)
    ensures
        same_data(r, *d),
{
    match d {
        ActionData::Unit => ActionData::Unit,
        ActionData::Integer(x) => ActionData::Integer(copy_integer_data(x)),
        ActionData::Float(x) => {
            let integral = (x.integral.0, copy_integer_data(&x.integral.1));
            let fractional = match &x.fractional {
                Some((n, f)) => Some((*n, copy_integer_data(f))),
                None => None,
            };
            let exponent = match &x.exponent {
                Some((n, e)) => Some(
                    (
                        *n,
                        float::FloatExponentData { indicator_len: e.indicator_len, body: copy_integer_data(&e.body) },
                    ),
                ),
                None => None,
            };
            ActionData::Float(float::FloatLiteralData { integral, fractional, exponent })
        },
        ActionData::Str(v) => ActionData::Str(copy_parts(v)),
    }
}

/// What an accepted action yields: how many bytes it digests, and its data.
#[derive(Clone, Debug)]
pub struct ActionOutput {
    /// The number of digested bytes (never `0`).
    pub digested: usize,
    /// The data of the match.
    pub data: ActionData,
}

/// How an action matches the start of the rest of the text.
#[derive(Clone, Debug)]
pub enum Matcher {
    /// One or more chars of a class.
    Chars(class::CharClass),
    /// The given (non-empty) string.
    Exact(String),
    /// As many bytes as the given (non-empty) string has, whatever they hold
    /// (only the head matcher checks the first char).
    UncheckedExact(String),
    /// The given (non-empty) string, followed by a word boundary.
    Word(String),
    /// An integer literal.
    Integer(IntegerMatcher),
    /// A float literal.
    Float(float::FloatMatcher),
    /// A string literal.
    Str(string::StringMatcher),
}

/// The data a matcher yields at a rest is determined by the rest.
pub proof fn lemma_spec_data_unique(m: Matcher, rest: Seq<char>, a: ActionData, b: ActionData)
    requires
        m.spec_data(rest, a),
        m.spec_data(rest, b),
    ensures
        same_data(a, b),
{
    match m {
        Matcher::Float(f) => {
            match (a, b) {
                (ActionData::Float(x), ActionData::Float(y)) => {
                    float::lemma_float_data_unique(
                        f.separator,
                        f.point,
                        f.spec_indicators(),
                        rest.skip(f.minus_chars(rest) as int),
                        x,
                        y,
                    );
                },
                _ => {},
            }
        },
        _ => {},
    }
}

impl Matcher {
    /// The number of bytes the matcher digests at the start of `rest`, or
    /// `None` when it rejects.
    pub open spec fn spec_digest(&self, rest: Seq<char>) -> Option<nat> {
        match self {
            Matcher::Chars(class) => {
                let n = class_scan_len(*class, rest);
                if n == 0 {
                    None
                } else {
                    Some(byte_len(rest.take(n as int)))
                }
            },
            Matcher::Exact(s) => exact_digest(s@, rest),
            Matcher::UncheckedExact(s) => unchecked_exact_digest(s@, rest),
            Matcher::Word(s) => word_digest(s@, rest),
            Matcher::Integer(m) => m.spec_digest(rest),
            Matcher::Float(m) => m.spec_digest(rest),
            Matcher::Str(m) => m.spec_digest(rest),
        }
    }

    /// Whether `data` is the data the matcher yields on `rest`.
    pub open spec fn spec_data(&self, rest: Seq<char>, data: ActionData) -> bool {
        match self {
            Matcher::Integer(m) => match data {
                ActionData::Integer(d) => {
                    let r = m.spec_body_rest(rest);
                    let n = body_scan_len(m.separator, m.body, r);
                    &&& d.separators@ == body_separators(m.separator, r, n)
                    &&& d.value@ == body_values(m.separator, r, n)
                },
                _ => false,
            },
            Matcher::Float(m) => match data {
                ActionData::Float(d) => float::float_data_is(
                    m.separator,
                    m.point,
                    m.spec_indicators(),
                    rest.skip(m.minus_chars(rest) as int),
                    d,
                ),
                _ => false,
            },
            Matcher::Str(m) => match data {
                ActionData::Str(v) => string::parts_view(v@) == string::parts_view(m.body.acc@) + m.spec_parts(
                    rest,
                ),
                _ => false,
            },
            _ => data is Unit,
        }
    }

    /// Run the matcher at the start of `rest`.
    pub fn exec(&self, rest: &str) -> (r: Option<ActionOutput>)
        ensures
            r is None <==> self.spec_digest(rest@) is None,
            r matches Some(o) ==> {
                &&& self.spec_digest(rest@) == Some(o.digested as nat)
                &&& self.spec_data(rest@, o.data)
            },
    {
        match self {
            Matcher::Chars(class) => {
                let n = simple::class_prefix(rest, class);
                proof {
                    let k = simple::class_scan_len(*class, rest@);
                    simple::lemma_class_scan_len_bound(*class, rest@);
                    crate::text::lemma_byte_len_pos(rest@.take(k as int));
                }
                if n == 0 {
                    None
                } else {
                    Some(ActionOutput { digested: n, data: ActionData::Unit })
                }
            },
            Matcher::Exact(s) => match simple::exact_exec(s.as_str(), rest) {
                Some(n) => Some(ActionOutput { digested: n, data: ActionData::Unit }),
                None => None,
            },
            Matcher::UncheckedExact(s) => match simple::unchecked_exact_exec(s.as_str(), rest) {
                Some(n) => Some(ActionOutput { digested: n, data: ActionData::Unit }),
                None => None,
            },
            Matcher::Word(s) => match simple::word_exec(s.as_str(), rest) {
                Some(n) => Some(ActionOutput { digested: n, data: ActionData::Unit }),
                None => None,
            },
            Matcher::Integer(m) => match m.exec(rest) {
                Some((n, d)) => Some(ActionOutput { digested: n, data: ActionData::Integer(d) }),
                None => None,
            },
            Matcher::Float(m) => match m.exec(rest) {
                Some((n, d)) => Some(ActionOutput { digested: n, data: ActionData::Float(d) }),
                None => None,
            },
            Matcher::Str(m) => {
                match m.exec(rest) {
                    Some((n, d)) => Some(ActionOutput { digested: n, data: ActionData::Str(d) }),
                    None => None,
                }
            },
        }
    }
}

/// An action: a matcher, the kind of the tokens it emits, an optional head
/// matcher and literal that let the lexer skip it early, and whether it is
/// muted (a muted action digests without emitting a token).
#[derive(Clone, Debug)]
pub struct Action {
    /// How the action matches.
    pub matcher: Matcher,
    /// The kind of the emitted tokens.
    pub kind: SubKindId,
    /// The first chars the action may accept, if known.
    pub head: Option<HeadMatcher>,
    /// The text the action accepts, if it accepts one text only.
    pub literal: Option<String>,
    /// Whether the action emits no token.
    pub muted: bool,
}

/// The number of bytes action `a` digests at the start of `rest`, or `None`.
pub open spec fn action_digest(a: Action, rest: Seq<char>) -> Option<nat> {
    a.matcher.spec_digest(rest)
}

impl Action {
    /// An action with the given matcher, the default kind, no head matcher,
    /// no literal, not muted.
    pub fn new(matcher: Matcher) -> (r: Self)
        ensures
            r.matcher == matcher,
            r.kind == SubKindId(0),
            r.head is None,
            r.literal is None,
            !r.muted,
    {
        Action { matcher, kind: SubKindId(0), head: None, literal: None, muted: false }
    }

    /// Run the action at the start of `rest`.
    pub fn exec(&self, rest: &str) -> (r: Option<ActionOutput>)
        ensures
            r is None <==> action_digest(*self, rest@) is None,
            r matches Some(o) ==> {
                &&& action_digest(*self, rest@) == Some(o.digested as nat)
                &&& self.matcher.spec_data(rest@, o.data)
            },
    {
        self.matcher.exec(rest)
    }

    /// The kind of the emitted tokens.
    pub fn kind(&self) -> (r: SubKindId)
        ensures
            r == self.kind,
    {
        self.kind
    }

    /// The head matcher.
    pub fn head(&self) -> (r: &Option<HeadMatcher>)
        ensures
            r == self.head,
    {
        &self.head
    }

    /// The literal.
    pub fn literal(&self) -> (r: &Option<String>)
        ensures
            r == self.literal,
    {
        &self.literal
    }

    /// Whether the action is muted.
    pub fn muted(&self) -> (r: bool)
        ensures
            r == self.muted,
    {
        self.muted
    }

    /// The same action, muted.
    pub fn mute(self) -> (r: Self)
        ensures
            r == (Action { muted: true, ..self }),
    {
        Action { muted: true, ..self }
    }

    /// The same action, not muted.
    pub fn unmute(self) -> (r: Self)
        ensures
            r == (Action { muted: false, ..self }),
    {
        Action { muted: false, ..self }
    }

    /// The same action, emitting tokens of kind `kind`.
    pub fn bind(self, kind: SubKindId) -> (r: Self)
        ensures
            r == (Action { kind, ..self }),
    {
        Action { kind, ..self }
    }

    /// The same action, emitting tokens of the default kind.
    pub fn bind_default(self) -> (r: Self)
        ensures
            r == (Action { kind: SubKindId(0), ..self }),
    {
        Action { kind: SubKindId(0), ..self }
    }

    /// The same action, tried only on rests that start with one of `chars`.
    /// Nothing checks that the matcher rejects other first chars.
    pub fn unchecked_head_in(self, chars: Vec<char>) -> (r: Self)
        ensures
            r.matcher == self.matcher,
            r.kind == self.kind,
            r.literal == self.literal,
            r.muted == self.muted,
            r.head matches Some(HeadMatcher::OneOf(v)) && v@.no_duplicates() && forall|c: char|
                v@.contains(c) <==> chars@.contains(c),
    {
        let v = dedup_chars(&chars);
        Action { head: Some(HeadMatcher::OneOf(v)), ..self }
    }

    /// The same action, tried only on rests that do not start with one of `chars`.
    /// Nothing checks that the matcher rejects the listed first chars.
    pub fn unchecked_head_not(self, chars: Vec<char>) -> (r: Self)
        ensures
            r.matcher == self.matcher,
            r.kind == self.kind,
            r.literal == self.literal,
            r.muted == self.muted,
            r.head matches Some(HeadMatcher::Not(v)) && v@.no_duplicates() && forall|c: char|
                v@.contains(c) <==> chars@.contains(c),
    {
        let v = dedup_chars(&chars);
        Action { head: Some(HeadMatcher::Not(v)), ..self }
    }

    /// The same action, tried only on rests whose first char no head matcher lists.
    pub fn unchecked_head_unknown(self) -> (r: Self)
        ensures
            r == (Action { head: Some(HeadMatcher::Unknown), ..self }),
    {
        Action { head: Some(HeadMatcher::Unknown), ..self }
    }

    /// The same action, with the literal `literal`.
    /// Nothing checks that the matcher accepts exactly this text.
    pub fn unchecked_literal(self, literal: String) -> (r: Self)
        ensures
            r == (Action { literal: Some(literal), ..self }),
    {
        Action { literal: Some(literal), ..self }
    }
}

/// Every accepted digest of an action is a char boundary inside the rest.
pub open spec fn digest_in_rest(d: Option<nat>, rest: Seq<char>) -> bool {
    d matches Some(n) ==> 0 < n && n <= byte_len(rest) && is_boundary(rest, n as int)
}


/// The digest of an accepted action is a positive number of bytes that ends
/// on a char boundary inside the rest.
pub proof fn lemma_action_digest_in_rest(a: Action, rest: Seq<char>)
    ensures
        digest_in_rest(action_digest(a, rest), rest),
{
    match a.matcher {
        Matcher::Chars(class) => {
            let n = simple::class_scan_len(class, rest);
            simple::lemma_class_scan_len_bound(class, rest);
            if n > 0 {
                lemma_prefix_digest(rest, n as int);
            }
        },
        Matcher::Exact(s) => {
            if simple::exact_digest(s@, rest) is Some {
                assert(rest.take(s@.len() as int) == s@);
                lemma_prefix_digest(rest, s@.len() as int);
            }
        },
        Matcher::Word(s) => {
            if simple::word_digest(s@, rest) is Some {
                assert(rest.take(s@.len() as int) == s@);
                lemma_prefix_digest(rest, s@.len() as int);
            }
        },
        Matcher::UncheckedExact(s) => {
            if simple::unchecked_exact_digest(s@, rest) is Some {
                let k = crate::text::char_index(rest, byte_len(s@) as int);
                crate::text::lemma_byte_len_split(rest, k);
                crate::text::lemma_byte_len_pos(s@);
            }
        },
        Matcher::Float(m) => {
            if m.spec_digest(rest) is Some {
                let k = m.minus_chars(rest) + float::float_chars_with(
                    m.separator,
                    m.point,
                    m.spec_indicators(),
                    rest.skip(m.minus_chars(rest) as int),
                );
                float::lemma_float_matcher_len(m, rest);
                lemma_prefix_digest(rest, k as int);
            }
        },
        Matcher::Str(m) => {
            if m.spec_digest(rest) is Some {
                let q = m.spec_quote(rest)->0;
                string::lemma_string_matcher_len(m, rest);
                let after = rest.skip(q.len() as int);
                let end = string::body_spec(m.body.matchers@, after, 0).1;
                if q.len() + end > 0 {
                    lemma_prefix_digest(rest, (q.len() + end) as int);
                }
            }
        },
        Matcher::Integer(m) => {
            if m.spec_digest(rest) is Some {
                let p = m.prefix@.len() as int;
                let br = m.spec_body_rest(rest);
                assert(rest.take(p) == m.prefix@);
                integer::lemma_body_digested(m.separator, m.body, br);
                let n = body_scan_len(m.separator, m.body, br) as int;
                assert(rest.take(p + n) == rest.take(p) + br.take(n));
                crate::text::lemma_byte_len_add(rest.take(p), br.take(n));
                lemma_prefix_digest(rest, p + n);
            }
        },
    }
}

/// The bytes of the first `k` chars of `rest`, for `0 < k`, are a positive
/// digest that ends on a char boundary inside the rest.
pub proof fn lemma_prefix_digest(rest: Seq<char>, k: int)
    requires
        0 < k <= rest.len(),
    ensures
        digest_in_rest(Some(byte_len(rest.take(k))), rest),
{
    crate::text::lemma_byte_len_split(rest, k);
    crate::text::lemma_byte_len_pos(rest.take(k));
    assert(is_boundary(rest, byte_len(rest.take(k)) as int));
}

} // verus!
