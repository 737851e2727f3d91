//! Integer literal bodies, e.g. the `1_23` of `0x1_23`.
use super::accumulator::{acc_fold, lemma_acc_fold_push, lemma_acc_fold_string, lemma_acc_fold_vec, Accumulator};
use super::class::CharClass;
use super::{Action, HeadMatcher, Matcher};
use crate::kind::SubKindId;
use crate::text::{
    byte_len, first_char, lemma_byte_len_pos, lemma_byte_len_split, lemma_byte_len_take_next,
    len_utf8, seq_starts_with, str_len, str_skip, str_starts_with,
};
use vstd::prelude::*;
use vstd::std_specs::iter::IteratorSpec;

verus! {

broadcast use vstd::string::group_string_axioms;

/// An accumulator of numeric separator indexes that also decides which
/// chars are separators.
///
/// `()` disables numeric separators; [`NumericSeparatorOptions`] enables them.
pub trait NumericSeparatorAccumulator: Sized {
    /// The underlying index accumulator.
    type Acc: Accumulator<usize>;

    /// Whether `c` is a separator.
    spec fn spec_validate(&self, c: char) -> bool;

    /// The underlying index accumulator.
    spec fn spec_acc(&self) -> Self::Acc;

    /// Whether `c` is a separator.
    fn validate(&self, c: char) -> (r: bool)
        ensures
            r == self.spec_validate(c),
    ;

    /// Record the byte index of a separator.
    fn update(&mut self, index: usize)
        ensures
            final(self).spec_acc().acc_view() == Self::Acc::acc_step(
                old(self).spec_acc().acc_view(),
                index,
            ),
            forall|c: char| final(self).spec_validate(c) == old(self).spec_validate(c),
    ;

    /// Consume self and emit the underlying accumulator.
    fn emit(self) -> (r: Self::Acc)
        ensures
            r == self.spec_acc(),
    ;

    /// A copy with the same separators and the same accumulated content.
    fn duplicate(&self) -> (r: Self)
        ensures
            r.spec_acc().acc_view() == self.spec_acc().acc_view(),
            forall|c: char| r.spec_validate(c) == self.spec_validate(c),
    ;

    /// The separator char, if separators are enabled.
    fn separator_char(&self) -> (r: Option<char>)
        ensures
            forall|c: char| self.spec_validate(c) <==> r == Some(c),
    ;
}

/// `()` means numeric separators are disabled: no char is a separator.
impl NumericSeparatorAccumulator for () {
    type Acc = ();

    open spec fn spec_validate(&self, c: char) -> bool {
        false
    }

    open spec fn spec_acc(&self) -> () {
        ()
    }

    fn validate(&self, c: char) -> (r: bool) {
        false
    }

    fn update(&mut self, index: usize) {
    }

    fn emit(self) -> (r: ()) {
        ()
    }

    fn duplicate(&self) -> (r: Self) {
        ()
    }

    fn separator_char(&self) -> (r: Option<char>) {
        None
    }
}

/// Numeric separators are enabled: `char` is the separator and the byte
/// indexes of separators go to `indexes_to`.
#[derive(Clone, Debug)]
pub struct NumericSeparatorOptions<Acc> {
    /// The separator char.
    pub char: char,
    /// The accumulator of separator indexes.
    pub indexes_to: Acc,
}

impl NumericSeparatorOptions<()> {
    /// Create a new instance with `'_'` as the separator and no index accumulator.
    pub fn new() -> (r: Self)
        ensures
            r == (NumericSeparatorOptions { char: '_', indexes_to: () }),
    {
        NumericSeparatorOptions { char: '_', indexes_to: () }
    }
}

impl<Acc> NumericSeparatorOptions<Acc> {
    /// Set the separator char.
    pub fn char(self, separator: char) -> (r: Self)
        ensures
            r.char == separator,
            r.indexes_to == self.indexes_to,
    {
        NumericSeparatorOptions { char: separator, indexes_to: self.indexes_to }
    }

    /// Set the accumulator of separator indexes.
    pub fn indexes_to<NewAcc>(self, acc: NewAcc) -> (r: NumericSeparatorOptions<NewAcc>)
        ensures
            r.char == self.char,
            r.indexes_to == acc,
    {
        NumericSeparatorOptions { char: self.char, indexes_to: acc }
    }

    /// Accumulate the separator indexes into a vector.
    pub fn indexes_to_vec(self) -> (r: NumericSeparatorOptions<Vec<usize>>)
        ensures
            r.char == self.char,
            r.indexes_to@ == Seq::<usize>::empty(),
    {
        self.indexes_to(Vec::new())
    }
}

impl<Acc: Accumulator<usize>> NumericSeparatorAccumulator for NumericSeparatorOptions<Acc> {
    type Acc = Acc;

    open spec fn spec_validate(&self, c: char) -> bool {
        c == self.char
    }

    open spec fn spec_acc(&self) -> Acc {
        self.indexes_to
    }

    fn validate(&self, c: char) -> (r: bool) {
        c == self.char
    }

    fn update(&mut self, index: usize) {
        self.indexes_to.update(index);
    }

    fn emit(self) -> (r: Acc) {
        self.indexes_to
    }

    fn duplicate(&self) -> (r: Self) {
        NumericSeparatorOptions { char: self.char, indexes_to: self.indexes_to.duplicate() }
    }

    fn separator_char(&self) -> (r: Option<char>) {
        Some(self.char)
    }
}

/// Options of an integer literal body: the numeric separator and the
/// accumulator of the body's value.
#[derive(Debug, Clone)]
pub struct IntegerLiteralBodyOptions<SepAcc, ValueAcc> {
    /// The numeric separator (`()` when disabled).
    pub separator: SepAcc,
    /// The accumulator of the value (`()` when none).
    pub value_to: ValueAcc,
}

impl IntegerLiteralBodyOptions<(), ()> {
    /// Create a new instance with numeric separators disabled and no value accumulator.
    pub fn new() -> (r: Self)
        ensures
            r == (IntegerLiteralBodyOptions { separator: (), value_to: () }),
    {
        IntegerLiteralBodyOptions { separator: (), value_to: () }
    }
}

impl<SepAcc, ValueAcc> IntegerLiteralBodyOptions<SepAcc, ValueAcc> {
    /// Enable numeric separators with the given options.
    pub fn separator<Acc>(self, options: NumericSeparatorOptions<Acc>) -> (r:
        IntegerLiteralBodyOptions<NumericSeparatorOptions<Acc>, ValueAcc>)
        ensures
            r.separator == options,
            r.value_to == self.value_to,
    {
        IntegerLiteralBodyOptions { separator: options, value_to: self.value_to }
    }

    /// Enable numeric separators with options built from the default ones.
    pub fn separator_with<Acc, F: FnOnce(NumericSeparatorOptions<()>) -> NumericSeparatorOptions<Acc>>(
        self,
        options_builder: F,
    ) -> (r: IntegerLiteralBodyOptions<NumericSeparatorOptions<Acc>, ValueAcc>)
        requires
            options_builder.requires((NumericSeparatorOptions { char: '_', indexes_to: () },)),
        ensures
            options_builder.ensures(
                (NumericSeparatorOptions { char: '_', indexes_to: () },),
                r.separator,
            ),
            r.value_to == self.value_to,
    {
        let o = options_builder(NumericSeparatorOptions::new());
        self.separator(o)
    }

    /// Enable numeric separators with `'_'` and no index accumulator.
    pub fn default_separator(self) -> (r: IntegerLiteralBodyOptions<
        NumericSeparatorOptions<()>,
        ValueAcc,
    >)
        ensures
            r.separator.char == '_',
            r.value_to == self.value_to,
    {
        self.separator(NumericSeparatorOptions::new())
    }

    /// Set the accumulator of the value.
    pub fn value_to<NewAcc>(self, acc: NewAcc) -> (r: IntegerLiteralBodyOptions<SepAcc, NewAcc>)
        ensures
            r.separator == self.separator,
            r.value_to == acc,
    {
        IntegerLiteralBodyOptions { separator: self.separator, value_to: acc }
    }

    /// Accumulate the value into a string.
    pub fn value_to_string(self) -> (r: IntegerLiteralBodyOptions<SepAcc, String>)
        ensures
            r.separator == self.separator,
            r.value_to@ == Seq::<char>::empty(),
    {
        self.value_to(String::new())
    }
}

/// What an integer literal body holds.
#[derive(Default, Debug, Clone)]
pub struct IntegerLiteralData<Sep, Value> {
    /// The byte indexes of numeric separators in the body.
    pub separators: Sep,
    /// The accumulated value of the body.
    pub value: Value,
}

/// Whether `c` is part of an integer literal body.
pub open spec fn int_qualifies<S: NumericSeparatorAccumulator>(sep: S, body: CharClass, c: char) -> bool {
    sep.spec_validate(c) || body.spec_contains(c)
}

/// The number of leading chars of `rest` that belong to the body.
pub open spec fn int_scan_len<S: NumericSeparatorAccumulator>(sep: S, body: CharClass, rest: Seq<char>) -> nat
    decreases rest.len(),
{
    if rest.len() == 0 || !int_qualifies(sep, body, rest[0]) {
        0
    } else {
        1 + int_scan_len(sep, body, rest.drop_first())
    }
}

/// The byte indexes of the separators among the first `n` chars of `rest`.
pub open spec fn int_separators<S: NumericSeparatorAccumulator>(sep: S, rest: Seq<char>, n: nat) -> Seq<usize>
    decreases n,
{
    if n == 0 {
        Seq::empty()
    } else {
        let p = int_separators(sep, rest, (n - 1) as nat);
        if sep.spec_validate(rest[n - 1]) {
            p.push(byte_len(rest.take(n - 1)) as usize)
        } else {
            p
        }
    }
}

/// The non-separator chars among the first `n` chars of `rest`.
pub open spec fn int_values<S: NumericSeparatorAccumulator>(sep: S, rest: Seq<char>, n: nat) -> Seq<char>
    decreases n,
{
    if n == 0 {
        Seq::empty()
    } else {
        let p = int_values(sep, rest, (n - 1) as nat);
        if sep.spec_validate(rest[n - 1]) {
            p
        } else {
            p.push(rest[n - 1])
        }
    }
}

/// The bytes an integer literal body takes at the start of `rest`:
/// `0` when it holds no value char (separators only).
pub open spec fn int_digested<S: NumericSeparatorAccumulator>(sep: S, body: CharClass, rest: Seq<char>) -> nat {
    let n = int_scan_len(sep, body, rest);
    if int_values(sep, rest, n).len() == 0 {
        0
    } else {
        byte_len(rest.take(n as int))
    }
}

proof fn lemma_int_scan_step<S: NumericSeparatorAccumulator>(sep: S, body: CharClass, rest: Seq<char>, i: int)
    requires
        0 <= i < rest.len(),
        int_qualifies(sep, body, rest[i]),
        int_scan_len(sep, body, rest) == i + int_scan_len(sep, body, rest.skip(i)),
    ensures
        int_scan_len(sep, body, rest) == i + 1 + int_scan_len(sep, body, rest.skip(i + 1)),
{
    assert(rest.skip(i)[0] == rest[i]);
    assert(rest.skip(i).drop_first() == rest.skip(i + 1));
}

/// Match an integer literal body at the start of `rest`: chars that are
/// separators or belong to `is_body`. Separator indexes and value chars
/// go to the accumulators of `options`. If the matched chars are
/// separators only, the digested length is `0`.
pub fn integer_literal_body_with_options<SepAcc: NumericSeparatorAccumulator, ValueAcc: Accumulator<char>>(
    rest: &str,
    is_body: &CharClass,
    options: IntegerLiteralBodyOptions<SepAcc, ValueAcc>,
) -> (r: (usize, IntegerLiteralData<SepAcc::Acc, ValueAcc>))
    ensures
        r.0 == int_digested(options.separator, *is_body, rest@),
        r.1.separators.acc_view() == acc_fold::<usize, SepAcc::Acc>(
            options.separator.spec_acc().acc_view(),
            int_separators(
                options.separator,
                rest@,
                int_scan_len(options.separator, *is_body, rest@),
            ),
        ),
        r.1.value.acc_view() == acc_fold::<char, ValueAcc>(
            options.value_to.acc_view(),
            int_values(options.separator, rest@, int_scan_len(options.separator, *is_body, rest@)),
        ),
{
    let ghost sep0 = options.separator;
    let ghost body = *is_body;
    let ghost s = rest@;
    let mut sep = options.separator;
    let mut value = options.value_to;
    let mut digested: usize = 0;
    let mut sep_only = true;
    let mut it = rest.chars();
    let ghost mut i: int = 0;
    let total = str_len(rest);
    assert(s.skip(0) == s);
    assert(s.take(0) == Seq::<char>::empty());
    loop
        invariant_except_break
            it.remaining() == s.skip(i),
        invariant
            0 <= i <= s.len(),
            body == *is_body,
            digested == byte_len(s.take(i)),
            total == byte_len(s),
            int_scan_len(sep0, body, s) == i + int_scan_len(sep0, body, s.skip(i)),
            forall|c: char| sep.spec_validate(c) == sep0.spec_validate(c),
            sep.spec_acc().acc_view() == acc_fold::<usize, SepAcc::Acc>(
                sep0.spec_acc().acc_view(),
                int_separators(sep0, s, i as nat),
            ),
            value.acc_view() == acc_fold::<char, ValueAcc>(
                options.value_to.acc_view(),
                int_values(sep0, s, i as nat),
            ),
            sep_only == (int_values(sep0, s, i as nat).len() == 0),
        ensures
            int_scan_len(sep0, body, s) == i,
        decreases s.len() - i,
    {
        proof {
            lemma_byte_len_split(s, i);
        }
        match it.next() {
            None => {
                assert(s.skip(i).len() == 0);
                break;
            },
            Some(c) => {
                assert(c == s[i]);
                assert(sep.spec_validate(c) == sep0.spec_validate(c));
                proof {
                    lemma_byte_len_take_next(s, i);
                    lemma_byte_len_split(s, i + 1);
                }
                if sep.validate(c) {
                    sep.update(digested);
                    proof {
                        lemma_acc_fold_push::<usize, SepAcc::Acc>(
                            sep0.spec_acc().acc_view(),
                            int_separators(sep0, s, i as nat),
                            digested,
                        );
                        lemma_int_scan_step(sep0, body, s, i);
                    }
                    digested = digested + len_utf8(c);
                    proof {
                        i = i + 1;
                    }
                } else if is_body.contains(c) {
                    assert(int_qualifies(sep0, body, s[i]));
                    sep_only = false;
                    value.update(c);
                    proof {
                        lemma_acc_fold_push::<char, ValueAcc>(
                            options.value_to.acc_view(),
                            int_values(sep0, s, i as nat),
                            c,
                        );
                        lemma_int_scan_step(sep0, body, s, i);
                    }
                    digested = digested + len_utf8(c);
                    proof {
                        i = i + 1;
                    }
                } else {
                    proof {
                        assert(s.skip(i)[0] == c);
                        assert(!int_qualifies(sep0, body, s.skip(i)[0]));
                    }
                    break;
                }
            },
        }
    }
    if sep_only {
        digested = 0;
    }
    (digested, IntegerLiteralData { separators: sep.emit(), value })
}

/// Like [`integer_literal_body_with_options`], with the options built from
/// the default ones.
pub fn integer_literal_body_with<
    SepAcc: NumericSeparatorAccumulator,
    ValueAcc: Accumulator<char>,
    F: FnOnce(IntegerLiteralBodyOptions<(), ()>) -> IntegerLiteralBodyOptions<SepAcc, ValueAcc>,
>(rest: &str, is_body: &CharClass, options_builder: F) -> (r: (
    usize,
    IntegerLiteralData<SepAcc::Acc, ValueAcc>,
))
    requires
        options_builder.requires((IntegerLiteralBodyOptions { separator: (), value_to: () },)),
    ensures
        exists|o: IntegerLiteralBodyOptions<SepAcc, ValueAcc>|
            {
                &&& options_builder.ensures(
                    (IntegerLiteralBodyOptions { separator: (), value_to: () },),
                    o,
                )
                &&& r.0 == int_digested(o.separator, *is_body, rest@)
                &&& r.1.separators.acc_view() == acc_fold::<usize, SepAcc::Acc>(
                    o.separator.spec_acc().acc_view(),
                    int_separators(o.separator, rest@, int_scan_len(o.separator, *is_body, rest@)),
                )
                &&& r.1.value.acc_view() == acc_fold::<char, ValueAcc>(
                    o.value_to.acc_view(),
                    int_values(o.separator, rest@, int_scan_len(o.separator, *is_body, rest@)),
                )
            },
{
    let o = options_builder(IntegerLiteralBodyOptions::new());
    integer_literal_body_with_options(rest, is_body, o)
}


/// Two separator settings that accept the same chars scan the same body.
pub proof fn lemma_int_scan_same<S1: NumericSeparatorAccumulator, S2: NumericSeparatorAccumulator>(
    s1: S1,
    s2: S2,
    body: CharClass,
    rest: Seq<char>,
)
    requires
        forall|c: char| s1.spec_validate(c) == s2.spec_validate(c),
    ensures
        int_scan_len(s1, body, rest) == int_scan_len(s2, body, rest),
    decreases rest.len(),
{
    if rest.len() > 0 {
        lemma_int_scan_same(s1, s2, body, rest.drop_first());
    }
}

/// Two separator settings that accept the same chars collect the same
/// separators and values.
pub proof fn lemma_int_collect_same<S1: NumericSeparatorAccumulator, S2: NumericSeparatorAccumulator>(
    s1: S1,
    s2: S2,
    rest: Seq<char>,
    n: nat,
)
    requires
        forall|c: char| s1.spec_validate(c) == s2.spec_validate(c),
    ensures
        int_separators(s1, rest, n) == int_separators(s2, rest, n),
        int_values(s1, rest, n) == int_values(s2, rest, n),
    decreases n,
{
    if n > 0 {
        lemma_int_collect_same(s1, s2, rest, (n - 1) as nat);
    }
}

/// A numeric separator setting that collects separator indexes into a vector:
/// `separator` is the separator char, `None` when separators are disabled.
#[derive(Clone, Debug)]
pub struct SeparatorCollector {
    /// The separator char, if any.
    pub separator: Option<char>,
    /// The byte indexes of the separators seen so far.
    pub indexes: Vec<usize>,
}

impl NumericSeparatorAccumulator for SeparatorCollector {
    type Acc = Vec<usize>;

    open spec fn spec_validate(&self, c: char) -> bool {
        self.separator == Some(c)
    }

    open spec fn spec_acc(&self) -> Vec<usize> {
        self.indexes
    }

    fn validate(&self, c: char) -> (r: bool) {
        match self.separator {
            Some(s) => s == c,
            None => false,
        }
    }

    fn update(&mut self, index: usize) {
        self.indexes.update(index);
    }

    fn emit(self) -> (r: Vec<usize>) {
        self.indexes
    }

    fn duplicate(&self) -> (r: Self) {
        SeparatorCollector { separator: self.separator, indexes: self.indexes.duplicate() }
    }

    fn separator_char(&self) -> (r: Option<char>) {
        self.separator
    }
}

/// The bytes an integer literal body takes at the start of `rest`, with the
/// separator `separator` (`None`: no separators).
pub open spec fn body_digested(separator: Option<char>, body: CharClass, rest: Seq<char>) -> nat {
    match separator {
        Some(c) => int_digested(NumericSeparatorOptions { char: c, indexes_to: () }, body, rest),
        None => int_digested((), body, rest),
    }
}

/// The number of chars an integer literal body scans at the start of `rest`.
pub open spec fn body_scan_len(separator: Option<char>, body: CharClass, rest: Seq<char>) -> nat {
    match separator {
        Some(c) => int_scan_len(NumericSeparatorOptions { char: c, indexes_to: () }, body, rest),
        None => int_scan_len((), body, rest),
    }
}

/// The separator indexes of the first `n` chars of `rest`.
pub open spec fn body_separators(separator: Option<char>, rest: Seq<char>, n: nat) -> Seq<usize> {
    match separator {
        Some(c) => int_separators(NumericSeparatorOptions { char: c, indexes_to: () }, rest, n),
        None => int_separators((), rest, n),
    }
}

/// The value chars of the first `n` chars of `rest`.
pub open spec fn body_values(separator: Option<char>, rest: Seq<char>, n: nat) -> Seq<char> {
    match separator {
        Some(c) => int_values(NumericSeparatorOptions { char: c, indexes_to: () }, rest, n),
        None => int_values((), rest, n),
    }
}

/// Scan an integer literal body with separator `separator`, collecting the
/// separator indexes and the value chars.
pub fn scan_body(rest: &str, body: &CharClass, separator: Option<char>) -> (r: (
    usize,
    IntegerLiteralData<Vec<usize>, String>,
))
    ensures
        r.0 == body_digested(separator, *body, rest@),
        r.1.separators@ == body_separators(
            separator,
            rest@,
            body_scan_len(separator, *body, rest@),
        ),
        r.1.value@ == body_values(separator, rest@, body_scan_len(separator, *body, rest@)),
{
    let sep = SeparatorCollector { separator, indexes: Vec::new() };
    let ghost g = sep;
    let options = IntegerLiteralBodyOptions { separator: sep, value_to: String::new() };
    let r = integer_literal_body_with_options(rest, body, options);
    proof {
        let n = int_scan_len(g, *body, rest@);
        lemma_acc_fold_vec(Seq::<usize>::empty(), int_separators(g, rest@, n));
        lemma_acc_fold_string(Seq::<char>::empty(), int_values(g, rest@, n));
        assert(Seq::<usize>::empty() + int_separators(g, rest@, n) == int_separators(g, rest@, n));
        assert(Seq::<char>::empty() + int_values(g, rest@, n) == int_values(g, rest@, n));
        match separator {
            Some(c) => {
                let o = NumericSeparatorOptions { char: c, indexes_to: () };
                lemma_int_scan_same(g, o, *body, rest@);
                lemma_int_collect_same(g, o, rest@, n);
            },
            None => {
                lemma_int_scan_same(g, (), *body, rest@);
                lemma_int_collect_same(g, (), rest@, n);
            },
        }
    }
    r
}


/// The number of scanned chars is at most the length of the rest.
pub proof fn lemma_int_scan_len_bound<S: NumericSeparatorAccumulator>(sep: S, body: CharClass, rest: Seq<char>)
    ensures
        int_scan_len(sep, body, rest) <= rest.len(),
    decreases rest.len(),
{
    if rest.len() > 0 {
        lemma_int_scan_len_bound(sep, body, rest.drop_first());
    }
}

/// A body digests the bytes of a prefix of the rest.
pub proof fn lemma_body_digested(separator: Option<char>, body: CharClass, rest: Seq<char>)
    ensures
        body_digested(separator, body, rest) == 0 || body_digested(separator, body, rest)
            == byte_len(rest.take(body_scan_len(separator, body, rest) as int)),
        body_scan_len(separator, body, rest) <= rest.len(),
        body_digested(separator, body, rest) <= byte_len(rest),
{
    match separator {
        Some(c) => lemma_int_scan_len_bound(NumericSeparatorOptions { char: c, indexes_to: () }, body, rest),
        None => lemma_int_scan_len_bound((), body, rest),
    }
    lemma_byte_len_split(rest, body_scan_len(separator, body, rest) as int);
}

/// An integer literal matcher: `prefix` (e.g. `0x`, or empty), then a body
/// of `body` chars and `separator`s that holds at least one `body` char.
/// Without prefix, a leading separator is rejected.
#[derive(Clone, Debug)]
pub struct IntegerMatcher {
    /// The prefix.
    pub prefix: String,
    /// The chars of the body.
    pub body: CharClass,
    /// The separator char, if any.
    pub separator: Option<char>,
}

impl IntegerMatcher {
    /// The rest after the prefix.
    pub open spec fn spec_body_rest(&self, rest: Seq<char>) -> Seq<char> {
        rest.skip(self.prefix@.len() as int)
    }

    /// The number of bytes the matcher digests at the start of `rest`, or `None`.
    pub open spec fn spec_digest(&self, rest: Seq<char>) -> Option<nat> {
        if !seq_starts_with(rest, self.prefix@) {
            None
        } else if self.prefix@.len() == 0 && rest.len() > 0 && self.separator == Some(rest[0]) {
            None
        } else {
            let d = body_digested(self.separator, self.body, self.spec_body_rest(rest));
            if d == 0 {
                None
            } else {
                Some(byte_len(self.prefix@) + d)
            }
        }
    }

    /// Run the matcher at the start of `rest`: the digested bytes and the
    /// separator indexes and value chars of the body.
    pub fn exec(&self, rest: &str) -> (r: Option<(usize, IntegerLiteralData<Vec<usize>, String>)>)
        ensures
            r is None <==> self.spec_digest(rest@) is None,
            r matches Some((n, d)) ==> {
                let br = self.spec_body_rest(rest@);
                let k = body_scan_len(self.separator, self.body, br);
                &&& self.spec_digest(rest@) == Some(n as nat)
                &&& d.separators@ == body_separators(self.separator, br, k)
                &&& d.value@ == body_values(self.separator, br, k)
            },
    {
        let prefix = self.prefix.as_str();
        if !str_starts_with(rest, prefix) {
            return None;
        }
        let total = str_len(rest);
        let plen = str_len(prefix);
        proof {
            assert(rest@.take(prefix@.len() as int) == prefix@);
            lemma_byte_len_pos(prefix@);
            lemma_byte_len_split(rest@, prefix@.len() as int);
        }
        let body_rest = str_skip(rest, plen, Ghost(prefix@.len() as int));
        if plen == 0 {
            match (first_char(rest), self.separator) {
                (Some(c), Some(s)) => {
                    if c == s {
                        return None;
                    }
                },
                _ => {},
            }
        }
        let (d, data) = scan_body(body_rest, &self.body, self.separator);
        proof {
            lemma_body_digested(self.separator, self.body, body_rest@);
        }
        if d == 0 {
            None
        } else {
            Some((plen + d, data))
        }
    }
}

/// An action that accepts an integer literal: `prefix`, then a body of
/// `body` chars and `separator`s; tried only on rests that start with a
/// char of `head`.
pub fn integer_action(prefix: &str, body: CharClass, separator: Option<char>, head: Vec<char>) -> (r: Action)
    ensures
        r.matcher matches Matcher::Integer(m) && m.prefix@ == prefix@ && m.body == body && m.separator
            == separator,
        r.head matches Some(HeadMatcher::OneOf(v)) && forall|c: char| v@.contains(c) <==> head@.contains(c),
        r.kind == SubKindId(0),
        r.literal is None,
        !r.muted,
{
    let m = IntegerMatcher { prefix: prefix.to_owned(), body, separator };
    Action::new(Matcher::Integer(m)).unchecked_head_in(head)
}


/// Match the body of a binary integer literal (binary digits (`0`, `1`) and separators) at the
/// start of `rest`, with options built from the default ones.
pub fn binary_integer_literal_body_with<
    SepAcc: NumericSeparatorAccumulator,
    ValueAcc: Accumulator<char>,
    F: FnOnce(IntegerLiteralBodyOptions<(), ()>) -> IntegerLiteralBodyOptions<SepAcc, ValueAcc>,
>(rest: &str, options_builder: F) -> (r: (usize, IntegerLiteralData<SepAcc::Acc, ValueAcc>))
    requires
        options_builder.requires((IntegerLiteralBodyOptions { separator: (), value_to: () },)),
    ensures
        exists|o: IntegerLiteralBodyOptions<SepAcc, ValueAcc>|
            {
                &&& options_builder.ensures(
                    (IntegerLiteralBodyOptions { separator: (), value_to: () },),
                    o,
                )
                &&& r.0 == int_digested(o.separator, CharClass::BinaryDigit, rest@)
                &&& r.1.separators.acc_view() == acc_fold::<usize, SepAcc::Acc>(
                    o.separator.spec_acc().acc_view(),
                    int_separators(o.separator, rest@, int_scan_len(o.separator, CharClass::BinaryDigit, rest@)),
                )
                &&& r.1.value.acc_view() == acc_fold::<char, ValueAcc>(
                    o.value_to.acc_view(),
                    int_values(o.separator, rest@, int_scan_len(o.separator, CharClass::BinaryDigit, rest@)),
                )
            },
{
    let o = options_builder(IntegerLiteralBodyOptions::new());
    binary_integer_literal_body_with_options(rest, o)
}

/// Match the body of a binary integer literal (binary digits (`0`, `1`) and separators) at the
/// start of `rest`.
pub fn binary_integer_literal_body_with_options<
    SepAcc: NumericSeparatorAccumulator,
    ValueAcc: Accumulator<char>,
>(rest: &str, options: IntegerLiteralBodyOptions<SepAcc, ValueAcc>) -> (r: (
    usize,
    IntegerLiteralData<SepAcc::Acc, ValueAcc>,
))
    ensures
        r.0 == int_digested(options.separator, CharClass::BinaryDigit, rest@),
        r.1.separators.acc_view() == acc_fold::<usize, SepAcc::Acc>(
            options.separator.spec_acc().acc_view(),
            int_separators(options.separator, rest@, int_scan_len(options.separator, CharClass::BinaryDigit, rest@)),
        ),
        r.1.value.acc_view() == acc_fold::<char, ValueAcc>(
            options.value_to.acc_view(),
            int_values(options.separator, rest@, int_scan_len(options.separator, CharClass::BinaryDigit, rest@)),
        ),
{
    integer_literal_body_with_options(rest, &CharClass::BinaryDigit, options)
}

/// An action that accepts a binary integer literal (`0b`, then a body of
/// binary digits (`0`, `1`) and separators with at least one digit), with options built from
/// the default ones. Its data holds the separator indexes and the digits.
pub fn binary_integer_literal_with<
    SepAcc: NumericSeparatorAccumulator,
    ValueAcc: Accumulator<char>,
    F: FnOnce(IntegerLiteralBodyOptions<(), ()>) -> IntegerLiteralBodyOptions<SepAcc, ValueAcc>,
>(options_builder: F) -> (r: Action)
    requires
        options_builder.requires((IntegerLiteralBodyOptions { separator: (), value_to: () },)),
    ensures
        exists|o: IntegerLiteralBodyOptions<SepAcc, ValueAcc>|
            {
                &&& options_builder.ensures(
                    (IntegerLiteralBodyOptions { separator: (), value_to: () },),
                    o,
                )
                &&& r.matcher matches Matcher::Integer(m) && m.prefix@ == "0b"@ && m.body
                    == CharClass::BinaryDigit && forall|c: char| o.separator.spec_validate(c) <==> m.separator
                    == Some(c)
            },
        r.head matches Some(HeadMatcher::OneOf(v)) && forall|c: char| v@.contains(c) <==> c == '0',
        r.kind == SubKindId(0),
        r.literal is None,
        !r.muted,
{
    let o = options_builder(IntegerLiteralBodyOptions::new());
    binary_integer_literal_with_options(o)
}

/// An action that accepts a binary integer literal (`0b`, then a body of
/// binary digits (`0`, `1`) and separators with at least one digit). Its data holds the
/// separator indexes and the digits.
pub fn binary_integer_literal_with_options<SepAcc: NumericSeparatorAccumulator, ValueAcc>(
    options: IntegerLiteralBodyOptions<SepAcc, ValueAcc>,
) -> (r: Action)
    ensures
        r.matcher matches Matcher::Integer(m) && m.prefix@ == "0b"@ && m.body == CharClass::BinaryDigit
            && forall|c: char| options.separator.spec_validate(c) <==> m.separator == Some(c),
        r.head matches Some(HeadMatcher::OneOf(v)) && forall|c: char| v@.contains(c) <==> c == '0',
        r.kind == SubKindId(0),
        r.literal is None,
        !r.muted,
{
    let separator = options.separator.separator_char();
    let head = vec!['0'];
    proof {
        assert(head@ =~= seq!['0']);
    }
    let r = integer_action("0b", CharClass::BinaryDigit, separator, head);
    r
}

/// Match the body of a octal integer literal (octal digits (`0`..=`7`) and separators) at the
/// start of `rest`, with options built from the default ones.
pub fn octal_integer_literal_body_with<
    SepAcc: NumericSeparatorAccumulator,
    ValueAcc: Accumulator<char>,
    F: FnOnce(IntegerLiteralBodyOptions<(), ()>) -> IntegerLiteralBodyOptions<SepAcc, ValueAcc>,
>(rest: &str, options_builder: F) -> (r: (usize, IntegerLiteralData<SepAcc::Acc, ValueAcc>))
    requires
        options_builder.requires((IntegerLiteralBodyOptions { separator: (), value_to: () },)),
    ensures
        exists|o: IntegerLiteralBodyOptions<SepAcc, ValueAcc>|
            {
                &&& options_builder.ensures(
                    (IntegerLiteralBodyOptions { separator: (), value_to: () },),
                    o,
                )
                &&& r.0 == int_digested(o.separator, CharClass::OctalDigit, rest@)
                &&& r.1.separators.acc_view() == acc_fold::<usize, SepAcc::Acc>(
                    o.separator.spec_acc().acc_view(),
                    int_separators(o.separator, rest@, int_scan_len(o.separator, CharClass::OctalDigit, rest@)),
                )
                &&& r.1.value.acc_view() == acc_fold::<char, ValueAcc>(
                    o.value_to.acc_view(),
                    int_values(o.separator, rest@, int_scan_len(o.separator, CharClass::OctalDigit, rest@)),
                )
            },
{
    let o = options_builder(IntegerLiteralBodyOptions::new());
    octal_integer_literal_body_with_options(rest, o)
}

/// Match the body of a octal integer literal (octal digits (`0`..=`7`) and separators) at the
/// start of `rest`.
pub fn octal_integer_literal_body_with_options<
    SepAcc: NumericSeparatorAccumulator,
    ValueAcc: Accumulator<char>,
>(rest: &str, options: IntegerLiteralBodyOptions<SepAcc, ValueAcc>) -> (r: (
    usize,
    IntegerLiteralData<SepAcc::Acc, ValueAcc>,
))
    ensures
        r.0 == int_digested(options.separator, CharClass::OctalDigit, rest@),
        r.1.separators.acc_view() == acc_fold::<usize, SepAcc::Acc>(
            options.separator.spec_acc().acc_view(),
            int_separators(options.separator, rest@, int_scan_len(options.separator, CharClass::OctalDigit, rest@)),
        ),
        r.1.value.acc_view() == acc_fold::<char, ValueAcc>(
            options.value_to.acc_view(),
            int_values(options.separator, rest@, int_scan_len(options.separator, CharClass::OctalDigit, rest@)),
        ),
{
    integer_literal_body_with_options(rest, &CharClass::OctalDigit, options)
}

/// An action that accepts a octal integer literal (`0o`, then a body of
/// octal digits (`0`..=`7`) and separators with at least one digit), with options built from
/// the default ones. Its data holds the separator indexes and the digits.
pub fn octal_integer_literal_with<
    SepAcc: NumericSeparatorAccumulator,
    ValueAcc: Accumulator<char>,
    F: FnOnce(IntegerLiteralBodyOptions<(), ()>) -> IntegerLiteralBodyOptions<SepAcc, ValueAcc>,
>(options_builder: F) -> (r: Action)
    requires
        options_builder.requires((IntegerLiteralBodyOptions { separator: (), value_to: () },)),
    ensures
        exists|o: IntegerLiteralBodyOptions<SepAcc, ValueAcc>|
            {
                &&& options_builder.ensures(
                    (IntegerLiteralBodyOptions { separator: (), value_to: () },),
                    o,
                )
                &&& r.matcher matches Matcher::Integer(m) && m.prefix@ == "0o"@ && m.body
                    == CharClass::OctalDigit && forall|c: char| o.separator.spec_validate(c) <==> m.separator
                    == Some(c)
            },
        r.head matches Some(HeadMatcher::OneOf(v)) && forall|c: char| v@.contains(c) <==> c == '0',
        r.kind == SubKindId(0),
        r.literal is None,
        !r.muted,
{
    let o = options_builder(IntegerLiteralBodyOptions::new());
    octal_integer_literal_with_options(o)
}

/// An action that accepts a octal integer literal (`0o`, then a body of
/// octal digits (`0`..=`7`) and separators with at least one digit). Its data holds the
/// separator indexes and the digits.
pub fn octal_integer_literal_with_options<SepAcc: NumericSeparatorAccumulator, ValueAcc>(
    options: IntegerLiteralBodyOptions<SepAcc, ValueAcc>,
) -> (r: Action)
    ensures
        r.matcher matches Matcher::Integer(m) && m.prefix@ == "0o"@ && m.body == CharClass::OctalDigit
            && forall|c: char| options.separator.spec_validate(c) <==> m.separator == Some(c),
        r.head matches Some(HeadMatcher::OneOf(v)) && forall|c: char| v@.contains(c) <==> c == '0',
        r.kind == SubKindId(0),
        r.literal is None,
        !r.muted,
{
    let separator = options.separator.separator_char();
    let head = vec!['0'];
    proof {
        assert(head@ =~= seq!['0']);
    }
    let r = integer_action("0o", CharClass::OctalDigit, separator, head);
    r
}

/// Match the body of a decimal integer literal (decimal digits and separators) at the
/// start of `rest`, with options built from the default ones.
pub fn decimal_integer_literal_body_with<
    SepAcc: NumericSeparatorAccumulator,
    ValueAcc: Accumulator<char>,
    F: FnOnce(IntegerLiteralBodyOptions<(), ()>) -> IntegerLiteralBodyOptions<SepAcc, ValueAcc>,
>(rest: &str, options_builder: F) -> (r: (usize, IntegerLiteralData<SepAcc::Acc, ValueAcc>))
    requires
        options_builder.requires((IntegerLiteralBodyOptions { separator: (), value_to: () },)),
    ensures
        exists|o: IntegerLiteralBodyOptions<SepAcc, ValueAcc>|
            {
                &&& options_builder.ensures(
                    (IntegerLiteralBodyOptions { separator: (), value_to: () },),
                    o,
                )
                &&& r.0 == int_digested(o.separator, CharClass::AsciiDigit, rest@)
                &&& r.1.separators.acc_view() == acc_fold::<usize, SepAcc::Acc>(
                    o.separator.spec_acc().acc_view(),
                    int_separators(o.separator, rest@, int_scan_len(o.separator, CharClass::AsciiDigit, rest@)),
                )
                &&& r.1.value.acc_view() == acc_fold::<char, ValueAcc>(
                    o.value_to.acc_view(),
                    int_values(o.separator, rest@, int_scan_len(o.separator, CharClass::AsciiDigit, rest@)),
                )
            },
{
    let o = options_builder(IntegerLiteralBodyOptions::new());
    decimal_integer_literal_body_with_options(rest, o)
}

/// Match the body of a decimal integer literal (decimal digits and separators) at the
/// start of `rest`.
pub fn decimal_integer_literal_body_with_options<
    SepAcc: NumericSeparatorAccumulator,
    ValueAcc: Accumulator<char>,
>(rest: &str, options: IntegerLiteralBodyOptions<SepAcc, ValueAcc>) -> (r: (
    usize,
    IntegerLiteralData<SepAcc::Acc, ValueAcc>,
))
    ensures
        r.0 == int_digested(options.separator, CharClass::AsciiDigit, rest@),
        r.1.separators.acc_view() == acc_fold::<usize, SepAcc::Acc>(
            options.separator.spec_acc().acc_view(),
            int_separators(options.separator, rest@, int_scan_len(options.separator, CharClass::AsciiDigit, rest@)),
        ),
        r.1.value.acc_view() == acc_fold::<char, ValueAcc>(
            options.value_to.acc_view(),
            int_values(options.separator, rest@, int_scan_len(options.separator, CharClass::AsciiDigit, rest@)),
        ),
{
    integer_literal_body_with_options(rest, &CharClass::AsciiDigit, options)
}

/// An action that accepts a decimal integer literal (no prefix, then a body of
/// decimal digits and separators with at least one digit), with options built from
/// the default ones. Its data holds the separator indexes and the digits.
pub fn decimal_integer_literal_with<
    SepAcc: NumericSeparatorAccumulator,
    ValueAcc: Accumulator<char>,
    F: FnOnce(IntegerLiteralBodyOptions<(), ()>) -> IntegerLiteralBodyOptions<SepAcc, ValueAcc>,
>(options_builder: F) -> (r: Action)
    requires
        options_builder.requires((IntegerLiteralBodyOptions { separator: (), value_to: () },)),
    ensures
        exists|o: IntegerLiteralBodyOptions<SepAcc, ValueAcc>|
            {
                &&& options_builder.ensures(
                    (IntegerLiteralBodyOptions { separator: (), value_to: () },),
                    o,
                )
                &&& r.matcher matches Matcher::Integer(m) && m.prefix@ == ""@ && m.body
                    == CharClass::AsciiDigit && forall|c: char| o.separator.spec_validate(c) <==> m.separator
                    == Some(c)
            },
        r.head matches Some(HeadMatcher::OneOf(v)) && forall|c: char| v@.contains(c) <==> ('0' <= c && c <= '9'),
        r.kind == SubKindId(0),
        r.literal is None,
        !r.muted,
{
    let o = options_builder(IntegerLiteralBodyOptions::new());
    decimal_integer_literal_with_options(o)
}

/// An action that accepts a decimal integer literal (no prefix, then a body of
/// decimal digits and separators with at least one digit). Its data holds the
/// separator indexes and the digits.
pub fn decimal_integer_literal_with_options<SepAcc: NumericSeparatorAccumulator, ValueAcc>(
    options: IntegerLiteralBodyOptions<SepAcc, ValueAcc>,
) -> (r: Action)
    ensures
        r.matcher matches Matcher::Integer(m) && m.prefix@ == ""@ && m.body == CharClass::AsciiDigit
            && forall|c: char| options.separator.spec_validate(c) <==> m.separator == Some(c),
        r.head matches Some(HeadMatcher::OneOf(v)) && forall|c: char| v@.contains(c) <==> ('0' <= c && c <= '9'),
        r.kind == SubKindId(0),
        r.literal is None,
        !r.muted,
{
    let separator = options.separator.separator_char();
    let head = vec!['0', '1', '2', '3', '4', '5', '6', '7', '8', '9'];
    proof {
        assert(head@ =~= seq!['0', '1', '2', '3', '4', '5', '6', '7', '8', '9']);
    }
    let r = integer_action("", CharClass::AsciiDigit, separator, head);
    r
}

/// Match the body of a hexadecimal integer literal (hexadecimal digits and separators) at the
/// start of `rest`, with options built from the default ones.
pub fn hexadecimal_integer_literal_body_with<
    SepAcc: NumericSeparatorAccumulator,
    ValueAcc: Accumulator<char>,
    F: FnOnce(IntegerLiteralBodyOptions<(), ()>) -> IntegerLiteralBodyOptions<SepAcc, ValueAcc>,
>(rest: &str, options_builder: F) -> (r: (usize, IntegerLiteralData<SepAcc::Acc, ValueAcc>))
    requires
        options_builder.requires((IntegerLiteralBodyOptions { separator: (), value_to: () },)),
    ensures
        exists|o: IntegerLiteralBodyOptions<SepAcc, ValueAcc>|
            {
                &&& options_builder.ensures(
                    (IntegerLiteralBodyOptions { separator: (), value_to: () },),
                    o,
                )
                &&& r.0 == int_digested(o.separator, CharClass::AsciiHexDigit, rest@)
                &&& r.1.separators.acc_view() == acc_fold::<usize, SepAcc::Acc>(
                    o.separator.spec_acc().acc_view(),
                    int_separators(o.separator, rest@, int_scan_len(o.separator, CharClass::AsciiHexDigit, rest@)),
                )
                &&& r.1.value.acc_view() == acc_fold::<char, ValueAcc>(
                    o.value_to.acc_view(),
                    int_values(o.separator, rest@, int_scan_len(o.separator, CharClass::AsciiHexDigit, rest@)),
                )
            },
{
    let o = options_builder(IntegerLiteralBodyOptions::new());
    hexadecimal_integer_literal_body_with_options(rest, o)
}

/// Match the body of a hexadecimal integer literal (hexadecimal digits and separators) at the
/// start of `rest`.
pub fn hexadecimal_integer_literal_body_with_options<
    SepAcc: NumericSeparatorAccumulator,
    ValueAcc: Accumulator<char>,
>(rest: &str, options: IntegerLiteralBodyOptions<SepAcc, ValueAcc>) -> (r: (
    usize,
    IntegerLiteralData<SepAcc::Acc, ValueAcc>,
))
    ensures
        r.0 == int_digested(options.separator, CharClass::AsciiHexDigit, rest@),
        r.1.separators.acc_view() == acc_fold::<usize, SepAcc::Acc>(
            options.separator.spec_acc().acc_view(),
            int_separators(options.separator, rest@, int_scan_len(options.separator, CharClass::AsciiHexDigit, rest@)),
        ),
        r.1.value.acc_view() == acc_fold::<char, ValueAcc>(
            options.value_to.acc_view(),
            int_values(options.separator, rest@, int_scan_len(options.separator, CharClass::AsciiHexDigit, rest@)),
        ),
{
    integer_literal_body_with_options(rest, &CharClass::AsciiHexDigit, options)
}

/// An action that accepts a hexadecimal integer literal (`0x`, then a body of
/// hexadecimal digits and separators with at least one digit), with options built from
/// the default ones. Its data holds the separator indexes and the digits.
pub fn hexadecimal_integer_literal_with<
    SepAcc: NumericSeparatorAccumulator,
    ValueAcc: Accumulator<char>,
    F: FnOnce(IntegerLiteralBodyOptions<(), ()>) -> IntegerLiteralBodyOptions<SepAcc, ValueAcc>,
>(options_builder: F) -> (r: Action)
    requires
        options_builder.requires((IntegerLiteralBodyOptions { separator: (), value_to: () },)),
    ensures
        exists|o: IntegerLiteralBodyOptions<SepAcc, ValueAcc>|
            {
                &&& options_builder.ensures(
                    (IntegerLiteralBodyOptions { separator: (), value_to: () },),
                    o,
                )
                &&& r.matcher matches Matcher::Integer(m) && m.prefix@ == "0x"@ && m.body
                    == CharClass::AsciiHexDigit && forall|c: char| o.separator.spec_validate(c) <==> m.separator
                    == Some(c)
            },
        r.head matches Some(HeadMatcher::OneOf(v)) && forall|c: char| v@.contains(c) <==> c == '0',
        r.kind == SubKindId(0),
        r.literal is None,
        !r.muted,
{
    let o = options_builder(IntegerLiteralBodyOptions::new());
    hexadecimal_integer_literal_with_options(o)
}

/// An action that accepts a hexadecimal integer literal (`0x`, then a body of
/// hexadecimal digits and separators with at least one digit). Its data holds the
/// separator indexes and the digits.
pub fn hexadecimal_integer_literal_with_options<SepAcc: NumericSeparatorAccumulator, ValueAcc>(
    options: IntegerLiteralBodyOptions<SepAcc, ValueAcc>,
) -> (r: Action)
    ensures
        r.matcher matches Matcher::Integer(m) && m.prefix@ == "0x"@ && m.body == CharClass::AsciiHexDigit
            && forall|c: char| options.separator.spec_validate(c) <==> m.separator == Some(c),
        r.head matches Some(HeadMatcher::OneOf(v)) && forall|c: char| v@.contains(c) <==> c == '0',
        r.kind == SubKindId(0),
        r.literal is None,
        !r.muted,
{
    let separator = options.separator.separator_char();
    let head = vec!['0'];
    proof {
        assert(head@ =~= seq!['0']);
    }
    let r = integer_action("0x", CharClass::AsciiHexDigit, separator, head);
    r
}

} // verus!
