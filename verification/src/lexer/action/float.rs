//! Float literal bodies: an integral part, an optional fractional part and
//! an optional exponent part, e.g. `1_23.4_56e-7_8`.
use super::accumulator::{acc_fold, lemma_acc_fold_string, lemma_acc_fold_vec, Accumulator};
use super::class::CharClass;
use super::integer::{
    int_digested, int_scan_len, int_separators, int_values, integer_literal_body_with_options,
    body_scan_len, body_separators, body_values,
    lemma_int_collect_same, lemma_int_scan_len_bound, lemma_int_scan_same, IntegerLiteralBodyOptions,
    IntegerLiteralData, NumericSeparatorAccumulator, NumericSeparatorOptions, SeparatorCollector,
};
use super::{Action, HeadMatcher, Matcher};
use crate::kind::SubKindId;
use crate::text::{
    byte_len, char_width, lemma_byte_len_add, lemma_byte_len_pos, lemma_byte_len_split,
    lemma_byte_len_take_next, len_utf8, seq_starts_with, str_len, str_skip, str_starts_with,
    str_starts_with_char,
};
use vstd::prelude::*;

verus! {

broadcast use vstd::string::group_string_axioms;

/// Options of the fractional part: the decimal point and the accumulator
/// of the digits.
#[derive(Clone, Debug)]
pub struct FloatFractionalOptions<Acc> {
    /// The decimal point.
    pub point: char,
    /// The accumulator of the digits.
    pub value_to: Acc,
}

impl FloatFractionalOptions<()> {
    /// The point `'.'`, no accumulator.
    pub fn new() -> (r: Self)
        ensures
            r == (FloatFractionalOptions { point: '.', value_to: () }),
    {
        FloatFractionalOptions { point: '.', value_to: () }
    }
}

impl<Acc> FloatFractionalOptions<Acc> {
    /// Set the decimal point.
    pub fn point(self, point: char) -> (r: Self)
        ensures
            r == (FloatFractionalOptions { point, ..self }),
    {
        FloatFractionalOptions { point, ..self }
    }

    /// Set the accumulator of the digits.
    pub fn value_to<NewAcc>(self, acc: NewAcc) -> (r: FloatFractionalOptions<NewAcc>)
        ensures
            r.point == self.point,
            r.value_to == acc,
    {
        FloatFractionalOptions { point: self.point, value_to: acc }
    }

    /// Accumulate the digits into a string.
    pub fn value_to_string(self) -> (r: FloatFractionalOptions<String>)
        ensures
            r.point == self.point,
            r.value_to@ == Seq::<char>::empty(),
    {
        self.value_to(String::new())
    }
}

/// Options of the exponent part: the indicators (tried in order) and the
/// accumulator of the digits.
#[derive(Clone, Debug)]
pub struct FloatExponentOptions<Acc> {
    /// The exponent indicators, tried in order; none is empty.
    pub indicators: Vec<String>,
    /// The accumulator of the digits.
    pub value_to: Acc,
}

/// The strings of `v`, as char sequences.
pub open spec fn strings_view(v: Seq<String>) -> Seq<Seq<char>> {
    v.map_values(|s: String| s@)
}

impl FloatExponentOptions<()> {
    /// The indicators `e-`, `e+`, `e`, `E-`, `E+`, `E`; no accumulator.
    pub fn new() -> (r: Self)
        ensures
            strings_view(r.indicators@) == seq!["e-"@, "e+"@, "e"@, "E-"@, "E+"@, "E"@],
    {
        let mut indicators: Vec<String> = Vec::new();
        indicators.push("e-".to_owned());
        indicators.push("e+".to_owned());
        indicators.push("e".to_owned());
        indicators.push("E-".to_owned());
        indicators.push("E+".to_owned());
        indicators.push("E".to_owned());
        let r = FloatExponentOptions { indicators, value_to: () };
        assert(strings_view(r.indicators@) =~= seq!["e-"@, "e+"@, "e"@, "E-"@, "E+"@, "E"@]);
        r
    }
}

impl<Acc> FloatExponentOptions<Acc> {
    /// Set the indicators (none may be empty).
    pub fn indicators(self, indicators: Vec<String>) -> (r: Self)
        requires
            forall|i: int| 0 <= i < indicators@.len() ==> #[trigger] indicators@[i]@.len() > 0,
        ensures
            r.indicators == indicators,
            r.value_to == self.value_to,
    {
        FloatExponentOptions { indicators, value_to: self.value_to }
    }

    /// Set the accumulator of the digits.
    pub fn value_to<NewAcc>(self, acc: NewAcc) -> (r: FloatExponentOptions<NewAcc>)
        ensures
            r.indicators == self.indicators,
            r.value_to == acc,
    {
        FloatExponentOptions { indicators: self.indicators, value_to: acc }
    }

    /// Accumulate the digits into a string.
    pub fn value_to_string(self) -> (r: FloatExponentOptions<String>)
        ensures
            r.indicators == self.indicators,
            r.value_to@ == Seq::<char>::empty(),
    {
        self.value_to(String::new())
    }
}

/// Options of a float literal body: the numeric separator, the accumulator
/// of the integral digits, and the optional fractional and exponent parts.
#[derive(Clone, Debug)]
pub struct FloatLiteralOptions<Sep, IntAcc, FracAcc, ExpAcc> {
    /// The numeric separator (`()` when disabled).
    pub separator: Sep,
    /// The accumulator of the integral digits.
    pub integral_to: IntAcc,
    /// The fractional part, `None` when disabled.
    pub fractional: Option<FloatFractionalOptions<FracAcc>>,
    /// The exponent part, `None` when disabled.
    pub exponent: Option<FloatExponentOptions<ExpAcc>>,
}

impl FloatLiteralOptions<(), (), (), ()> {
    /// No separator, no accumulators, no fractional or exponent part.
    pub fn new() -> (r: Self)
        ensures
            r == (FloatLiteralOptions::<(), (), (), ()> {
                separator: (),
                integral_to: (),
                fractional: None,
                exponent: None,
            }),
    {
        FloatLiteralOptions { separator: (), integral_to: (), fractional: None, exponent: None }
    }
}

impl<Sep, IntAcc, FracAcc, ExpAcc> FloatLiteralOptions<Sep, IntAcc, FracAcc, ExpAcc> {
    /// Set the accumulator of the integral digits.
    pub fn integral_to<NewIntAcc>(self, acc: NewIntAcc) -> (r: FloatLiteralOptions<Sep, NewIntAcc, FracAcc, ExpAcc>)
        ensures
            r.separator == self.separator,
            r.integral_to == acc,
            r.fractional == self.fractional,
            r.exponent == self.exponent,
    {
        FloatLiteralOptions {
            separator: self.separator,
            integral_to: acc,
            fractional: self.fractional,
            exponent: self.exponent,
        }
    }

    /// Accumulate the integral digits into a string.
    pub fn integral_to_string(self) -> (r: FloatLiteralOptions<Sep, String, FracAcc, ExpAcc>)
        ensures
            r.separator == self.separator,
            r.integral_to@ == Seq::<char>::empty(),
            r.fractional == self.fractional,
            r.exponent == self.exponent,
    {
        self.integral_to(String::new())
    }

    /// Enable the fractional part with the given options.
    pub fn fractional<NewFracAcc>(self, fraction: FloatFractionalOptions<NewFracAcc>) -> (r: FloatLiteralOptions<Sep, IntAcc, NewFracAcc, ExpAcc>)
        ensures
            r.separator == self.separator,
            r.integral_to == self.integral_to,
            r.fractional == Some(fraction),
            r.exponent == self.exponent,
    {
        FloatLiteralOptions {
            separator: self.separator,
            integral_to: self.integral_to,
            fractional: Some(fraction),
            exponent: self.exponent,
        }
    }

    /// Enable the fractional part with options built from the default ones.
    pub fn fractional_with<NewFracAcc, F: FnOnce(FloatFractionalOptions<()>) -> FloatFractionalOptions<NewFracAcc>>(
        self,
        options_builder: F,
    ) -> (r: FloatLiteralOptions<Sep, IntAcc, NewFracAcc, ExpAcc>)
        requires
            options_builder.requires((FloatFractionalOptions { point: '.', value_to: () },)),
        ensures
            r.separator == self.separator,
            r.integral_to == self.integral_to,
            r.fractional matches Some(f) && options_builder.ensures(
                (FloatFractionalOptions { point: '.', value_to: () },),
                f,
            ),
            r.exponent == self.exponent,
    {
        let f = options_builder(FloatFractionalOptions::new());
        self.fractional(f)
    }

    /// Enable the fractional part with the point `'.'` and no accumulator.
    pub fn default_fractional(self) -> (r: FloatLiteralOptions<Sep, IntAcc, (), ExpAcc>)
        ensures
            r.separator == self.separator,
            r.integral_to == self.integral_to,
            r.fractional == Some(FloatFractionalOptions { point: '.', value_to: () }),
            r.exponent == self.exponent,
    {
        self.fractional(FloatFractionalOptions::new())
    }

    /// Enable the exponent part with the given options.
    pub fn exponent<NewExpAcc>(self, exponent: FloatExponentOptions<NewExpAcc>) -> (r: FloatLiteralOptions<Sep, IntAcc, FracAcc, NewExpAcc>)
        ensures
            r.separator == self.separator,
            r.integral_to == self.integral_to,
            r.fractional == self.fractional,
            r.exponent == Some(exponent),
    {
        FloatLiteralOptions {
            separator: self.separator,
            integral_to: self.integral_to,
            fractional: self.fractional,
            exponent: Some(exponent),
        }
    }

    /// Enable the exponent part with options built from the default ones.
    pub fn exponent_with<NewExpAcc, F: FnOnce(FloatExponentOptions<()>) -> FloatExponentOptions<NewExpAcc>>(
        self,
        options_builder: F,
    ) -> (r: FloatLiteralOptions<Sep, IntAcc, FracAcc, NewExpAcc>)
        requires
            forall|o: FloatExponentOptions<()>|
                strings_view(o.indicators@) == seq!["e-"@, "e+"@, "e"@, "E-"@, "E+"@, "E"@]
                    ==> #[trigger] options_builder.requires((o,)),
        ensures
            r.separator == self.separator,
            r.integral_to == self.integral_to,
            r.fractional == self.fractional,
            r.exponent is Some,
            exists|o: FloatExponentOptions<()>|
                strings_view(o.indicators@) == seq!["e-"@, "e+"@, "e"@, "E-"@, "E+"@, "E"@]
                    && #[trigger] options_builder.ensures((o,), r.exponent->0),
    {
        let o = FloatExponentOptions::new();
        let ghost go = o;
        let e = options_builder(o);
        assert(options_builder.ensures((go,), e));
        assert(strings_view(go.indicators@) == seq!["e-"@, "e+"@, "e"@, "E-"@, "E+"@, "E"@]);
        let r = self.exponent(e);
        assert(options_builder.ensures((go,), r.exponent->0));
        r
    }

    /// Enable the exponent part with the default indicators and no accumulator.
    pub fn default_exponent(self) -> (r: FloatLiteralOptions<Sep, IntAcc, FracAcc, ()>)
        ensures
            r.separator == self.separator,
            r.integral_to == self.integral_to,
            r.fractional == self.fractional,
            r.exponent matches Some(e) && strings_view(e.indicators@) == seq![
                "e-"@,
                "e+"@,
                "e"@,
                "E-"@,
                "E+"@,
                "E"@,
            ],
    {
        self.exponent(FloatExponentOptions::new())
    }

    /// Set the numeric separator.
    pub fn separator<NewSep>(self, options: NewSep) -> (r: FloatLiteralOptions<NewSep, IntAcc, FracAcc, ExpAcc>)
        ensures
            r.separator == options,
            r.integral_to == self.integral_to,
            r.fractional == self.fractional,
            r.exponent == self.exponent,
    {
        FloatLiteralOptions {
            separator: options,
            integral_to: self.integral_to,
            fractional: self.fractional,
            exponent: self.exponent,
        }
    }

    /// Set the numeric separator, built from the default separator options.
    pub fn separator_with<NewSep, F: FnOnce(NumericSeparatorOptions<()>) -> NewSep>(self, options_builder: F) -> (r: FloatLiteralOptions<NewSep, IntAcc, FracAcc, ExpAcc>)
        requires
            options_builder.requires((NumericSeparatorOptions { char: '_', indexes_to: () },)),
        ensures
            options_builder.ensures((NumericSeparatorOptions { char: '_', indexes_to: () },), r.separator),
            r.integral_to == self.integral_to,
            r.fractional == self.fractional,
            r.exponent == self.exponent,
    {
        let s = options_builder(NumericSeparatorOptions::new());
        self.separator(s)
    }

    /// Enable numeric separators with `'_'` and no index accumulator.
    pub fn default_separator(self) -> (r: FloatLiteralOptions<NumericSeparatorOptions<()>, IntAcc, FracAcc, ExpAcc>)
        ensures
            r.separator == (NumericSeparatorOptions { char: '_', indexes_to: () }),
            r.integral_to == self.integral_to,
            r.fractional == self.fractional,
            r.exponent == self.exponent,
    {
        self.separator(NumericSeparatorOptions::new())
    }
}

/// The data of the exponent part.
#[derive(Default, Debug, Clone)]
pub struct FloatExponentData<Sep, ExpValue> {
    /// The byte length of the exponent indicator.
    pub indicator_len: usize,
    /// The data of the exponent body.
    pub body: IntegerLiteralData<Sep, ExpValue>,
}

/// The data of a float literal body.
#[derive(Debug)]
pub struct FloatLiteralData<Sep, IntValue, FracValue, ExpValue> {
    /// The bytes of the integral part, and its data.
    pub integral: (usize, IntegerLiteralData<Sep, IntValue>),
    /// The bytes of the fractional part (decimal point included), and its data.
    pub fractional: Option<(usize, IntegerLiteralData<Sep, FracValue>)>,
    /// The bytes of the exponent part (indicator included), and its data.
    pub exponent: Option<(usize, FloatExponentData<Sep, ExpValue>)>,
}

/// The chars a decimal body takes at the start of `rest`: none when it
/// holds no digit.
pub open spec fn digits_chars<S: NumericSeparatorAccumulator>(sep: S, rest: Seq<char>) -> nat {
    if int_digested(sep, CharClass::AsciiDigit, rest) == 0 {
        0
    } else {
        int_scan_len(sep, CharClass::AsciiDigit, rest)
    }
}

/// The chars the fractional part takes at the start of `rest`, if any.
pub open spec fn fraction_chars<S: NumericSeparatorAccumulator>(sep: S, point: Option<char>, rest: Seq<char>) -> Option<nat> {
    match point {
        Some(p) => if rest.len() > 0 && rest[0] == p {
            Some(1 + digits_chars(sep, rest.drop_first()))
        } else {
            None
        },
        None => None,
    }
}

/// The position of the first of `indicators` that `rest` starts with, from `j` on.
pub open spec fn first_indicator(indicators: Seq<Seq<char>>, rest: Seq<char>, j: nat) -> Option<nat>
    decreases indicators.len() - j,
{
    if j >= indicators.len() {
        None
    } else if seq_starts_with(rest, indicators[j as int]) {
        Some(j)
    } else {
        first_indicator(indicators, rest, j + 1)
    }
}

/// The exponent part at the start of `rest`, if any: the position of its
/// indicator and the chars it takes.
pub open spec fn exponent_part<S: NumericSeparatorAccumulator>(
    sep: S,
    indicators: Option<Seq<Seq<char>>>,
    rest: Seq<char>,
) -> Option<(nat, nat)> {
    match indicators {
        Some(inds) => match first_indicator(inds, rest, 0) {
            Some(x) => Some(
                (x, inds[x as int].len() + digits_chars(sep, rest.skip(inds[x as int].len() as int))),
            ),
            None => None,
        },
        None => None,
    }
}

/// The chars a float literal body takes at the start of `rest`, before the
/// rule that a body without integral digits and without fractional part
/// takes nothing: (integral, fractional, exponent).
pub open spec fn float_parts<S: NumericSeparatorAccumulator>(
    sep: S,
    point: Option<char>,
    indicators: Option<Seq<Seq<char>>>,
    rest: Seq<char>,
) -> (nat, Option<nat>, Option<(nat, nat)>) {
    let ci = digits_chars(sep, rest);
    let r1 = rest.skip(ci as int);
    let cf = fraction_chars(sep, point, r1);
    let r2 = r1.skip(
        match cf {
            Some(n) => n as int,
            None => 0,
        },
    );
    (ci, cf, exponent_part(sep, indicators, r2))
}

/// The number of chars a float literal body takes at the start of `rest`:
/// none when it has neither integral digits nor a fractional part.
pub open spec fn float_chars<S: NumericSeparatorAccumulator>(
    sep: S,
    point: Option<char>,
    indicators: Option<Seq<Seq<char>>>,
    rest: Seq<char>,
) -> nat {
    let (ci, cf, ce) = float_parts(sep, point, indicators, rest);
    if ci == 0 && cf is None {
        0
    } else {
        ci + match cf {
            Some(n) => n,
            None => 0,
        } + match ce {
            Some((_, n)) => n,
            None => 0,
        }
    }
}

/// The decimal point, if the fractional part is enabled.
pub open spec fn point_of<A>(f: Option<FloatFractionalOptions<A>>) -> Option<char> {
    match f {
        Some(o) => Some(o.point),
        None => None,
    }
}

/// The exponent indicators, if the exponent part is enabled.
pub open spec fn indicators_of<A>(e: Option<FloatExponentOptions<A>>) -> Option<Seq<Seq<char>>> {
    match e {
        Some(o) => Some(strings_view(o.indicators@)),
        None => None,
    }
}

/// A decimal body takes at most the chars of the rest, and the bytes of the chars it takes.
pub proof fn lemma_digits_chars<S: NumericSeparatorAccumulator>(sep: S, rest: Seq<char>)
    ensures
        digits_chars(sep, rest) <= rest.len(),
        int_digested(sep, CharClass::AsciiDigit, rest) == byte_len(rest.take(digits_chars(sep, rest) as int)),
{
    lemma_int_scan_len_bound(sep, CharClass::AsciiDigit, rest);
    assert(rest.take(0) == Seq::<char>::empty());
}

/// The first indicator that the rest starts with is one of them.
pub proof fn lemma_first_indicator(indicators: Seq<Seq<char>>, rest: Seq<char>, j: nat)
    ensures
        first_indicator(indicators, rest, j) matches Some(x) ==> j <= x < indicators.len()
            && seq_starts_with(rest, indicators[x as int]),
    decreases indicators.len() - j,
{
    if j < indicators.len() && !seq_starts_with(rest, indicators[j as int]) {
        lemma_first_indicator(indicators, rest, j + 1);
    }
}

/// The parts of a float literal body fit in the rest, one after the other.
pub proof fn lemma_float_parts<S: NumericSeparatorAccumulator>(
    sep: S,
    point: Option<char>,
    indicators: Option<Seq<Seq<char>>>,
    rest: Seq<char>,
)
    ensures
        ({
            let (ci, cf, ce) = float_parts(sep, point, indicators, rest);
            let nf: nat = match cf {
                Some(n) => n,
                None => 0,
            };
            let ne: nat = match ce {
                Some((_, n)) => n,
                None => 0,
            };
            ci + nf + ne <= rest.len()
        }),
{
    let ci = digits_chars(sep, rest);
    lemma_digits_chars(sep, rest);
    let r1 = rest.skip(ci as int);
    let cf = fraction_chars(sep, point, r1);
    if cf is Some {
        lemma_digits_chars(sep, r1.drop_first());
    }
    let nf: int = match cf {
        Some(n) => n as int,
        None => 0,
    };
    let r2 = r1.skip(nf);
    match indicators {
        Some(inds) => {
            lemma_first_indicator(inds, r2, 0);
            match first_indicator(inds, r2, 0) {
                Some(x) => {
                    lemma_digits_chars(sep, r2.skip(inds[x as int].len() as int));
                },
                None => {},
            }
        },
        None => {},
    }
}

/// Whether `r` is the float literal body at the start of `rest` with the
/// options: the bytes it digests, and the bytes and the accumulated
/// separator indexes and digits of each part.
pub open spec fn float_body_is<
    SepAcc: NumericSeparatorAccumulator,
    IntAcc: Accumulator<char>,
    FracAcc: Accumulator<char>,
    ExpAcc: Accumulator<char>,
>(
    options: FloatLiteralOptions<SepAcc, IntAcc, FracAcc, ExpAcc>,
    rest: Seq<char>,
    r: (usize, FloatLiteralData<SepAcc::Acc, IntAcc, FracAcc, ExpAcc>),
) -> bool {
            let sep = options.separator;
            let point = point_of(options.fractional);
            let inds = indicators_of(options.exponent);
            let (ci, cf, ce) = float_parts(sep, point, inds, rest);
            let r1 = rest.skip(ci as int);
            let nf: nat = match cf {
                Some(n) => n,
                None => 0,
            };
            let r2 = r1.skip(nf as int);
            let ni = int_scan_len(sep, CharClass::AsciiDigit, rest);
            &&& r.0 == byte_len(rest.take(float_chars(sep, point, inds, rest) as int))
            &&& r.1.integral.0 == byte_len(rest.take(ci as int))
            &&& r.1.integral.1.separators.acc_view() == acc_fold::<usize, SepAcc::Acc>(
                sep.spec_acc().acc_view(),
                int_separators(sep, rest, ni),
            )
            &&& r.1.integral.1.value.acc_view() == acc_fold::<char, IntAcc>(
                options.integral_to.acc_view(),
                int_values(sep, rest, ni),
            )
            &&& (r.1.fractional is Some <==> cf is Some)
            &&& (r.1.fractional matches Some((n, d)) ==> {
                let body = r1.drop_first();
                let nb = int_scan_len(sep, CharClass::AsciiDigit, body);
                &&& n == byte_len(r1.take(nf as int))
                &&& d.separators.acc_view() == acc_fold::<usize, SepAcc::Acc>(
                    sep.spec_acc().acc_view(),
                    int_separators(sep, body, nb),
                )
                &&& d.value.acc_view() == acc_fold::<char, FracAcc>(
                    options.fractional->0.value_to.acc_view(),
                    int_values(sep, body, nb),
                )
            })
            &&& (r.1.exponent is Some <==> ce is Some)
            &&& (r.1.exponent matches Some((n, d)) ==> {
                let (x, ne) = ce->0;
                let ind = inds->0[x as int];
                let body = r2.skip(ind.len() as int);
                let nb = int_scan_len(sep, CharClass::AsciiDigit, body);
                &&& n == byte_len(r2.take(ne as int))
                &&& d.indicator_len == byte_len(ind)
                &&& d.body.separators.acc_view() == acc_fold::<usize, SepAcc::Acc>(
                    sep.spec_acc().acc_view(),
                    int_separators(sep, body, nb),
                )
                &&& d.body.value.acc_view() == acc_fold::<char, ExpAcc>(
                    options.exponent->0.value_to.acc_view(),
                    int_values(sep, body, nb),
                )
            })
        }

/// The rest after the integral and fractional parts of a float literal body.
pub open spec fn exponent_rest<S: NumericSeparatorAccumulator>(
    sep: S,
    point: Option<char>,
    indicators: Option<Seq<Seq<char>>>,
    rest: Seq<char>,
) -> Seq<char> {
    let (ci, cf, ce) = float_parts(sep, point, indicators, rest);
    let nf: nat = match cf {
        Some(n) => n,
        None => 0,
    };
    rest.skip(ci as int).skip(nf as int)
}

/// Whether the exponent part is well defined at `r2`: when `r2` starts with
/// the first char of an indicator, it starts with one of the indicators.
pub open spec fn exponent_defined(indicators: Option<Seq<Seq<char>>>, r2: Seq<char>) -> bool {
    match indicators {
        Some(v) => (r2.len() > 0 && exists|i: int| 0 <= i < v.len() && v[i].len() > 0 && #[trigger] v[i][0] == r2[0])
            ==> first_indicator(v, r2, 0) is Some,
        None => true,
    }
}

/// Match a float literal body at the start of `rest`: an integral part of
/// decimal digits and separators, then, if enabled, a fractional part (the
/// decimal point, then digits and separators), then, if enabled, an
/// exponent part (the first indicator that the rest starts with, then
/// digits and separators). A body with neither integral digits nor a
/// fractional part digests nothing. Where the rest after the integral and
/// fractional parts starts with the first char of an indicator, it must
/// start with an indicator.
pub fn float_literal_body_with_options<
    SepAcc: NumericSeparatorAccumulator,
    IntAcc: Accumulator<char>,
    FracAcc: Accumulator<char>,
    ExpAcc: Accumulator<char>,
>(rest: &str, options: FloatLiteralOptions<SepAcc, IntAcc, FracAcc, ExpAcc>) -> (r: (
    usize,
    FloatLiteralData<SepAcc::Acc, IntAcc, FracAcc, ExpAcc>,
))
    requires
        exponent_defined(
            indicators_of(options.exponent),
            exponent_rest(options.separator, point_of(options.fractional), indicators_of(options.exponent), rest@),
        ),
    ensures
        float_body_is(options, rest@, r),
{
    float_body(rest, options)
}

#[verifier::rlimit(40)]
/// The float literal body at the start of `rest`; where the rest after the
/// integral and fractional parts starts with the first char of an indicator
/// but with no indicator, there is no exponent part.
fn float_body<
    SepAcc: NumericSeparatorAccumulator,
    IntAcc: Accumulator<char>,
    FracAcc: Accumulator<char>,
    ExpAcc: Accumulator<char>,
>(rest: &str, options: FloatLiteralOptions<SepAcc, IntAcc, FracAcc, ExpAcc>) -> (r: (
    usize,
    FloatLiteralData<SepAcc::Acc, IntAcc, FracAcc, ExpAcc>,
))
    ensures
        float_body_is(options, rest@, r),
{
    let ghost sep = options.separator;
    let ghost point = point_of(options.fractional);
    let ghost inds = indicators_of(options.exponent);
    let ghost parts = float_parts(sep, point, inds, rest@);
    proof {
        lemma_float_parts(sep, point, inds, rest@);
        lemma_digits_chars(sep, rest@);
    }
    let total = str_len(rest);
    let int_sep = options.separator.duplicate();
    let (integer_digested, integer_data) = integer_literal_body_with_options(
        rest,
        &CharClass::AsciiDigit,
        IntegerLiteralBodyOptions { separator: int_sep, value_to: options.integral_to },
    );
    proof {
        lemma_int_scan_same(int_sep, sep, CharClass::AsciiDigit, rest@);
        lemma_int_collect_same(int_sep, sep, rest@, int_scan_len(sep, CharClass::AsciiDigit, rest@));
        lemma_byte_len_split(rest@, parts.0 as int);
    }
    let ghost ci = parts.0 as int;
    let r1 = str_skip(rest, integer_digested, Ghost(ci));
    let fractional = float_fraction_part(r1, &options.separator, options.fractional);
    let ghost nf: int = match parts.1 {
        Some(n) => n as int,
        None => 0,
    };
    let fd: usize = match &fractional {
        Some((n, _)) => *n,
        None => 0,
    };
    proof {
        assert(rest@.take(ci + nf) == rest@.take(ci) + rest@.skip(ci).take(nf));
        lemma_byte_len_add(rest@.take(ci), rest@.skip(ci).take(nf));
        lemma_byte_len_split(rest@, ci + nf);
        if parts.1 is None {
            assert(rest@.skip(ci).take(0) == Seq::<char>::empty());
        }
        assert(rest@.skip(ci + nf) == rest@.skip(ci).skip(nf));
    }
    let r2 = str_skip(rest, integer_digested + fd, Ghost(ci + nf));
    let exponent = float_exponent_part(r2, options.separator, options.exponent);
    let ghost ne: int = match parts.2 {
        Some((_, n)) => n as int,
        None => 0,
    };
    let ed: usize = match &exponent {
        Some((n, _)) => *n,
        None => 0,
    };
    proof {
        let r2s = rest@.skip(ci + nf);
        assert(rest@.take(ci + nf + ne) == rest@.take(ci + nf) + r2s.take(ne));
        lemma_byte_len_add(rest@.take(ci + nf), r2s.take(ne));
        lemma_byte_len_split(rest@, ci + nf + ne);
        if parts.2 is None {
            assert(r2s.take(0) == Seq::<char>::empty());
        }
        if parts.0 == 0 && parts.1 is None {
            assert(rest@.take(0) == Seq::<char>::empty());
        }
    }
    let digested = if integer_digested == 0 && fractional.is_none() {
        0
    } else {
        integer_digested + fd + ed
    };
    (
        digested,
        FloatLiteralData {
            integral: (integer_digested, integer_data),
            fractional,
            exponent,
        },
    )
}

/// The fractional part at the start of `r1`, if the fractional part is
/// enabled and `r1` starts with the decimal point: its bytes and data.
fn float_fraction_part<SepAcc: NumericSeparatorAccumulator, FracAcc: Accumulator<char>>(
    r1: &str,
    sep: &SepAcc,
    f: Option<FloatFractionalOptions<FracAcc>>,
) -> (r: Option<(usize, IntegerLiteralData<SepAcc::Acc, FracAcc>)>)
    ensures
        ({
            let cf = fraction_chars(*sep, point_of(f), r1@);
            &&& (r is Some <==> cf is Some)
            &&& (r matches Some((n, d)) ==> {
                let body = r1@.drop_first();
                let nb = int_scan_len(*sep, CharClass::AsciiDigit, body);
                &&& n == byte_len(r1@.take(cf->0 as int))
                &&& d.separators.acc_view() == acc_fold::<usize, SepAcc::Acc>(
                    sep.spec_acc().acc_view(),
                    int_separators(*sep, body, nb),
                )
                &&& d.value.acc_view() == acc_fold::<char, FracAcc>(
                    f->0.value_to.acc_view(),
                    int_values(*sep, body, nb),
                )
            })
        }),
{
    match f {
        Some(f) => {
            if str_starts_with_char(r1, f.point) {
                let total = str_len(r1);
                let w = len_utf8(f.point);
                proof {
                    assert(r1@.take(1) == seq![f.point]);
                    crate::text::lemma_byte_len_single(f.point);
                    assert(r1@.skip(1) == r1@.drop_first());
                }
                let after = str_skip(r1, w, Ghost(1));
                let frac_sep = sep.duplicate();
                let (d, data) = integer_literal_body_with_options(
                    after,
                    &CharClass::AsciiDigit,
                    IntegerLiteralBodyOptions { separator: frac_sep, value_to: f.value_to },
                );
                proof {
                    let body = r1@.drop_first();
                    lemma_int_scan_same(frac_sep, *sep, CharClass::AsciiDigit, body);
                    lemma_int_collect_same(frac_sep, *sep, body, int_scan_len(*sep, CharClass::AsciiDigit, body));
                    lemma_digits_chars(*sep, body);
                    let nb = digits_chars(*sep, body) as int;
                    assert(r1@.take(1 + nb) == seq![f.point] + body.take(nb));
                    lemma_byte_len_add(seq![f.point], body.take(nb));
                    lemma_byte_len_split(r1@, 1 + nb);
                    lemma_byte_len_split(body, nb);
                    assert(r1@.skip(1) == body);
                    lemma_byte_len_split(r1@, 1);
                }
                Some((w + d, data))
            } else {
                None
            }
        },
        None => None,
    }
}

/// The exponent part at the start of `r2`, if the exponent part is enabled
/// and `r2` starts with an indicator: its bytes and data.
fn float_exponent_part<SepAcc: NumericSeparatorAccumulator, ExpAcc: Accumulator<char>>(
    r2: &str,
    sep: SepAcc,
    e: Option<FloatExponentOptions<ExpAcc>>,
) -> (r: Option<(usize, FloatExponentData<SepAcc::Acc, ExpAcc>)>)
    ensures
        ({
            let inds = indicators_of(e);
            let ce = exponent_part(sep, inds, r2@);
            &&& (r is Some <==> ce is Some)
            &&& (r matches Some((n, d)) ==> {
                let (x, ne) = ce->0;
                let ind = inds->0[x as int];
                let body = r2@.skip(ind.len() as int);
                let nb = int_scan_len(sep, CharClass::AsciiDigit, body);
                &&& n == byte_len(r2@.take(ne as int))
                &&& d.indicator_len == byte_len(ind)
                &&& d.body.separators.acc_view() == acc_fold::<usize, SepAcc::Acc>(
                    sep.spec_acc().acc_view(),
                    int_separators(sep, body, nb),
                )
                &&& d.body.value.acc_view() == acc_fold::<char, ExpAcc>(
                    e->0.value_to.acc_view(),
                    int_values(sep, body, nb),
                )
            })
        }),
{
    match e {
        Some(e) => {
            let ghost view = strings_view(e.indicators@);
            let mut found: Option<usize> = None;
            let mut j: usize = 0;
            while j < e.indicators.len()
                invariant
                    j <= e.indicators@.len(),
                    view == strings_view(e.indicators@),
                    found is None ==> first_indicator(view, r2@, 0) == first_indicator(view, r2@, j as nat),
                    found matches Some(x) ==> first_indicator(view, r2@, 0) == Some(x as nat) && x
                        < e.indicators@.len(),
                decreases e.indicators@.len() - j,
            {
                if found.is_none() && str_starts_with(r2, e.indicators[j].as_str()) {
                    found = Some(j);
                }
                j = j + 1;
            }
            match found {
                Some(x) => {
                    let ind = e.indicators[x].as_str();
                    let ind_len = str_len(ind);
                    let total = str_len(r2);
                    proof {
                        lemma_first_indicator(view, r2@, 0);
                        assert(view[x as int] == ind@);
                        assert(r2@.take(ind@.len() as int) == ind@);
                    }
                    let after = str_skip(r2, ind_len, Ghost(ind@.len() as int));
                    let ghost sep0 = sep;
                    let (d, data) = integer_literal_body_with_options(
                        after,
                        &CharClass::AsciiDigit,
                        IntegerLiteralBodyOptions { separator: sep, value_to: e.value_to },
                    );
                    proof {
                        let ic = ind@.len() as int;
                        let body = r2@.skip(ic);
                        lemma_digits_chars(sep0, body);
                        let nb = digits_chars(sep0, body) as int;
                        assert(r2@.take(ic + nb) == ind@ + body.take(nb));
                        lemma_byte_len_add(ind@, body.take(nb));
                        lemma_byte_len_split(r2@, ic);
                        lemma_byte_len_split(body, nb);
                    }
                    Some((ind_len + d, FloatExponentData { indicator_len: ind_len, body: data }))
                },
                None => None,
            }
        },
        None => None,
    }
}

/// Like [`float_literal_body_with_options`], with the options built from
/// the default ones.
pub fn float_literal_body_with<
    SepAcc: NumericSeparatorAccumulator,
    IntAcc: Accumulator<char>,
    FracAcc: Accumulator<char>,
    ExpAcc: Accumulator<char>,
    F: FnOnce(FloatLiteralOptions<(), (), (), ()>) -> FloatLiteralOptions<SepAcc, IntAcc, FracAcc, ExpAcc>,
>(rest: &str, options_builder: F) -> (r: (usize, FloatLiteralData<SepAcc::Acc, IntAcc, FracAcc, ExpAcc>))
    requires
        options_builder.requires(
            (FloatLiteralOptions { separator: (), integral_to: (), fractional: None, exponent: None },),
        ),
        forall|o: FloatLiteralOptions<SepAcc, IntAcc, FracAcc, ExpAcc>|
            #[trigger] options_builder.ensures(
                (FloatLiteralOptions { separator: (), integral_to: (), fractional: None, exponent: None },),
                o,
            ) ==> exponent_defined(
                indicators_of(o.exponent),
                exponent_rest(o.separator, point_of(o.fractional), indicators_of(o.exponent), rest@),
            ),
    ensures
        exists|o: FloatLiteralOptions<SepAcc, IntAcc, FracAcc, ExpAcc>|
            #[trigger] options_builder.ensures(
                (FloatLiteralOptions { separator: (), integral_to: (), fractional: None, exponent: None },),
                o,
            ) && float_body_is(o, rest@, r),
{
    let o = options_builder(FloatLiteralOptions::new());
    float_literal_body_with_options(rest, o)
}

/// Two separator settings that accept the same chars give the same float parts.
pub proof fn lemma_float_chars_same<S1: NumericSeparatorAccumulator, S2: NumericSeparatorAccumulator>(
    s1: S1,
    s2: S2,
    point: Option<char>,
    indicators: Option<Seq<Seq<char>>>,
    rest: Seq<char>,
)
    requires
        forall|c: char| s1.spec_validate(c) == s2.spec_validate(c),
    ensures
        float_parts(s1, point, indicators, rest) == float_parts(s2, point, indicators, rest),
        float_chars(s1, point, indicators, rest) == float_chars(s2, point, indicators, rest),
{
    lemma_digits_same(s1, s2, rest);
    let ci = digits_chars(s1, rest);
    let r1 = rest.skip(ci as int);
    if r1.len() > 0 {
        lemma_digits_same(s1, s2, r1.drop_first());
    }
    let nf: int = match fraction_chars(s1, point, r1) {
        Some(n) => n as int,
        None => 0,
    };
    let r2 = r1.skip(nf);
    match indicators {
        Some(inds) => match first_indicator(inds, r2, 0) {
            Some(x) => lemma_digits_same(s1, s2, r2.skip(inds[x as int].len() as int)),
            None => {},
        },
        None => {},
    }
}

/// Two separator settings that accept the same chars take the same digits.
pub proof fn lemma_digits_same<S1: NumericSeparatorAccumulator, S2: NumericSeparatorAccumulator>(
    s1: S1,
    s2: S2,
    rest: Seq<char>,
)
    requires
        forall|c: char| s1.spec_validate(c) == s2.spec_validate(c),
    ensures
        digits_chars(s1, rest) == digits_chars(s2, rest),
{
    lemma_int_scan_same(s1, s2, CharClass::AsciiDigit, rest);
    lemma_int_collect_same(s1, s2, rest, int_scan_len(s1, CharClass::AsciiDigit, rest));
}

/// The chars a float literal body with separator `separator` takes at the start of `rest`.
pub open spec fn float_chars_with(
    separator: Option<char>,
    point: Option<char>,
    indicators: Option<Seq<Seq<char>>>,
    rest: Seq<char>,
) -> nat {
    match separator {
        Some(c) => float_chars(NumericSeparatorOptions { char: c, indexes_to: () }, point, indicators, rest),
        None => float_chars((), point, indicators, rest),
    }
}

/// The parts of a float literal body with separator `separator` at the start of `rest`.
pub open spec fn float_parts_with(
    separator: Option<char>,
    point: Option<char>,
    indicators: Option<Seq<Seq<char>>>,
    rest: Seq<char>,
) -> (nat, Option<nat>, Option<(nat, nat)>) {
    match separator {
        Some(c) => float_parts(NumericSeparatorOptions { char: c, indexes_to: () }, point, indicators, rest),
        None => float_parts((), point, indicators, rest),
    }
}

/// Whether `d` holds the data of the float literal body at the start of `b`
/// with separator `separator`: the bytes of each part, and the separator
/// indexes and the digits of the body of each part.
pub open spec fn float_data_is(
    separator: Option<char>,
    point: Option<char>,
    indicators: Option<Seq<Seq<char>>>,
    b: Seq<char>,
    d: FloatLiteralData<Vec<usize>, String, String, String>,
) -> bool {
    let (ci, cf, ce) = float_parts_with(separator, point, indicators, b);
    let r1 = b.skip(ci as int);
    let nf: nat = match cf {
        Some(n) => n,
        None => 0,
    };
    let r2 = r1.skip(nf as int);
    let ni = body_scan_len(separator, CharClass::AsciiDigit, b);
    &&& d.integral.0 == byte_len(b.take(ci as int))
    &&& d.integral.1.separators@ == body_separators(separator, b, ni)
    &&& d.integral.1.value@ == body_values(separator, b, ni)
    &&& (d.fractional is Some <==> cf is Some)
    &&& (d.fractional matches Some((n, fd)) ==> {
        let body = r1.drop_first();
        let nb = body_scan_len(separator, CharClass::AsciiDigit, body);
        &&& n == byte_len(r1.take(nf as int))
        &&& fd.separators@ == body_separators(separator, body, nb)
        &&& fd.value@ == body_values(separator, body, nb)
    })
    &&& (d.exponent is Some <==> ce is Some)
    &&& (d.exponent matches Some((n, ed)) ==> {
        let (x, ne) = ce->0;
        let ind = indicators->0[x as int];
        let body = r2.skip(ind.len() as int);
        let nb = body_scan_len(separator, CharClass::AsciiDigit, body);
        &&& n == byte_len(r2.take(ne as int))
        &&& ed.indicator_len == byte_len(ind)
        &&& ed.body.separators@ == body_separators(separator, body, nb)
        &&& ed.body.value@ == body_values(separator, body, nb)
    })
}

/// Whether two float literal data hold the same parts: the same bytes, and
/// the same separator indexes and digits in each part.
pub open spec fn float_data_same(
    x: FloatLiteralData<Vec<usize>, String, String, String>,
    y: FloatLiteralData<Vec<usize>, String, String, String>,
) -> bool {
    &&& x.integral.0 == y.integral.0
    &&& x.integral.1.separators@ == y.integral.1.separators@
    &&& x.integral.1.value@ == y.integral.1.value@
    &&& (x.fractional is Some <==> y.fractional is Some)
    &&& (x.fractional matches Some((n, d)) ==> (y.fractional matches Some((m, e)) && n == m
        && d.separators@ == e.separators@ && d.value@ == e.value@))
    &&& (x.exponent is Some <==> y.exponent is Some)
    &&& (x.exponent matches Some((n, d)) ==> (y.exponent matches Some((m, e)) && n == m
        && d.indicator_len == e.indicator_len && d.body.separators@ == e.body.separators@
        && d.body.value@ == e.body.value@))
}

/// The data of a float literal body is determined by the body.
pub proof fn lemma_float_data_unique(
    separator: Option<char>,
    point: Option<char>,
    indicators: Option<Seq<Seq<char>>>,
    b: Seq<char>,
    x: FloatLiteralData<Vec<usize>, String, String, String>,
    y: FloatLiteralData<Vec<usize>, String, String, String>,
)
    requires
        float_data_is(separator, point, indicators, b, x),
        float_data_is(separator, point, indicators, b, y),
    ensures
        float_data_same(x, y),
{
}

/// A collector of separator `separator` scans and collects what a body with
/// that separator does, and accumulating from empty gives what is collected.
proof fn lemma_collector(separator: Option<char>, g: SeparatorCollector, rest: Seq<char>)
    requires
        g.separator == separator,
    ensures
        int_scan_len(g, CharClass::AsciiDigit, rest) == body_scan_len(separator, CharClass::AsciiDigit, rest),
        ({
            let n = int_scan_len(g, CharClass::AsciiDigit, rest);
            &&& acc_fold::<usize, Vec<usize>>(Seq::<usize>::empty(), int_separators(g, rest, n))
                == body_separators(separator, rest, n)
            &&& acc_fold::<char, String>(Seq::<char>::empty(), int_values(g, rest, n)) == body_values(
                separator,
                rest,
                n,
            )
        }),
{
    let n = int_scan_len(g, CharClass::AsciiDigit, rest);
    lemma_acc_fold_vec(Seq::<usize>::empty(), int_separators(g, rest, n));
    lemma_acc_fold_string(Seq::<char>::empty(), int_values(g, rest, n));
    assert(Seq::<usize>::empty() + int_separators(g, rest, n) == int_separators(g, rest, n));
    assert(Seq::<char>::empty() + int_values(g, rest, n) == int_values(g, rest, n));
    match separator {
        Some(c) => {
            let o = NumericSeparatorOptions { char: c, indexes_to: () };
            lemma_int_scan_same(g, o, CharClass::AsciiDigit, rest);
            lemma_int_collect_same(g, o, rest, n);
        },
        None => {
            lemma_int_scan_same(g, (), CharClass::AsciiDigit, rest);
            lemma_int_collect_same(g, (), rest, n);
        },
    }
}

/// A float literal matcher: an optional leading `-` (if `minus`), then a
/// float literal body with the given separator, decimal point (fractional
/// part enabled) and exponent indicators (exponent part enabled). Where the
/// rest after the integral and fractional parts starts with the first char
/// of an indicator but with no indicator, the body has no exponent part.
#[derive(Clone, Debug)]
pub struct FloatMatcher {
    /// The separator char, if any.
    pub separator: Option<char>,
    /// The decimal point, if the fractional part is enabled.
    pub point: Option<char>,
    /// The exponent indicators, if the exponent part is enabled.
    pub indicators: Option<Vec<String>>,
    /// Whether a leading `-` is accepted.
    pub minus: bool,
}

/// A copy of the strings of `v`.
pub fn copy_strings(v: &Vec<String>) -> (r: Vec<String>)
    ensures
        strings_view(r@) == strings_view(v@),
{
    let mut r: Vec<String> = Vec::new();
    let mut i: usize = 0;
    while i < v.len()
        invariant
            i <= v@.len(),
            r@.len() == i,
            strings_view(r@) == strings_view(v@.take(i as int)),
        decreases v@.len() - i,
    {
        let ghost old_r = r@;
        let s = v[i].clone();
        assert(s@ == v@[i as int]@);
        r.push(s);
        proof {
            assert forall|j: int| 0 <= j < r@.len() implies #[trigger] strings_view(r@)[j] == strings_view(v@.take(i + 1))[j] by {
                if j < i {
                    assert(r@[j] == old_r[j]);
                    assert(strings_view(old_r)[j] == strings_view(v@.take(i as int))[j]);
                }
            }
            assert(v@.take(i + 1) == v@.take(i as int).push(v@[i as int]));
            assert(strings_view(r@) =~= strings_view(v@.take(i + 1)));
        }
        i = i + 1;
    }
    assert(v@.take(v@.len() as int) == v@);
    r
}

impl FloatMatcher {
    /// The exponent indicators, as char sequences.
    pub open spec fn spec_indicators(&self) -> Option<Seq<Seq<char>>> {
        match self.indicators {
            Some(v) => Some(strings_view(v@)),
            None => None,
        }
    }

    /// The chars the leading `-` takes at the start of `rest`.
    pub open spec fn minus_chars(&self, rest: Seq<char>) -> nat {
        if self.minus && rest.len() > 0 && rest[0] == '-' {
            1
        } else {
            0
        }
    }

    /// The number of bytes the matcher digests at the start of `rest`, or `None`.
    pub open spec fn spec_digest(&self, rest: Seq<char>) -> Option<nat> {
        let m = self.minus_chars(rest);
        let c = float_chars_with(self.separator, self.point, self.spec_indicators(), rest.skip(m as int));
        if m + c == 0 {
            None
        } else {
            Some(byte_len(rest.take((m + c) as int)))
        }
    }

    /// Run the matcher at the start of `rest`: the digested bytes and the data of the body.
    pub fn exec(&self, rest: &str) -> (r: Option<(usize, FloatLiteralData<Vec<usize>, String, String, String>)>)
        ensures
            r is None <==> self.spec_digest(rest@) is None,
            r matches Some((n, d)) ==> self.spec_digest(rest@) == Some(n as nat) && float_data_is(
                self.separator,
                self.point,
                self.spec_indicators(),
                rest@.skip(self.minus_chars(rest@) as int),
                d,
            ),
    {
        let m: usize = if self.minus && str_starts_with_char(rest, '-') {
            1
        } else {
            0
        };
        proof {
            if m == 1 {
                assert(rest@.take(1) == seq!['-']);
                crate::text::lemma_byte_len_single('-');
            } else {
                assert(rest@.take(0) == Seq::<char>::empty());
            }
        }
        let body = str_skip(rest, m, Ghost(m as int));
        let (d, data) = self.body_exec(body);
        let total = str_len(rest);
        proof {
            let c = float_chars_with(self.separator, self.point, self.spec_indicators(), body@);
            lemma_float_matcher_len(*self, rest@);
            let m2 = m as int;
            assert(rest@.take(m2 + c) == rest@.take(m2) + body@.take(c as int));
            lemma_byte_len_add(rest@.take(m2), body@.take(c as int));
            lemma_byte_len_split(rest@, m2 + c);
            lemma_byte_len_pos(rest@.take(m2 + c));
            lemma_byte_len_pos(body@.take(c as int));
        }
        if m + d == 0 {
            None
        } else {
            Some((m + d, data))
        }
    }

    /// Run the body part of the matcher at the start of `body`.
    #[verifier::rlimit(40)]
    fn body_exec(&self, body: &str) -> (r: (usize, FloatLiteralData<Vec<usize>, String, String, String>))
        ensures
            r.0 == byte_len(body@.take(float_chars_with(self.separator, self.point, self.spec_indicators(), body@) as int)),
            float_data_is(self.separator, self.point, self.spec_indicators(), body@, r.1),
    {
        let fractional = match self.point {
            Some(p) => Some(FloatFractionalOptions { point: p, value_to: String::new() }),
            None => None,
        };
        let exponent = match &self.indicators {
            Some(v) => Some(FloatExponentOptions { indicators: copy_strings(v), value_to: String::new() }),
            None => None,
        };
        let sep = SeparatorCollector { separator: self.separator, indexes: Vec::new() };
        let ghost g = sep;
        let options = FloatLiteralOptions { separator: sep, integral_to: String::new(), fractional, exponent };
        assert(point_of(options.fractional) == self.point);
        assert(indicators_of(options.exponent) == self.spec_indicators());
        let r = float_body(body, options);
        proof {
            let b = body@;
            let point = self.point;
            let inds = self.spec_indicators();
            match self.separator {
                Some(ch) => lemma_float_chars_same(g, NumericSeparatorOptions { char: ch, indexes_to: () }, point, inds, b),
                None => lemma_float_chars_same(g, (), point, inds, b),
            }
            let (ci, cf, ce) = float_parts(g, point, inds, b);
            lemma_collector(self.separator, g, b);
            let r1 = b.skip(ci as int);
            let nf: nat = match cf {
                Some(n) => n,
                None => 0,
            };
            let r2 = r1.skip(nf as int);
            if cf is Some {
                lemma_collector(self.separator, g, r1.drop_first());
            }
            match ce {
                Some((x, ne)) => {
                    lemma_collector(self.separator, g, r2.skip(inds->0[x as int].len() as int));
                },
                None => {},
            }
        }
        r
    }
}

/// The action of a float literal matcher, tried only on rests that start
/// with a char of `head`.
pub fn float_action(m: FloatMatcher, head: Vec<char>) -> (r: Action)
    ensures
        r.matcher == Matcher::Float(m),
        r.head matches Some(HeadMatcher::OneOf(v)) && forall|c: char| v@.contains(c) <==> head@.contains(c),
        r.kind == SubKindId(0),
        r.literal is None,
        !r.muted,
{
    Action::new(Matcher::Float(m)).unchecked_head_in(head)
}

/// The decimal digits.
pub fn decimal_digits() -> (r: Vec<char>)
    ensures
        forall|c: char| r@.contains(c) <==> ('0' <= c && c <= '9'),
{
    let r = vec!['0', '1', '2', '3', '4', '5', '6', '7', '8', '9'];
    proof {
        assert(r@ =~= seq!['0', '1', '2', '3', '4', '5', '6', '7', '8', '9']);
        assert forall|c: char| r@.contains(c) <==> ('0' <= c && c <= '9') by {
            if '0' <= c && c <= '9' {
                if c == '0' { assert(r@[0] == c); }
                else if c == '1' { assert(r@[1] == c); }
                else if c == '2' { assert(r@[2] == c); }
                else if c == '3' { assert(r@[3] == c); }
                else if c == '4' { assert(r@[4] == c); }
                else if c == '5' { assert(r@[5] == c); }
                else if c == '6' { assert(r@[6] == c); }
                else if c == '7' { assert(r@[7] == c); }
                else if c == '8' { assert(r@[8] == c); }
                else { assert(r@[9] == c); }
            }
        }
    }
    r
}

/// An action that accepts a float literal body with the given options,
/// unless it digests nothing; tried only on rests that start with a decimal
/// digit, or the decimal point if the fractional part is enabled. Its data
/// holds the separator indexes and the digits of each part, whatever
/// accumulators the options name: the data of every action has the one type
/// [`super::ActionData`] (the body function
/// [`float_literal_body_with_options`] fills the options' accumulators).
pub fn float_literal_with_options<SepAcc: NumericSeparatorAccumulator, IntAcc, FracAcc, ExpAcc>(
    options: FloatLiteralOptions<SepAcc, IntAcc, FracAcc, ExpAcc>,
) -> (r: Action)
    ensures
        r.matcher matches Matcher::Float(m) && {
            &&& forall|c: char| options.separator.spec_validate(c) <==> m.separator == Some(c)
            &&& m.point == point_of(options.fractional)
            &&& m.spec_indicators() == indicators_of(options.exponent)
            &&& !m.minus
        },
        r.head matches Some(HeadMatcher::OneOf(v)) && forall|c: char|
            v@.contains(c) <==> (('0' <= c && c <= '9') || point_of(options.fractional) == Some(c)),
        r.kind == SubKindId(0),
        r.literal is None,
        !r.muted,
{
    let separator = options.separator.separator_char();
    let mut head = decimal_digits();
    let ghost digits = head@;
    let point = match &options.fractional {
        Some(f) => {
            head.push(f.point);
            Some(f.point)
        },
        None => None,
    };
    proof {
        assert forall|c: char|
            head@.contains(c) <==> (('0' <= c && c <= '9') || point == Some(c)) by {
            if let Some(p) = point {
                assert(head@ == digits.push(p));
                if c == p {
                    assert(head@[head@.len() - 1] == c);
                }
                if digits.contains(c) {
                    let j = choose|j: int| 0 <= j < digits.len() && digits[j] == c;
                    assert(head@[j] == c);
                }
                if head@.contains(c) {
                    let j = choose|j: int| 0 <= j < head@.len() && head@[j] == c;
                    if j < digits.len() {
                        assert(digits[j] == c);
                    }
                }
            }
        }
    }
    let indicators = match &options.exponent {
        Some(e) => Some(copy_strings(&e.indicators)),
        None => None,
    };
    float_action(FloatMatcher { separator, point, indicators, minus: false }, head)
}

/// Like [`float_literal_with_options`], with the options built from the default ones.
pub fn float_literal_with<
    SepAcc: NumericSeparatorAccumulator,
    IntAcc,
    FracAcc,
    ExpAcc,
    F: FnOnce(FloatLiteralOptions<(), (), (), ()>) -> FloatLiteralOptions<SepAcc, IntAcc, FracAcc, ExpAcc>,
>(options_builder: F) -> (r: Action)
    requires
        options_builder.requires(
            (FloatLiteralOptions { separator: (), integral_to: (), fractional: None, exponent: None },),
        ),
    ensures
        exists|o: FloatLiteralOptions<SepAcc, IntAcc, FracAcc, ExpAcc>|
            #[trigger] options_builder.ensures(
                (FloatLiteralOptions { separator: (), integral_to: (), fractional: None, exponent: None },),
                o,
            ) && (r.matcher matches Matcher::Float(m) && {
                &&& forall|c: char| o.separator.spec_validate(c) <==> m.separator == Some(c)
                &&& m.point == point_of(o.fractional)
                &&& m.spec_indicators() == indicators_of(o.exponent)
                &&& !m.minus
            }) && (r.head matches Some(HeadMatcher::OneOf(v)) && forall|c: char|
                v@.contains(c) <==> (('0' <= c && c <= '9') || point_of(o.fractional) == Some(c))),
        r.kind == SubKindId(0),
        r.literal is None,
        !r.muted,
{
    let o = options_builder(FloatLiteralOptions::new());
    float_literal_with_options(o)
}

/// What a float matcher digests lies inside the rest.
pub proof fn lemma_float_matcher_len(m: FloatMatcher, rest: Seq<char>)
    ensures
        m.minus_chars(rest) + float_chars_with(
            m.separator,
            m.point,
            m.spec_indicators(),
            rest.skip(m.minus_chars(rest) as int),
        ) <= rest.len(),
{
    let b = rest.skip(m.minus_chars(rest) as int);
    match m.separator {
        Some(c) => lemma_float_parts(NumericSeparatorOptions { char: c, indexes_to: () }, m.point, m.spec_indicators(), b),
        None => lemma_float_parts((), m.point, m.spec_indicators(), b),
    }
}

impl<Sep: Clone, IntValue: Clone, FracValue: Clone, ExpValue: Clone> Clone for FloatLiteralData<Sep, IntValue, FracValue, ExpValue> {
    fn clone(&self) -> (r: Self) {
        let fractional = match &self.fractional {
            Some((n, d)) => Some((*n, d.clone())),
            None => None,
        };
        let exponent = match &self.exponent {
            Some((n, d)) => Some((*n, d.clone())),
            None => None,
        };
        FloatLiteralData { integral: (self.integral.0, self.integral.1.clone()), fractional, exponent }
    }
}

} // verus!
