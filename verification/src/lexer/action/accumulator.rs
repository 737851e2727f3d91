//! Accumulators collect the values seen while matching a literal.
use crate::text::string_push;
use vstd::prelude::*;

verus! {

/// Accumulate values one by one.
pub trait Accumulator<T>: Sized {
    /// The abstract content of the accumulator.
    type AccView;

    spec fn acc_view(&self) -> Self::AccView;

    /// How one value changes the abstract content.
    spec fn acc_step(v: Self::AccView, t: T) -> Self::AccView;

    /// Update the accumulator with a value.
    fn update(&mut self, t: T)
        ensures
            final(self).acc_view() == Self::acc_step(old(self).acc_view(), t),
    ;

    /// A copy of the accumulator with the same content.
    fn duplicate(&self) -> (r: Self)
        ensures
            r.acc_view() == self.acc_view(),
    ;
}

/// The content after accumulating `ts` in order, starting from `v`.
pub open spec fn acc_fold<T, A: Accumulator<T>>(v: A::AccView, ts: Seq<T>) -> A::AccView
    decreases ts.len(),
{
    if ts.len() == 0 {
        v
    } else {
        A::acc_step(acc_fold::<T, A>(v, ts.drop_last()), ts.last())
    }
}

pub proof fn lemma_acc_fold_push<T, A: Accumulator<T>>(v: A::AccView, ts: Seq<T>, t: T)
    ensures
        acc_fold::<T, A>(v, ts.push(t)) == A::acc_step(acc_fold::<T, A>(v, ts), t),
{
    assert(ts.push(t).drop_last() == ts);
}

/// Folding indexes into a vector yields the concatenation.
pub proof fn lemma_acc_fold_vec(v: Seq<usize>, ts: Seq<usize>)
    ensures
        acc_fold::<usize, Vec<usize>>(v, ts) == v + ts,
    decreases ts.len(),
{
    if ts.len() > 0 {
        lemma_acc_fold_vec(v, ts.drop_last());
        assert(v + ts == (v + ts.drop_last()).push(ts.last()));
    } else {
        assert(v + ts == v);
    }
}

/// Folding chars into a string yields the concatenation.
pub proof fn lemma_acc_fold_string(v: Seq<char>, ts: Seq<char>)
    ensures
        acc_fold::<char, String>(v, ts) == v + ts,
    decreases ts.len(),
{
    if ts.len() > 0 {
        lemma_acc_fold_string(v, ts.drop_last());
        assert(v + ts == (v + ts.drop_last()).push(ts.last()));
    } else {
        assert(v + ts == v);
    }
}

/// The unit accumulator does nothing.
impl<T> Accumulator<T> for () {
    type AccView = ();

    open spec fn acc_view(&self) -> () {
        ()
    }

    open spec fn acc_step(v: (), t: T) -> () {
        ()
    }

    fn update(&mut self, t: T) {
    }

    fn duplicate(&self) -> (r: Self) {
        ()
    }
}

/// An [`Accumulator`] that does nothing.
/// Useful if you don't need to accumulate anything.
#[derive(Clone, Copy, Debug, Default)]
pub struct MockAccumulator;

impl<T> Accumulator<T> for MockAccumulator {
    type AccView = ();

    open spec fn acc_view(&self) -> () {
        ()
    }

    open spec fn acc_step(v: (), t: T) -> () {
        ()
    }

    fn update(&mut self, t: T) {
    }

    fn duplicate(&self) -> (r: Self) {
        MockAccumulator
    }
}

/// Accumulate values into a [`Vec`] of `usize` and emit the [`Vec`].
#[derive(Clone, Debug, Default)]
pub struct VecAccumulator(Vec<usize>);

impl Accumulator<usize> for VecAccumulator {
    type AccView = Seq<usize>;

    closed spec fn acc_view(&self) -> Seq<usize> {
        self.0@
    }

    open spec fn acc_step(v: Seq<usize>, t: usize) -> Seq<usize> {
        v.push(t)
    }

    fn update(&mut self, t: usize) {
        self.0.push(t);
    }

    fn duplicate(&self) -> (r: Self) {
        let v = self.0.clone();
        assert(v@ =~= self.0@);
        VecAccumulator(v)
    }
}

impl VecAccumulator {
    /// Consume the accumulator and emit the result.
    pub fn emit(self) -> (r: Vec<usize>)
        ensures
            r@ == self.acc_view(),
    {
        self.0
    }
}

/// Accumulate chars into a [`String`] and emit the [`String`].
#[derive(Clone, Debug, Default)]
pub struct StringAccumulator(String);

impl Accumulator<char> for StringAccumulator {
    type AccView = Seq<char>;

    closed spec fn acc_view(&self) -> Seq<char> {
        self.0@
    }

    open spec fn acc_step(v: Seq<char>, t: char) -> Seq<char> {
        v.push(t)
    }

    fn update(&mut self, t: char) {
        string_push(&mut self.0, t);
    }

    fn duplicate(&self) -> (r: Self) {
        StringAccumulator(self.0.clone())
    }
}

impl StringAccumulator {
    /// Consume the accumulator and emit the result.
    pub fn emit(self) -> (r: String)
        ensures
            r@ == self.acc_view(),
    {
        self.0
    }
}

/// Accumulate the non-separator chars of an integer literal body into a
/// [`String`]. E.g. the value of `"123_456"` is `"123456"`.
#[derive(Clone, Debug, Default)]
pub struct IntegerLiteralBodyStringAccumulator(String);

impl Accumulator<char> for IntegerLiteralBodyStringAccumulator {
    type AccView = Seq<char>;

    closed spec fn acc_view(&self) -> Seq<char> {
        self.0@
    }

    open spec fn acc_step(v: Seq<char>, t: char) -> Seq<char> {
        v.push(t)
    }

    fn update(&mut self, t: char) {
        string_push(&mut self.0, t);
    }

    fn duplicate(&self) -> (r: Self) {
        IntegerLiteralBodyStringAccumulator(self.0.clone())
    }
}

impl IntegerLiteralBodyStringAccumulator {
    /// Consume the accumulator and emit the result.
    pub fn emit(self) -> (r: String)
        ensures
            r@ == self.acc_view(),
    {
        self.0
    }
}

/// Accumulate the non-separator chars of an integer literal body into a
/// [`String`].
#[derive(Clone, Debug, Default)]
pub struct IntegerLiteralBodyStringValueAccumulator(String);

impl Accumulator<char> for IntegerLiteralBodyStringValueAccumulator {
    type AccView = Seq<char>;

    closed spec fn acc_view(&self) -> Seq<char> {
        self.0@
    }

    open spec fn acc_step(v: Seq<char>, t: char) -> Seq<char> {
        v.push(t)
    }

    fn update(&mut self, t: char) {
        string_push(&mut self.0, t);
    }

    fn duplicate(&self) -> (r: Self) {
        IntegerLiteralBodyStringValueAccumulator(self.0.clone())
    }
}

impl IntegerLiteralBodyStringValueAccumulator {
    /// Consume the accumulator and emit the result.
    pub fn emit(self) -> (r: String)
        ensures
            r@ == self.acc_view(),
    {
        self.0
    }
}

/// Accumulate the byte indexes of numeric separators of an integer literal
/// body.
#[derive(Clone, Debug, Default)]
pub struct IntegerLiteralBodySeparatorAccumulator(Vec<usize>);

impl Accumulator<usize> for IntegerLiteralBodySeparatorAccumulator {
    type AccView = Seq<usize>;

    closed spec fn acc_view(&self) -> Seq<usize> {
        self.0@
    }

    open spec fn acc_step(v: Seq<usize>, t: usize) -> Seq<usize> {
        v.push(t)
    }

    fn update(&mut self, t: usize) {
        self.0.push(t);
    }

    fn duplicate(&self) -> (r: Self) {
        let v = self.0.clone();
        assert(v@ =~= self.0@);
        IntegerLiteralBodySeparatorAccumulator(v)
    }
}

impl IntegerLiteralBodySeparatorAccumulator {
    /// Consume the accumulator and emit the result.
    pub fn emit(self) -> (r: Vec<usize>)
        ensures
            r@ == self.acc_view(),
    {
        self.0
    }
}

/// A string accumulates chars by appending them.
impl Accumulator<char> for String {
    type AccView = Seq<char>;

    open spec fn acc_view(&self) -> Seq<char> {
        self@
    }

    open spec fn acc_step(v: Seq<char>, t: char) -> Seq<char> {
        v.push(t)
    }

    fn update(&mut self, t: char) {
        string_push(self, t);
    }

    fn duplicate(&self) -> (r: Self) {
        self.clone()
    }
}

/// A vector accumulates indexes by pushing them.
impl Accumulator<usize> for Vec<usize> {
    type AccView = Seq<usize>;

    open spec fn acc_view(&self) -> Seq<usize> {
        self@
    }

    open spec fn acc_step(v: Seq<usize>, t: usize) -> Seq<usize> {
        v.push(t)
    }

    fn update(&mut self, t: usize) {
        self.push(t);
    }

    fn duplicate(&self) -> (r: Self) {
        let v = self.clone();
        assert(v@ =~= self@);
        v
    }
}

} // verus!
