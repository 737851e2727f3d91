//! Options of the stateless lexer: where to start, and the options of the
//! lex or trim.
use crate::lexer::expectation::Expectation;
use crate::lexer::options::{default_lex_options_base, LexOptions, TrimOptions};
use crate::lexer::re_lex::ReLexContext;
use vstd::prelude::*;

verus! {

/// Options of a stateless lex or trim: the byte offset to start at, state
/// and heap handed along, and the options of the lex or trim.
#[derive(Clone, Copy, Debug)]
pub struct StatelessOptions<StateRef, HeapRef, Base> {
    /// The byte offset to start at.
    pub start: usize,
    /// The state handed along.
    pub state: StateRef,
    /// The heap handed along.
    pub heap: HeapRef,
    /// The options of the lex or trim.
    pub base: Base,
}

/// Stateless options of a lex.
pub type StatelessLexOptions<'literal, StateRef, HeapRef> = StatelessOptions<StateRef, HeapRef, LexOptions<'literal>>;

/// Stateless options of a trim.
pub type StatelessTrimOptions<StateRef, HeapRef> = StatelessOptions<StateRef, HeapRef, TrimOptions>;

impl<StateRef, HeapRef, Base> StatelessOptions<StateRef, HeapRef, Base> {
    /// Set the start offset.
    pub fn start(self, start: usize) -> (r: Self)
        ensures
            r == (StatelessOptions { start, ..self }),
    {
        StatelessOptions { start, ..self }
    }

    /// Set the state.
    pub fn state<NewStateRef>(self, state: NewStateRef) -> (r: StatelessOptions<NewStateRef, HeapRef, Base>)
        ensures
            r == (StatelessOptions { start: self.start, state, heap: self.heap, base: self.base }),
    {
        StatelessOptions { start: self.start, state, heap: self.heap, base: self.base }
    }

    /// Set the heap.
    pub fn heap<NewHeapRef>(self, heap: NewHeapRef) -> (r: StatelessOptions<StateRef, NewHeapRef, Base>)
        ensures
            r == (StatelessOptions { start: self.start, state: self.state, heap, base: self.base }),
    {
        StatelessOptions { start: self.start, state: self.state, heap, base: self.base }
    }
}

impl<'literal> StatelessOptions<(), (), LexOptions<'literal>> {
    /// Start at `0`, no state or heap, default lex options.
    pub fn new() -> (r: Self)
        ensures
            r == default_lex_options::<'literal>(),
    {
        StatelessOptions { start: 0, state: (), heap: (), base: LexOptions::new() }
    }
}

impl<'literal, StateRef, HeapRef> StatelessOptions<StateRef, HeapRef, LexOptions<'literal>> {
    /// Set the expectation.
    pub fn expect(self, expectation: Expectation<'literal>) -> (r: Self)
        ensures
            r == (StatelessOptions { base: LexOptions { expectation, ..self.base }, ..self }),
    {
        StatelessOptions { base: self.base.expect(expectation), ..self }
    }

    /// Set the expectation, built from the default one.
    pub fn expect_with<F: FnOnce(Expectation<'literal>) -> Expectation<'literal>>(self, f: F) -> (r: Self)
        requires
            f.requires((Expectation { kind: None, literal: None },)),
        ensures
            f.ensures((Expectation { kind: None, literal: None },), r.base.expectation),
            r.base.fork == self.base.fork,
            r.base.re_lex == self.base.re_lex,
            r.start == self.start,
    {
        StatelessOptions { base: self.base.expect_with(f), ..self }
    }

    /// Enable fork.
    pub fn fork(self) -> (r: Self)
        ensures
            r == (StatelessOptions { base: LexOptions { fork: true, ..self.base }, ..self }),
    {
        StatelessOptions { base: self.base.fork(), ..self }
    }

    /// Set the re-lex context.
    pub fn re_lex(self, re_lex: ReLexContext) -> (r: Self)
        ensures
            r == (StatelessOptions { base: LexOptions { re_lex, ..self.base }, ..self }),
    {
        StatelessOptions { base: self.base.re_lex(re_lex), ..self }
    }
}

impl StatelessOptions<(), (), TrimOptions> {
    /// Start at `0`, no state or heap.
    pub fn new() -> (r: Self)
        ensures
            r == (StatelessOptions { start: 0, state: (), heap: (), base: TrimOptions }),
    {
        StatelessOptions { start: 0, state: (), heap: (), base: TrimOptions }
    }
}

/// The default options of a stateless lex.
pub open spec fn default_lex_options<'literal>() -> StatelessOptions<(), (), LexOptions<'literal>> {
    StatelessOptions {
        start: 0,
        state: (),
        heap: (),
        base: default_lex_options_base(),
    }
}

} // verus!
