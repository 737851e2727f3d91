//! Options of a lex: the expectation, fork and re-lex.
use crate::lexer::expectation::Expectation;
use crate::lexer::re_lex::ReLexContext;
use vstd::prelude::*;

verus! {

/// Options of a lex.
#[derive(Clone, Copy, Debug, PartialEq, Eq)]
pub struct LexOptions<'literal> {
    /// What the lex is expected to emit.
    pub expectation: Expectation<'literal>,
    /// Whether the output holds a re-lex context.
    pub fork: bool,
    /// The re-lex context of a retried lex.
    pub re_lex: ReLexContext,
}

impl<'literal> LexOptions<'literal> {
    /// No expectation, fork disabled, no re-lex.
    pub fn new() -> (r: Self)
        ensures
            r == default_lex_options_base::<'literal>(),
    {
        LexOptions { expectation: Expectation::new(), fork: false, re_lex: ReLexContext::new() }
    }

    /// Set the expectation.
    pub fn expect(self, expectation: Expectation<'literal>) -> (r: Self)
        ensures
            r == (LexOptions { expectation, ..self }),
    {
        LexOptions { expectation, ..self }
    }

    /// Set the expectation, built from the default one.
    pub fn expect_with<F: FnOnce(Expectation<'literal>) -> Expectation<'literal>>(self, f: F) -> (r: Self)
        requires
            f.requires((Expectation { kind: None, literal: None },)),
        ensures
            f.ensures((Expectation { kind: None, literal: None },), r.expectation),
            r.fork == self.fork,
            r.re_lex == self.re_lex,
    {
        let expectation = f(Expectation::new());
        LexOptions { expectation, ..self }
    }

    /// Enable fork.
    pub fn fork(self) -> (r: Self)
        ensures
            r == (LexOptions { fork: true, ..self }),
    {
        LexOptions { fork: true, ..self }
    }

    /// Set the re-lex context.
    pub fn re_lex(self, re_lex: ReLexContext) -> (r: Self)
        ensures
            r == (LexOptions { re_lex, ..self }),
    {
        LexOptions { re_lex, ..self }
    }

    /// Options with the given expectation only.
    pub fn from_expectation(expectation: Expectation<'literal>) -> (r: Self)
        ensures
            r == (LexOptions { expectation, fork: false, re_lex: ReLexContext { start: 0, skip: 0 } }),
    {
        LexOptions { expectation, fork: false, re_lex: ReLexContext::new() }
    }

    /// Options with the given re-lex context only.
    pub fn from_re_lex(re_lex: ReLexContext) -> (r: Self)
        ensures
            r == (LexOptions {
                expectation: Expectation { kind: None, literal: None },
                fork: false,
                re_lex,
            }),
    {
        LexOptions { expectation: Expectation::new(), fork: false, re_lex }
    }
}

impl<'literal> Default for LexOptions<'literal> {
    fn default() -> (r: Self)
        ensures
            r.expectation.kind is None,
            r.expectation.literal is None,
            !r.fork,
            r.re_lex == (ReLexContext { start: 0, skip: 0 }),
    {
        LexOptions::new()
    }
}

impl<'literal> From<Expectation<'literal>> for LexOptions<'literal> {
    fn from(expectation: Expectation<'literal>) -> (r: Self) {
        LexOptions::from_expectation(expectation)
    }
}

impl<'literal> vstd::std_specs::convert::FromSpecImpl<Expectation<'literal>> for LexOptions<'literal> {
    open spec fn obeys_from_spec() -> bool {
        true
    }

    open spec fn from_spec(expectation: Expectation<'literal>) -> Self {
        LexOptions { expectation, fork: false, re_lex: ReLexContext { start: 0, skip: 0 } }
    }
}

impl<'literal> From<ReLexContext> for LexOptions<'literal> {
    fn from(re_lex: ReLexContext) -> (r: Self) {
        LexOptions::from_re_lex(re_lex)
    }
}

impl<'literal> vstd::std_specs::convert::FromSpecImpl<ReLexContext> for LexOptions<'literal> {
    open spec fn obeys_from_spec() -> bool {
        true
    }

    open spec fn from_spec(re_lex: ReLexContext) -> Self {
        LexOptions { expectation: Expectation { kind: None, literal: None }, fork: false, re_lex }
    }
}

/// The default options of a lex.
pub open spec fn default_lex_options_base<'literal>() -> LexOptions<'literal> {
    LexOptions {
        expectation: Expectation { kind: None, literal: None },
        fork: false,
        re_lex: ReLexContext { start: 0, skip: 0 },
    }
}

/// Options of a trim (none for now).
#[derive(Clone, Copy, Debug, Default, PartialEq, Eq, Structural)]
pub struct TrimOptions;

} // verus!
