//! What a lex is expected to emit: a kind, a literal, or both.
use crate::kind::SubKindId;
use vstd::prelude::*;

verus! {

/// The expected kind and literal of the next token.
#[derive(Clone, Copy, Debug, PartialEq, Eq)]
pub struct Expectation<'literal> {
    /// The expected kind.
    pub kind: Option<SubKindId>,
    /// The expected literal.
    pub literal: Option<&'literal str>,
}

impl<'literal> Expectation<'literal> {
    /// No expectation.
    pub fn new() -> (r: Self)
        ensures
            r.kind is None,
            r.literal is None,
    {
        Expectation { kind: None, literal: None }
    }

    /// Expect the kind `kind`.
    pub fn kind(self, kind: SubKindId) -> (r: Self)
        ensures
            r.kind == Some(kind),
            r.literal == self.literal,
    {
        Expectation { kind: Some(kind), literal: self.literal }
    }

    /// Expect the literal `text`.
    pub fn literal(self, text: &'literal str) -> (r: Self)
        ensures
            r.kind == self.kind,
            r.literal == Some(text),
    {
        Expectation { kind: self.kind, literal: Some(text) }
    }

    /// Expect the token's text to be `text`: the same as [`Self::literal`].
    pub fn text(self, text: &'literal str) -> (r: Self)
        ensures
            r.kind == self.kind,
            r.literal == Some(text),
    {
        self.literal(text)
    }

    /// Expect the kind `kind` only.
    pub fn from_kind(kind: SubKindId) -> (r: Self)
        ensures
            r.kind == Some(kind),
            r.literal is None,
    {
        Expectation::new().kind(kind)
    }

    /// Expect the literal `text` only.
    pub fn from_literal(text: &'literal str) -> (r: Self)
        ensures
            r.kind is None,
            r.literal == Some(text),
    {
        Expectation::new().literal(text)
    }
}

impl<'literal> Default for Expectation<'literal> {
    fn default() -> (r: Self)
        ensures
            r.kind is None,
            r.literal is None,
    {
        Expectation::new()
    }
}

impl<'literal> From<SubKindId> for Expectation<'literal> {
    fn from(kind: SubKindId) -> (r: Self) {
        Expectation { kind: Some(kind), literal: None }
    }
}

impl<'literal> vstd::std_specs::convert::FromSpecImpl<SubKindId> for Expectation<'literal> {
    open spec fn obeys_from_spec() -> bool {
        true
    }

    open spec fn from_spec(kind: SubKindId) -> Self {
        Expectation { kind: Some(kind), literal: None }
    }
}

impl<'literal> From<&'literal str> for Expectation<'literal> {
    fn from(text: &'literal str) -> (r: Self) {
        Expectation { kind: None, literal: Some(text) }
    }
}

impl<'literal> vstd::std_specs::convert::FromSpecImpl<&'literal str> for Expectation<'literal> {
    open spec fn obeys_from_spec() -> bool {
        true
    }

    open spec fn from_spec(text: &'literal str) -> Self {
        Expectation { kind: None, literal: Some(text) }
    }
}

} // verus!
