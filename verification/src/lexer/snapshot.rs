//! A snapshot of the stateful lexer.
use super::instant::Instant;
use vstd::prelude::*;

verus! {

/// The snapshot of the stateful lexer: its state and its instant.
#[derive(Debug, Clone, PartialEq, Eq)]
pub struct Snapshot<'text, State> {
    /// The lexer's state.
    pub state: State,
    /// The lexer's instant.
    pub instant: Instant<'text>,
}

impl<'text, State> Snapshot<'text, State> {
    /// The lexer's instant in this snapshot.
    pub fn instant(&self) -> (r: &Instant<'text>)
        ensures
            *r == self.instant,
    {
        &self.instant
    }
}

} // verus!
