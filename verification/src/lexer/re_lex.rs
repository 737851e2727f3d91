//! Retry a lex with different actions.
use vstd::prelude::*;

verus! {

/// With this struct you can retry a lex, skipping the first `skip`
/// candidate actions when the lex starts at byte offset `start`.
#[derive(Default, Clone, Copy, Debug, PartialEq, Eq, Structural)]
pub struct ReLexContext {
    /// The byte offset where the skipping applies.
    pub start: usize,
    /// How many candidate actions are skipped.
    pub skip: usize,
}

impl ReLexContext {
    /// Create a new context with re-lex disabled (nothing skipped).
    pub fn new() -> (r: Self)
        ensures
            r.start == 0,
            r.skip == 0,
    {
        ReLexContext { start: 0, skip: 0 }
    }
}

} // verus!
