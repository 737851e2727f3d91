//! Tokens: the kind, the data and the byte range of an emitted match.
use crate::kind::SubKindId;
use crate::lexer::action::{copy_data, same_data, ActionData};
use vstd::prelude::*;

verus! {

/// An emitted token.
#[derive(Debug)]
pub struct Token {
    /// The kind of the token.
    pub kind: SubKindId,
    /// The data the action yielded.
    pub data: ActionData,
    /// The byte range of the token in the text.
    pub range: std::ops::Range<usize>,
}

impl Clone for Token {
    fn clone(&self) -> (r: Self)
        ensures
            r.kind == self.kind,
            r.range == self.range,
            same_data(r.data, self.data),
    {
        Token { kind: self.kind, data: copy_data(&self.data), range: self.range.start..self.range.end }
    }
}

} // verus!
