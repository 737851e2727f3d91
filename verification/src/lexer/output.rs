//! The outputs of lexing and trimming.
use crate::lexer::re_lex::ReLexContext;
use crate::lexer::token::Token;
use vstd::prelude::*;

verus! {

/// The output of a lex.
#[derive(Clone, Debug)]
pub struct LexOutput {
    /// The emitted token, if any.
    pub token: Option<Token>,
    /// The number of digested bytes, muted matches included.
    pub digested: usize,
    /// With fork enabled: the context to lex the same token again with the
    /// actions after the accepted one, if there are any.
    pub fork: Option<ReLexContext>,
}

/// The output of a trim.
#[derive(Clone, Debug, PartialEq, Eq, Structural)]
pub struct TrimOutput {
    /// The number of digested bytes.
    pub digested: usize,
}

} // verus!
