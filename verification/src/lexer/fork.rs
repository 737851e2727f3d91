//! Fork: after a lex, the context to lex the same token again with the
//! actions after the accepted one.
use crate::lexer::re_lex::ReLexContext;
use vstd::prelude::*;

verus! {

/// Marks lex options with fork enabled.
#[derive(Clone, Copy, Debug, Default, PartialEq, Eq, Structural)]
pub struct ForkEnabled;

/// The fork setting of lex options: `()` disables fork, [`ForkEnabled`]
/// enables it; each names the factory of the fork output.
pub trait LexOptionsFork {
    /// The factory of the fork output.
    type OutputFactoryType: ForkOutputFactory + Default;
}

impl LexOptionsFork for () {
    type OutputFactoryType = ();
}

impl LexOptionsFork for ForkEnabled {
    type OutputFactoryType = ForkOutputBuilder;
}

/// Builds the fork output of a lex from the position of the token and the
/// index of the accepted action among the actions that were tried.
pub trait ForkOutputFactory: Sized {
    /// The fork output.
    type ForkOutputType;

    /// Whether `r` is the fork output for a token at `start` accepted by
    /// action `action_index` of `actions_len` tried actions.
    spec fn spec_fork_output(start: usize, actions_len: usize, action_index: usize, r: Self::ForkOutputType) -> bool;

    /// The fork output for a token at `start` accepted by action
    /// `action_index` of `actions_len` tried actions.
    fn into_fork_output(self, start: usize, actions_len: usize, action_index: usize) -> (r: Self::ForkOutputType)
        requires
            0 < actions_len,
        ensures
            Self::spec_fork_output(start, actions_len, action_index, r),
    ;
}

/// Fork disabled: no output.
impl ForkOutputFactory for () {
    type ForkOutputType = ();

    open spec fn spec_fork_output(start: usize, actions_len: usize, action_index: usize, r: ()) -> bool {
        true
    }

    fn into_fork_output(self, start: usize, actions_len: usize, action_index: usize) -> (r: ()) {
    }
}

/// Fork enabled: a re-lex context if some action after the accepted one may be tried.
#[derive(Clone, Copy, Debug, Default)]
pub struct ForkOutputBuilder;

/// The re-lex context after a token at `start` accepted by action
/// `action_index` of `actions_len` tried actions: skip the actions up to the
/// accepted one, if one after it remains.
pub open spec fn fork_context(start: usize, actions_len: usize, action_index: usize) -> Option<ReLexContext> {
    if action_index + 1 < actions_len {
        Some(ReLexContext { start, skip: (action_index + 1) as usize })
    } else {
        None
    }
}

impl ForkOutputFactory for ForkOutputBuilder {
    type ForkOutputType = Option<ReLexContext>;

    open spec fn spec_fork_output(
        start: usize,
        actions_len: usize,
        action_index: usize,
        r: Option<ReLexContext>,
    ) -> bool {
        r == fork_context(start, actions_len, action_index)
    }

    fn into_fork_output(self, start: usize, actions_len: usize, action_index: usize) -> (r: Option<ReLexContext>) {
        if action_index < actions_len - 1 {
            Some(ReLexContext { start, skip: action_index + 1 })
        } else {
            None
        }
    }
}

} // verus!
