//! Token kinds are identified by a numeric id.
use vstd::prelude::*;

verus! {

/// The id of a token kind. Id `0` is the default kind.
#[derive(Clone, Copy, Debug, PartialEq, Eq, Hash, Structural)]
pub struct SubKindId(pub usize);

impl SubKindId {
    /// Create a kind id.
    pub fn new(value: usize) -> (r: Self)
        ensures
            r.0 == value,
    {
        SubKindId(value)
    }

    /// The numeric value of this id.
    pub fn value(&self) -> (r: usize)
        ensures
            r == self.0,
    {
        self.0
    }

    /// The default kind (id `0`).
    pub fn default_kind() -> (r: Self)
        ensures
            r.0 == 0,
    {
        SubKindId(0)
    }
}

} // verus!
