use vstd::prelude::*;

verus! {

/// The ways in which a rule can decline a node. None of them is a fault:
/// each tells the engine how to go on with the pass.
#[derive(Debug, PartialEq, Eq, Structural)]
pub enum Error {
    /// The rule does not match this node; later rules may.
    NotApplicable,
    /// This node, and its descendants down to the given number of further
    /// levels, are offered to no rule for the rest of the pass. With `0` only
    /// this node is left out.
    Ignore(u32),
    /// This node and all of its descendants are left out of the pass.
    Prune,
}

impl Clone for Error {
    fn clone(&self) -> (r: Self)
        ensures
            r == *self,
    {
        match self {
            Error::NotApplicable => Error::NotApplicable,
            Error::Ignore(depth) => Error::Ignore(*depth),
            Error::Prune => Error::Prune,
        }
    }
}

} // verus!
