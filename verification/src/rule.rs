use crate::commands::{Command, Commands, Mutation, Transform};
use crate::error::Error;
use crate::tree::Tree;
use vstd::prelude::*;

verus! {

/// A rewrite rule: given one node and the auxiliary state, it either returns
/// a replacement for the node or declines in one of three ways. What it wants
/// changed beyond the node it stages as commands.
///
/// The two spec functions are the model that the contracts of this crate
/// speak of: a rule is a function of the node and the state. An
/// implementation in verified code overrides them; as they stand they
/// describe a rule that never applies and stages nothing.
pub trait Rule<T: Tree, M> {
    /// The whole-tree transforms that this rule stages.
    type Transform: Transform<T>;

    /// The state mutations that this rule stages.
    type Mutation: Mutation<M>;

    /// What the rule answers for `subtree` under `meta`.
    open spec fn spec_apply(&self, subtree: T, meta: M) -> Result<T, Error> {
        Err(Error::NotApplicable)
    }

    /// The commands that the rule stages while it is tried on `subtree`
    /// under `meta`, in order.
    open spec fn spec_staged(&self, subtree: T, meta: M) -> Seq<
        Command<Self::Transform, Self::Mutation>,
    > {
        Seq::empty()
    }

    /// Tries the rule on `subtree`: returns its answer, and appends to
    /// `commands` what it stages.
    fn apply(
        &self,
        commands: &mut Commands<Self::Transform, Self::Mutation>,
        subtree: &T,
        meta: &M,
    ) -> (r: Result<T, Error>)
        ensures
            r == self.spec_apply(*subtree, *meta),
            final(commands)@ == old(commands)@ + self.spec_staged(*subtree, *meta),
    ;
}

} // verus!
