use vstd::prelude::*;

verus! {

/// What a node type must offer to be rewritten: its immediate subnodes in a
/// fixed order, and a way to build a node of the same shape around other
/// subnodes.
///
/// The three spec functions are the model that the contracts of this crate
/// speak of. An implementation in verified code overrides them to describe
/// its type; as they stand they describe a node without subnodes.
pub trait Tree: Sized {
    /// The immediate subnodes of this node, in order.
    open spec fn spec_children(&self) -> Seq<Self> {
        Seq::empty()
    }

    /// The node shaped like this one that holds `children` in place of its
    /// own subnodes. It has a meaning only for as many children as this node
    /// has.
    open spec fn spec_with_children(&self, children: Seq<Self>) -> Self {
        *self
    }

    /// A bound on the nesting below this node, which falls strictly from a
    /// node to each of its subnodes.
    open spec fn spec_height(&self) -> nat {
        0
    }

    /// Returns the immediate subnodes, in order; each lies lower than this
    /// node.
    fn children(&self) -> (r: Vec<Self>)
        ensures
            r@ == self.spec_children(),
            forall|i: int|
                0 <= i < r@.len() ==> (#[trigger] r@[i]).spec_height() < self.spec_height(),
    ;

    /// Returns the node of this shape around `children`, which holds exactly
    /// them as its subnodes.
    fn with_children(&self, children: Vec<Self>) -> (r: Self)
        requires
            children@.len() == self.spec_children().len(),
        ensures
            r == self.spec_with_children(children@),
            r.spec_children() == children@,
    ;
}

/// `child` lies strictly lower than `parent`.
pub open spec fn is_lower<T: Tree>(child: T, parent: T) -> bool {
    child.spec_height() < parent.spec_height()
}

} // verus!
