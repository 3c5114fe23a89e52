use crate::tree::{is_lower, Tree};
use vstd::prelude::*;

verus! {

/// A shadow of a tree that carries one clean/dirty flag per node. A clean
/// flag is meant to record that nothing below the node can be rewritten.
pub struct Skeleton<T: Tree> {
    clean: bool,
    node: T,
    children: Vec<Skeleton<T>>,
}

impl<T: Tree> Skeleton<T> {
    /// The tree node that this shadow node stands for.
    pub closed spec fn spec_node(&self) -> T {
        self.node
    }

    /// Whether this shadow node is flagged clean.
    pub closed spec fn spec_is_clean(&self) -> bool {
        self.clean
    }

    /// The shadow nodes of the subnodes, in order.
    pub closed spec fn spec_children(&self) -> Seq<Skeleton<T>> {
        self.children@
    }

    /// This is the shadow of `node` in which every flag says dirty: it stands
    /// for `node`, and its children are such shadows of `node`'s subnodes, one
    /// for one and in order.
    pub open spec fn is_fresh_shadow_of(&self, node: T) -> bool
        decreases node.spec_height(),
    {
        &&& self.spec_node() == node
        &&& !self.spec_is_clean()
        &&& self.spec_children().len() == node.spec_children().len()
        &&& forall|i: int|
            0 <= i < node.spec_children().len() && is_lower(node.spec_children()[i], node)
                ==> (#[trigger] self.spec_children()[i]).is_fresh_shadow_of(
                node.spec_children()[i],
            )
    }

    /// Builds the shadow of `node` and of everything below it, all dirty.
    pub fn new(node: T) -> (r: Skeleton<T>)
        ensures
            r.is_fresh_shadow_of(node),
        decreases node.spec_height(),
    {
        let kids = node.children();
        let ghost below = node.spec_children();
        let mut children: Vec<Skeleton<T>> = Vec::new();
        for kid in it: kids
            invariant
                below == node.spec_children(),
                it.seq() == below,
                children@.len() == it.index(),
                forall|i: int| 0 <= i < below.len() ==> is_lower(#[trigger] below[i], node),
                forall|i: int|
                    0 <= i < children@.len() ==> (#[trigger] children@[i]).is_fresh_shadow_of(
                        below[i],
                    ),
        {
            let shadow = Skeleton::new(kid);
            children.push(shadow);
        }
        Skeleton { clean: false, node, children }
    }

    /// The tree node that this shadow node stands for.
    pub fn node(&self) -> (r: &T)
        ensures
            *r == self.spec_node(),
    {
        &self.node
    }

    /// Flags this node clean. The node it stands for and the shadows below it
    /// stay as they are.
    pub fn mark_clean(&mut self)
        ensures
            final(self).spec_is_clean(),
            final(self).spec_node() == old(self).spec_node(),
            final(self).spec_children() == old(self).spec_children(),
    {
        self.clean = true;
    }

    /// Whether this node is flagged clean.
    pub fn is_clean(&self) -> (r: bool)
        ensures
            r == self.spec_is_clean(),
    {
        self.clean
    }
}

} // verus!
