//! A generic term-rewriting engine.
//!
//! Given a tree of any recursively defined type and an ordered list of
//! node-to-node rewrite rules, the engine looks for the first node that a rule
//! rewrites, replaces it, and starts again from the root, until no rule
//! applies anywhere.
//!
//! # The parts
//!
//! * [`Tree`] is what the engine needs of a node type: its immediate subnodes
//!   in order, and a node of the same shape around other subnodes.
//! * [`Rule`] is one rewrite rule. Tried on a node it returns a replacement,
//!   or declines with an [`Error`]: `NotApplicable` lets the next rule try,
//!   `Ignore(d)` shields the node and `d` further levels below it for the
//!   rest of the pass, and `Prune` shields the node and everything below it.
//! * [`Commands`] is the queue in which a rule stages what it wants changed
//!   beyond the node it is tried on: a [`Transform`] of the whole tree or a
//!   [`Mutation`] of the auxiliary state that travels with the tree. What a
//!   rule stages is committed if the rule rewrites, against the whole new
//!   tree, and dropped if it declines.
//! * [`reduce_iteration`] is one pass, depth first, in pre-order and left to
//!   right, which ends at the first rewrite. [`reduce_with_rules`] and
//!   [`reduce`] repeat the pass and the commit until a pass finds nothing.
//! * [`Skeleton`] is a shadow tree with one clean/dirty flag per node.
//!
//! # What is proved
//!
//! The contracts speak of a model in which a tree is what [`Tree`]'s spec
//! functions say of it and a rule is a function of the node and the state.
//! In that model `reduce::pass` is the rewrite that one pass finds and
//! `reduce::normal_form` the tree and state at which rewriting comes to
//! rest, and every function of the engine is proved to return exactly what
//! they say. The module `laws` states what follows for every tree and every
//! list of rules.
//!
//! Whether rewriting comes to rest at all depends on the rules. [`reduce`]
//! and [`reduce_with_rules`] ask for it; [`reduce_within`] asks for nothing
//! and stops at a bound.

pub mod commands;
pub mod error;
pub mod laws;
pub mod reduce;
pub mod rule;
pub mod skeleton;
pub mod tree;

pub use commands::{Command, Commands, FromFn, Mutation, NoCommand, Transform};
pub use error::Error;
pub use reduce::{
    reduce, reduce_iteration, reduce_single_pass, reduce_with_rules, reduce_within, try_rules,
    Attempt,
};
pub use rule::Rule;
pub use skeleton::Skeleton;
pub use tree::Tree;
