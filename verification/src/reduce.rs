use crate::commands::{run_all, Command, Commands};
use crate::error::Error;
use crate::laws::lemma_nothing_applies;
use crate::rule::Rule;
use crate::tree::{is_lower, Tree};
use vstd::prelude::*;

verus! {

/// A rewrite that a pass has found: the tree with the rewritten node in
/// place, and the commands that the rule staged while it rewrote.
pub struct Rewrite<T, F, G> {
    pub tree: T,
    pub staged: Seq<Command<F, G>>,
}

/// What trying the rules on one node comes to.
#[derive(Debug, PartialEq, Eq)]
pub enum Attempt<X> {
    /// A rule rewrote the node.
    Rewritten(X),
    /// A rule asked to ignore the node and so many further levels below it.
    Ignored(u32),
    /// A rule asked to prune the node.
    Pruned,
    /// No rule applies to the node.
    Exhausted,
}

/// What the rules from position `from` on, tried in order on `node`, come
/// to: the answer of the first of them that does not say `NotApplicable`.
pub open spec fn attempt<T: Tree, M, R: Rule<T, M>>(
    rules: Seq<R>,
    node: T,
    meta: M,
    from: int,
) -> Attempt<Rewrite<T, R::Transform, R::Mutation>>
    decreases rules.len() - from,
{
    if from < 0 || from >= rules.len() {
        Attempt::Exhausted
    } else {
        match rules[from].spec_apply(node, meta) {
            Ok(tree) => Attempt::Rewritten(
                Rewrite { tree, staged: rules[from].spec_staged(node, meta) },
            ),
            Err(Error::NotApplicable) => attempt(rules, node, meta, from + 1),
            Err(Error::Ignore(depth)) => Attempt::Ignored(depth),
            Err(Error::Prune) => Attempt::Pruned,
        }
    }
}

/// The exclusion depth one level further down.
pub open spec fn below(exclusion_depth: nat) -> nat {
    if exclusion_depth > 0 {
        (exclusion_depth - 1) as nat
    } else {
        0
    }
}

/// One pass over `node` and what lies below it: the first rewrite in
/// pre-order, left to right, or `None` where there is none. A node is
/// offered to the rules only under exclusion depth 0.
pub open spec fn pass<T: Tree, M, R: Rule<T, M>>(
    rules: Seq<R>,
    node: T,
    meta: M,
    exclusion_depth: nat,
) -> Option<Rewrite<T, R::Transform, R::Mutation>>
    decreases node.spec_height(), 1nat, 0nat,
{
    if exclusion_depth > 0 {
        pass_children(rules, node, meta, below(exclusion_depth), 0)
    } else {
        match attempt(rules, node, meta, 0) {
            Attempt::Rewritten(found) => Some(found),
            Attempt::Ignored(depth) => pass_children(
                rules,
                node,
                meta,
                below((depth + 1) as nat),
                0,
            ),
            Attempt::Pruned => None,
            Attempt::Exhausted => pass_children(rules, node, meta, below(0), 0),
        }
    }
}

/// The rewrite `found` in the subnode of `node` at position `at`, as it
/// looks from `node`: the node around its subnodes, with that one replaced.
pub open spec fn spliced<T: Tree, F, G>(node: T, at: int, found: Rewrite<T, F, G>) -> Rewrite<
    T,
    F,
    G,
> {
    Rewrite {
        tree: node.spec_with_children(node.spec_children().update(at, found.tree)),
        staged: found.staged,
    }
}

/// The pass through the subnodes of `node` from position `from` on, each
/// under `exclusion_depth`: the first subnode that yields a rewrite is
/// replaced in `node`, and the others stay. (Every subnode of a tree lies
/// lower than its parent; one that did not would be passed over.)
pub open spec fn pass_children<T: Tree, M, R: Rule<T, M>>(
    rules: Seq<R>,
    node: T,
    meta: M,
    exclusion_depth: nat,
    from: int,
) -> Option<Rewrite<T, R::Transform, R::Mutation>>
    decreases node.spec_height(), 0nat, node.spec_children().len() - from,
{
    let children = node.spec_children();
    if from < 0 || from >= children.len() {
        None
    } else if !is_lower(children[from], node) {
        pass_children(rules, node, meta, exclusion_depth, from + 1)
    } else {
        match pass(rules, children[from], meta, exclusion_depth) {
            Some(found) => Some(spliced(node, from, found)),
            None => pass_children(rules, node, meta, exclusion_depth, from + 1),
        }
    }
}

/// One pass from the root and the commit that follows it: the next tree and
/// state, or `None` where no rule applies anywhere.
pub open spec fn step<T: Tree, M, R: Rule<T, M>>(rules: Seq<R>, tree: T, meta: M) -> Option<
    (T, M),
> {
    match pass(rules, tree, meta, 0) {
        Some(found) => Some(run_all(found.staged, found.tree, meta)),
        None => None,
    }
}

/// Rewriting `tree` under `meta` comes to rest after at most `passes`
/// rewrites.
pub open spec fn settles_within<T: Tree, M, R: Rule<T, M>>(
    rules: Seq<R>,
    tree: T,
    meta: M,
    passes: nat,
) -> bool
    decreases passes,
{
    match step(rules, tree, meta) {
        Some(next) => passes > 0 && settles_within(rules, next.0, next.1, (passes - 1) as nat),
        None => true,
    }
}

/// The tree and state after `passes` rewrites, or after fewer where no rule
/// applies any more.
pub open spec fn after_passes<T: Tree, M, R: Rule<T, M>>(
    rules: Seq<R>,
    tree: T,
    meta: M,
    passes: nat,
) -> (T, M)
    decreases passes,
{
    match step(rules, tree, meta) {
        Some(next) => if passes > 0 {
            after_passes(rules, next.0, next.1, (passes - 1) as nat)
        } else {
            (tree, meta)
        },
        None => (tree, meta),
    }
}

/// Rewriting `tree` under `meta` comes to rest at all. Whether it does is a
/// property of the rules, not of the engine.
pub open spec fn terminates<T: Tree, M, R: Rule<T, M>>(rules: Seq<R>, tree: T, meta: M) -> bool {
    exists|passes: nat| settles_within(rules, tree, meta, passes)
}

/// The tree and state at which rewriting `tree` under `meta` comes to rest.
pub open spec fn normal_form<T: Tree, M, R: Rule<T, M>>(rules: Seq<R>, tree: T, meta: M) -> (
    T,
    M,
) {
    after_passes(rules, tree, meta, choose|passes: nat| settles_within(rules, tree, meta, passes))
}

/// Tries the rules in order on `subtree`, each on a fresh queue, until one
/// of them answers something other than `NotApplicable`. After a rewrite the
/// queue holds what the rewriting rule staged; otherwise it is empty: what a
/// rule stages while it declines is dropped before anything else is tried.
pub fn try_rules<T: Tree, M, R: Rule<T, M>>(
    commands: &mut Commands<R::Transform, R::Mutation>,
    rules: &[R],
    subtree: &T,
    meta: &M,
) -> (r: Attempt<T>)
    ensures
        match attempt(rules@, *subtree, *meta, 0) {
            Attempt::Rewritten(found) => r == Attempt::Rewritten(found.tree) && final(commands)@
                == found.staged,
            Attempt::Ignored(depth) => r == Attempt::<T>::Ignored(depth) && final(commands)@.len()
                == 0,
            Attempt::Pruned => r == Attempt::<T>::Pruned && final(commands)@.len() == 0,
            Attempt::Exhausted => r == Attempt::<T>::Exhausted && final(commands)@.len() == 0,
        },
{
    commands.discard();
    let mut i: usize = 0;
    while i < rules.len()
        invariant
            i <= rules@.len(),
            commands@.len() == 0,
            attempt(rules@, *subtree, *meta, 0) == attempt(rules@, *subtree, *meta, i as int),
        decreases rules@.len() - i,
    {
        let answer = rules[i].apply(commands, subtree, meta);
        assert(commands@ =~= rules@[i as int].spec_staged(*subtree, *meta));
        match answer {
            Ok(replacement) => {
                return Attempt::Rewritten(replacement);
            },
            Err(Error::NotApplicable) => {
                commands.discard();
            },
            Err(Error::Ignore(depth)) => {
                commands.discard();
                return Attempt::Ignored(depth);
            },
            Err(Error::Prune) => {
                commands.discard();
                return Attempt::Pruned;
            },
        }
        i += 1;
    }
    Attempt::Exhausted
}

/// One pass over `subtree` and what lies below it, depth first, in
/// pre-order and left to right, under `exclusion_depth` (0: not excluded).
///
/// Under exclusion depth 0 the rules are tried in order on `subtree`. A
/// rewrite is returned at once. `NotApplicable` leads to the next rule,
/// `Ignore(d)` ends the trying and sets the exclusion depth to `d + 1`, and
/// `Prune` ends the pass through this subtree with `None`. Then each subnode
/// is passed over in turn, under an exclusion depth one less; for the first
/// that yields a rewrite, `subtree` is returned with that subnode replaced.
///
/// The queue is emptied first. After `Some(..)` it holds what the rewriting
/// rule staged on the rewritten node, and after `None` nothing.
pub fn reduce_iteration<T: Tree, M, R: Rule<T, M>>(
    commands: &mut Commands<R::Transform, R::Mutation>,
    rules: &[R],
    subtree: &T,
    meta: &M,
    exclusion_depth: u64,
) -> (r: Option<T>)
    ensures
        match pass(rules@, *subtree, *meta, exclusion_depth as nat) {
            Some(found) => r == Some(found.tree) && final(commands)@ == found.staged,
            None => r.is_none() && final(commands)@.len() == 0,
        },
    decreases subtree.spec_height(),
{
    let mut depth: u64 = exclusion_depth;
    if depth == 0 {
        match try_rules(commands, rules, subtree, meta) {
            Attempt::Rewritten(replacement) => {
                return Some(replacement);
            },
            Attempt::Ignored(levels) => {
                depth = levels as u64 + 1;
            },
            Attempt::Pruned => {
                return None;
            },
            Attempt::Exhausted => {},
        }
    } else {
        commands.discard();
    }
    let depth_below: u64 = if depth > 0 {
        depth - 1
    } else {
        0
    };
    let mut children = subtree.children();
    let ghost before = children@;
    let mut i: usize = 0;
    while i < children.len()
        invariant
            i <= children@.len(),
            children@ == before,
            before == subtree.spec_children(),
            forall|k: int| 0 <= k < before.len() ==> is_lower(#[trigger] before[k], *subtree),
            commands@.len() == 0,
            pass(rules@, *subtree, *meta, exclusion_depth as nat) == pass_children(
                rules@,
                *subtree,
                *meta,
                depth_below as nat,
                i as int,
            ),
        decreases children@.len() - i,
    {
        match reduce_iteration(commands, rules, &children[i], meta, depth_below) {
            Some(replacement) => {
                children[i] = replacement;
                return Some(subtree.with_children(children));
            },
            None => {},
        }
        i += 1;
    }
    None
}

/// One pass over the whole of `tree` under `meta`: the tree with the first
/// rewritable node, in pre-order and left to right, rewritten by the first
/// rule that applies to it, or `None` where no rule applies anywhere. After
/// `Some(..)` the queue holds what that rule staged, ready to be committed
/// against the returned tree; after `None` it is empty.
pub fn reduce_single_pass<T: Tree, M, R: Rule<T, M>>(
    commands: &mut Commands<R::Transform, R::Mutation>,
    rules: &[R],
    tree: &T,
    meta: &M,
) -> (r: Option<T>)
    ensures
        match pass(rules@, *tree, *meta, 0) {
            Some(found) => r == Some(found.tree) && final(commands)@ == found.staged,
            None => r.is_none() && final(commands)@.len() == 0,
        },
{
    reduce_iteration(commands, rules, tree, meta, 0)
}

/// Rewrites `tree` until no rule applies anywhere: after each pass that
/// rewrites a node, the staged commands are committed against the new tree
/// and the state, and the next pass starts from the root.
pub fn reduce_with_rules<T: Tree, M, R: Rule<T, M>>(rules: &[R], tree: T, meta: M) -> (r: (T, M))
    requires
        terminates(rules@, tree, meta),
    ensures
        r == normal_form(rules@, tree, meta),
        pass(rules@, r.0, r.1, 0) is None,
        pass(rules@, tree, meta, 0) is None ==> r == (tree, meta),
{
    proof {
        if pass(rules@, tree, meta, 0) is None {
            lemma_nothing_applies(rules@, tree, meta);
        }
    }
    let mut commands: Commands<R::Transform, R::Mutation> = Commands::new();
    let mut now_tree = tree;
    let mut now_meta = meta;
    let ghost mut passes = choose|n: nat| settles_within(rules@, tree, meta, n);
    loop
        invariant
            settles_within(rules@, now_tree, now_meta, passes),
            after_passes(rules@, now_tree, now_meta, passes) == normal_form(rules@, tree, meta),
        decreases passes,
    {
        match reduce_single_pass(&mut commands, rules, &now_tree, &now_meta) {
            Some(new_tree) => {
                let (next_tree, next_meta) = commands.commit(new_tree, now_meta);
                now_tree = next_tree;
                now_meta = next_meta;
                proof {
                    passes = (passes - 1) as nat;
                }
            },
            None => {
                return (now_tree, now_meta);
            },
        }
    }
}

/// Rewrites `tree` as `reduce_with_rules` does, but gives up after
/// `max_passes` rewrites. Returns the tree and state it has come to, and
/// whether no rule applies to them any more.
pub fn reduce_within<T: Tree, M, R: Rule<T, M>>(
    rules: &[R],
    tree: T,
    meta: M,
    max_passes: usize,
) -> (r: (T, M, bool))
    ensures
        (r.0, r.1) == after_passes(rules@, tree, meta, max_passes as nat),
        r.2 == settles_within(rules@, tree, meta, max_passes as nat),
        r.2 == (pass(rules@, r.0, r.1, 0) is None),
{
    let mut commands: Commands<R::Transform, R::Mutation> = Commands::new();
    let mut now_tree = tree;
    let mut now_meta = meta;
    let mut left: usize = max_passes;
    loop
        invariant
            after_passes(rules@, now_tree, now_meta, left as nat) == after_passes(
                rules@,
                tree,
                meta,
                max_passes as nat,
            ),
            settles_within(rules@, now_tree, now_meta, left as nat) == settles_within(
                rules@,
                tree,
                meta,
                max_passes as nat,
            ),
        decreases left,
    {
        match reduce_single_pass(&mut commands, rules, &now_tree, &now_meta) {
            Some(new_tree) => {
                if left == 0 {
                    commands.discard();
                    return (now_tree, now_meta, false);
                }
                let (next_tree, next_meta) = commands.commit(new_tree, now_meta);
                now_tree = next_tree;
                now_meta = next_meta;
                left = left - 1;
            },
            None => {
                return (now_tree, now_meta, true);
            },
        }
    }
}

/// Rewrites `tree` until no rule applies anywhere, and returns the tree and
/// state that are left.
pub fn reduce<T: Tree, M, R: Rule<T, M>>(rules: Vec<R>, tree: T, meta: M) -> (r: (T, M))
    requires
        terminates(rules@, tree, meta),
    ensures
        r == normal_form(rules@, tree, meta),
        pass(rules@, r.0, r.1, 0) is None,
        pass(rules@, tree, meta, 0) is None ==> r == (tree, meta),
{
    reduce_with_rules(rules.as_slice(), tree, meta)
}

} // verus!
