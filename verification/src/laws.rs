use crate::commands::{run_all, Command, Mutation, Transform};
use crate::reduce::{
    after_passes, attempt, normal_form, pass, pass_children, settles_within, spliced, step,
    terminates, Attempt, Rewrite,
};
use crate::rule::Rule;
use crate::tree::{is_lower, Tree};
use vstd::prelude::*;

verus! {

/// Committing is first in, first out: what is staged first takes effect
/// first, and what is staged behind it works on what that has produced.
pub proof fn lemma_commit_in_order_of_staging<T, M, F: Transform<T>, G: Mutation<M>>(
    first: Seq<Command<F, G>>,
    then: Seq<Command<F, G>>,
    tree: T,
    meta: M,
)
    ensures
        run_all(first + then, tree, meta) == run_all(
            then,
            run_all(first, tree, meta).0,
            run_all(first, tree, meta).1,
        ),
    decreases first.len(),
{
    if first.len() == 0 {
        assert(first + then =~= then);
    } else {
        let next = first[0].spec_run(tree, meta);
        assert((first + then).drop_first() =~= first.drop_first() + then);
        lemma_commit_in_order_of_staging(first.drop_first(), then, next.0, next.1);
    }
}

/// Where rewriting settles within `passes` rewrites, what it has come to
/// after `passes` is the normal form, and no rule applies to it.
pub proof fn lemma_settled_is_normal_form<T: Tree, M, R: Rule<T, M>>(
    rules: Seq<R>,
    tree: T,
    meta: M,
    passes: nat,
)
    requires
        settles_within(rules, tree, meta, passes),
    ensures
        terminates(rules, tree, meta),
        after_passes(rules, tree, meta, passes) == normal_form(rules, tree, meta),
        step(rules, normal_form(rules, tree, meta).0, normal_form(rules, tree, meta).1) is None,
{
    let chosen = choose|n: nat| settles_within(rules, tree, meta, n);
    lemma_after_passes_agree(rules, tree, meta, passes, chosen);
}

/// Two bounds within which rewriting settles lead to the same tree and
/// state, to which no rule applies.
proof fn lemma_after_passes_agree<T: Tree, M, R: Rule<T, M>>(
    rules: Seq<R>,
    tree: T,
    meta: M,
    a: nat,
    b: nat,
)
    requires
        settles_within(rules, tree, meta, a),
        settles_within(rules, tree, meta, b),
    ensures
        after_passes(rules, tree, meta, a) == after_passes(rules, tree, meta, b),
        step(rules, after_passes(rules, tree, meta, a).0, after_passes(rules, tree, meta, a).1)
            is None,
    decreases a,
{
    match step(rules, tree, meta) {
        Some(next) => {
            lemma_after_passes_agree(rules, next.0, next.1, (a - 1) as nat, (b - 1) as nat);
        },
        None => {},
    }
}

/// Fixpoint: where rewriting comes to rest, one more pass over the tree and
/// state it has come to finds nothing to rewrite.
pub proof fn lemma_normal_form_is_fixpoint<T: Tree, M, R: Rule<T, M>>(
    rules: Seq<R>,
    tree: T,
    meta: M,
)
    requires
        terminates(rules, tree, meta),
    ensures
        pass(rules, normal_form(rules, tree, meta).0, normal_form(rules, tree, meta).1, 0)
            is None,
{
    let passes = choose|n: nat| settles_within(rules, tree, meta, n);
    lemma_settled_is_normal_form(rules, tree, meta, passes);
}

/// No rule applies anywhere: rewriting terminates at once, and the normal
/// form is the tree and the state as they were given.
pub proof fn lemma_nothing_applies<T: Tree, M, R: Rule<T, M>>(rules: Seq<R>, tree: T, meta: M)
    requires
        pass(rules, tree, meta, 0) is None,
    ensures
        terminates(rules, tree, meta),
        normal_form(rules, tree, meta) == (tree, meta),
{
    assert(settles_within(rules, tree, meta, 0));
    lemma_settled_is_normal_form(rules, tree, meta, 0);
}

/// The rules of `a` and of `b` answer alike on every node and state, one for
/// one, and wherever they rewrite they stage the same commands. What they
/// stage while they decline is left open.
pub open spec fn alike_where_they_rewrite<
    T: Tree,
    M,
    A: Rule<T, M>,
    B: Rule<T, M, Transform = A::Transform, Mutation = A::Mutation>,
>(a: Seq<A>, b: Seq<B>) -> bool {
    &&& a.len() == b.len()
    &&& forall|i: int, node: T, meta: M|
        0 <= i < a.len() ==> {
            &&& #[trigger] a[i].spec_apply(node, meta) == b[i].spec_apply(node, meta)
            &&& a[i].spec_apply(node, meta) is Ok ==> a[i].spec_staged(node, meta)
                == b[i].spec_staged(node, meta)
        }
}

/// Rollback: what a rule stages while it declines has no effect. Two rule
/// lists that differ in nothing but that find the same rewrite in every
/// pass, terminate on the same inputs, and come to rest at the same tree and
/// state.
pub proof fn lemma_declined_commands_are_inert<
    T: Tree,
    M,
    A: Rule<T, M>,
    B: Rule<T, M, Transform = A::Transform, Mutation = A::Mutation>,
>(
    a: Seq<A>,
    b: Seq<B>,
    tree: T,
    meta: M,
)
    requires
        alike_where_they_rewrite::<T, M, A, B>(a, b),
    ensures
        pass(a, tree, meta, 0) == pass(b, tree, meta, 0),
        terminates(a, tree, meta) == terminates(b, tree, meta),
        terminates(a, tree, meta) ==> normal_form(a, tree, meta) == normal_form(b, tree, meta),
{
    lemma_pass_alike(a, b, tree, meta, 0);
    if terminates(a, tree, meta) {
        let passes = choose|n: nat| settles_within(a, tree, meta, n);
        lemma_passes_alike(a, b, tree, meta, passes);
        lemma_settled_is_normal_form(a, tree, meta, passes);
        lemma_settled_is_normal_form(b, tree, meta, passes);
    }
    if terminates(b, tree, meta) {
        let passes = choose|n: nat| settles_within(b, tree, meta, n);
        lemma_passes_alike(a, b, tree, meta, passes);
    }
}

proof fn lemma_attempt_alike<
    T: Tree,
    M,
    A: Rule<T, M>,
    B: Rule<T, M, Transform = A::Transform, Mutation = A::Mutation>,
>(
    a: Seq<A>,
    b: Seq<B>,
    node: T,
    meta: M,
    from: int,
)
    requires
        alike_where_they_rewrite::<T, M, A, B>(a, b),
    ensures
        attempt(a, node, meta, from) == attempt(b, node, meta, from),
    decreases a.len() - from,
{
    if 0 <= from < a.len() {
        assert(a[from].spec_apply(node, meta) == b[from].spec_apply(node, meta));
        lemma_attempt_alike(a, b, node, meta, from + 1);
    }
}

proof fn lemma_pass_alike<
    T: Tree,
    M,
    A: Rule<T, M>,
    B: Rule<T, M, Transform = A::Transform, Mutation = A::Mutation>,
>(
    a: Seq<A>,
    b: Seq<B>,
    node: T,
    meta: M,
    exclusion_depth: nat,
)
    requires
        alike_where_they_rewrite::<T, M, A, B>(a, b),
    ensures
        pass(a, node, meta, exclusion_depth) == pass(b, node, meta, exclusion_depth),
    decreases node.spec_height(), 1nat, 0nat,
{
    lemma_attempt_alike(a, b, node, meta, 0);
    if exclusion_depth > 0 {
        lemma_pass_children_alike(a, b, node, meta, (exclusion_depth - 1) as nat, 0);
    } else {
        match attempt(a, node, meta, 0) {
            Attempt::Rewritten(found) => {},
            Attempt::Ignored(depth) => {
                lemma_pass_children_alike(a, b, node, meta, depth as nat, 0);
            },
            Attempt::Pruned => {},
            Attempt::Exhausted => {
                lemma_pass_children_alike(a, b, node, meta, 0, 0);
            },
        }
    }
}

proof fn lemma_pass_children_alike<
    T: Tree,
    M,
    A: Rule<T, M>,
    B: Rule<T, M, Transform = A::Transform, Mutation = A::Mutation>,
>(
    a: Seq<A>,
    b: Seq<B>,
    node: T,
    meta: M,
    exclusion_depth: nat,
    from: int,
)
    requires
        alike_where_they_rewrite::<T, M, A, B>(a, b),
    ensures
        pass_children(a, node, meta, exclusion_depth, from) == pass_children(
            b,
            node,
            meta,
            exclusion_depth,
            from,
        ),
    decreases node.spec_height(), 0nat, node.spec_children().len() - from,
{
    let children = node.spec_children();
    if 0 <= from < children.len() {
        if is_lower(children[from], node) {
            lemma_pass_alike(a, b, children[from], meta, exclusion_depth);
        }
        lemma_pass_children_alike(a, b, node, meta, exclusion_depth, from + 1);
    }
}

proof fn lemma_passes_alike<
    T: Tree,
    M,
    A: Rule<T, M>,
    B: Rule<T, M, Transform = A::Transform, Mutation = A::Mutation>,
>(
    a: Seq<A>,
    b: Seq<B>,
    tree: T,
    meta: M,
    passes: nat,
)
    requires
        alike_where_they_rewrite::<T, M, A, B>(a, b),
    ensures
        settles_within(a, tree, meta, passes) == settles_within(b, tree, meta, passes),
        after_passes(a, tree, meta, passes) == after_passes(b, tree, meta, passes),
    decreases passes,
{
    lemma_pass_alike(a, b, tree, meta, 0);
    match step(a, tree, meta) {
        Some(next) => {
            if passes > 0 {
                lemma_passes_alike(a, b, next.0, next.1, (passes - 1) as nat);
            }
        },
        None => {},
    }
}

/// `Ignore(0)` is local: the node that asked for it is not rewritten in this
/// pass, and its subnodes are passed over as if nothing had been asked, each
/// offered to the rules in turn.
pub proof fn lemma_ignore_zero_is_local<T: Tree, M, R: Rule<T, M>>(
    rules: Seq<R>,
    node: T,
    meta: M,
)
    requires
        attempt(rules, node, meta, 0) == Attempt::<Rewrite<T, R::Transform, R::Mutation>>::Ignored(
            0,
        ),
    ensures
        pass(rules, node, meta, 0) == pass_children(rules, node, meta, 0, 0),
{
}

/// `Ignore(d)` shields the node and `d` further levels below it: the node
/// that asked for it is not rewritten in this pass, and its subnodes are
/// passed over under exclusion depth `d`.
pub proof fn lemma_ignore_shields_the_levels_below<T: Tree, M, R: Rule<T, M>>(
    rules: Seq<R>,
    node: T,
    meta: M,
    depth: u32,
)
    requires
        attempt(rules, node, meta, 0) == Attempt::<Rewrite<T, R::Transform, R::Mutation>>::Ignored(
            depth,
        ),
    ensures
        pass(rules, node, meta, 0) == pass_children(rules, node, meta, depth as nat, 0),
{
}

/// A rewrite that is found below a node leaves the node itself as it is:
/// the tree that comes back is the node around its subnodes, with the one
/// subnode replaced in which the rewrite was found.
pub proof fn lemma_rewrite_below_keeps_the_node<T: Tree, M, R: Rule<T, M>>(
    rules: Seq<R>,
    node: T,
    meta: M,
    exclusion_depth: nat,
    from: int,
) -> (at: int)
    requires
        0 <= from,
        pass_children(rules, node, meta, exclusion_depth, from) is Some,
    ensures
        from <= at < node.spec_children().len(),
        pass(rules, node.spec_children()[at], meta, exclusion_depth) is Some,
        pass_children(rules, node, meta, exclusion_depth, from) == Some(
            spliced(
                node,
                at,
                pass(rules, node.spec_children()[at], meta, exclusion_depth).unwrap(),
            ),
        ),
    decreases node.spec_children().len() - from,
{
    let children = node.spec_children();
    if is_lower(children[from], node) && pass(rules, children[from], meta, exclusion_depth)
        is Some {
        from
    } else {
        lemma_rewrite_below_keeps_the_node(rules, node, meta, exclusion_depth, from + 1)
    }
}

/// A node that lies under an exclusion depth above 0 is offered to no rule,
/// and its subnodes lie under an exclusion depth one less.
pub proof fn lemma_excluded_node_is_not_offered<T: Tree, M, R: Rule<T, M>>(
    rules: Seq<R>,
    node: T,
    meta: M,
    exclusion_depth: nat,
)
    requires
        exclusion_depth > 0,
    ensures
        pass(rules, node, meta, exclusion_depth) == pass_children(
            rules,
            node,
            meta,
            (exclusion_depth - 1) as nat,
            0,
        ),
{
}

/// `Prune` is total: the pass over a node that a rule prunes finds nothing,
/// whatever lies below the node and whatever the rules would answer there.
pub proof fn lemma_prune_ends_the_pass<T: Tree, M, R: Rule<T, M>>(rules: Seq<R>, node: T, meta: M)
    requires
        attempt(rules, node, meta, 0) == Attempt::<Rewrite<T, R::Transform, R::Mutation>>::Pruned,
    ensures
        pass(rules, node, meta, 0) is None,
{
}

/// Outermost first: where a rule rewrites a node, the pass over that node
/// returns this rewrite, whatever could be rewritten below it.
pub proof fn lemma_outermost_first<T: Tree, M, R: Rule<T, M>>(
    rules: Seq<R>,
    node: T,
    meta: M,
    found: Rewrite<T, R::Transform, R::Mutation>,
)
    requires
        attempt(rules, node, meta, 0) == Attempt::Rewritten(found),
    ensures
        pass(rules, node, meta, 0) == Some(found),
{
}

/// Leftmost first: among the subnodes of a node, the first one whose pass
/// finds a rewrite is the one that is replaced, whatever could be rewritten
/// in those to its right.
pub proof fn lemma_leftmost_first<T: Tree, M, R: Rule<T, M>>(
    rules: Seq<R>,
    node: T,
    meta: M,
    exclusion_depth: nat,
    at: int,
)
    requires
        0 <= at < node.spec_children().len(),
        forall|k: int|
            0 <= k < node.spec_children().len() ==> is_lower(
                #[trigger] node.spec_children()[k],
                node,
            ),
        forall|k: int|
            0 <= k < at ==> (#[trigger] pass(
                rules,
                node.spec_children()[k],
                meta,
                exclusion_depth,
            )) is None,
        pass(rules, node.spec_children()[at], meta, exclusion_depth) is Some,
    ensures
        pass_children(rules, node, meta, exclusion_depth, 0) == Some(
            spliced(
                node,
                at,
                pass(rules, node.spec_children()[at], meta, exclusion_depth).unwrap(),
            ),
        ),
{
    lemma_skip_to(rules, node, meta, exclusion_depth, at, 0);
}

proof fn lemma_skip_to<T: Tree, M, R: Rule<T, M>>(
    rules: Seq<R>,
    node: T,
    meta: M,
    exclusion_depth: nat,
    at: int,
    from: int,
)
    requires
        0 <= from <= at < node.spec_children().len(),
        forall|k: int|
            0 <= k < node.spec_children().len() ==> is_lower(
                #[trigger] node.spec_children()[k],
                node,
            ),
        forall|k: int|
            0 <= k < at ==> (#[trigger] pass(
                rules,
                node.spec_children()[k],
                meta,
                exclusion_depth,
            )) is None,
    ensures
        pass_children(rules, node, meta, exclusion_depth, from) == pass_children(
            rules,
            node,
            meta,
            exclusion_depth,
            at,
        ),
    decreases at - from,
{
    if from < at {
        assert(is_lower(node.spec_children()[from], node));
        assert(pass(rules, node.spec_children()[from], meta, exclusion_depth) is None);
        lemma_skip_to(rules, node, meta, exclusion_depth, at, from + 1);
    }
}

} // verus!
