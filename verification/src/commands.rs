use std::marker::PhantomData;
use vstd::prelude::*;

verus! {

/// A deferred transform of the whole tree.
///
/// The spec function is the model that the contracts of this crate speak
/// of. An implementation in verified code overrides it; as it stands it
/// describes a transform that leaves the tree as it is.
pub trait Transform<T> {
    /// The tree that this transform makes of `tree`.
    open spec fn spec_transform(&self, tree: T) -> T {
        tree
    }

    /// Returns the transformed tree.
    fn transform(&self, tree: T) -> (r: T)
        ensures
            r == self.spec_transform(tree),
    ;
}

/// A deferred mutation of the auxiliary state.
///
/// The spec function is the model that the contracts of this crate speak
/// of. An implementation in verified code overrides it; as it stands it
/// describes a mutation that leaves the state as it is.
pub trait Mutation<M> {
    /// The state that this mutation makes of `meta`.
    open spec fn spec_mutate(&self, meta: M) -> M {
        meta
    }

    /// Returns the mutated state.
    fn mutate(&self, meta: M) -> (r: M)
        ensures
            r == self.spec_mutate(meta),
    ;
}

/// The command of a rule that stages nothing. As a transform and as a
/// mutation it leaves its argument as it is.
#[derive(Debug, PartialEq, Eq)]
pub struct NoCommand;

impl<T> Transform<T> for NoCommand {
    fn transform(&self, tree: T) -> (r: T) {
        tree
    }
}

impl<M> Mutation<M> for NoCommand {
    fn mutate(&self, meta: M) -> (r: M) {
        meta
    }
}

/// `f` can be called on every argument and returns one result for each.
pub open spec fn is_function<A, F: Fn(A) -> A>(f: F) -> bool {
    &&& forall|a: A| call_requires(f, (a,))
    &&& forall|a: A, r1: A, r2: A|
        call_ensures(f, (a,), r1) && call_ensures(f, (a,), r2) ==> r1 == r2
}

/// What `f` returns for `a`, where `f` is a function.
pub open spec fn result_of<A, F: Fn(A) -> A>(f: F, a: A) -> A {
    choose|r: A| call_ensures(f, (a,), r)
}

/// A command that calls a function: as a transform it maps the tree, and as
/// a mutation the state, to what the function returns for it.
#[verifier::reject_recursive_types(A)]
pub struct FromFn<A, F: Fn(A) -> A> {
    f: F,
    of: PhantomData<A>,
}

impl<A, F: Fn(A) -> A> FromFn<A, F> {
    #[verifier::type_invariant]
    spec fn holds_a_function(self) -> bool {
        is_function::<A, F>(self.f)
    }

    /// The function that this command calls.
    pub closed spec fn spec_function(&self) -> F {
        self.f
    }

    /// The command that calls `f`.
    pub fn new(f: F) -> (r: Self)
        requires
            is_function(f),
        ensures
            r.spec_function() == f,
    {
        FromFn { f, of: PhantomData }
    }

    /// Calls the function on `a`.
    pub fn call(&self, a: A) -> (r: A)
        ensures
            r == result_of(self.spec_function(), a),
            call_ensures(self.spec_function(), (a,), r),
    {
        proof {
            use_type_invariant(self);
        }
        (self.f)(a)
    }
}

impl<A, F: Fn(A) -> A> Transform<A> for FromFn<A, F> {
    open spec fn spec_transform(&self, tree: A) -> A {
        result_of(self.spec_function(), tree)
    }

    fn transform(&self, tree: A) -> (r: A) {
        self.call(tree)
    }
}

impl<A, F: Fn(A) -> A> Mutation<A> for FromFn<A, F> {
    open spec fn spec_mutate(&self, meta: A) -> A {
        result_of(self.spec_function(), meta)
    }

    fn mutate(&self, meta: A) -> (r: A) {
        self.call(meta)
    }
}

/// One deferred effect: a transform of the whole tree, or a mutation of the
/// auxiliary state.
#[derive(Debug, PartialEq, Eq)]
pub enum Command<F, G> {
    /// Maps the whole tree to a new tree; the state stays.
    Transform(F),
    /// Maps the state to a new state; the tree stays.
    Mutate(G),
}

impl<F, G> Command<F, G> {
    /// The tree and state that this command makes of `tree` and `meta`.
    pub open spec fn spec_run<T, M>(self, tree: T, meta: M) -> (T, M) where
        F: Transform<T>,
        G: Mutation<M>,
    {
        match self {
            Command::Transform(f) => (f.spec_transform(tree), meta),
            Command::Mutate(g) => (tree, g.spec_mutate(meta)),
        }
    }

    /// Applies this command to `tree` and `meta`.
    pub fn run<T, M>(&self, tree: T, meta: M) -> (r: (T, M)) where
        F: Transform<T>,
        G: Mutation<M>,

        ensures
            r == self.spec_run(tree, meta),
    {
        match self {
            Command::Transform(f) => (f.transform(tree), meta),
            Command::Mutate(g) => (tree, g.mutate(meta)),
        }
    }
}

/// The tree and state that result from applying `staged` to `tree` and
/// `meta` one command after the other, the first one first, each to what the
/// ones before it produced.
pub open spec fn run_all<T, M, F: Transform<T>, G: Mutation<M>>(
    staged: Seq<Command<F, G>>,
    tree: T,
    meta: M,
) -> (T, M)
    decreases staged.len(),
{
    if staged.len() == 0 {
        (tree, meta)
    } else {
        let next = staged[0].spec_run(tree, meta);
        run_all(staged.drop_first(), next.0, next.1)
    }
}

/// The deferred effects that one rule stages while it is tried on one node,
/// in the order in which it staged them. They take effect only when they are
/// committed.
pub struct Commands<F, G> {
    queue: Vec<Command<F, G>>,
}

impl<F, G> View for Commands<F, G> {
    type V = Seq<Command<F, G>>;

    /// The staged commands, the first staged first.
    closed spec fn view(&self) -> Seq<Command<F, G>> {
        self.queue@
    }
}

impl<F, G> Commands<F, G> {
    /// An empty queue.
    pub fn new() -> (r: Self)
        ensures
            r@ == Seq::<Command<F, G>>::empty(),
    {
        Commands { queue: Vec::new() }
    }

    /// Stages a transform of the whole tree behind what is already staged.
    pub fn enqueue_transform(&mut self, f: F)
        ensures
            final(self)@ == old(self)@.push(Command::Transform(f)),
    {
        self.queue.push(Command::Transform(f));
    }

    /// Stages a mutation of the auxiliary state behind what is already
    /// staged.
    pub fn enqueue_state_mutation(&mut self, g: G)
        ensures
            final(self)@ == old(self)@.push(Command::Mutate(g)),
    {
        self.queue.push(Command::Mutate(g));
    }

    /// The number of staged commands.
    pub fn len(&self) -> (r: usize)
        ensures
            r == self@.len(),
    {
        self.queue.len()
    }

    /// Applies every staged command to `tree` and `meta`, the first staged
    /// first, each to what the ones before it produced, and leaves the queue
    /// empty.
    pub fn commit<T, M>(&mut self, tree: T, meta: M) -> (r: (T, M)) where
        F: Transform<T>,
        G: Mutation<M>,

        ensures
            r == run_all(old(self)@, tree, meta),
            final(self)@ == Seq::<Command<F, G>>::empty(),
    {
        let mut now_tree = tree;
        let mut now_meta = meta;
        let mut i: usize = 0;
        assert(self@.skip(0) =~= self@);
        while i < self.queue.len()
            invariant
                i <= self@.len(),
                self@ == old(self)@,
                self@ == self.queue@,
                run_all(self@.skip(i as int), now_tree, now_meta) == run_all(
                    old(self)@,
                    tree,
                    meta,
                ),
            decreases self@.len() - i,
        {
            proof {
                let rest = self@.skip(i as int);
                assert(rest[0] == self@[i as int]);
                assert(rest.drop_first() =~= self@.skip(i + 1));
            }
            let (next_tree, next_meta) = self.queue[i].run(now_tree, now_meta);
            now_tree = next_tree;
            now_meta = next_meta;
            i += 1;
        }
        self.queue.clear();
        (now_tree, now_meta)
    }

    /// Drops every staged command without applying any.
    pub fn discard(&mut self)
        ensures
            final(self)@ == Seq::<Command<F, G>>::empty(),
    {
        self.queue.clear();
    }
}

} // verus!
