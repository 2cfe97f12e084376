//! The guarantees that relate whole builds to one another.
//!
//! Each lemma here is a statement about the build results that the
//! builders' own contracts pin down: those contracts express every result
//! through `flat_tree`, so a law about `flat_tree` is a law about what any
//! sequence of builder calls can return.

use vstd::prelude::*;
use crate::field::Scalar;
use crate::hasher::{engine_fn, BatchHasher, HashEngine};
use crate::model::{
    flat_tree, lemma_flat_tree_congruence, lemma_flat_tree_len, lemma_flat_tree_uniform,
    seq_write, uniform_root,
};
use crate::shape::{
    chain_ok, height_of, intermediate_size_of, lemma_tree_size_bounds,
    lemma_upper_tree_size_geometric, tree_size_of,
};
use crate::tree_builder::TreeBuilder;

verus! {

/// For every valid discard count the retained snapshot has exactly
/// `tree_size(rows_to_discard)` nodes, and its last node — the root — is
/// the same whatever the discard count: discarding near-leaf rows never
/// changes the root.
pub proof fn lemma_root_independent_of_discard(
    leaves: Seq<Scalar>,
    arity: int,
    h: spec_fn(Seq<Scalar>) -> Scalar,
    r1: int,
    r2: int,
)
    requires
        chain_ok(leaves.len() as int, arity),
        0 <= r1 < height_of(leaves.len() as int, arity),
        0 <= r2 < height_of(leaves.len() as int, arity),
    ensures
        ({
            let lc = leaves.len() as int;
            let isize = intermediate_size_of(lc, arity);
            let t = flat_tree(leaves, arity, h);
            let k1 = tree_size_of(lc, arity, r1);
            let k2 = tree_size_of(lc, arity, r2);
            &&& t.skip(isize - k1).len() == k1
            &&& t.skip(isize - k2).len() == k2
            &&& t.skip(isize - k1).last() == t.skip(isize - k2).last()
            &&& t.skip(isize - k1).last() == t.last()
        }),
{
    let lc = leaves.len() as int;
    lemma_flat_tree_len(leaves, arity, h);
    lemma_tree_size_bounds(lc, arity, r1);
    lemma_tree_size_bounds(lc, arity, r2);
    lemma_upper_tree_size_geometric(lc, arity);
}

/// Determinism: a build's output is a pure function of the leaf sequence
/// and of the hash function the configured backend computes. Two builders
/// whose backends compute the same hash — in particular, two builders
/// configured identically — produce the same intermediate tree from the
/// same leaves, and hence byte-identical `base_row` and `tree_to_keep`.
pub proof fn lemma_build_deterministic<E: HashEngine, B: BatchHasher>(
    b1: TreeBuilder<E, B>,
    b2: TreeBuilder<E, B>,
    leaves: Seq<Scalar>,
)
    requires
        b1.arity == b2.arity,
        forall|p: Seq<Scalar>| #[trigger] b1.hash_fn()(p) == b2.hash_fn()(p),
    ensures
        flat_tree(leaves, b1.arity as int, b1.hash_fn()) == flat_tree(
            leaves,
            b2.arity as int,
            b2.hash_fn(),
        ),
{
    lemma_flat_tree_congruence(leaves, b1.arity as int, b1.hash_fn(), b2.hash_fn());
}

/// Backend-agnosticism: a builder with no backend and a builder with any
/// batching backend that computes the scalar engine's hash produce the
/// same intermediate tree from the same leaves. The build contracts never
/// mention the backend's `max_batch_size`, so this holds for every batch
/// bound of at least one: chunking changes the work schedule, never the
/// result.
pub proof fn lemma_backend_agnostic<E: HashEngine, B: BatchHasher>(
    scalar: TreeBuilder<E, B>,
    batched: TreeBuilder<E, B>,
    leaves: Seq<Scalar>,
)
    requires
        scalar.arity == batched.arity,
        scalar.tree_batcher is None,
        (batched.tree_batcher matches Some(b) && forall|p: Seq<Scalar>|
            #[trigger] b.hash_spec(p) == E::hash_spec(scalar.engine.strength_spec(), p)),
    ensures
        flat_tree(leaves, batched.arity as int, batched.hash_fn()) == flat_tree(
            leaves,
            scalar.arity as int,
            scalar.hash_fn(),
        ),
{
    assert forall|p: Seq<Scalar>| #[trigger] batched.hash_fn()(p) == scalar.hash_fn()(p) by {}
    lemma_flat_tree_congruence(leaves, scalar.arity as int, batched.hash_fn(), scalar.hash_fn());
}

/// Uniform-tree equivalence: building from `leaf_count` copies of one
/// value yields the root that `compute_uniform_tree_root` computes, for
/// any backend that computes the scalar engine's hash.
pub proof fn lemma_uniform_root_equivalence<E: HashEngine, B: BatchHasher>(
    b: TreeBuilder<E, B>,
    leaves: Seq<Scalar>,
    c: Scalar,
)
    requires
        b.wf(),
        leaves.len() == b.leaf_count,
        forall|i: int| 0 <= i < leaves.len() ==> leaves[i] == c,
        forall|p: Seq<Scalar>| #[trigger] b.hash_fn()(p) == engine_fn(b.engine)(p),
    ensures
        flat_tree(leaves, b.arity as int, b.hash_fn()).last() == uniform_root(
            c,
            b.arity as int,
            height_of(b.leaf_count as int, b.arity as int) as nat,
            engine_fn(b.engine),
        ),
{
    lemma_flat_tree_congruence(leaves, b.arity as int, b.hash_fn(), engine_fn(b.engine));
    lemma_flat_tree_uniform(leaves, c, b.arity as int, engine_fn(b.engine));
}

/// Splitting an append in two changes nothing: filling a buffer with `xs`
/// and then `ys` right after it leaves the buffer exactly as one combined
/// append of `xs + ys` would — which is why `add_leaves` calls compose.
pub proof fn lemma_split_append(d: Seq<Scalar>, at: int, xs: Seq<Scalar>, ys: Seq<Scalar>)
    requires
        0 <= at,
        at + xs.len() + ys.len() <= d.len(),
    ensures
        seq_write(seq_write(d, at, xs), at + xs.len(), ys) == seq_write(d, at, xs + ys),
{
    assert(seq_write(seq_write(d, at, xs), at + xs.len(), ys) =~= seq_write(d, at, xs + ys));
}

} // verus!
