//! The mathematical model of one tree build.
//!
//! A build is a pure function of the leaf row and of the hash function the
//! configured backend computes. `flat_tree` gives the contents of the whole
//! intermediate buffer — the leaf row followed by every computed row, root
//! last — and the lemmas here characterize it: its length, its heap-style
//! parent equation, its invariance under equal hash functions, and its root
//! over uniform leaves.

use vstd::prelude::*;
use crate::field::Scalar;
use crate::shape::{
    chain_ok, height_of, intermediate_size_of, lemma_chain_step, upper_tree_size,
};

verus! {

/// The row above `row`: element `j` is the hash of the `j`-th `arity`-tuple
/// of `row`.
pub open spec fn hash_row(
    row: Seq<Scalar>,
    arity: int,
    h: spec_fn(Seq<Scalar>) -> Scalar,
) -> Seq<Scalar> {
    Seq::new(
        (row.len() as int / arity) as nat,
        |j: int| h(row.subrange(j * arity, j * arity + arity)),
    )
}

/// The whole intermediate buffer a build produces from `leaves`: the leaf
/// row, then each row computed from the one before it, ending with the
/// one-element root row.
pub open spec fn flat_tree(
    leaves: Seq<Scalar>,
    arity: int,
    h: spec_fn(Seq<Scalar>) -> Scalar,
) -> Seq<Scalar>
    decreases leaves.len(),
{
    if arity < 2 || leaves.len() <= 1 {
        leaves
    } else {
        proof {
            vstd::arithmetic::div_mod::lemma_div_is_strictly_smaller(
                leaves.len() as int,
                arity,
            );
        }
        leaves + flat_tree(hash_row(leaves, arity, h), arity, h)
    }
}

/// A row of `n` copies of one value.
pub open spec fn const_row(c: Scalar, n: nat) -> Seq<Scalar> {
    Seq::new(n, |i: int| c)
}

/// The root of a tree whose leaves are all `leaf`, computed by hashing
/// `arity` copies of the running value once per level.
pub open spec fn uniform_root(
    leaf: Scalar,
    arity: int,
    levels: nat,
    h: spec_fn(Seq<Scalar>) -> Scalar,
) -> Scalar
    decreases levels,
{
    if levels == 0 {
        leaf
    } else {
        uniform_root(h(const_row(leaf, arity as nat)), arity, (levels - 1) as nat, h)
    }
}

/// `d` with the region starting at `at` overwritten by `xs`.
pub open spec fn seq_write(d: Seq<Scalar>, at: int, xs: Seq<Scalar>) -> Seq<Scalar> {
    d.take(at) + xs + d.skip(at + xs.len())
}

/// A build's buffer starts with the leaf row and has room for every row
/// above it.
pub proof fn lemma_flat_tree_len(
    leaves: Seq<Scalar>,
    arity: int,
    h: spec_fn(Seq<Scalar>) -> Scalar,
)
    requires
        chain_ok(leaves.len() as int, arity),
    ensures
        flat_tree(leaves, arity, h).len() == intermediate_size_of(leaves.len() as int, arity),
        flat_tree(leaves, arity, h).take(leaves.len() as int) == leaves,
    decreases leaves.len(),
{
    let t = flat_tree(leaves, arity, h);
    if leaves.len() <= 1 {
        assert(t.take(leaves.len() as int) =~= leaves);
    } else {
        lemma_chain_step(leaves.len() as int, arity);
        let row = hash_row(leaves, arity, h);
        lemma_flat_tree_len(row, arity, h);
        assert(t.take(leaves.len() as int) =~= leaves);
    }
}

/// The heap equation of the flat buffer: the node at position
/// `leaf_count + j` is the hash of the `arity` consecutive nodes starting
/// at position `j * arity`. This is what both the batched and the scalar
/// build loops establish position by position.
pub proof fn lemma_flat_tree_parent(
    leaves: Seq<Scalar>,
    arity: int,
    h: spec_fn(Seq<Scalar>) -> Scalar,
    j: int,
)
    requires
        chain_ok(leaves.len() as int, arity),
        0 <= j,
        leaves.len() + j < flat_tree(leaves, arity, h).len(),
    ensures
        flat_tree(leaves, arity, h)[leaves.len() + j] == h(
            flat_tree(leaves, arity, h).subrange(j * arity, j * arity + arity),
        ),
    decreases leaves.len(),
{
    let lc = leaves.len() as int;
    let t = flat_tree(leaves, arity, h);
    lemma_flat_tree_len(leaves, arity, h);
    lemma_chain_step(lc, arity);
    let row = hash_row(leaves, arity, h);
    let t1 = flat_tree(row, arity, h);
    lemma_flat_tree_len(row, arity, h);
    crate::shape::lemma_parent_reads_below(lc, arity, j);
    vstd::arithmetic::div_mod::lemma_fundamental_div_mod(lc, arity);
    if j < lc / arity {
        // The node lies in the first computed row; its preimage is a tuple
        // of the leaf row itself.
        assert(t[lc + j] == row[j]);
        assert(row[j] == h(leaves.subrange(j * arity, j * arity + arity)));
        assert(j * arity + arity <= lc) by (nonlinear_arith)
            requires
                0 <= j,
                j + 1 <= lc / arity,
                arity >= 2,
                lc == arity * (lc / arity),
        {}
        assert(t.subrange(j * arity, j * arity + arity) =~= leaves.subrange(
            j * arity,
            j * arity + arity,
        ));
    } else {
        // The node lies above the first computed row; recurse into the tree
        // built over that row, which is embedded at offset `lc`.
        let j1 = j - lc / arity;
        lemma_flat_tree_parent(row, arity, h, j1);
        assert(t[lc + j] == t1[row.len() + j1]);
        // Positions translate by `lc`: tuple `j` of the whole buffer is
        // tuple `j1` of the embedded buffer.
        assert(j * arity == lc + j1 * arity) by (nonlinear_arith)
            requires
                j == lc / arity + j1,
                lc == arity * (lc / arity),
        {}
        assert(t.subrange(j * arity, j * arity + arity) =~= t1.subrange(
            j1 * arity,
            j1 * arity + arity,
        ));
    }
}

/// Builds are deterministic in the hash function: two backends that compute
/// the same function of each preimage tuple produce the same buffer, row
/// for row, whatever their batch sizes. Together with `flat_tree` being a
/// function of the leaves alone, this is why a build's output depends only
/// on the leaf sequence and the hash the backend computes.
pub proof fn lemma_flat_tree_congruence(
    leaves: Seq<Scalar>,
    arity: int,
    h1: spec_fn(Seq<Scalar>) -> Scalar,
    h2: spec_fn(Seq<Scalar>) -> Scalar,
)
    requires
        forall|p: Seq<Scalar>| #[trigger] h1(p) == h2(p),
    ensures
        flat_tree(leaves, arity, h1) == flat_tree(leaves, arity, h2),
    decreases leaves.len(),
{
    if arity < 2 || leaves.len() <= 1 {
    } else {
        vstd::arithmetic::div_mod::lemma_div_is_strictly_smaller(leaves.len() as int, arity);
        assert(hash_row(leaves, arity, h1) =~= hash_row(leaves, arity, h2));
        lemma_flat_tree_congruence(hash_row(leaves, arity, h1), arity, h1, h2);
    }
}

/// Over uniform leaves the whole build collapses: the root of the tree over
/// `leaf_count` copies of one value equals the `height`-fold iterated hash
/// of `arity` copies of it, so it can be checked in time proportional to
/// the height.
pub proof fn lemma_flat_tree_uniform(
    leaves: Seq<Scalar>,
    c: Scalar,
    arity: int,
    h: spec_fn(Seq<Scalar>) -> Scalar,
)
    requires
        chain_ok(leaves.len() as int, arity),
        forall|i: int| 0 <= i < leaves.len() ==> leaves[i] == c,
    ensures
        flat_tree(leaves, arity, h).last() == uniform_root(
            c,
            arity,
            height_of(leaves.len() as int, arity) as nat,
            h,
        ),
    decreases leaves.len(),
{
    let lc = leaves.len() as int;
    let t = flat_tree(leaves, arity, h);
    if lc == 1 {
        assert(t.last() == leaves[0]);
    } else {
        lemma_chain_step(lc, arity);
        let row = hash_row(leaves, arity, h);
        let c1 = h(const_row(c, arity as nat));
        vstd::arithmetic::div_mod::lemma_fundamental_div_mod(lc, arity);
        assert forall|j: int| 0 <= j < row.len() implies row[j] == c1 by {
            assert(j * arity + arity <= lc) by (nonlinear_arith)
                requires
                    0 <= j,
                    j + 1 <= lc / arity,
                    arity >= 2,
                    lc == arity * (lc / arity),
            {}
            assert(j * arity >= 0) by (nonlinear_arith)
                requires
                    0 <= j,
                    arity >= 2,
            {}
            assert(leaves.subrange(j * arity, j * arity + arity) =~= const_row(
                c,
                arity as nat,
            ));
        }
        lemma_flat_tree_uniform(row, c1, arity, h);
        let t1 = flat_tree(row, arity, h);
        lemma_flat_tree_len(row, arity, h);
        crate::shape::lemma_upper_tree_size_geometric(row.len() as int, arity);
        assert(t1.len() >= 1);
        assert(t.last() == t1.last());
        crate::shape::lemma_height_bound(lc, arity);
        crate::shape::lemma_height_bound(lc / arity, arity);
        let levels = height_of(lc, arity) as nat;
        assert(height_of(lc, arity) == 1 + height_of(lc / arity, arity));
        assert(row.len() as int == lc / arity);
        assert(height_of(row.len() as int, arity) as nat == (levels - 1) as nat);
        assert(uniform_root(c, arity, levels, h) == uniform_root(
            c1,
            arity,
            (levels - 1) as nat,
            h,
        ));
    }
}

} // verus!
