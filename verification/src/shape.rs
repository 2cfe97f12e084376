//! The arithmetic of tree shapes.
//!
//! A tree instance is described by its leaf count and its arity: the leaf
//! count must be `arity^h` for some height `h >= 1` (each row above the
//! leaves is `arity` times smaller, down to the one-element root row). The
//! functions here define, over mathematical integers, which leaf counts are
//! admissible, how tall the resulting tree is, and how many nodes the rows
//! above the leaf row hold once a prefix of them is discarded.

use vstd::prelude::*;
use vstd::arithmetic::div_mod::{
    lemma_div_is_strictly_smaller, lemma_div_pos_is_pos, lemma_fundamental_div_mod,
};
use vstd::arithmetic::power::pow;

verus! {

/// Holds when a row of `row_size` nodes can be divided by `arity` again and
/// again until a single root node remains: that is, when `row_size` is a
/// power of `arity` (including `arity^0 == 1`).
pub open spec fn chain_ok(row_size: int, arity: int) -> bool
    decreases row_size,
{
    if arity < 2 || row_size < 1 {
        false
    } else if row_size == 1 {
        true
    } else if row_size % arity != 0 {
        false
    } else {
        proof {
            lemma_div_is_strictly_smaller(row_size, arity);
        }
        chain_ok(row_size / arity, arity)
    }
}

/// The number of rows strictly above a leaf row of `leaf_count` nodes.
pub open spec fn height_of(leaf_count: int, arity: int) -> int
    decreases leaf_count,
{
    if arity < 2 || leaf_count <= 1 {
        0
    } else {
        proof {
            lemma_div_is_strictly_smaller(leaf_count, arity);
        }
        1 + height_of(leaf_count / arity, arity)
    }
}

/// The total number of nodes in all rows strictly above a row of `row_size`
/// nodes.
pub open spec fn upper_tree_size(row_size: int, arity: int) -> int
    decreases row_size,
{
    if arity < 2 || row_size <= 1 {
        0
    } else {
        proof {
            lemma_div_is_strictly_smaller(row_size, arity);
        }
        row_size / arity + upper_tree_size(row_size / arity, arity)
    }
}

/// The number of nodes retained when the first `rows_to_discard` rows above
/// the leaf row are dropped: all rows above the leaves except those, root
/// included.
pub open spec fn tree_size_of(leaf_count: int, arity: int, rows_to_discard: int) -> int
    decreases rows_to_discard,
{
    if rows_to_discard <= 0 {
        upper_tree_size(leaf_count, arity)
    } else {
        tree_size_of(leaf_count / arity, arity, rows_to_discard - 1)
    }
}

/// The size of the buffer one build works in: the leaf row plus every row
/// above it.
pub open spec fn intermediate_size_of(leaf_count: int, arity: int) -> int {
    leaf_count + upper_tree_size(leaf_count, arity)
}

/// An admissible row of at least `arity` nodes shrinks to an admissible
/// next row of at least one node.
pub proof fn lemma_chain_step(row_size: int, arity: int)
    requires
        chain_ok(row_size, arity),
        row_size >= 2,
    ensures
        row_size % arity == 0,
        row_size / arity >= 1,
        row_size / arity < row_size,
        row_size >= arity,
        chain_ok(row_size / arity, arity),
    {
        lemma_div_pos_is_pos(row_size, arity);
        lemma_div_is_strictly_smaller(row_size, arity);
        lemma_fundamental_div_mod(row_size, arity);
        // row_size == arity * (row_size / arity); the quotient is at least 1,
        // so the product is at least arity.
        assert(row_size >= arity) by (nonlinear_arith)
            requires
                row_size == arity * (row_size / arity),
                row_size / arity >= 1,
                arity >= 2,
        {}
        if row_size / arity == 0 {
            assert(false);
        }
    }

/// The retained node count is a geometric sum: over an admissible leaf row,
/// `upper_tree_size` equals `(leaf_count - 1) / (arity - 1)` exactly.
pub proof fn lemma_upper_tree_size_geometric(leaf_count: int, arity: int)
    requires
        chain_ok(leaf_count, arity),
    ensures
        upper_tree_size(leaf_count, arity) * (arity - 1) == leaf_count - 1,
        0 <= upper_tree_size(leaf_count, arity) <= leaf_count - 1,
    decreases leaf_count,
{
    if leaf_count == 1 {
    } else {
        lemma_chain_step(leaf_count, arity);
        lemma_upper_tree_size_geometric(leaf_count / arity, arity);
        let q = leaf_count / arity;
        let u = upper_tree_size(q, arity);
        lemma_fundamental_div_mod(leaf_count, arity);
        assert((q + u) * (arity - 1) == leaf_count - 1) by (nonlinear_arith)
            requires
                u * (arity - 1) == q - 1,
                leaf_count == arity * q,
        {}
        assert(q + u <= leaf_count - 1) by (nonlinear_arith)
            requires
                (q + u) * (arity - 1) == leaf_count - 1,
                q + u >= 0,
                arity >= 2,
        {}
    }
}

/// A tree of at least two leaves keeps at least its root row above the
/// leaves; a single-leaf row keeps nothing.
pub proof fn lemma_upper_tree_size_positive(leaf_count: int, arity: int)
    requires
        chain_ok(leaf_count, arity),
        leaf_count >= 2,
    ensures
        upper_tree_size(leaf_count, arity) >= 1,
{
    lemma_chain_step(leaf_count, arity);
    lemma_upper_tree_size_geometric(leaf_count / arity, arity);
}

/// The height never exceeds the leaf count.
pub proof fn lemma_height_bound(leaf_count: int, arity: int)
    requires
        chain_ok(leaf_count, arity),
    ensures
        0 <= height_of(leaf_count, arity) < leaf_count || leaf_count == 1,
        leaf_count == 1 ==> height_of(leaf_count, arity) == 0,
    decreases leaf_count,
{
    if leaf_count >= 2 {
        lemma_chain_step(leaf_count, arity);
        lemma_height_bound(leaf_count / arity, arity);
    }
}

/// Retaining rows after a valid discard always keeps the root: the retained
/// count is at least one and never more than the whole upper tree.
pub proof fn lemma_tree_size_bounds(leaf_count: int, arity: int, rows_to_discard: int)
    requires
        chain_ok(leaf_count, arity),
        0 <= rows_to_discard < height_of(leaf_count, arity),
    ensures
        1 <= tree_size_of(leaf_count, arity, rows_to_discard)
            <= upper_tree_size(leaf_count, arity),
    decreases rows_to_discard,
{
    lemma_chain_step(leaf_count, arity);
    if rows_to_discard == 0 {
        lemma_upper_tree_size_positive(leaf_count, arity);
    } else {
        lemma_tree_size_bounds(leaf_count / arity, arity, rows_to_discard - 1);
        // Rows above the next row are a subset of the rows above this one.
        assert(upper_tree_size(leaf_count / arity, arity)
            <= upper_tree_size(leaf_count, arity));
    }
}

/// No row count is negative, whatever stands above.
pub proof fn lemma_upper_tree_size_nonneg(row_size: int, arity: int)
    ensures
        upper_tree_size(row_size, arity) >= 0,
    decreases row_size,
{
    if arity >= 2 && row_size >= 2 {
        lemma_div_pos_is_pos(row_size, arity);
        lemma_div_is_strictly_smaller(row_size, arity);
        lemma_upper_tree_size_nonneg(row_size / arity, arity);
    }
}

/// For any discard count at all, the retained node count stays between
/// zero and the whole upper tree.
pub proof fn lemma_tree_size_general_bounds(leaf_count: int, arity: int, rows_to_discard: int)
    requires
        arity >= 2,
        leaf_count >= 0,
        rows_to_discard >= 0,
    ensures
        0 <= tree_size_of(leaf_count, arity, rows_to_discard) <= upper_tree_size(
            leaf_count,
            arity,
        ),
    decreases rows_to_discard,
{
    lemma_upper_tree_size_nonneg(leaf_count, arity);
    if rows_to_discard == 0 {
    } else {
        lemma_div_pos_is_pos(leaf_count, arity);
        lemma_tree_size_general_bounds(leaf_count / arity, arity, rows_to_discard - 1);
        if leaf_count <= 1 {
            vstd::arithmetic::div_mod::lemma_basic_div(leaf_count, arity);
        } else {
            lemma_upper_tree_size_nonneg(leaf_count / arity, arity);
        }
    }
}

/// Every power of the arity is an admissible leaf count, and its height is
/// exactly the exponent. With `lemma_upper_tree_size_geometric` this gives
/// the closed forms: a tree over `arity^h` leaves has height `h` and keeps
/// `(arity^h - 1) / (arity - 1)` nodes above the leaves when nothing is
/// discarded.
pub proof fn lemma_power_shape(arity: int, h: nat)
    requires
        arity >= 2,
    ensures
        chain_ok(pow(arity, h), arity),
        height_of(pow(arity, h), arity) == h,
        pow(arity, h) >= 1,
    decreases h,
{
    reveal(pow);
    if h == 0 {
        assert(pow(arity, 0) == 1);
    } else {
        lemma_power_shape(arity, (h - 1) as nat);
        let p = pow(arity, (h - 1) as nat);
        assert(pow(arity, h) == arity * p);
        assert(arity * p >= arity) by (nonlinear_arith)
            requires
                p >= 1,
                arity >= 2,
        {}
        assert((arity * p) % arity == 0 && (arity * p) / arity == p) by (nonlinear_arith)
            requires
                arity >= 2,
                p >= 1,
        {}
    }
}

/// Any parent position in the flat buffer reads its whole preimage from
/// positions strictly before it: if node `leaf_count + j` exists in the
/// upper tree, the `arity` inputs it hashes end at `j * arity + arity`,
/// which is no later than `leaf_count + j` itself.
pub proof fn lemma_parent_reads_below(leaf_count: int, arity: int, j: int)
    requires
        chain_ok(leaf_count, arity),
        0 <= j < upper_tree_size(leaf_count, arity),
    ensures
        j * arity + arity <= leaf_count + j,
    {
        lemma_upper_tree_size_geometric(leaf_count, arity);
        let u = upper_tree_size(leaf_count, arity);
        assert(j * arity + arity <= leaf_count + j) by (nonlinear_arith)
            requires
                u * (arity - 1) == leaf_count - 1,
                0 <= j <= u - 1,
                arity >= 2,
        {}
    }

} // verus!
