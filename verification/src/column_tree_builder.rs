//! The two-stage builder: a column-hashing stage in front of a tree stage.
//!
//! Each column — a `column_arity`-tuple of field elements — is collapsed to
//! a single leaf value, written into the shared buffer at the fill cursor.
//! When the leaf row is complete, the embedded `TreeBuilder` runs the tree
//! algorithm over that same buffer: the column stage fills `[0,
//! leaf_count)` and the tree stage grows the rows above it in place, so no
//! second allocation ever happens.

use vstd::prelude::*;
use vstd::slice::slice_subrange;
use crate::error::Error;
use crate::field::Scalar;
use crate::hasher::{batch_fn, engine_fn, BatchHasher, HashEngine, DEFAULT_STRENGTH};
use crate::model::{flat_tree, hash_row, seq_write, uniform_root};
use crate::shape::{chain_ok, height_of, intermediate_size_of, tree_size_of};
use crate::tree_builder::TreeBuilder;

verus! {

/// Composes a column-hashing stage with an embedded tree stage over one
/// shared buffer.
pub struct ColumnTreeBuilder<E: HashEngine, B: BatchHasher> {
    pub leaf_count: usize,
    /// Elements per column; each column becomes one leaf.
    pub column_arity: usize,
    /// The shared buffer: leaf row first, tree rows above it.
    pub data: Vec<Scalar>,
    /// Index of the first unfilled leaf slot.
    pub fill_index: usize,
    /// The scalar engine of the column stage.
    pub column_engine: E,
    /// The batched backend of the column stage, if one is configured.
    pub column_batcher: Option<B>,
    /// The embedded tree stage; it owns no buffer of its own.
    pub tree_builder: TreeBuilder<E, B>,
}

impl<E: HashEngine, B: BatchHasher> ColumnTreeBuilder<E, B> {
    /// The hash function the column stage computes with.
    pub open spec fn column_hash_fn(&self) -> spec_fn(Seq<Scalar>) -> Scalar {
        match self.column_batcher {
            Some(b) => batch_fn(b),
            None => engine_fn(self.column_engine),
        }
    }

    /// The structural invariant: a well-formed embedded builder of the same
    /// leaf count, bound to no buffer of its own and discarding nothing,
    /// and a shared buffer that covers at least the leaf row.
    pub open spec fn wf(&self) -> bool {
        &&& self.column_arity >= 1
        &&& (self.column_batcher matches Some(b) ==> b.max_spec() >= 1)
        &&& self.tree_builder.wf()
        &&& self.tree_builder.leaf_count == self.leaf_count
        &&& self.tree_builder.rows_to_discard == 0
        &&& self.tree_builder.data is None
        &&& self.tree_builder.fill_index == 0
        &&& self.fill_index <= self.leaf_count
        &&& self.data@.len() >= self.leaf_count
    }

    /// The configuration fields, which no append or build ever changes.
    pub open spec fn same_config(&self, other: &Self) -> bool {
        &&& self.leaf_count == other.leaf_count
        &&& self.column_arity == other.column_arity
        &&& self.column_engine == other.column_engine
        &&& self.column_batcher == other.column_batcher
        &&& self.tree_builder == other.tree_builder
    }

    /// Creates a two-stage builder over a caller-supplied buffer. Each
    /// stage gets its own backend handle so that, when both are
    /// accelerated, the caller can wire them to one shared device session
    /// at construction time.
    pub fn new(
        column_batcher: Option<B>,
        tree_batcher: Option<B>,
        column_arity: usize,
        tree_arity: usize,
        leaf_count: usize,
        data_buf: Vec<Scalar>,
    ) -> (r: Result<Self, Error>)
        requires
            column_arity >= 1,
            tree_arity >= 2,
            chain_ok(leaf_count as int, tree_arity as int),
            0 < height_of(leaf_count as int, tree_arity as int),
            intermediate_size_of(leaf_count as int, tree_arity as int) <= usize::MAX as int,
            (column_batcher matches Some(b) ==> b.max_spec() >= 1),
            (tree_batcher matches Some(b) ==> b.max_spec() >= 1),
            data_buf@.len() >= leaf_count,
        ensures
            (r matches Ok(c) && {
                &&& c.leaf_count == leaf_count
                &&& c.column_arity == column_arity
                &&& c.data == data_buf
                &&& c.fill_index == 0
                &&& c.column_engine.strength_spec() == DEFAULT_STRENGTH
                &&& c.column_batcher == column_batcher
                &&& c.tree_builder.arity == tree_arity
                &&& c.tree_builder.tree_batcher == tree_batcher
                &&& c.tree_builder.engine.strength_spec() == DEFAULT_STRENGTH
                &&& c.wf()
            }),
    {
        let tree_builder = match TreeBuilder::<E, B>::new(
            tree_batcher,
            tree_arity,
            leaf_count,
            0,
            None,
        ) {
            Ok(t) => t,
            Err(e) => {
                return Err(e);
            },
        };
        Ok(
            ColumnTreeBuilder {
                leaf_count,
                column_arity,
                data: data_buf,
                fill_index: 0,
                column_engine: E::with_strength(DEFAULT_STRENGTH),
                column_batcher,
                tree_builder,
            },
        )
    }

    /// Collapses each column to one leaf value — through the column-stage
    /// backend when one is configured, else the scalar engine — and writes
    /// the values at the fill cursor. Fails with `Capacity`, changing
    /// nothing, when the columns would not fit; a backend failure is also
    /// propagated with nothing changed.
    #[verifier::loop_isolation(false)]
    pub fn add_columns(&mut self, columns: &[Scalar]) -> (r: Result<(), Error>)
        requires
            old(self).wf(),
            columns@.len() as int % (old(self).column_arity as int) == 0,
        ensures
            final(self).wf(),
            final(self).same_config(old(self)),
            ({
                let ca = old(self).column_arity as int;
                let count = columns@.len() as int / ca;
                let hashes = hash_row(columns@, ca, old(self).column_hash_fn());
                match r {
                    Ok(()) => {
                        &&& old(self).fill_index + count <= old(self).leaf_count
                        &&& final(self).fill_index == old(self).fill_index + count
                        &&& final(self).data@ == seq_write(
                            old(self).data@,
                            old(self).fill_index as int,
                            hashes,
                        )
                    },
                    Err(e) => {
                        &&& *final(self) == *old(self)
                        &&& (old(self).fill_index + count > old(self).leaf_count ==> e
                            == Error::Capacity)
                        &&& (old(self).fill_index + count <= old(self).leaf_count ==> old(
                            self,
                        ).column_batcher is Some)
                    },
                }
            }),
            (old(self).fill_index + columns@.len() as int / (old(self).column_arity as int) <= old(
                self,
            ).leaf_count && old(self).column_batcher is None) ==> r is Ok,
    {
        let column_arity = self.column_arity;
        let n = columns.len();
        let column_count = n / column_arity;
        proof {
            vstd::arithmetic::div_mod::lemma_fundamental_div_mod(n as int, column_arity as int);
        }
        if column_count > self.leaf_count - self.fill_index {
            return Err(Error::Capacity);
        }
        let start = self.fill_index;
        let ghost od = self.data@;
        let ghost hashes = hash_row(columns@, column_arity as int, self.column_hash_fn());
        match &self.column_batcher {
            Some(batcher) => {
                // Collapse the columns in chunks of at most the backend's
                // advertised batch size, collecting every output before the
                // buffer is touched, so that a failing call changes nothing.
                let max = batcher.max_batch_size();
                let mut out: Vec<Scalar> = Vec::new();
                let mut done: usize = 0;
                while done < column_count
                    invariant
                        0 <= done <= column_count,
                        out@.len() == done,
                        forall|j: int| 0 <= j < done ==> out@[j] == hashes[j],
                    decreases column_count - done,
                {
                    let remaining = column_count - done;
                    let chunk = if max < remaining {
                        max
                    } else {
                        remaining
                    };
                    proof {
                        assert(column_count * (column_arity as int) == n) by (nonlinear_arith)
                            requires
                                n as int == (column_arity as int) * (column_count as int),
                        {}
                        assert(done * (column_arity as int) >= 0) by (nonlinear_arith)
                            requires
                                done >= 0,
                                column_arity >= 1,
                        {}
                        assert(done * (column_arity as int) + chunk * (column_arity as int)
                            <= column_count * (column_arity as int)) by (nonlinear_arith)
                            requires
                                0 <= done,
                                0 <= chunk,
                                done + chunk <= column_count,
                                column_arity >= 1,
                        {}
                        assert((chunk * (column_arity as int)) % (column_arity as int) == 0
                            && (chunk * (column_arity as int)) / (column_arity as int)
                            == chunk) by (nonlinear_arith)
                            requires
                                column_arity >= 1,
                                chunk >= 0,
                        {}
                    }
                    let sub = slice_subrange(
                        columns,
                        done * column_arity,
                        done * column_arity + chunk * column_arity,
                    );
                    let mut v = match batcher.hash(sub, column_arity) {
                        Ok(v) => v,
                        Err(e) => {
                            return Err(e);
                        },
                    };
                    proof {
                        assert forall|t: int| 0 <= t < chunk implies v@[t] == hashes[done + t] by {
                            assert((done + t) * (column_arity as int) == done * (
                            column_arity as int) + t * (column_arity as int))
                                by (nonlinear_arith)
                            {}
                            assert(t * (column_arity as int) >= 0) by (nonlinear_arith)
                                requires
                                    t >= 0,
                                    column_arity >= 1,
                            {}
                            assert(t * (column_arity as int) + column_arity <= chunk * (
                            column_arity as int)) by (nonlinear_arith)
                                requires
                                    0 <= t < chunk,
                                    column_arity >= 1,
                            {}
                            assert(sub@.subrange(
                                t * (column_arity as int),
                                t * (column_arity as int) + column_arity as int,
                            ) =~= columns@.subrange(
                                (done + t) * (column_arity as int),
                                (done + t) * (column_arity as int) + column_arity as int,
                            ));
                        }
                    }
                    out.append(&mut v);
                    done = done + chunk;
                }
                let mut w: usize = 0;
                while w < column_count
                    invariant
                        0 <= w <= column_count,
                        out@.len() == column_count,
                        self.data@.len() == od.len(),
                        self.fill_index == old(self).fill_index,
                        self.leaf_count == old(self).leaf_count,
                        self.column_arity == old(self).column_arity,
                        self.column_engine == old(self).column_engine,
                        self.column_batcher == old(self).column_batcher,
                        self.tree_builder == old(self).tree_builder,
                        forall|k: int| 0 <= k < w ==> self.data@[start + k] == hashes[k],
                        forall|k: int| 0 <= k < start ==> self.data@[k] == od[k],
                        forall|k: int| start + w <= k < od.len() ==> self.data@[k] == od[k],
                    decreases column_count - w,
                {
                    proof {
                        assert(out@[w as int] == hashes[w as int]);
                    }
                    let v = out[w];
                    self.data.set(start + w, v);
                    w = w + 1;
                }
            },
            None => {
                let mut w: usize = 0;
                while w < column_count
                    invariant
                        0 <= w <= column_count,
                        self.data@.len() == od.len(),
                        self.fill_index == old(self).fill_index,
                        self.leaf_count == old(self).leaf_count,
                        self.column_arity == old(self).column_arity,
                        self.column_engine == old(self).column_engine,
                        self.column_batcher == old(self).column_batcher,
                        self.tree_builder == old(self).tree_builder,
                        forall|k: int| 0 <= k < w ==> self.data@[start + k] == hashes[k],
                        forall|k: int| 0 <= k < start ==> self.data@[k] == od[k],
                        forall|k: int| start + w <= k < od.len() ==> self.data@[k] == od[k],
                    decreases column_count - w,
                {
                    proof {
                        assert(w * (column_arity as int) + column_arity <= column_count * (
                        column_arity as int)) by (nonlinear_arith)
                            requires
                                0 <= w < column_count,
                                column_arity >= 1,
                        {}
                        assert(w * (column_arity as int) >= 0) by (nonlinear_arith)
                            requires
                                0 <= w,
                                column_arity >= 1,
                        {}
                        assert(column_count * (column_arity as int) <= n) by (nonlinear_arith)
                            requires
                                n as int == (column_arity as int) * (column_count as int),
                        {}
                    }
                    let preimage = slice_subrange(
                        columns,
                        w * column_arity,
                        w * column_arity + column_arity,
                    );
                    let v = self.column_engine.hash(preimage);
                    proof {
                        assert(v == hashes[w as int]);
                    }
                    self.data.set(start + w, v);
                    w = w + 1;
                }
            },
        }
        self.fill_index = start + column_count;
        proof {
            assert(self.data@ =~= seq_write(od, start as int, hashes));
        }
        Ok(())
    }

    /// Appends the final columns — the leaf row must end exactly full —
    /// then hands the shared buffer to the embedded tree stage, resets the
    /// fill cursor, and returns `(base_row, tree_to_keep)`. The retained
    /// tree is everything above the leaf row, root last, since this
    /// composition discards nothing.
    pub fn add_final_columns(&mut self, columns: &[Scalar]) -> (r: Result<
        (Vec<Scalar>, Vec<Scalar>),
        Error,
    >)
        requires
            old(self).wf(),
            columns@.len() as int % (old(self).column_arity as int) == 0,
            old(self).fill_index + columns@.len() as int / (old(self).column_arity as int) == old(
                self,
            ).leaf_count,
        ensures
            final(self).wf(),
            final(self).same_config(old(self)),
            final(self).data@.len() == old(self).data@.len(),
            ({
                let lc = old(self).leaf_count as int;
                let ca = old(self).column_arity as int;
                let ta = old(self).tree_builder.arity as int;
                let isize = intermediate_size_of(lc, ta);
                let hashes = hash_row(columns@, ca, old(self).column_hash_fn());
                let full = old(self).data@.take(old(self).fill_index as int) + hashes;
                let t = flat_tree(full, ta, old(self).tree_builder.hash_fn());
                let keep = tree_size_of(lc, ta, 0);
                match r {
                    Ok(res) => {
                        &&& old(self).data@.len() >= isize
                        &&& final(self).fill_index == 0
                        &&& res.0@ == full
                        &&& res.1@ == t.skip(isize - keep)
                        &&& res.1@.len() == keep
                        &&& final(self).data@ == t + old(self).data@.skip(isize)
                    },
                    Err(e) => {
                        &&& (old(self).column_batcher is None && old(self).data@.len() < isize
                            ==> e == Error::BufferTooSmall)
                        &&& (old(self).data@.len() >= isize ==> old(self).column_batcher is Some
                            || old(self).tree_builder.tree_batcher is Some)
                    },
                }
            }),
            (old(self).column_batcher is None && old(self).tree_builder.tree_batcher is None
                && old(self).data@.len() >= intermediate_size_of(
                old(self).leaf_count as int,
                old(self).tree_builder.arity as int,
            ) ==> r is Ok),
    {
        match self.add_columns(columns) {
            Err(e) => {
                return Err(e);
            },
            Ok(()) => {},
        }
        let fill = self.fill_index;
        let res = match self.tree_builder.add_final_leaves2(&mut self.data, fill) {
            Err(e) => {
                return Err(e);
            },
            Ok(p) => p,
        };
        self.reset();
        proof {
            let od = old(self).data@;
            let fill0 = old(self).fill_index as int;
            let lc = old(self).leaf_count as int;
            let ta = old(self).tree_builder.arity as int;
            let isize = intermediate_size_of(lc, ta);
            let hashes = hash_row(
                columns@,
                old(self).column_arity as int,
                old(self).column_hash_fn(),
            );
            let full = od.take(fill0) + hashes;
            crate::shape::lemma_upper_tree_size_geometric(lc, ta);
            assert(seq_write(od, fill0, hashes).len() == od.len());
            assert(seq_write(od, fill0, hashes).take(lc) =~= full);
            if od.len() >= isize {
                assert forall|k: int| isize <= k < od.len() implies seq_write(
                    od,
                    fill0,
                    hashes,
                )[k] == od[k] by {
                    assert(fill0 + hashes.len() == lc);
                }
                assert(seq_write(od, fill0, hashes).skip(isize) =~= od.skip(isize));
            }
        }
        Ok(res)
    }

    /// The root of the tree over `leaf_count` identical columns: the column
    /// is hashed once by the scalar engine, and the embedded stage iterates
    /// from there, one hash per level.
    pub fn compute_uniform_tree_root(&mut self, column: &[Scalar]) -> (r: Result<Scalar, Error>)
        requires
            old(self).wf(),
            column@.len() == old(self).column_arity,
        ensures
            *final(self) == *old(self),
            (r matches Ok(v) && v == uniform_root(
                engine_fn(old(self).column_engine)(column@),
                old(self).tree_builder.arity as int,
                height_of(
                    old(self).leaf_count as int,
                    old(self).tree_builder.arity as int,
                ) as nat,
                engine_fn(old(self).tree_builder.engine),
            )),
    {
        // All the leaves would be the same: one column hash, then one hash
        // per level above it.
        let element = self.column_engine.hash(column);
        self.tree_builder.compute_uniform_tree_root(element)
    }

    /// The number of nodes the tree stage keeps above the leaf row.
    pub fn tree_size(&self) -> (r: usize)
        requires
            self.wf(),
        ensures
            r as int == tree_size_of(
                self.leaf_count as int,
                self.tree_builder.arity as int,
                0,
            ),
    {
        self.tree_builder.tree_size(0)
    }

    /// `tree_size` for a tree shape given directly, without a builder.
    pub fn tree_size2(tree_arity: usize, leaf_count: usize) -> (r: usize)
        requires
            tree_arity >= 2,
            chain_ok(leaf_count as int, tree_arity as int),
            intermediate_size_of(leaf_count as int, tree_arity as int) <= usize::MAX as int,
        ensures
            r as int == tree_size_of(leaf_count as int, tree_arity as int, 0),
    {
        TreeBuilder::<E, B>::tree_size2(tree_arity, leaf_count, 0)
    }

    /// Resets the fill cursor so the builder (and its buffer) can be reused
    /// for the next, independent tree.
    pub fn reset(&mut self)
        ensures
            final(self).same_config(old(self)),
            final(self).data == old(self).data,
            final(self).fill_index == 0,
    {
        self.fill_index = 0;
    }
}

} // verus!
