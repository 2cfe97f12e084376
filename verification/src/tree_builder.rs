//! The tree-construction engine.
//!
//! A `TreeBuilder` accumulates leaves into a buffer and, on finalize,
//! computes every row of the tree bottom-up and in place over that one
//! buffer, either through a batched backend — chunked so that no parent's
//! preimage is ever split across two backend calls — or through the scalar
//! engine when no backend is configured. It returns the leaf row and the
//! pruned "tree to keep": the retained upper rows, root last.

use vstd::prelude::*;
use vstd::slice::{slice_index_get, slice_subrange};
use crate::error::Error;
use crate::field::Scalar;
use crate::hasher::{batch_fn, engine_fn, BatchHasher, HashEngine, DEFAULT_STRENGTH};
use crate::model::{
    flat_tree, lemma_flat_tree_len, lemma_flat_tree_parent, seq_write, uniform_root,
};
use crate::shape::{
    chain_ok, height_of, intermediate_size_of, lemma_chain_step, lemma_height_bound,
    lemma_parent_reads_below, lemma_tree_size_bounds, lemma_upper_tree_size_geometric,
    tree_size_of, upper_tree_size,
};

verus! {

/// Builds one tree shape over and over: `leaf_count` leaves combined
/// `arity` at a time, with the `rows_to_discard` rows nearest the leaves
/// dropped from the returned snapshot.
pub struct TreeBuilder<E: HashEngine, B: BatchHasher> {
    pub leaf_count: usize,
    pub arity: usize,
    /// The internal buffer, when the builder owns one; a builder embedded
    /// behind a column stage works over the shared buffer instead and owns
    /// none.
    pub data: Option<Vec<Scalar>>,
    /// Index of the first unfilled slot of the leaf row.
    pub fill_index: usize,
    /// The scalar engine; used directly when no backend is configured.
    pub engine: E,
    /// The batched backend, if one is configured.
    pub tree_batcher: Option<B>,
    pub rows_to_discard: usize,
}

impl<E: HashEngine, B: BatchHasher> TreeBuilder<E, B> {
    /// The hash function one build computes with: the backend's when one is
    /// configured, the scalar engine's otherwise.
    pub open spec fn hash_fn(&self) -> spec_fn(Seq<Scalar>) -> Scalar {
        match self.tree_batcher {
            Some(b) => batch_fn(b),
            None => engine_fn(self.engine),
        }
    }

    /// The buffer size one build needs: the leaf row plus every row above
    /// it.
    pub open spec fn intermediate_size(&self) -> int {
        intermediate_size_of(self.leaf_count as int, self.arity as int)
    }

    /// The structural invariant fixed at construction: the leaf count is a
    /// power of the arity tall enough that the discarded rows leave the
    /// root (and hence at least two leaves), the intermediate tree fits in
    /// a machine-sized buffer, the fill cursor is within the leaf row, and
    /// an owned buffer covers at least the leaf row.
    pub open spec fn wf(&self) -> bool {
        &&& self.arity >= 2
        &&& chain_ok(self.leaf_count as int, self.arity as int)
        &&& 0 <= (self.rows_to_discard as int) < height_of(
            self.leaf_count as int,
            self.arity as int,
        )
        &&& self.fill_index <= self.leaf_count
        &&& self.intermediate_size() <= usize::MAX as int
        &&& (self.tree_batcher matches Some(b) ==> b.max_spec() >= 1)
        &&& (self.data matches Some(d) ==> d@.len() >= self.leaf_count)
    }

    /// The configuration fields, which no append or build ever changes.
    pub open spec fn same_config(&self, other: &Self) -> bool {
        &&& self.leaf_count == other.leaf_count
        &&& self.arity == other.arity
        &&& self.engine == other.engine
        &&& self.tree_batcher == other.tree_batcher
        &&& self.rows_to_discard == other.rows_to_discard
    }

    /// Creates a builder. The structural demands — a leaf count that is a
    /// power of the arity, a discard count that keeps the root — are
    /// programmer errors when violated and are therefore preconditions,
    /// caught at development time rather than handled at run time.
    pub fn new(
        t: Option<B>,
        arity: usize,
        leaf_count: usize,
        rows_to_discard: usize,
        data_buf: Option<Vec<Scalar>>,
    ) -> (r: Result<Self, Error>)
        requires
            arity >= 2,
            chain_ok(leaf_count as int, arity as int),
            (rows_to_discard as int) < height_of(leaf_count as int, arity as int),
            intermediate_size_of(leaf_count as int, arity as int) <= usize::MAX as int,
            (t matches Some(b) ==> b.max_spec() >= 1),
            (data_buf matches Some(d) ==> d@.len() >= leaf_count),
        ensures
            (r matches Ok(b) && {
                &&& b.leaf_count == leaf_count
                &&& b.arity == arity
                &&& b.data == data_buf
                &&& b.fill_index == 0
                &&& b.engine.strength_spec() == DEFAULT_STRENGTH
                &&& b.tree_batcher == t
                &&& b.rows_to_discard == rows_to_discard
                &&& b.wf()
            }),
    {
        Ok(TreeBuilder {
            leaf_count,
            arity,
            data: data_buf,
            fill_index: 0,
            engine: E::with_strength(DEFAULT_STRENGTH),
            tree_batcher: t,
            rows_to_discard,
        })
    }

    /// Copies `leaves` into the buffer at the fill cursor and advances it.
    /// Succeeds exactly when the builder owns a buffer and the total stays
    /// within `leaf_count`; on failure nothing is changed.
    pub fn add_leaves(&mut self, leaves: &[Scalar]) -> (r: Result<(), Error>)
        requires
            old(self).wf(),
        ensures
            final(self).wf(),
            final(self).same_config(old(self)),
            match r {
                Ok(()) => {
                    &&& old(self).data is Some
                    &&& old(self).fill_index + leaves@.len() <= old(self).leaf_count
                    &&& final(self).fill_index == old(self).fill_index + leaves@.len()
                    &&& final(self).data matches Some(d) && d@ == seq_write(
                        old(self).data.unwrap()@,
                        old(self).fill_index as int,
                        leaves@,
                    )
                },
                Err(e) => {
                    &&& *final(self) == *old(self)
                    &&& (e == Error::MissingBuffer <==> old(self).data is None)
                    &&& (old(self).data is Some ==> e == Error::Capacity && old(self).fill_index + leaves@.len() > old(self).leaf_count)
                },
            },
            (old(self).data is Some && old(self).fill_index + leaves@.len() <= old(self).leaf_count) ==> r is Ok,
    {
        if self.data.is_none() {
            return Err(Error::MissingBuffer);
        }
        let batch_leaf_count = leaves.len();
        if batch_leaf_count > self.leaf_count - self.fill_index {
            return Err(Error::Capacity);
        }
        let start = self.fill_index;
        let mut d = self.data.take().unwrap();
        let ghost od = d@;
        let mut i: usize = 0;
        while i < batch_leaf_count
            invariant
                0 <= i <= batch_leaf_count,
                batch_leaf_count == leaves@.len(),
                start + batch_leaf_count <= self.leaf_count,
                d@.len() == od.len() >= self.leaf_count,
                forall|k: int| 0 <= k < i ==> d@[start + k] == leaves@[k],
                forall|k: int| 0 <= k < start ==> d@[k] == od[k],
                forall|k: int| start + i <= k < od.len() ==> d@[k] == od[k],
            decreases batch_leaf_count - i,
        {
            let v = *slice_index_get(leaves, i);
            d.set(start + i, v);
            i = i + 1;
        }
        proof {
            assert(d@ =~= seq_write(od, start as int, leaves@));
        }
        self.data = Some(d);
        self.fill_index = start + batch_leaf_count;
        Ok(())
    }

    /// Resets the fill cursor so the builder (and its buffer) can be reused
    /// for the next, independent tree.
    pub fn reset(&mut self)
        ensures
            final(self).same_config(old(self)),
            final(self).data == old(self).data,
            final(self).fill_index == 0,
    {
        self.fill_index = 0;
    }

    /// The number of nodes the pruned snapshot retains: all rows above the
    /// leaf row except the first `rows_to_discard` of them.
    pub fn tree_size(&self, rows_to_discard: usize) -> (r: usize)
        requires
            self.wf(),
        ensures
            r as int == tree_size_of(
                self.leaf_count as int,
                self.arity as int,
                rows_to_discard as int,
            ),
    {
        Self::tree_size2(self.arity, self.leaf_count, rows_to_discard)
    }

    /// `tree_size` for a tree shape given directly, without a builder.
    #[verifier::loop_isolation(false)]
    pub fn tree_size2(arity: usize, leaf_count: usize, rows_to_discard: usize) -> (r: usize)
        requires
            arity >= 2,
            chain_ok(leaf_count as int, arity as int),
            intermediate_size_of(leaf_count as int, arity as int) <= usize::MAX as int,
        ensures
            r as int == tree_size_of(leaf_count as int, arity as int, rows_to_discard as int),
    {
        let ghost target = tree_size_of(leaf_count as int, arity as int, rows_to_discard as int);
        proof {
            lemma_upper_tree_size_geometric(leaf_count as int, arity as int);
            crate::shape::lemma_tree_size_general_bounds(
                leaf_count as int,
                arity as int,
                rows_to_discard as int,
            );
        }
        // First skip the discarded rows (the divisions mirror walking up
        // the tree), then sum the sizes of the rows that remain above.
        let mut current_row_size = leaf_count;
        let mut remaining = rows_to_discard;
        while remaining > 0
            invariant
                0 <= current_row_size <= leaf_count,
                target == tree_size_of(current_row_size as int, arity as int, remaining as int),
            decreases remaining,
        {
            proof {
                vstd::arithmetic::div_mod::lemma_div_pos_is_pos(
                    current_row_size as int,
                    arity as int,
                );
                vstd::arithmetic::div_mod::lemma_div_nonincreasing(
                    current_row_size as int,
                    arity as int,
                );
            }
            current_row_size = current_row_size / arity;
            remaining = remaining - 1;
        }
        let mut tree_size: usize = 0;
        proof {
            crate::shape::lemma_upper_tree_size_nonneg(current_row_size as int, arity as int);
        }
        while current_row_size > 1
            invariant
                0 <= current_row_size,
                0 <= tree_size,
                target == tree_size + upper_tree_size(current_row_size as int, arity as int),
                upper_tree_size(current_row_size as int, arity as int) >= 0,
            decreases current_row_size,
        {
            proof {
                vstd::arithmetic::div_mod::lemma_div_pos_is_pos(
                    current_row_size as int,
                    arity as int,
                );
                vstd::arithmetic::div_mod::lemma_div_is_strictly_smaller(
                    current_row_size as int,
                    arity as int,
                );
                crate::shape::lemma_upper_tree_size_nonneg(
                    current_row_size as int / arity as int,
                    arity as int,
                );
            }
            let next = current_row_size / arity;
            tree_size = tree_size + next;
            current_row_size = next;
        }
        tree_size
    }

    /// The number of rows above the leaf row.
    #[verifier::loop_isolation(false)]
    pub fn tree_height(&self) -> (r: usize)
        requires
            self.wf(),
        ensures
            r as int == height_of(self.leaf_count as int, self.arity as int),
    {
        let arity = self.arity;
        let mut tree_height: usize = 0;
        let mut current_row_size = self.leaf_count;
        proof {
            lemma_height_bound(self.leaf_count as int, arity as int);
        }
        while current_row_size >= 1
            invariant
                0 <= current_row_size <= self.leaf_count,
                current_row_size >= 1 ==> chain_ok(current_row_size as int, arity as int)
                    && tree_height + height_of(current_row_size as int, arity as int)
                    == height_of(self.leaf_count as int, self.arity as int),
                current_row_size == 0 ==> tree_height as int == height_of(
                    self.leaf_count as int,
                    self.arity as int,
                ),
                tree_height <= height_of(self.leaf_count as int, self.arity as int),
            decreases current_row_size,
        {
            if current_row_size != 1 {
                proof {
                    lemma_chain_step(current_row_size as int, arity as int);
                    lemma_height_bound(current_row_size as int, arity as int);
                    lemma_height_bound(current_row_size as int / arity as int, arity as int);
                }
                tree_height = tree_height + 1;
            } else {
                proof {
                    vstd::arithmetic::div_mod::lemma_basic_div(1, arity as int);
                }
            }
            current_row_size = current_row_size / arity;
        }
        tree_height
    }

    /// Computes every row above the leaf row, in place: the leaf row is
    /// `data[0 .. leaf_count]` and each computed row is written directly
    /// after the row it was read from, so that the buffer ends holding the
    /// whole flat tree. With a backend configured, each row is processed in
    /// chunks of at most `max_batch_size` parents — a chunk boundary never
    /// splits one parent's preimage — and a backend failure is returned as
    /// it is, with the leaf row still intact. Without one, the scalar
    /// engine computes each parent and the build cannot fail.
    #[verifier::loop_isolation(false)]
    fn build_over(&self, data: &mut Vec<Scalar>) -> (r: Result<(), Error>)
        requires
            self.wf(),
            old(data)@.len() >= self.intermediate_size(),
        ensures
            final(data)@.len() == old(data)@.len(),
            final(data)@.skip(self.intermediate_size()) == old(data)@.skip(
                self.intermediate_size(),
            ),
            final(data)@.take(self.leaf_count as int) == old(data)@.take(self.leaf_count as int),
            (r is Ok ==> final(data)@ == flat_tree(
                old(data)@.take(self.leaf_count as int),
                self.arity as int,
                self.hash_fn(),
            ) + old(data)@.skip(self.intermediate_size())),
            (r is Err ==> self.tree_batcher is Some),
            (self.tree_batcher is None ==> r is Ok),
    {
        let lc = self.leaf_count;
        let arity = self.arity;
        let upper = self.tree_size(0);
        let total = lc + upper;
        let ghost orig: Seq<Scalar> = data@;
        let ghost hf = self.hash_fn();
        let ghost leaves = orig.take(lc as int);
        let ghost t = flat_tree(leaves, arity as int, hf);
        proof {
            lemma_flat_tree_len(leaves, arity as int, hf);
            assert(t.len() == total);
            assert(t.take(lc as int) == leaves);
        }
        match &self.tree_batcher {
            None => {
                let mut i: usize = lc;
                let mut start: usize = 0;
                while i < total
                    invariant
                        lc <= i <= total,
                        start as int == (i - lc) * (arity as int),
                        data@.len() == orig.len(),
                        forall|k: int| 0 <= k < i ==> data@[k] == t[k],
                        forall|k: int| total <= k < orig.len() ==> data@[k] == orig[k],
                    decreases total - i,
                {
                    proof {
                        lemma_parent_reads_below(lc as int, arity as int, i - lc);
                        lemma_flat_tree_parent(leaves, arity as int, hf, i - lc);
                        assert(start + arity <= i);
                    }
                    let preimage = slice_subrange(data.as_slice(), start, start + arity);
                    proof {
                        assert(preimage@ =~= t.subrange(
                            start as int,
                            start as int + arity as int,
                        ));
                    }
                    let v = self.engine.hash(preimage);
                    proof {
                        assert(v == t[i as int]);
                    }
                    data.set(i, v);
                    i = i + 1;
                    start = start + arity;
                    proof {
                        assert(start as int == (i - lc) * (arity as int)) by (nonlinear_arith)
                            requires
                                start as int == (i - 1 - lc) * (arity as int) + arity,
                        {}
                    }
                }
                proof {
                    assert(data@ =~= t + orig.skip(total as int));
                    assert(data@.take(lc as int) =~= orig.take(lc as int));
                    assert(data@.skip(total as int) =~= orig.skip(total as int));
                }
                Ok(())
            },
            Some(b) => {
                let max = b.max_batch_size();
                let mut row_start: usize = 0;
                let mut row_end: usize = lc;
                proof {
                    lemma_upper_tree_size_geometric(lc as int, arity as int);
                }
                while row_end < total
                    invariant
                        0 <= row_start <= row_end <= total,
                        lc <= row_end,
                        chain_ok((row_end - row_start) as int, arity as int),
                        row_start as int == (row_end - lc) as int * (arity as int),
                        row_end as int == total - upper_tree_size(
                            (row_end - row_start) as int,
                            arity as int,
                        ),
                        data@.len() == orig.len(),
                        forall|k: int| 0 <= k < row_end ==> data@[k] == t[k],
                        forall|k: int| total <= k < orig.len() ==> data@[k] == orig[k],
                    decreases total - row_end,
                {
                    let row_size = row_end - row_start;
                    proof {
                        crate::shape::lemma_upper_tree_size_nonneg(row_size as int, arity as int);
                        assert(row_size >= 2);
                        lemma_chain_step(row_size as int, arity as int);
                        crate::shape::lemma_upper_tree_size_nonneg(
                            row_size as int / arity as int,
                            arity as int,
                        );
                        vstd::arithmetic::div_mod::lemma_fundamental_div_mod(
                            row_size as int,
                            arity as int,
                        );
                    }
                    let new_row_size = row_size / arity;
                    let new_row_start = row_end;
                    let new_row_end = row_end + new_row_size;
                    let mut total_hashed: usize = 0;
                    let mut batch_start: usize = row_start;
                    while total_hashed < new_row_size
                        invariant
                            0 <= total_hashed <= new_row_size,
                            batch_start as int == row_start + total_hashed * (arity as int),
                            row_start <= batch_start <= row_end,
                            data@.len() == orig.len(),
                            forall|k: int|
                                0 <= k < new_row_start + total_hashed ==> data@[k] == t[k],
                            forall|k: int| total <= k < orig.len() ==> data@[k] == orig[k],
                        decreases new_row_size - total_hashed,
                    {
                        proof {
                            assert(row_end - batch_start == (new_row_size - total_hashed) * (
                            arity as int)) by (nonlinear_arith)
                                requires
                                    batch_start as int == row_start + total_hashed * (
                                    arity as int),
                                    row_size == row_end - row_start,
                                    row_size as int == (arity as int) * (new_row_size as int),
                            {}
                            assert(((new_row_size - total_hashed) * (arity as int)) as int / (
                            arity as int) == new_row_size - total_hashed) by (nonlinear_arith)
                                requires
                                    arity >= 2,
                                    0 <= total_hashed < new_row_size,
                            {}
                        }
                        let remaining = (row_end - batch_start) / arity;
                        let chunk = if max < remaining {
                            max
                        } else {
                            remaining
                        };
                        proof {
                            assert(chunk >= 1);
                            assert(chunk * (arity as int) <= remaining * (arity as int))
                                by (nonlinear_arith)
                                requires
                                    0 <= chunk <= remaining,
                                    arity >= 2,
                            {}
                            assert((chunk * (arity as int)) % (arity as int) == 0)
                                by (nonlinear_arith)
                                requires
                                    arity >= 2,
                                    chunk >= 0,
                            {}
                        }
                        let batch_end = batch_start + chunk * arity;
                        let ghost pv = data@.subrange(batch_start as int, batch_end as int);
                        proof {
                            assert(pv =~= t.subrange(batch_start as int, batch_end as int));
                        }
                        let preimages = slice_subrange(data.as_slice(), batch_start, batch_end);
                        proof {
                            assert(preimages@.len() as int / (arity as int) == chunk)
                                by (nonlinear_arith)
                                requires
                                    preimages@.len() == chunk * (arity as int),
                                    arity >= 2,
                                    chunk >= 0,
                            {}
                        }
                        let out = match b.hash(preimages, arity) {
                            Ok(v) => v,
                            Err(e) => {
                                proof {
                                    assert(data@.take(lc as int) =~= orig.take(lc as int));
                                    assert(data@.skip(total as int) =~= orig.skip(total as int));
                                }
                                return Err(e);
                            },
                        };
                        proof {
                            assert(pv.len() as int / (arity as int) == chunk) by (nonlinear_arith)
                                requires
                                    pv.len() == chunk * (arity as int),
                                    arity >= 2,
                                    chunk >= 0,
                            {}
                        }
                        let mut w: usize = 0;
                        while w < chunk
                            invariant
                                0 <= w <= chunk,
                                out@.len() == chunk,
                                forall|j: int|
                                    0 <= j < chunk ==> out@[j] == b.hash_spec(
                                        #[trigger] pv.subrange(
                                            j * (arity as int),
                                            j * (arity as int) + arity as int,
                                        ),
                                    ),
                                data@.len() == orig.len(),
                                forall|k: int|
                                    0 <= k < new_row_start + total_hashed + w ==> data@[k]
                                        == t[k],
                                forall|k: int| total <= k < orig.len() ==> data@[k] == orig[k],
                            decreases chunk - w,
                        {
                            let ghost j = new_row_start + total_hashed + w - lc;
                            proof {
                                lemma_flat_tree_parent(leaves, arity as int, hf, j);
                                assert(j * (arity as int) == batch_start + w * (arity as int))
                                    by (nonlinear_arith)
                                    requires
                                        j == new_row_start + total_hashed + w - lc,
                                        new_row_start == row_end,
                                        row_start as int == (row_end - lc) as int * (
                                        arity as int),
                                        batch_start as int == row_start + total_hashed * (
                                        arity as int),
                                {}
                                assert(w * (arity as int) + arity <= chunk * (arity as int))
                                    by (nonlinear_arith)
                                    requires
                                        0 <= w < chunk,
                                        arity >= 2,
                                {}
                                assert(w * (arity as int) >= 0) by (nonlinear_arith)
                                    requires
                                        0 <= w,
                                        arity >= 2,
                                {}
                                assert(pv.subrange(
                                    w * (arity as int),
                                    w * (arity as int) + arity as int,
                                ) =~= t.subrange(
                                    j * (arity as int),
                                    j * (arity as int) + arity as int,
                                ));
                                assert(out@[w as int] == t[lc + j]);
                            }
                            let pos = new_row_start + total_hashed + w;
                            let v = out[w];
                            data.set(pos, v);
                            w = w + 1;
                        }
                        total_hashed = total_hashed + chunk;
                        proof {
                            assert(batch_end as int == row_start + total_hashed * (arity as int))
                                by (nonlinear_arith)
                                requires
                                    batch_end as int == batch_start + chunk * (arity as int),
                                    batch_start as int == row_start + (total_hashed - chunk) * (
                                    arity as int),
                            {}
                        }
                        batch_start = batch_end;
                    }
                    proof {
                        assert((new_row_end - lc) as int * (arity as int) == new_row_start)
                            by (nonlinear_arith)
                            requires
                                row_start as int == (row_end - lc) as int * (arity as int),
                                lc <= row_end,
                                row_size == row_end - row_start,
                                row_size as int == (arity as int) * (new_row_size as int),
                                new_row_start == row_end,
                                new_row_end == row_end + new_row_size,
                        {}
                    }
                    row_start = new_row_start;
                    row_end = new_row_end;
                }
                proof {
                    crate::shape::lemma_upper_tree_size_nonneg(
                        (row_end - row_start) as int,
                        arity as int,
                    );
                    assert(row_end == total);
                    assert(data@ =~= t + orig.skip(total as int));
                    assert(data@.take(lc as int) =~= orig.take(lc as int));
                    assert(data@.skip(total as int) =~= orig.skip(total as int));
                }
                Ok(())
            },
        }
    }

    /// Runs the tree algorithm over the caller's buffer: `data[0 ..
    /// leaf_count]` must hold the leaf row, every row above it is computed
    /// in place, and the pair `(base_row, tree_to_keep)` is returned as
    /// copies — the leaf row, and the last `tree_size(rows_to_discard)`
    /// nodes of the intermediate tree, root last. Fails with
    /// `BufferTooSmall` (and an untouched buffer) when the buffer cannot
    /// hold the intermediate tree; a backend failure is propagated with the
    /// leaf row still intact. The trailing `_lcount` argument is unused and
    /// kept for callers that track their fill separately.
    pub fn build_tree2(
        &mut self,
        rows_to_discard: usize,
        data: &mut Vec<Scalar>,
        _lcount: usize,
    ) -> (r: Result<(Vec<Scalar>, Vec<Scalar>), Error>)
        requires
            old(self).wf(),
            (rows_to_discard as int) < height_of(
                old(self).leaf_count as int,
                old(self).arity as int,
            ),
        ensures
            *final(self) == *old(self),
            final(data)@.len() == old(data)@.len(),
            final(data)@.take(old(self).leaf_count as int) == old(data)@.take(
                old(self).leaf_count as int,
            ),
            ({
                let lc = old(self).leaf_count as int;
                let a = old(self).arity as int;
                let isize = old(self).intermediate_size();
                let t = flat_tree(old(data)@.take(lc), a, old(self).hash_fn());
                let keep = tree_size_of(lc, a, rows_to_discard as int);
                match r {
                    Ok(res) => {
                        &&& old(data)@.len() >= isize
                        &&& res.0@ == old(data)@.take(lc)
                        &&& res.1@ == t.skip(isize - keep)
                        &&& res.1@.len() == keep
                        &&& final(data)@ == t + old(data)@.skip(isize)
                    },
                    Err(e) => {
                        &&& (old(data)@.len() < isize ==> e == Error::BufferTooSmall && final(data)@ == old(data)@)
                        &&& (old(data)@.len() >= isize ==> old(self).tree_batcher is Some)
                    },
                }
            }),
            (old(self).tree_batcher is None && old(data)@.len() >= old(self).intermediate_size() ==> r is Ok),
    {
        let final_tree_size = self.tree_size(rows_to_discard);
        let intermediate_tree_size = self.leaf_count + self.tree_size(0);
        if data.len() < intermediate_tree_size {
            return Err(Error::BufferTooSmall);
        }
        let ghost t = flat_tree(
            data@.take(self.leaf_count as int),
            self.arity as int,
            self.hash_fn(),
        );
        match self.build_over(data) {
            Err(e) => {
                return Err(e);
            },
            Ok(()) => {},
        }
        proof {
            lemma_tree_size_bounds(
                self.leaf_count as int,
                self.arity as int,
                rows_to_discard as int,
            );
            lemma_upper_tree_size_geometric(self.leaf_count as int, self.arity as int);
            lemma_flat_tree_len(
                old(data)@.take(self.leaf_count as int),
                self.arity as int,
                self.hash_fn(),
            );
        }
        let base_row = Self::copy_range(data, 0, self.leaf_count);
        let tree_to_keep = Self::copy_range(
            data,
            intermediate_tree_size - final_tree_size,
            intermediate_tree_size,
        );
        proof {
            assert(base_row@ =~= old(data)@.take(self.leaf_count as int));
            assert(tree_to_keep@ =~= t.skip(
                self.intermediate_size() - tree_size_of(
                    self.leaf_count as int,
                    self.arity as int,
                    rows_to_discard as int,
                ),
            ));
        }
        Ok((base_row, tree_to_keep))
    }

    /// The tree algorithm over the builder's own buffer: the leaf row is
    /// copied into a fresh working buffer of exactly the intermediate size,
    /// so the builder itself — its buffer and its fill cursor — is left
    /// unchanged. Fails with `MissingBuffer` when the builder owns none.
    pub fn build_tree(&mut self, rows_to_discard: usize) -> (r: Result<
        (Vec<Scalar>, Vec<Scalar>),
        Error,
    >)
        requires
            old(self).wf(),
            (rows_to_discard as int) < height_of(
                old(self).leaf_count as int,
                old(self).arity as int,
            ),
        ensures
            *final(self) == *old(self),
            ({
                let lc = old(self).leaf_count as int;
                let a = old(self).arity as int;
                let isize = old(self).intermediate_size();
                let od = old(self).data.unwrap()@;
                let t = flat_tree(od.take(lc), a, old(self).hash_fn());
                let keep = tree_size_of(lc, a, rows_to_discard as int);
                match r {
                    Ok(res) => {
                        &&& old(self).data is Some
                        &&& res.0@ == od.take(lc)
                        &&& res.1@ == t.skip(isize - keep)
                        &&& res.1@.len() == keep
                    },
                    Err(e) => {
                        &&& (old(self).data is None ==> e == Error::MissingBuffer)
                        &&& (old(self).data is Some ==> old(self).tree_batcher is Some)
                    },
                }
            }),
            (old(self).data is Some && old(self).tree_batcher is None ==> r is Ok),
    {
        let final_tree_size = self.tree_size(rows_to_discard);
        let intermediate_tree_size = self.leaf_count + self.tree_size(0);
        if self.data.is_none() {
            return Err(Error::MissingBuffer);
        }
        // Work over a fresh buffer of exactly the intermediate size, seeded
        // with the leaf row; the builder's own buffer is left as the caller
        // filled it until the build succeeds.
        let lc = self.leaf_count;
        let mut tree_data: Vec<Scalar> = Vec::new();
        let mut i: usize = 0;
        while i < intermediate_tree_size
            invariant
                0 <= i <= intermediate_tree_size,
                tree_data@.len() == i,
            decreases intermediate_tree_size - i,
        {
            tree_data.push(Scalar::zero());
            i = i + 1;
        }
        let d = self.data.as_ref().unwrap();
        let ghost od = d@;
        let mut k: usize = 0;
        while k < lc
            invariant
                0 <= k <= lc,
                lc <= intermediate_tree_size,
                od.len() >= lc,
                d@ == od,
                tree_data@.len() == intermediate_tree_size,
                forall|j: int| 0 <= j < k ==> tree_data@[j] == od[j],
            decreases lc - k,
        {
            let v = *slice_index_get(d.as_slice(), k);
            tree_data.set(k, v);
            k = k + 1;
        }
        let ghost t = flat_tree(od.take(lc as int), self.arity as int, self.hash_fn());
        proof {
            assert(tree_data@.take(lc as int) =~= od.take(lc as int));
        }
        match self.build_over(&mut tree_data) {
            Err(e) => {
                return Err(e);
            },
            Ok(()) => {},
        }
        proof {
            lemma_tree_size_bounds(
                self.leaf_count as int,
                self.arity as int,
                rows_to_discard as int,
            );
            lemma_upper_tree_size_geometric(self.leaf_count as int, self.arity as int);
            lemma_flat_tree_len(od.take(lc as int), self.arity as int, self.hash_fn());
            assert(tree_data@ =~= t);
        }
        let base_row = Self::copy_range(&tree_data, 0, lc);
        let tree_to_keep = Self::copy_range(
            &tree_data,
            intermediate_tree_size - final_tree_size,
            intermediate_tree_size,
        );
        proof {
            assert(base_row@ =~= od.take(lc as int));
            assert(tree_to_keep@ =~= t.skip(
                self.intermediate_size() - tree_size_of(
                    self.leaf_count as int,
                    self.arity as int,
                    rows_to_discard as int,
                ),
            ));
        }
        Ok((base_row, tree_to_keep))
    }

    /// Appends the final chunk of leaves — the buffer must end exactly
    /// full — then runs the tree algorithm over the builder's buffer,
    /// resets the fill cursor for the next build, and returns `(base_row,
    /// tree_to_keep)`.
    pub fn add_final_leaves(&mut self, leaves: &[Scalar]) -> (r: Result<
        (Vec<Scalar>, Vec<Scalar>),
        Error,
    >)
        requires
            old(self).wf(),
            old(self).fill_index + leaves@.len() == old(self).leaf_count,
        ensures
            final(self).same_config(old(self)),
            final(self).wf(),
            (old(self).data is Some ==> final(self).fill_index == 0),
            (old(self).data is None ==> *final(self) == *old(self)),
            (final(self).data is Some <==> old(self).data is Some),
            ({
                let lc = old(self).leaf_count as int;
                let a = old(self).arity as int;
                let isize = old(self).intermediate_size();
                let od = old(self).data.unwrap()@;
                let full = od.take(old(self).fill_index as int) + leaves@;
                let t = flat_tree(full, a, old(self).hash_fn());
                let keep = tree_size_of(lc, a, old(self).rows_to_discard as int);
                match r {
                    Ok(res) => {
                        &&& old(self).data is Some
                        &&& od.len() >= isize
                        &&& res.0@ == full
                        &&& res.1@ == t.skip(isize - keep)
                        &&& res.1@.len() == keep
                        &&& final(self).data.unwrap()@ == t + od.skip(isize)
                    },
                    Err(e) => {
                        &&& (old(self).data is None ==> e == Error::MissingBuffer)
                        &&& (old(self).data is Some && od.len() < isize ==> e
                            == Error::BufferTooSmall)
                        &&& (old(self).data is Some && od.len() >= isize ==> old(self).tree_batcher is Some)
                    },
                }
            }),
            (old(self).data is Some && old(self).data.unwrap()@.len() >= old(self).intermediate_size() && old(self).tree_batcher is None ==> r is Ok),
    {
        match self.add_leaves(leaves) {
            Err(e) => {
                return Err(e);
            },
            Ok(()) => {},
        }
        let mut data_buf = self.data.take().unwrap();
        let rows_to_discard = self.rows_to_discard;
        let fill = self.fill_index;
        let res = self.build_tree2(rows_to_discard, &mut data_buf, fill);
        self.reset();
        self.data = Some(data_buf);
        proof {
            let od = old(self).data.unwrap()@;
            let fill = old(self).fill_index as int;
            let lc = old(self).leaf_count as int;
            let isize = old(self).intermediate_size();
            let full = od.take(fill) + leaves@;
            lemma_upper_tree_size_geometric(lc, old(self).arity as int);
            assert(seq_write(od, fill, leaves@).len() == od.len());
            assert(seq_write(od, fill, leaves@).take(lc) =~= full);
            if od.len() >= isize {
                assert forall|k: int| isize <= k < od.len() implies seq_write(
                    od,
                    fill,
                    leaves@,
                )[k] == od[k] by {
                    assert(fill + leaves@.len() == lc);
                }
                assert(seq_write(od, fill, leaves@).skip(isize) =~= od.skip(isize));
            }
        }
        res
    }

    /// Runs the tree algorithm over a caller-owned buffer, with this
    /// builder's configuration — the finalize used when the leaf row was
    /// produced by another stage into a shared buffer. Like every terminal
    /// finalize it resets the fill cursor to zero, leaving the builder
    /// ready for the next, independent tree. `leaf_count` is kept for
    /// callers that track their fill separately and is not consulted.
    pub fn add_final_leaves2(&mut self, leaves: &mut Vec<Scalar>, leaf_count: usize) -> (r:
        Result<(Vec<Scalar>, Vec<Scalar>), Error>)
        requires
            old(self).wf(),
        ensures
            final(self).wf(),
            final(self).same_config(old(self)),
            final(self).data == old(self).data,
            final(self).fill_index == 0,
            final(leaves)@.len() == old(leaves)@.len(),
            final(leaves)@.take(old(self).leaf_count as int) == old(leaves)@.take(
                old(self).leaf_count as int,
            ),
            ({
                let lc = old(self).leaf_count as int;
                let a = old(self).arity as int;
                let isize = old(self).intermediate_size();
                let t = flat_tree(old(leaves)@.take(lc), a, old(self).hash_fn());
                let keep = tree_size_of(lc, a, old(self).rows_to_discard as int);
                match r {
                    Ok(res) => {
                        &&& old(leaves)@.len() >= isize
                        &&& res.0@ == old(leaves)@.take(lc)
                        &&& res.1@ == t.skip(isize - keep)
                        &&& res.1@.len() == keep
                        &&& final(leaves)@ == t + old(leaves)@.skip(isize)
                    },
                    Err(e) => {
                        &&& (old(leaves)@.len() < isize ==> e == Error::BufferTooSmall && final(leaves)@ == old(leaves)@)
                        &&& (old(leaves)@.len() >= isize ==> old(self).tree_batcher is Some)
                    },
                }
            }),
            (old(self).tree_batcher is None && old(leaves)@.len() >= old(self).intermediate_size() ==> r is Ok),
    {
        let rows_to_discard = self.rows_to_discard;
        let res = self.build_tree2(rows_to_discard, leaves, leaf_count);
        self.reset();
        res
    }

    /// Copies `data[start .. end]` out into a fresh vector.
    fn copy_range(data: &Vec<Scalar>, start: usize, end: usize) -> (r: Vec<Scalar>)
        requires
            0 <= start <= end <= data@.len(),
        ensures
            r@ == data@.subrange(start as int, end as int),
    {
        let mut r: Vec<Scalar> = Vec::new();
        let mut i = start;
        while i < end
            invariant
                start <= i <= end <= data@.len(),
                r@.len() == i - start,
                forall|k: int| 0 <= k < r@.len() ==> r@[k] == data@[start + k],
            decreases end - i,
        {
            let v = *slice_index_get(data.as_slice(), i);
            r.push(v);
            i = i + 1;
        }
        proof {
            assert(r@ =~= data@.subrange(start as int, end as int));
        }
        r
    }

    /// The root of the tree whose every leaf equals `leaf`, in time
    /// proportional to the height: each level is the hash of `arity`
    /// copies of the level below. Always computed by the scalar engine.
    pub fn compute_uniform_tree_root(&mut self, leaf: Scalar) -> (r: Result<Scalar, Error>)
        requires
            old(self).wf(),
        ensures
            *final(self) == *old(self),
            (r matches Ok(v) && v == uniform_root(
                leaf,
                old(self).arity as int,
                height_of(old(self).leaf_count as int, old(self).arity as int) as nat,
                engine_fn(old(self).engine),
            )),
    {
        let arity = self.arity;
        let height = self.tree_height();
        let ghost hf = engine_fn(self.engine);
        let mut element = leaf;
        let mut level: usize = 0;
        while level < height
            invariant
                0 <= level <= height,
                height as int == height_of(self.leaf_count as int, self.arity as int),
                arity == self.arity,
                *self == *old(self),
                old(self).wf(),
                hf == engine_fn(self.engine),
                uniform_root(leaf, arity as int, height as nat, hf) == uniform_root(
                    element,
                    arity as int,
                    (height - level) as nat,
                    hf,
                ),
            decreases height - level,
        {
            let mut preimage: Vec<Scalar> = Vec::new();
            let mut i: usize = 0;
            while i < arity
                invariant
                    0 <= i <= arity,
                    preimage@.len() == i,
                    forall|k: int| 0 <= k < i ==> preimage@[k] == element,
                decreases arity - i,
            {
                preimage.push(element);
                i = i + 1;
            }
            proof {
                assert(preimage@ =~= crate::model::const_row(element, arity as nat));
            }
            element = self.engine.hash(preimage.as_slice());
            level = level + 1;
        }
        Ok(element)
    }
}

} // verus!
