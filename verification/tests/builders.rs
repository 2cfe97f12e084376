use neptune::batch_hasher::{mamami, Batcher, SimpleBatchHasher};
use neptune::column_tree_builder::ColumnTreeBuilder;
use neptune::error::Error;
use neptune::field::Scalar;
use neptune::hasher::{BatchHasher, HashEngine, Strength};
use neptune::tree_builder::TreeBuilder;

/// A deterministic stand-in for the cryptographic engine: the tree layer
/// never looks inside the hash, so any function of (strength, preimage)
/// exercises it.
struct TestEngine {
    strength: Strength,
}

impl HashEngine for TestEngine {
    // The two specification members exist only for the verifier; in
    // compiled code they are never called.
    fn strength_spec(&self) -> Strength {
        unreachable!()
    }

    fn hash_spec(_s: Strength, _preimage: vstd::seq::Seq<Scalar>) -> Scalar {
        unreachable!()
    }

    fn with_strength(s: Strength) -> Self {
        TestEngine { strength: s }
    }

    fn hash(&self, preimage: &[Scalar]) -> Scalar {
        let mut acc: u64 = match self.strength {
            Strength::Standard => 0x9e37_79b9_7f4a_7c15,
            Strength::Strengthened => 0xc2b2_ae3d_27d4_eb4f,
        };
        for s in preimage {
            acc = acc
                .rotate_left(13)
                .wrapping_mul(0x0100_0000_01b3)
                .wrapping_add(s.value)
                ^ 0x5bd1_e995;
        }
        Scalar { value: acc }
    }
}

/// A backend that always fails, to exercise error propagation.
struct FailingBatcher;

impl BatchHasher for FailingBatcher {
    // Specification members, never called in compiled code.
    fn hash_spec(&self, _preimage: vstd::seq::Seq<Scalar>) -> Scalar {
        unreachable!()
    }

    fn max_spec(&self) -> vstd::prelude::int {
        unreachable!()
    }

    fn max_batch_size(&self) -> usize {
        4
    }

    fn hash(&self, _preimages: &[Scalar], _arity: usize) -> Result<Vec<Scalar>, Error> {
        Err(Error::Backend)
    }
}

type TestBatcher = Batcher<TestEngine, SimpleBatchHasher<TestEngine>>;
type TestTreeBuilder = TreeBuilder<TestEngine, TestBatcher>;
type TestColumnTreeBuilder = ColumnTreeBuilder<TestEngine, TestBatcher>;

fn zeros(n: usize) -> Vec<Scalar> {
    vec![Scalar::new(0); n]
}

fn distinct(n: usize) -> Vec<Scalar> {
    (0..n).map(|i| Scalar::new(i as u64 + 1)).collect()
}

fn intermediate_size(arity: usize, leaf_count: usize) -> usize {
    leaf_count + TestTreeBuilder::tree_size2(arity, leaf_count, 0)
}

fn scalar_hash(preimage: &[Scalar]) -> Scalar {
    TestEngine::with_strength(Strength::Standard).hash(preimage)
}

#[test]
fn test_tree_builder() {
    // 16KiB tree has 512 leaves.
    test_tree_builder_aux(false, 512, 32, 512, 512);
    test_tree_builder_aux(true, 512, 32, 512, 512);
}

fn test_tree_builder_aux(
    use_cpu_batcher: bool,
    leaves: usize,
    num_batches: usize,
    max_leaf_batch_size: usize,
    max_tree_batch_size: usize,
) {
    let batch_size = leaves / num_batches;

    for rows_to_discard in 0..3 {
        let db = zeros(intermediate_size(8, leaves));
        let batcher = if use_cpu_batcher {
            Some(TestBatcher::new_cpu(max_tree_batch_size))
        } else {
            None
        };
        let mut builder =
            TestTreeBuilder::new(batcher, 8, leaves, rows_to_discard, Some(db)).unwrap();

        // Simplify computing the expected root.
        let constant_element = Scalar::new(0);

        let effective_batch_size = usize::min(batch_size, max_leaf_batch_size);

        let mut total_leaves = 0;
        while total_leaves + effective_batch_size < leaves {
            let leaves_chunk: Vec<Scalar> = (0..effective_batch_size)
                .map(|_| constant_element)
                .collect();

            builder.add_leaves(leaves_chunk.as_slice()).unwrap();
            total_leaves += leaves_chunk.len();
        }

        let final_leaves: Vec<Scalar> = (0..leaves - total_leaves)
            .map(|_| constant_element)
            .collect();

        let (base, res) = builder.add_final_leaves(final_leaves.as_slice()).unwrap();

        let computed_root = res[res.len() - 1];

        let expected_root = builder.compute_uniform_tree_root(final_leaves[0]).unwrap();
        let expected_size = builder.tree_size(rows_to_discard);

        assert_eq!(leaves, base.len());
        assert!(base.iter().all(|x| *x == constant_element));

        assert_eq!(expected_size, res.len());
        assert_eq!(expected_root, computed_root);
    }
}

#[test]
fn test_column_tree_builder() {
    // 16KiB tree has 512 leaves.
    test_column_tree_builder_aux(false, 512, 32, 512, 512);
    test_column_tree_builder_aux(true, 512, 32, 512, 512);
}

fn test_column_tree_builder_aux(
    use_cpu_batcher: bool,
    leaves: usize,
    num_batches: usize,
    max_column_batch_size: usize,
    max_tree_batch_size: usize,
) {
    let batch_size = leaves / num_batches;
    let column_arity = 11usize;
    let data_buf = zeros(intermediate_size(8, leaves));
    let (column_batcher, tree_batcher) = if use_cpu_batcher {
        (
            Some(TestBatcher::new_cpu(max_column_batch_size)),
            Some(TestBatcher::new_cpu(max_tree_batch_size)),
        )
    } else {
        (None, None)
    };
    let mut builder = TestColumnTreeBuilder::new(
        column_batcher,
        tree_batcher,
        column_arity,
        8,
        leaves,
        data_buf,
    )
    .unwrap();

    // Simplify computing the expected root.
    let constant_element = Scalar::new(0);
    let constant_column = zeros(column_arity);

    let effective_batch_size = usize::min(batch_size, max_column_batch_size);

    let mut total_columns = 0;
    while total_columns + effective_batch_size < leaves {
        let columns = zeros(effective_batch_size * column_arity);
        builder.add_columns(columns.as_slice()).unwrap();
        total_columns += effective_batch_size;
    }

    let final_columns = zeros((leaves - total_columns) * column_arity);
    let (base, res) = builder.add_final_columns(final_columns.as_slice()).unwrap();

    let column_hash = scalar_hash(constant_column.as_slice());
    assert!(base.iter().all(|x| *x == column_hash));

    let computed_root = res[res.len() - 1];

    let expected_root = builder
        .compute_uniform_tree_root(&final_columns[0..column_arity])
        .unwrap();
    let expected_size = builder.tree_size();

    assert_eq!(leaves, base.len());
    assert_eq!(expected_size, res.len());
    assert_eq!(expected_root, computed_root);
    assert_eq!(constant_element, Scalar::new(0));
}

#[test]
fn tree_height_and_size_formulas() {
    // leaf_count = arity^h: height is h and tree_size(0) is
    // (arity^h - 1) / (arity - 1).
    let db = zeros(intermediate_size(8, 512));
    let builder = TestTreeBuilder::new(None, 8, 512, 0, Some(db)).unwrap();
    assert_eq!(builder.tree_height(), 3);
    assert_eq!(builder.tree_size(0), (512 - 1) / (8 - 1));
    assert_eq!(builder.tree_size(0), 73);

    let db2 = zeros(intermediate_size(2, 16));
    let builder2 = TestTreeBuilder::new(None, 2, 16, 0, Some(db2)).unwrap();
    assert_eq!(builder2.tree_height(), 4);
    assert_eq!(builder2.tree_size(0), 15);
    assert_eq!(builder2.tree_size(1), 7);
    assert_eq!(builder2.tree_size(2), 3);
    assert_eq!(builder2.tree_size(3), 1);

    assert_eq!(TestTreeBuilder::tree_size2(8, 512, 0), 73);
    assert_eq!(TestTreeBuilder::tree_size2(8, 512, 1), 9);
    assert_eq!(TestColumnTreeBuilder::tree_size2(8, 512), 73);
}

fn build_once(
    batcher: Option<TestBatcher>,
    arity: usize,
    leaves_data: &[Scalar],
    rows_to_discard: usize,
) -> (Vec<Scalar>, Vec<Scalar>) {
    let leaf_count = leaves_data.len();
    let db = zeros(intermediate_size(arity, leaf_count));
    let mut builder =
        TestTreeBuilder::new(batcher, arity, leaf_count, rows_to_discard, Some(db)).unwrap();
    builder.add_leaves(leaves_data).unwrap();
    let empty: Vec<Scalar> = Vec::new();
    builder.add_final_leaves(empty.as_slice()).unwrap()
}

#[test]
fn root_is_independent_of_rows_to_discard() {
    let leaves = distinct(64);
    let mut roots = Vec::new();
    for r in 0..3 {
        let (_, keep) = build_once(None, 4, leaves.as_slice(), r);
        let db = zeros(intermediate_size(4, 64));
        let builder = TestTreeBuilder::new(None, 4, 64, r, Some(db)).unwrap();
        assert_eq!(keep.len(), builder.tree_size(r));
        roots.push(keep[keep.len() - 1]);
    }
    assert_eq!(roots[0], roots[1]);
    assert_eq!(roots[0], roots[2]);
}

#[test]
fn builds_are_deterministic() {
    let leaves = distinct(64);
    let (base1, keep1) = build_once(None, 4, leaves.as_slice(), 1);
    let (base2, keep2) = build_once(None, 4, leaves.as_slice(), 1);
    assert_eq!(base1, base2);
    assert_eq!(keep1, keep2);
    let (base3, keep3) = build_once(Some(TestBatcher::new_cpu(16)), 4, leaves.as_slice(), 1);
    let (base4, keep4) = build_once(Some(TestBatcher::new_cpu(16)), 4, leaves.as_slice(), 1);
    assert_eq!(base3, base4);
    assert_eq!(keep3, keep4);
}

#[test]
fn backend_choice_does_not_change_results() {
    let leaves = distinct(64);
    let (scalar_base, scalar_keep) = build_once(None, 4, leaves.as_slice(), 0);
    for max_batch_size in [1usize, 3, 16, 512] {
        let batcher = TestBatcher::new_cpu(max_batch_size);
        let (base, keep) = build_once(Some(batcher), 4, leaves.as_slice(), 0);
        assert_eq!(scalar_base, base);
        assert_eq!(scalar_keep, keep);
    }
    // A backend wired in through pick_gpu2 computes the same hash, so it
    // produces the same tree as well.
    let device_backend = SimpleBatchHasher::<TestEngine>::new_with_strength(Strength::Standard, 7);
    let picked = TestBatcher::pick_gpu2(device_backend).unwrap();
    let (base, keep) = build_once(Some(picked), 4, leaves.as_slice(), 0);
    assert_eq!(scalar_base, base);
    assert_eq!(scalar_keep, keep);
}

#[test]
fn capacity_boundary() {
    let db = zeros(intermediate_size(2, 8));
    let mut builder = TestTreeBuilder::new(None, 2, 8, 0, Some(db)).unwrap();
    let eight = distinct(8);
    builder.add_leaves(eight.as_slice()).unwrap();
    let one = distinct(1);
    assert_eq!(builder.add_leaves(one.as_slice()), Err(Error::Capacity));
    // The failed append changed nothing: finalizing still succeeds and the
    // base row is exactly the eight appended leaves.
    let empty: Vec<Scalar> = Vec::new();
    let (base, _) = builder.add_final_leaves(empty.as_slice()).unwrap();
    assert_eq!(base, eight);
}

#[test]
fn split_appends_equal_one_append() {
    let leaves = distinct(16);
    let db = zeros(intermediate_size(4, 16));
    let mut split_builder = TestTreeBuilder::new(None, 4, 16, 0, Some(db)).unwrap();
    split_builder.add_leaves(&leaves[0..5]).unwrap();
    split_builder.add_leaves(&leaves[5..16]).unwrap();
    let empty: Vec<Scalar> = Vec::new();
    let (split_base, split_keep) = split_builder.add_final_leaves(empty.as_slice()).unwrap();
    let (one_base, one_keep) = build_once(None, 4, leaves.as_slice(), 0);
    assert_eq!(split_base, one_base);
    assert_eq!(split_keep, one_keep);
}

#[test]
fn uniform_scenario_arity8_512_zero_leaves() {
    let leaves = zeros(512);
    let (base, keep) = build_once(None, 8, leaves.as_slice(), 0);
    assert_eq!(base.len(), 512);
    assert!(base.iter().all(|x| *x == Scalar::new(0)));
    assert_eq!(keep.len(), 73);
    let db = zeros(intermediate_size(8, 512));
    let mut builder = TestTreeBuilder::new(None, 8, 512, 0, Some(db)).unwrap();
    let expected_root = builder.compute_uniform_tree_root(Scalar::new(0)).unwrap();
    assert_eq!(keep[keep.len() - 1], expected_root);
}

#[test]
fn column_scenario_arity11_8_512_zero_columns() {
    let data_buf = zeros(intermediate_size(8, 512));
    let mut builder =
        TestColumnTreeBuilder::new(None, None, 11, 8, 512, data_buf).unwrap();
    let columns = zeros(512 * 11);
    let (base, keep) = builder.add_final_columns(columns.as_slice()).unwrap();
    let column_hash = scalar_hash(zeros(11).as_slice());
    assert_eq!(base.len(), 512);
    assert!(base.iter().all(|x| *x == column_hash));
    assert_eq!(keep.len(), 73);
    let expected_root = builder.compute_uniform_tree_root(&columns[0..11]).unwrap();
    assert_eq!(keep[keep.len() - 1], expected_root);
}

#[test]
fn builder_is_reusable_after_finalize() {
    let leaves = distinct(16);
    let db = zeros(intermediate_size(4, 16));
    let mut builder = TestTreeBuilder::new(None, 4, 16, 0, Some(db)).unwrap();
    builder.add_leaves(leaves.as_slice()).unwrap();
    let empty: Vec<Scalar> = Vec::new();
    let (base1, keep1) = builder.add_final_leaves(empty.as_slice()).unwrap();
    // After finalize the cursor is reset: the same builder accepts a fresh
    // leaf row and produces the same tree again.
    builder.add_leaves(leaves.as_slice()).unwrap();
    let (base2, keep2) = builder.add_final_leaves(empty.as_slice()).unwrap();
    assert_eq!(base1, base2);
    assert_eq!(keep1, keep2);
}

#[test]
fn build_tree_matches_add_final_leaves() {
    let leaves = distinct(16);
    let db = zeros(intermediate_size(4, 16));
    let mut builder = TestTreeBuilder::new(None, 4, 16, 1, Some(db)).unwrap();
    builder.add_leaves(leaves.as_slice()).unwrap();
    let (base1, keep1) = builder.build_tree(1).unwrap();
    // build_tree leaves the builder untouched, so finalizing afterwards
    // computes the same tree from the same leaves.
    let empty: Vec<Scalar> = Vec::new();
    let (base2, keep2) = builder.add_final_leaves(empty.as_slice()).unwrap();
    assert_eq!(base1, base2);
    assert_eq!(keep1, keep2);
}

#[test]
fn external_buffer_finalize_matches_internal() {
    let leaves = distinct(16);
    let (base1, keep1) = build_once(None, 4, leaves.as_slice(), 0);
    let mut builder = TestTreeBuilder::new(None, 4, 16, 0, None).unwrap();
    let mut buf = zeros(intermediate_size(4, 16));
    for (i, leaf) in leaves.iter().enumerate() {
        buf[i] = *leaf;
    }
    let (base2, keep2) = builder.add_final_leaves2(&mut buf, 16).unwrap();
    // Like every terminal finalize, the variant resets the fill cursor.
    assert_eq!(builder.fill_index, 0);
    assert_eq!(base1, base2);
    assert_eq!(keep1, keep2);
    // The caller's buffer now holds the whole intermediate tree, root last.
    assert_eq!(buf[buf.len() - 1], keep2[keep2.len() - 1]);
}

#[test]
fn missing_buffer_is_reported() {
    let mut builder = TestTreeBuilder::new(None, 2, 8, 0, None).unwrap();
    let one = distinct(1);
    assert_eq!(builder.add_leaves(one.as_slice()), Err(Error::MissingBuffer));
}

#[test]
fn too_small_buffer_is_reported() {
    // Room for the leaf row but not for the rows above it.
    let db = zeros(8);
    let mut builder = TestTreeBuilder::new(None, 2, 8, 0, Some(db)).unwrap();
    let leaves = distinct(8);
    assert_eq!(
        builder.add_final_leaves(leaves.as_slice()).unwrap_err(),
        Error::BufferTooSmall
    );
}

#[test]
fn backend_failure_is_propagated() {
    let db = zeros(intermediate_size(2, 8));
    let mut builder: TreeBuilder<TestEngine, FailingBatcher> =
        TreeBuilder::new(Some(FailingBatcher), 2, 8, 0, Some(db)).unwrap();
    let leaves = distinct(8);
    assert_eq!(
        builder.add_final_leaves(leaves.as_slice()).unwrap_err(),
        Error::Backend
    );
}

#[test]
fn column_capacity_is_reported() {
    let data_buf = zeros(intermediate_size(2, 4));
    let mut builder = TestColumnTreeBuilder::new(None, None, 3, 2, 4, data_buf).unwrap();
    let columns = zeros(5 * 3);
    assert_eq!(builder.add_columns(columns.as_slice()), Err(Error::Capacity));
    // Four columns of three elements fill the leaf row exactly.
    let fit = zeros(4 * 3);
    let (base, keep) = builder.add_final_columns(fit.as_slice()).unwrap();
    assert_eq!(base.len(), 4);
    assert_eq!(keep.len(), 3);
}

#[test]
fn column_stage_chunks_by_batch_size() {
    // A tiny advertised batch bound forces many backend calls; the result
    // must match the scalar path exactly.
    let scalar_buf = zeros(intermediate_size(2, 16));
    let mut scalar_builder = TestColumnTreeBuilder::new(None, None, 3, 2, 16, scalar_buf).unwrap();
    let columns: Vec<Scalar> = distinct(16 * 3);
    let (base1, keep1) = scalar_builder.add_final_columns(columns.as_slice()).unwrap();
    for max_batch_size in [1usize, 2, 5, 16, 64] {
        let buf = zeros(intermediate_size(2, 16));
        let mut builder = TestColumnTreeBuilder::new(
            Some(TestBatcher::new_cpu(max_batch_size)),
            None,
            3,
            2,
            16,
            buf,
        )
        .unwrap();
        let (base2, keep2) = builder.add_final_columns(columns.as_slice()).unwrap();
        assert_eq!(base1, base2);
        assert_eq!(keep1, keep2);
    }
}

#[test]
fn device_selection_rules() {
    let available: Vec<u64> = vec![7, 9, 11];
    // A requested identifier that is present selects that device.
    assert_eq!(mamami(Some(9), None, &available), Ok(1));
    // The user's request wins over the environment's.
    assert_eq!(mamami(Some(11), Some(9), &available), Ok(2));
    // The environment is consulted when the user asked for nothing.
    assert_eq!(mamami(None, Some(7), &available), Ok(0));
    // An identifier that matches nothing falls back to the first device.
    assert_eq!(mamami(Some(42), None, &available), Ok(0));
    // No request at all: the first device.
    assert_eq!(mamami(None, None, &available), Ok(0));
    // No devices present: the selection fails.
    let none: Vec<u64> = Vec::new();
    assert_eq!(mamami(None, None, &none), Err(Error::DeviceNotFound));
    assert_eq!(mamami(Some(7), None, &none), Err(Error::DeviceNotFound));
}

#[test]
fn strength_changes_the_engine() {
    let standard = TestEngine::with_strength(Strength::Standard);
    let strengthened = TestEngine::with_strength(Strength::Strengthened);
    let preimage = distinct(4);
    assert_ne!(
        standard.hash(preimage.as_slice()),
        strengthened.hash(preimage.as_slice())
    );
    // with_strength_cpu plumbs the strength through to the batcher.
    let b1 = TestBatcher::with_strength_cpu(Strength::Standard, 4);
    let b2 = TestBatcher::with_strength_cpu(Strength::Strengthened, 4);
    let r1 = b1.hash(preimage.as_slice(), 2).unwrap();
    let r2 = b2.hash(preimage.as_slice(), 2).unwrap();
    assert_ne!(r1, r2);
    assert_eq!(b1.max_batch_size(), 4);
}
