//! The hash capabilities the tree layer consumes.
//!
//! The cryptographic permutation itself is out of scope here: callers supply
//! it behind these traits, and everything the tree algorithm guarantees is
//! stated relative to the supplied hash function. `HashEngine` is the scalar
//! capability (one digest from one fixed-arity preimage); `BatchHasher` is
//! the batched capability (one digest per preimage tuple, order preserved,
//! with an advertised maximum tuple count per call).

use vstd::prelude::*;
use crate::error::Error;
use crate::field::Scalar;

verus! {

/// Selects the round-constant profile an engine is instantiated with.
#[derive(Clone, Copy, PartialEq, Eq, Structural, Debug)]
pub enum Strength {
    Standard,
    Strengthened,
}

/// The strength engines are given when a caller does not choose one.
pub const DEFAULT_STRENGTH: Strength = Strength::Standard;

/// Scalar hash capability: one output from one preimage.
///
/// The mathematical function computed is exposed as the associated spec
/// function `hash_spec`; it depends only on the engine type, the strength
/// the engine was built with, and the preimage, which is what makes tree
/// builds deterministic and backend-agnostic.
pub trait HashEngine: Sized {
    /// The strength this engine was instantiated with.
    spec fn strength_spec(&self) -> Strength;

    /// The function of strength and preimage that `hash` computes.
    spec fn hash_spec(s: Strength, preimage: Seq<Scalar>) -> Scalar;

    /// Builds an engine for the given strength.
    fn with_strength(s: Strength) -> (e: Self)
        ensures
            e.strength_spec() == s,
    ;

    /// Hashes one preimage.
    fn hash(&self, preimage: &[Scalar]) -> (r: Scalar)
        ensures
            r == Self::hash_spec(self.strength_spec(), preimage@),
    ;
}

/// The hash function a batch hasher applies to each of its preimage tuples.
pub open spec fn batch_fn<B: BatchHasher>(b: B) -> spec_fn(Seq<Scalar>) -> Scalar {
    |preimage: Seq<Scalar>| b.hash_spec(preimage)
}

/// The hash function a scalar engine computes at its strength.
pub open spec fn engine_fn<E: HashEngine>(e: E) -> spec_fn(Seq<Scalar>) -> Scalar {
    |preimage: Seq<Scalar>| E::hash_spec(e.strength_spec(), preimage)
}

/// Batched hash capability: many independent fixed-arity hash computations
/// per call, one output per input tuple, order preserved.
///
/// A call may fail (a backend can exhaust its resources); when it succeeds,
/// every output is pinned to `hash_spec` of its tuple. `max_batch_size` is
/// the tuple count the backend advertises per call, and `hash` demands that
/// callers respect it: every build stage chunks its work so that no call
/// carries more tuples than the backend advertised, and no tuple is ever
/// split across two calls.
pub trait BatchHasher: Sized {
    /// The function of one preimage tuple that this hasher computes.
    spec fn hash_spec(&self, preimage: Seq<Scalar>) -> Scalar;

    /// The advertised maximum number of tuples per call.
    spec fn max_spec(&self) -> int;

    fn max_batch_size(&self) -> (m: usize)
        ensures
            m == self.max_spec(),
    ;

    /// Hashes `preimages.len() / arity` consecutive `arity`-tuples.
    fn hash(&self, preimages: &[Scalar], arity: usize) -> (r: Result<Vec<Scalar>, Error>)
        requires
            arity >= 1,
            preimages@.len() as int % (arity as int) == 0,
            preimages@.len() as int / (arity as int) <= self.max_spec(),
        ensures
            (r matches Ok(out) ==> {
                &&& out@.len() == preimages@.len() as int / (arity as int)
                &&& forall|j: int|
                    0 <= j < out@.len() ==> out@[j] == self.hash_spec(
                        #[trigger] preimages@.subrange(j * arity, j * arity + arity),
                    )
            }),
    ;
}

} // verus!
