//! Batch-hashing backends and backend selection.
//!
//! `SimpleBatchHasher` is the software backend: it applies the scalar
//! engine to each preimage tuple in order. `Batcher` wires one backend —
//! the software one, or a caller-supplied accelerator capability — in
//! front of the tree algorithm. Device enumeration itself is an edge
//! concern (it talks to hardware); `mamami` holds only the decision rule,
//! over the identifiers the edge hands it.

use vstd::prelude::*;
use vstd::slice::slice_subrange;
use crate::error::Error;
use crate::field::Scalar;
use crate::hasher::{BatchHasher, HashEngine, Strength, DEFAULT_STRENGTH};

verus! {

/// The software batch backend: one scalar engine applied to each tuple.
pub struct SimpleBatchHasher<E: HashEngine> {
    pub engine: E,
    pub max_batch_size: usize,
}

impl<E: HashEngine> SimpleBatchHasher<E> {
    /// Builds a software backend at the given strength.
    pub fn new_with_strength(strength: Strength, max_batch_size: usize) -> (r: Self)
        ensures
            r.engine.strength_spec() == strength,
            r.max_batch_size == max_batch_size,
    {
        SimpleBatchHasher { engine: E::with_strength(strength), max_batch_size }
    }
}

impl<E: HashEngine> BatchHasher for SimpleBatchHasher<E> {
    open spec fn hash_spec(&self, preimage: Seq<Scalar>) -> Scalar {
        E::hash_spec(self.engine.strength_spec(), preimage)
    }

    open spec fn max_spec(&self) -> int {
        self.max_batch_size as int
    }

    fn max_batch_size(&self) -> (m: usize) {
        self.max_batch_size
    }

    fn hash(&self, preimages: &[Scalar], arity: usize) -> (r: Result<Vec<Scalar>, Error>) {
        let n = preimages.len();
        let count = n / arity;
        let mut out: Vec<Scalar> = Vec::new();
        let mut i: usize = 0;
        proof {
            vstd::arithmetic::div_mod::lemma_fundamental_div_mod(n as int, arity as int);
        }
        while i < count
            invariant
                0 <= i <= count,
                arity >= 1,
                n == preimages@.len(),
                count == preimages@.len() as int / arity as int,
                count * arity == n,
                out@.len() == i,
                forall|j: int|
                    0 <= j < i ==> out@[j] == self.hash_spec(
                        #[trigger] preimages@.subrange(
                            j * arity as int,
                            j * arity as int + arity as int,
                        ),
                    ),
            decreases count - i,
        {
            proof {
                assert(i * arity as int + arity as int <= count * arity as int)
                    by (nonlinear_arith)
                    requires
                        0 <= i < count,
                        arity >= 1,
                {}
                assert(i * arity as int >= 0) by (nonlinear_arith)
                    requires
                        0 <= i,
                        arity >= 1,
                {}
                assert(i * arity as int + arity as int <= n);
            }
            let preimage = slice_subrange(preimages, i * arity, i * arity + arity);
            let v = self.engine.hash(preimage);
            out.push(v);
            i = i + 1;
        }
        Ok(out)
    }
}

/// The active backend in front of one build stage.
pub enum Batcher<E: HashEngine, B: BatchHasher> {
    /// The software backend.
    Cpu(SimpleBatchHasher<E>),
    /// A caller-supplied accelerator backend.
    Device(B),
}

impl<E: HashEngine, B: BatchHasher> Batcher<E, B> {
    /// Creates a new software batcher at the default strength.
    pub fn new_cpu(max_batch_size: usize) -> (r: Self)
        ensures
            (r matches Batcher::Cpu(s) && s.engine.strength_spec() == DEFAULT_STRENGTH
                && s.max_batch_size == max_batch_size),
    {
        Self::with_strength_cpu(DEFAULT_STRENGTH, max_batch_size)
    }

    /// Creates a new software batcher with a specified strength.
    pub fn with_strength_cpu(strength: Strength, max_batch_size: usize) -> (r: Self)
        ensures
            (r matches Batcher::Cpu(s) && s.engine.strength_spec() == strength
                && s.max_batch_size == max_batch_size),
    {
        Batcher::Cpu(SimpleBatchHasher::<E>::new_with_strength(strength, max_batch_size))
    }

    /// Wires in the accelerator backend the caller built for the device
    /// that `mamami` chose. Building the backend itself (sessions, device
    /// handles) is the edge's work, not this layer's.
    pub fn pick_gpu2(backend: B) -> (r: Result<Self, Error>)
        ensures
            (r matches Ok(b) && b matches Batcher::Device(d) && d == backend),
    {
        Ok(Batcher::Device(backend))
    }
}

impl<E: HashEngine, B: BatchHasher> BatchHasher for Batcher<E, B> {
    open spec fn hash_spec(&self, preimage: Seq<Scalar>) -> Scalar {
        match self {
            Batcher::Cpu(s) => s.hash_spec(preimage),
            Batcher::Device(b) => b.hash_spec(preimage),
        }
    }

    open spec fn max_spec(&self) -> int {
        match self {
            Batcher::Cpu(s) => s.max_spec(),
            Batcher::Device(b) => b.max_spec(),
        }
    }

    fn max_batch_size(&self) -> (m: usize) {
        match self {
            Batcher::Cpu(s) => s.max_batch_size(),
            Batcher::Device(b) => b.max_batch_size(),
        }
    }

    fn hash(&self, preimages: &[Scalar], arity: usize) -> (r: Result<Vec<Scalar>, Error>) {
        match self {
            Batcher::Cpu(s) => s.hash(preimages, arity),
            Batcher::Device(b) => b.hash(preimages, arity),
        }
    }
}

/// Decides which device a build should use, given the identifier the user
/// asked for (if any), the identifier configured in the environment (if
/// any), and the identifiers of the devices that are present. The user's
/// request wins over the environment's; a requested identifier that matches
/// a present device selects the first such device; otherwise the first
/// device present is the fallback; with no device present the selection
/// fails.
#[verifier::loop_isolation(false)]
pub fn mamami(
    user_gpu_id: Option<u64>,
    env_gpu_id: Option<u64>,
    available: &Vec<u64>,
) -> (r: Result<usize, Error>)
    ensures
        ({
            let eff = if user_gpu_id is Some {
                user_gpu_id
            } else {
                env_gpu_id
            };
            match r {
                Ok(i) => {
                    &&& 0 <= i < available@.len()
                    &&& match eff {
                        Some(id) => if exists|k: int|
                            0 <= k < available@.len() && available@[k] == id {
                            available@[i as int] == id && (forall|k: int|
                                0 <= k < i ==> available@[k] != id)
                        } else {
                            i == 0
                        },
                        None => i == 0,
                    }
                },
                Err(e) => e == Error::DeviceNotFound && available@.len() == 0,
            }
        }),
{
    let eff = if user_gpu_id.is_some() {
        user_gpu_id
    } else {
        env_gpu_id
    };
    if let Some(id) = eff {
        let mut k: usize = 0;
        while k < available.len()
            invariant
                0 <= k <= available@.len(),
                forall|j: int| 0 <= j < k ==> available@[j] != id,
            decreases available@.len() - k,
        {
            if available[k] == id {
                proof {
                    assert(0 <= k < available@.len() && available@[k as int] == id);
                }
                return Ok(k);
            }
            k = k + 1;
        }
    }
    if available.len() > 0 {
        Ok(0)
    } else {
        Err(Error::DeviceNotFound)
    }
}

} // verus!
