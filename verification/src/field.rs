//! The scalar values that trees are built over.
//!
//! The tree layer treats a field element as an opaque value: it only ever
//! copies elements, compares them for equality, and uses the additive
//! identity as a fill value. A `Scalar` therefore carries one plain word;
//! all arithmetic beyond that belongs to the hash capability a caller
//! supplies.

use vstd::prelude::*;

verus! {

/// One element of the field that leaves and digests are drawn from.
#[derive(Clone, Copy, PartialEq, Eq, Structural, Debug, Hash)]
pub struct Scalar {
    pub value: u64,
}

impl Scalar {
    /// The additive identity, used to pre-fill scratch buffers.
    pub fn zero() -> (r: Scalar)
        ensures
            r.value == 0,
    {
        Scalar { value: 0 }
    }

    /// Wraps a plain word as a field element.
    pub fn new(value: u64) -> (r: Scalar)
        ensures
            r.value == value,
    {
        Scalar { value }
    }
}

} // verus!
