//! The recoverable failures this layer reports.
//!
//! Structural mistakes (a leaf count that is not a power of the arity, a
//! discard count that would drop the root) are construction-time programmer
//! errors and are excluded by preconditions instead of being represented
//! here.

use vstd::prelude::*;

verus! {

/// Everything a build or append call can report instead of succeeding.
#[derive(Clone, Copy, PartialEq, Eq, Structural, Debug)]
pub enum Error {
    /// An append would push the fill cursor past `leaf_count`.
    Capacity,
    /// The builder was constructed without an internal buffer, but a call
    /// needed one.
    MissingBuffer,
    /// The supplied buffer is smaller than the intermediate tree it must
    /// hold.
    BufferTooSmall,
    /// A batched-hash backend call failed; propagated unchanged.
    Backend,
    /// No accelerator device matches the request and none is available as a
    /// fallback.
    DeviceNotFound,
    /// A requested device identifier could not be parsed: a configuration
    /// error, surfaced instead of silently substituting a default device.
    InvalidDeviceId,
}

} // verus!
