//! Structural fingerprinting of binary buffers: a local-entropy profile,
//! a Hilbert-curve spatial remap, magic-number signature detection, and a
//! periodicity (autocorrelation) analysis, combined into one result bundle.

use vstd::prelude::*;

pub mod analysis;
pub mod entropy;
pub mod hilbert;
pub mod periodicity;
pub mod signatures;

verus! {

/// Minimum of two mathematical integers.
pub open spec fn spec_min(a: int, b: int) -> int {
    if a < b {
        a
    } else {
        b
    }
}

/// Executable minimum on `usize`, pinned to `spec_min`.
pub fn min_usize(a: usize, b: usize) -> (r: usize)
    ensures
        r == spec_min(a as int, b as int),
{
    if a < b {
        a
    } else {
        b
    }
}

} // verus!
