//! Kernel-size validation and the derived sampling radius.

use vstd::prelude::*;

verus! {

/// Why the filter refuses an input.
#[derive(Clone, Copy, Debug, PartialEq, Eq, Structural)]
pub enum FilterError {
    /// The kernel size is smaller than 3 or even.
    InvalidKernel,
}

/// A kernel size is usable when it is an odd integer of at least 3.
pub open spec fn kernel_ok(k: i32) -> bool {
    k >= 3 && k % 2 == 1
}

/// Radius of the sampling window derived from an accepted kernel size.
pub open spec fn radius_of(k: i32) -> int {
    (k - 1) / 2
}

/// Validates a kernel size and derives the sampling radius `(k - 1) / 2`.
/// Rejects every kernel below 3 and every even kernel with `InvalidKernel`.
pub fn kernel_radius(k: i32) -> (r: Result<u32, FilterError>)
    ensures
        r is Ok <==> kernel_ok(k),
        r is Ok ==> r->Ok_0 == radius_of(k) && r->Ok_0 >= 1,
        r is Err ==> r->Err_0 == FilterError::InvalidKernel,
{
    if k < 3 || k % 2 == 0 {
        Err(FilterError::InvalidKernel)
    } else {
        Ok(((k - 1) / 2) as u32)
    }
}

} // verus!
