//! A multidimensional array stored as one flat, row-major buffer.

pub mod layout;
pub mod mdvec;

pub use layout::AccessError;
pub use mdvec::Mdvec;

use vstd::prelude::*;

verus! {

/// Adds two sizes.
pub fn add(left: usize, right: usize) -> (r: usize)
    requires
        left + right <= usize::MAX,
    ensures
        r == left + right,
{
    left + right
}

} // verus!
