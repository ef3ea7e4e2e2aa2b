//! What the library asks of `Vec` beyond what vstd specifies.

use vstd::prelude::*;

verus! {

/// `Vec::capacity`: the number of elements the vector can hold before it
/// has to reallocate. Nothing is claimed of the number: it is the
/// allocator's business, and the library uses it only to decide when to
/// reserve room ahead of need.
#[verifier::external_body]
pub(crate) fn capacity_of<T>(v: &Vec<T>) -> (capacity: usize) {
    v.capacity()
}

} // verus!
