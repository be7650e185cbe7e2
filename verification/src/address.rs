//! Addresses of buffers.
use vstd::prelude::*;

verus! {

/// Calls `Vec::as_ptr` and gives the address that it returns as a number. Where the
/// allocator has put the buffer is not known, so nothing is claimed of the result.
#[verifier::external_body]
pub(crate) fn address_of(bytes: &Vec<u8>) -> (r: usize) {
    bytes.as_ptr() as usize
}

} // verus!
