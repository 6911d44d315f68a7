//! Physical memory management for a freestanding kernel: a first-fit bitmap
//! block allocator, the selection of the memory region it manages, and the
//! single active-allocator slot that heap consumers call through.
use vstd::prelude::*;

pub mod bitmap;
pub mod region;
pub mod allocator;
pub mod slot;
pub mod laws;
pub mod video;
pub mod font;

verus! {

/// Size in bytes of one block, the allocation granularity.
pub const BLOCK_SIZE: u64 = 4096;

/// Why a memory-management request could not be served.
#[derive(Clone, Copy, Debug, PartialEq, Eq, Structural)]
pub enum Failure {
    /// No memory region satisfies the selection criteria.
    NoUsableRegion,
    /// No run of free blocks is long enough for the request.
    OutOfMemory,
    /// A release names blocks outside the managed region.
    InvalidRelease,
}

} // verus!
