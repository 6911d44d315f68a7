//! The single active-allocator slot that every heap consumer calls through.
//! Installing an allocator replaces the previous one; allocations made
//! against a superseded allocator are never released through its successor.
use vstd::prelude::*;
use crate::allocator::{acquire_post, release_post, BlockAllocator};
use crate::Failure;

verus! {

/// A request served inside the critical section.
#[derive(Clone, Copy, Debug, PartialEq, Eq, Structural)]
pub enum HeapOp {
    /// Take blocks for `size` bytes.
    Alloc { size: usize },
    /// Give back the blocks of `size` bytes at `addr`.
    Dealloc { addr: u64, size: usize },
}

/// What serving `op` does to the active allocator `pre`, leaving `post` and
/// returning `r` (the address, for both kinds of request).
pub open spec fn op_post(
    pre: Option<BlockAllocator>,
    op: HeapOp,
    r: Result<u64, Failure>,
    post: Option<BlockAllocator>,
) -> bool {
    match (pre, op) {
        (None, HeapOp::Alloc { .. }) => r == Err::<u64, Failure>(Failure::OutOfMemory) && post
            is None,
        (None, HeapOp::Dealloc { .. }) => r == Err::<u64, Failure>(Failure::InvalidRelease)
            && post is None,
        (Some(a), HeapOp::Alloc { size }) => post matches Some(b) && acquire_post(
            a,
            size as int,
            r,
            b,
        ),
        (Some(a), HeapOp::Dealloc { addr, size }) => post matches Some(b) && release_post(
            a,
            addr as int,
            size as int,
            unit_result(r),
            b,
        ) && (r is Ok ==> r == Ok::<u64, Failure>(addr)),
    }
}

/// `r` with its value dropped.
pub open spec fn unit_result(r: Result<u64, Failure>) -> Result<(), Failure> {
    match r {
        Ok(_) => Ok(()),
        Err(e) => Err(e),
    }
}

/// The active-allocator slot, with the flag that guards its critical
/// section.
pub struct GlobalAllocator {
    active: Option<BlockAllocator>,
    busy: bool,
}

impl GlobalAllocator {
    /// The allocator that requests are served from, if one was installed.
    pub closed spec fn spec_active(&self) -> Option<BlockAllocator> {
        self.active
    }

    /// The slot's invariant: outside a critical section the flag is free,
    /// and the active allocator keeps its own invariant.
    pub closed spec fn wf(&self) -> bool {
        &&& !self.busy
        &&& (self.active matches Some(a) ==> a.wf())
    }

    /// An empty slot: every request fails until an allocator is installed.
    pub fn new() -> (r: GlobalAllocator)
        ensures
            r.wf(),
            r.spec_active() is None,
    {
        GlobalAllocator { active: None, busy: false }
    }

    /// Makes `allocator` the active one; the previous one, if any, is
    /// dropped together with its bitmap.
    pub fn install(&mut self, allocator: BlockAllocator)
        requires
            old(self).wf(),
            allocator.wf(),
        ensures
            final(self).wf(),
            final(self).spec_active() == Some(allocator),
    {
        self.enter();
        self.active = Some(allocator);
        self.leave();
    }

    /// Base address of the active allocator's region.
    pub fn head(&self) -> (r: Option<u64>)
        ensures
            r matches Some(h) <==> self.spec_active() is Some,
            r matches Some(h) ==> h == self.spec_active().unwrap().spec_head(),
    {
        match &self.active {
            Some(a) => Some(a.head()),
            None => None,
        }
    }

    /// Starts the critical section: the flag goes from free to held.
    fn enter(&mut self)
        requires
            !old(self).busy,
        ensures
            final(self).busy,
            final(self).active == old(self).active,
    {
        self.busy = true;
    }

    /// Ends the critical section.
    fn leave(&mut self)
        ensures
            !final(self).busy,
            final(self).active == old(self).active,
    {
        self.busy = false;
    }

    /// Serves `op` against the active allocator inside the critical section.
    pub fn semaphore_ops(&mut self, op: HeapOp) -> (r: Result<u64, Failure>)
        requires
            old(self).wf(),
        ensures
            final(self).wf(),
            op_post(old(self).spec_active(), op, r, final(self).spec_active()),
    {
        self.enter();
        let r = match &mut self.active {
            None => match op {
                HeapOp::Alloc { .. } => Err(Failure::OutOfMemory),
                HeapOp::Dealloc { .. } => Err(Failure::InvalidRelease),
            },
            Some(a) => match op {
                HeapOp::Alloc { size } => a.acquire(size),
                HeapOp::Dealloc { addr, size } => match a.release(addr, size) {
                    Ok(()) => Ok(addr),
                    Err(e) => Err(e),
                },
            },
        };
        self.leave();
        r
    }

    /// Heap allocation of `size` bytes through the active allocator. Every
    /// address it returns is block-aligned; an `align` beyond the block size
    /// is not honored.
    pub fn allocate(&mut self, size: usize, align: usize) -> (r: Result<u64, Failure>)
        requires
            old(self).wf(),
        ensures
            final(self).wf(),
            op_post(old(self).spec_active(), HeapOp::Alloc { size }, r, final(self).spec_active()),
    {
        self.semaphore_ops(HeapOp::Alloc { size })
    }

    /// Heap release of the `size` bytes at `addr` through the active
    /// allocator; `align` plays no part.
    pub fn deallocate(&mut self, addr: u64, size: usize, align: usize) -> (r: Result<(), Failure>)
        requires
            old(self).wf(),
        ensures
            final(self).wf(),
            match old(self).spec_active() {
                None => r == Err::<(), Failure>(Failure::InvalidRelease)
                    && final(self).spec_active() is None,
                Some(a) => final(self).spec_active() matches Some(b) && release_post(
                    a,
                    addr as int,
                    size as int,
                    r,
                    b,
                ),
            },
    {
        match self.semaphore_ops(HeapOp::Dealloc { addr, size }) {
            Ok(_) => Ok(()),
            Err(e) => Err(e),
        }
    }
}

} // verus!
