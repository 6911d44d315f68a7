use kernel::allocator::{BlockAllocator, BOOTSTRAP_CAPACITY};
use kernel::region::{select_for_bootstrap, select_largest, MemoryRegion, RegionKind};
use kernel::slot::{GlobalAllocator, HeapOp};
use kernel::Failure;

#[test]
fn swap_to_operational_allocator() {
    let map = vec![
        MemoryRegion { start: 0x100000, end: 0x1100000, kind: RegionKind::Usable },
        MemoryRegion { start: 0x1100000, end: 0x2000000, kind: RegionKind::Reserved },
        MemoryRegion { start: 0x40000000, end: 0x60000000, kind: RegionKind::Usable },
    ];
    let mut slot = GlobalAllocator::new();
    let boot_region = select_for_bootstrap(&map, BOOTSTRAP_CAPACITY).unwrap();
    slot.install(BlockAllocator::bootstrap(&boot_region).unwrap());
    let boot_head = slot.head().unwrap();
    assert_eq!(boot_head, 0x100000);
    assert_eq!(slot.allocate(4096, 8), Ok(0x100000));

    let big = select_largest(&map).unwrap();
    assert_eq!(big.end - big.start, 512 * 1024 * 1024);
    slot.install(BlockAllocator::new(&big).unwrap());
    let head = slot.head().unwrap();
    assert_ne!(head, boot_head);
    let p = slot.allocate(8192, 8).unwrap();
    assert!(p >= 0x40000000 && p + 8192 <= 0x60000000);
    // 131072 blocks need 2048 bitmap words, kept in the region's first blocks
    assert_eq!(p, 0x40000000 + 2048 * 4096);
    assert_eq!(slot.deallocate(p, 8192, 8), Ok(()));
    assert_eq!(slot.allocate(4096, 8), Ok(p));
}

#[test]
fn empty_slot_serves_nothing() {
    let mut slot = GlobalAllocator::new();
    assert_eq!(slot.head(), None);
    assert_eq!(slot.allocate(16, 8), Err(Failure::OutOfMemory));
    assert_eq!(slot.deallocate(0x1000, 16, 8), Err(Failure::InvalidRelease));
}

#[test]
fn semaphore_ops_serves_both_requests() {
    let mut slot = GlobalAllocator::new();
    let region = MemoryRegion { start: 0x3000, end: 0x5000, kind: RegionKind::Usable };
    slot.install(BlockAllocator::bootstrap(&region).unwrap());
    assert_eq!(slot.semaphore_ops(HeapOp::Alloc { size: 100 }), Ok(0x3000));
    assert_eq!(slot.semaphore_ops(HeapOp::Alloc { size: 100 }), Ok(0x4000));
    assert_eq!(slot.semaphore_ops(HeapOp::Alloc { size: 100 }), Err(Failure::OutOfMemory));
    assert_eq!(slot.semaphore_ops(HeapOp::Dealloc { addr: 0x3000, size: 100 }), Ok(0x3000));
    assert_eq!(
        slot.semaphore_ops(HeapOp::Dealloc { addr: 0x6000, size: 100 }),
        Err(Failure::InvalidRelease)
    );
    assert_eq!(slot.semaphore_ops(HeapOp::Alloc { size: 4096 }), Ok(0x3000));
}
