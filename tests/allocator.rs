use kernel::allocator::{BlockAllocator, BOOTSTRAP_CAPACITY};
use kernel::region::{MemoryRegion, RegionKind};
use kernel::{Failure, BLOCK_SIZE};

fn usable(start: u64, end: u64) -> MemoryRegion {
    MemoryRegion { start, end, kind: RegionKind::Usable }
}

fn snapshot(a: &BlockAllocator) -> Vec<bool> {
    let blocks = a.capacity() / BLOCK_SIZE;
    (0..blocks).map(|i| a.is_used(i).unwrap()).collect()
}

#[test]
fn first_fit_reuses_released_run() {
    let mut a = BlockAllocator::bootstrap(&usable(0x100000, 0x900000)).unwrap();
    assert_eq!(a.head(), 0x100000);
    assert_eq!(a.capacity() / BLOCK_SIZE, 2048);
    assert_eq!(a.acquire(4096), Ok(0x100000));
    assert_eq!(a.acquire(8192), Ok(0x101000));
    assert_eq!(a.release(0x100000, 4096), Ok(()));
    assert_eq!(a.acquire(4096), Ok(0x100000));
}

#[test]
fn two_block_region_exhausts() {
    let mut a = BlockAllocator::bootstrap(&usable(0x200000, 0x202000)).unwrap();
    assert_eq!(a.acquire(4096), Ok(0x200000));
    assert_eq!(a.acquire(4096), Ok(0x201000));
    assert_eq!(a.acquire(4096), Err(Failure::OutOfMemory));
}

#[test]
fn acquire_then_release_restores_bitmap() {
    let mut a = BlockAllocator::bootstrap(&usable(0x10000, 0x20000)).unwrap();
    a.acquire(4096).unwrap();
    a.acquire(3 * 4096).unwrap();
    let before = snapshot(&a);
    let p = a.acquire(5000).unwrap();
    assert_ne!(snapshot(&a), before);
    assert_eq!(a.release(p, 5000), Ok(()));
    assert_eq!(snapshot(&a), before);
}

#[test]
fn exhaustion_fails_without_damage() {
    let mut a = BlockAllocator::bootstrap(&usable(0x10000, 0x14000)).unwrap();
    let first = a.acquire(4096).unwrap();
    let rest = a.acquire(3 * 4096).unwrap();
    let full = snapshot(&a);
    assert!(full.iter().all(|u| *u));
    assert_eq!(a.acquire(1), Err(Failure::OutOfMemory));
    assert_eq!(snapshot(&a), full);
    assert_eq!(a.release(rest, 3 * 4096), Ok(()));
    assert_eq!(a.acquire(2 * 4096), Ok(rest));
    assert_eq!(a.release(first, 4096), Ok(()));
    assert_eq!(a.acquire(4096), Ok(first));
}

#[test]
fn padding_bits_are_never_handed_out() {
    // three blocks: the bitmap word has 61 padding bits after them
    let mut a = BlockAllocator::bootstrap(&usable(0x40000, 0x43000)).unwrap();
    assert_eq!(a.capacity(), 3 * 4096);
    assert_eq!(a.is_used(3), None);
    assert_eq!(a.acquire(4 * 4096), Err(Failure::OutOfMemory));
    assert_eq!(a.acquire(3 * 4096), Ok(0x40000));
    assert_eq!(a.acquire(1), Err(Failure::OutOfMemory));
}

#[test]
fn returned_addresses_are_aligned_and_inside() {
    let mut a = BlockAllocator::bootstrap(&usable(0x1234, 0x40000)).unwrap();
    let head = a.head();
    assert_eq!(head, 0x2000);
    let end = head + a.capacity();
    let sizes = [1usize, 4096, 4097, 10000, 0, 8192, 123, 40000];
    for s in sizes {
        match a.acquire(s) {
            Ok(p) => {
                assert_eq!(p % BLOCK_SIZE, 0);
                assert!(p >= head);
                let blocks = (s as u64 + BLOCK_SIZE - 1) / BLOCK_SIZE;
                assert!(p + blocks * BLOCK_SIZE <= end);
            }
            Err(e) => assert_eq!(e, Failure::OutOfMemory),
        }
    }
}

#[test]
fn live_allocations_do_not_overlap() {
    let mut a = BlockAllocator::bootstrap(&usable(0x100000, 0x140000)).unwrap();
    let mut live: Vec<(u64, u64)> = Vec::new();
    for s in [4096usize, 9000, 1, 16384, 4096] {
        let p = a.acquire(s).unwrap();
        live.push((p, (s as u64 + 4095) / 4096 * 4096));
    }
    let (p, l) = live.remove(1);
    a.release(p, l as usize).unwrap();
    for s in [4096usize, 8192, 12288] {
        let p = a.acquire(s).unwrap();
        live.push((p, s as u64));
    }
    for i in 0..live.len() {
        for j in 0..live.len() {
            if i != j {
                let (a0, al) = live[i];
                let (b0, bl) = live[j];
                assert!(a0 + al <= b0 || b0 + bl <= a0);
            }
        }
    }
}

#[test]
fn request_sizes_round_up_to_blocks() {
    let mut a = BlockAllocator::bootstrap(&usable(0, 0x10000)).unwrap();
    assert_eq!(a.acquire(1), Ok(0));
    assert_eq!(a.acquire(4097), Ok(0x1000));
    assert_eq!(a.acquire(4096), Ok(0x3000));
    assert_eq!(a.is_used(2), Some(true));
    assert_eq!(a.is_used(4), Some(false));
}

#[test]
fn zero_size_request_takes_nothing() {
    let mut a = BlockAllocator::bootstrap(&usable(0x8000, 0xa000)).unwrap();
    assert_eq!(a.acquire(0), Ok(0x8000));
    assert_eq!(a.is_used(0), Some(false));
}

#[test]
fn first_fit_skips_short_holes() {
    let mut a = BlockAllocator::bootstrap(&usable(0, 0x8000)).unwrap();
    let p0 = a.acquire(4096).unwrap();
    let _p1 = a.acquire(4096).unwrap();
    let p2 = a.acquire(8192).unwrap();
    a.release(p0, 4096).unwrap();
    a.release(p2, 8192).unwrap();
    // the one-block hole at 0 is too short for two blocks
    assert_eq!(a.acquire(8192), Ok(0x2000));
    assert_eq!(a.acquire(4096), Ok(0));
}

#[test]
fn release_outside_region_is_refused() {
    let mut a = BlockAllocator::bootstrap(&usable(0x10000, 0x12000)).unwrap();
    assert_eq!(a.release(0xf000, 4096), Err(Failure::InvalidRelease));
    assert_eq!(a.release(0x11000, 8192), Err(Failure::InvalidRelease));
    assert_eq!(a.release(0x20000, 1), Err(Failure::InvalidRelease));
    assert_eq!(a.release(0x11000, 4096), Ok(()));
}

#[test]
fn operational_allocator_reserves_its_bitmap() {
    let a = BlockAllocator::new(&usable(0x100000, 0x900000)).unwrap();
    assert_eq!(a.capacity(), 0x800000);
    // 2048 blocks need 32 words: one block of bitmap per word
    for i in 0..32 {
        assert_eq!(a.is_used(i), Some(true));
    }
    assert_eq!(a.is_used(32), Some(false));
    let mut a = a;
    assert_eq!(a.acquire(4096), Ok(0x100000 + 32 * 4096));
}

#[test]
fn operational_allocator_with_partial_word() {
    // 65 blocks: two bitmap words, two bitmap blocks, 63 padding bits
    let mut a = BlockAllocator::new(&usable(0, 65 * 4096)).unwrap();
    assert_eq!(a.is_used(1), Some(true));
    assert_eq!(a.is_used(2), Some(false));
    assert_eq!(a.acquire(63 * 4096), Ok(2 * 4096));
    assert_eq!(a.acquire(1), Err(Failure::OutOfMemory));
}

#[test]
fn region_without_a_block_is_refused() {
    assert_eq!(
        BlockAllocator::new(&usable(0x1001, 0x2fff)).err(),
        Some(Failure::NoUsableRegion)
    );
    assert_eq!(
        BlockAllocator::bootstrap(&usable(0x5000, 0x5000)).err(),
        Some(Failure::NoUsableRegion)
    );
}

#[test]
fn bootstrap_is_cut_to_its_fixed_capacity() {
    let a = BlockAllocator::bootstrap(&usable(0x100000, 0x100000 + 64 * 1024 * 1024)).unwrap();
    assert_eq!(a.capacity(), BOOTSTRAP_CAPACITY);
    assert_eq!(a.head(), 0x100000);
}
