use kernel::region::{align_region, select_for_bootstrap, select_largest, MemoryRegion, RegionKind};
use kernel::Failure;

fn r(start: u64, end: u64, kind: RegionKind) -> MemoryRegion {
    MemoryRegion { start, end, kind }
}

#[test]
fn align_rounds_start_up_and_length_down() {
    let a = align_region(&r(0x1001, 0x5fff, RegionKind::Usable)).unwrap();
    assert_eq!(a, r(0x2000, 0x5000, RegionKind::Usable));
    assert_eq!(align_region(&r(0x1001, 0x2fff, RegionKind::Usable)), None);
    assert_eq!(align_region(&r(0x3000, 0x1000, RegionKind::Usable)), None);
    assert_eq!(align_region(&r(u64::MAX - 10, u64::MAX, RegionKind::Usable)), None);
}

#[test]
fn largest_usable_region_is_chosen() {
    let map = vec![
        r(0x0, 0x9f000, RegionKind::Usable),
        r(0x100000, 0x20000000, RegionKind::Reserved),
        r(0x100000, 0x900000, RegionKind::Usable),
        r(0x1000000, 0x1100001, RegionKind::Usable),
    ];
    assert_eq!(select_largest(&map), Ok(r(0x100000, 0x900000, RegionKind::Usable)));
}

#[test]
fn largest_tie_goes_to_the_first() {
    let map = vec![
        r(0x1000, 0x3000, RegionKind::Usable),
        r(0x8000, 0xa000, RegionKind::Usable),
    ];
    assert_eq!(select_largest(&map), Ok(r(0x1000, 0x3000, RegionKind::Usable)));
}

#[test]
fn no_usable_region_fails() {
    let map = vec![
        r(0x0, 0x100000, RegionKind::Reserved),
        r(0x100001, 0x101fff, RegionKind::Usable),
    ];
    assert_eq!(select_largest(&map), Err(Failure::NoUsableRegion));
    assert_eq!(select_for_bootstrap(&map, 4096), Err(Failure::NoUsableRegion));
    assert_eq!(select_largest(&Vec::new()), Err(Failure::NoUsableRegion));
}

#[test]
fn bootstrap_region_is_the_first_large_enough() {
    let map = vec![
        r(0x0, 0x9f000, RegionKind::Usable),
        r(0x100000, 0x2000000, RegionKind::Reserved),
        r(0x2000800, 0x3001000, RegionKind::Usable),
        r(0x4000000, 0x8000000, RegionKind::Usable),
    ];
    let min = 16 * 1024 * 1024;
    assert_eq!(select_for_bootstrap(&map, min), Ok(r(0x2001000, 0x3001000, RegionKind::Usable)));
    assert_eq!(select_for_bootstrap(&map, 0x1000), Ok(r(0x0, 0x9f000, RegionKind::Usable)));
}
