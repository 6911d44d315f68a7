//! Memory regions reported by the platform, and the choice of the region an
//! allocator manages.
use vstd::prelude::*;
use crate::{Failure, BLOCK_SIZE};

verus! {

/// How the platform classifies a memory region.
#[derive(Clone, Copy, Debug, PartialEq, Eq, Structural)]
pub enum RegionKind {
    Usable,
    Reserved,
}

/// A span `[start, end)` of physical addresses.
#[derive(Clone, Copy, Debug, PartialEq, Eq, Structural)]
pub struct MemoryRegion {
    pub start: u64,
    pub end: u64,
    pub kind: RegionKind,
}

/// `x` rounded up to the next multiple of the block size.
pub open spec fn align_up(x: int) -> int {
    ((x + 4095) / 4096) * 4096
}

/// Length of the region as reported, `end - start`.
pub open spec fn span(r: MemoryRegion) -> int {
    r.end - r.start
}

/// Length of the whole blocks that fit in the region once its start is
/// rounded up to a block boundary.
pub open spec fn aligned_len(r: MemoryRegion) -> int {
    if align_up(r.start as int) < r.end {
        ((r.end - align_up(r.start as int)) / 4096) * 4096
    } else {
        0
    }
}

/// The block-aligned part of the region.
pub open spec fn aligned_region(r: MemoryRegion) -> MemoryRegion {
    MemoryRegion {
        start: align_up(r.start as int) as u64,
        end: (align_up(r.start as int) + aligned_len(r)) as u64,
        kind: r.kind,
    }
}

/// A region an allocator may manage: usable, and at least one block long
/// once aligned.
pub open spec fn is_candidate(r: MemoryRegion) -> bool {
    r.kind == RegionKind::Usable && aligned_len(r) >= 4096
}

/// Region `i` is the first candidate of maximal reported length.
pub open spec fn is_largest_at(rs: Seq<MemoryRegion>, i: int) -> bool {
    &&& 0 <= i < rs.len()
    &&& is_candidate(rs[i])
    &&& forall|j: int|
        0 <= j < rs.len() && is_candidate(#[trigger] rs[j]) ==> span(rs[j]) <= span(rs[i]) && (j
            < i ==> span(rs[j]) < span(rs[i]))
}

/// A candidate whose aligned length reaches `min_size`.
pub open spec fn fits_bootstrap(r: MemoryRegion, min_size: int) -> bool {
    is_candidate(r) && aligned_len(r) >= min_size
}

/// The block-aligned part of `r`, when it holds at least one block.
pub fn align_region(r: &MemoryRegion) -> (res: Option<MemoryRegion>)
    ensures
        res matches Some(a) <==> aligned_len(*r) >= 4096,
        res matches Some(a) ==> a == aligned_region(*r),
{
    if r.start > u64::MAX - (BLOCK_SIZE - 1) {
        return None;
    }
    let start = (r.start + (BLOCK_SIZE - 1)) / BLOCK_SIZE * BLOCK_SIZE;
    if start >= r.end {
        return None;
    }
    let len = (r.end - start) / BLOCK_SIZE * BLOCK_SIZE;
    if len < BLOCK_SIZE {
        return None;
    }
    Some(MemoryRegion { start, end: start + len, kind: r.kind })
}

/// The aligned part of the first usable region of maximal length.
pub fn select_largest(regions: &Vec<MemoryRegion>) -> (res: Result<MemoryRegion, Failure>)
    ensures
        res matches Ok(m) ==> exists|i: int|
            is_largest_at(regions@, i) && m == aligned_region(#[trigger] regions@[i]),
        res matches Err(e) ==> e == Failure::NoUsableRegion && forall|j: int|
            0 <= j < regions@.len() ==> !is_candidate(#[trigger] regions@[j]),
{
    let mut best: Option<(usize, MemoryRegion)> = None;
    let mut i: usize = 0;
    while i < regions.len()
        invariant
            i <= regions@.len(),
            best matches None ==> forall|j: int| 0 <= j < i ==> !is_candidate(#[trigger] regions@[j]),
            best matches Some(b) ==> b.0 < i && is_candidate(regions@[b.0 as int]) && b.1
                == aligned_region(regions@[b.0 as int]) && forall|j: int|
                0 <= j < i && is_candidate(#[trigger] regions@[j]) ==> span(regions@[j]) <= span(
                    regions@[b.0 as int],
                ) && (j < b.0 ==> span(regions@[j]) < span(regions@[b.0 as int])),
        decreases regions@.len() - i,
    {
        let r = &regions[i];
        if r.kind == RegionKind::Usable {
            if let Some(a) = align_region(r) {
                match best {
                    None => {
                        best = Some((i, a));
                    },
                    Some(b) => {
                        let cur = &regions[b.0];
                        if r.end - r.start > cur.end - cur.start {
                            best = Some((i, a));
                        }
                    },
                }
            }
        }
        i = i + 1;
    }
    match best {
        None => Err(Failure::NoUsableRegion),
        Some(b) => {
            assert(is_largest_at(regions@, b.0 as int));
            Ok(b.1)
        },
    }
}

/// The aligned part of the first usable region whose aligned length is at
/// least `min_size`.
pub fn select_for_bootstrap(regions: &Vec<MemoryRegion>, min_size: u64) -> (res: Result<
    MemoryRegion,
    Failure,
>)
    ensures
        res matches Ok(m) ==> exists|i: int|
            0 <= i < regions@.len() && fits_bootstrap(#[trigger] regions@[i], min_size as int)
                && m == aligned_region(regions@[i]) && forall|j: int|
                0 <= j < i ==> !fits_bootstrap(#[trigger] regions@[j], min_size as int),
        res matches Err(e) ==> e == Failure::NoUsableRegion && forall|j: int|
            0 <= j < regions@.len() ==> !fits_bootstrap(#[trigger] regions@[j], min_size as int),
{
    let mut i: usize = 0;
    while i < regions.len()
        invariant
            i <= regions@.len(),
            forall|j: int| 0 <= j < i ==> !fits_bootstrap(#[trigger] regions@[j], min_size as int),
        decreases regions@.len() - i,
    {
        let r = &regions[i];
        if r.kind == RegionKind::Usable {
            if let Some(a) = align_region(r) {
                if a.end - a.start >= min_size {
                    assert(fits_bootstrap(regions@[i as int], min_size as int));
                    return Ok(a);
                }
            }
        }
        i = i + 1;
    }
    Err(Failure::NoUsableRegion)
}

} // verus!
