//! The bitmap block allocator: one bit per block of the managed region,
//! first-fit search for a run of free blocks.
use vstd::prelude::*;
use crate::bitmap::{bit_of, put_bit, test_bit, zeroed, WORD_BITS};
use crate::region::{align_region, align_up, aligned_len, MemoryRegion};
use crate::{Failure, BLOCK_SIZE};

verus! {

/// Bytes managed by the bootstrap allocator.
pub const BOOTSTRAP_CAPACITY: u64 = 16 * 1024 * 1024;

/// Bitmap words of the bootstrap allocator: one bit for each of its blocks.
pub const BOOTSTRAP_WORDS: usize = 64;

/// Number of blocks that a request of `size` bytes occupies.
pub open spec fn entries_for(size: int) -> int {
    (size + 4095) / 4096
}

/// Blocks `[s, s + n)` lie inside the region and are all free.
pub open spec fn is_free_run(used: Seq<bool>, s: int, n: int) -> bool {
    &&& 0 <= s
    &&& s + n <= used.len()
    &&& forall|j: int| s <= j < s + n ==> !used[j]
}

/// `s` starts the leftmost free run of `n` blocks.
pub open spec fn is_first_fit(used: Seq<bool>, s: int, n: int) -> bool {
    &&& is_free_run(used, s, n)
    &&& forall|t: int| 0 <= t < s ==> !is_free_run(used, t, n)
}

/// Some run of `n` free blocks exists.
pub open spec fn has_free_run(used: Seq<bool>, n: int) -> bool {
    exists|s: int| is_free_run(used, s, n)
}

/// `used` with blocks `[s, s + n)` set to `v`.
pub open spec fn mark(used: Seq<bool>, s: int, n: int, v: bool) -> Seq<bool> {
    Seq::new(used.len(), |j: int| if s <= j < s + n { v } else { used[j] })
}

/// Blocks taken by a bitmap that is kept inside the region it describes:
/// one block per `BLOCK_SIZE * WORD_BITS` bytes of capacity, rounded up.
pub open spec fn meta_blocks(capacity: int) -> int {
    (capacity + 262143) / 262144
}

/// Bits `[t, t + n)` of the packed words are all clear.
spec fn bits_free(words: Seq<u64>, t: int, n: int) -> bool {
    forall|j: int| t <= j < t + n ==> !bit_of(words, j)
}

/// A bitmap of `words` words whose first `blocks` bits are clear and whose
/// other bits are set.
fn padded_bitmap(words: usize, blocks: usize) -> (r: Vec<u64>)
    requires
        blocks <= words * 64 <= usize::MAX,
    ensures
        r@.len() == words,
        forall|i: int| 0 <= i < blocks ==> !bit_of(r@, i),
        forall|i: int| blocks <= i < words * 64 ==> bit_of(r@, i),
{
    let mut bitmap = zeroed(words);
    let total = words * WORD_BITS;
    let mut j: usize = blocks;
    while j < total
        invariant
            blocks <= j <= total,
            total == bitmap@.len() * 64,
            bitmap@.len() == words,
            forall|i: int| 0 <= i < blocks ==> !bit_of(bitmap@, i),
            forall|i: int| blocks <= i < j ==> bit_of(bitmap@, i),
        decreases total - j,
    {
        put_bit(&mut bitmap, j, true);
        j = j + 1;
    }
    bitmap
}

/// An allocator over the blocks of `[head, head + capacity)`.
pub struct BlockAllocator {
    head: u64,
    capacity: u64,
    bitmap: Vec<u64>,
}

impl View for BlockAllocator {
    type V = Seq<bool>;

    /// Whether each block of the region is in use.
    closed spec fn view(&self) -> Seq<bool> {
        Seq::new((self.capacity / 4096) as nat, |i: int| bit_of(self.bitmap@, i))
    }
}

/// What `acquire` of `size` bytes does to an allocator `pre`, leaving `post`
/// and returning `r`: the leftmost free run of `entries_for(size)` blocks is
/// taken and its address returned, or the request fails and nothing changes.
pub open spec fn acquire_post(
    pre: BlockAllocator,
    size: int,
    r: Result<u64, Failure>,
    post: BlockAllocator,
) -> bool {
    let n = entries_for(size);
    &&& post.wf()
    &&& post.spec_head() == pre.spec_head()
    &&& post.spec_capacity() == pre.spec_capacity()
    &&& match r {
        Ok(a) => {
            let s = (a - pre.spec_head()) / 4096;
            &&& pre.spec_head() <= a
            &&& a % 4096 == 0
            &&& a + n * 4096 <= pre.spec_head() + pre.spec_capacity()
            &&& a == pre.spec_head() + s * 4096
            &&& is_first_fit(pre@, s, n)
            &&& post@ == mark(pre@, s, n, true)
        },
        Err(e) => {
            &&& e == Failure::OutOfMemory
            &&& !has_free_run(pre@, n)
            &&& post == pre
        },
    }
}

/// What `release` of `size` bytes at `addr` does: the run of blocks starting
/// at the block that holds `addr` is freed when it lies inside the region,
/// and the request is refused otherwise.
pub open spec fn release_post(
    pre: BlockAllocator,
    addr: int,
    size: int,
    r: Result<(), Failure>,
    post: BlockAllocator,
) -> bool {
    let n = entries_for(size);
    let s = (addr - pre.spec_head()) / 4096;
    &&& post.wf()
    &&& post.spec_head() == pre.spec_head()
    &&& post.spec_capacity() == pre.spec_capacity()
    &&& (r is Ok <==> pre.spec_head() <= addr && s + n <= pre@.len())
    &&& (r is Ok ==> post@ == mark(pre@, s, n, false))
    &&& (r is Err ==> r == Err::<(), Failure>(Failure::InvalidRelease) && post == pre)
}

impl BlockAllocator {
    /// Block-aligned base address of the managed region.
    pub closed spec fn spec_head(&self) -> int {
        self.head as int
    }

    /// Bytes under management, a whole number of blocks.
    pub closed spec fn spec_capacity(&self) -> int {
        self.capacity as int
    }

    /// The allocator's invariant: an aligned region inside the address space,
    /// a bitmap with one bit per block, and every bit past the last block set.
    pub closed spec fn wf(&self) -> bool {
        let blocks = self.capacity / 4096;
        &&& self.head % 4096 == 0
        &&& self.capacity % 4096 == 0
        &&& self.head + self.capacity <= u64::MAX
        &&& blocks <= self.bitmap@.len() * 64
        &&& self.bitmap@.len() * 64 <= usize::MAX
        &&& forall|i: int| blocks <= i < self.bitmap@.len() * 64 ==> bit_of(self.bitmap@, i)
    }

    /// An operational allocator over the block-aligned part of `region`.
    /// Its bitmap is kept at the front of the region itself, so the first
    /// `meta_blocks(capacity)` blocks start out in use and all others free.
    /// Fails with `NoUsableRegion` when the aligned part holds no block, or
    /// when its bitmap could not be indexed on this machine.
    pub fn new(region: &MemoryRegion) -> (r: Result<BlockAllocator, Failure>)
        ensures
            aligned_len(*region) < 4096 ==> r == Err::<BlockAllocator, Failure>(
                Failure::NoUsableRegion,
            ),
            aligned_len(*region) >= 4096 && (aligned_len(*region) / 4096 + 63) / 64 * 64
                <= usize::MAX ==> r is Ok,
            r matches Err(e) ==> e == Failure::NoUsableRegion,
            r matches Ok(b) ==> {
                &&& b.wf()
                &&& b.spec_head() == align_up(region.start as int)
                &&& b.spec_capacity() == aligned_len(*region)
                &&& b@ == Seq::new(
                    (aligned_len(*region) / 4096) as nat,
                    |i: int| i < meta_blocks(aligned_len(*region)),
                )
            },
    {
        let a = match align_region(region) {
            None => return Err(Failure::NoUsableRegion),
            Some(a) => a,
        };
        let capacity = a.end - a.start;
        let blocks = capacity / BLOCK_SIZE;
        let words = (blocks + 63) / 64;
        if words > (usize::MAX / WORD_BITS) as u64 {
            return Err(Failure::NoUsableRegion);
        }
        assert(blocks <= words * 64);
        let bitmap = padded_bitmap(words as usize, blocks as usize);
        assert(capacity % 4096 == 0 && a.start % 4096 == 0);
        let mut b = BlockAllocator { head: a.start, capacity, bitmap };
        assert(b@ =~= Seq::new(blocks as nat, |i: int| false));
        assert(words <= blocks);
        b.fill(0, words as usize, true);
        assert(meta_blocks(capacity as int) == words) by (nonlinear_arith)
            requires
                capacity == blocks * 4096,
                words == (blocks + 63) / 64,
        ;
        assert(b@ =~= Seq::new(blocks as nat, |i: int| i < meta_blocks(capacity as int)));
        Ok(b)
    }

    /// A bootstrap allocator over the block-aligned part of `region`, cut
    /// to its first `BOOTSTRAP_CAPACITY` bytes. Its bitmap has a fixed size
    /// and is kept apart from the region, so every block starts out free.
    /// Fails with `NoUsableRegion` when the aligned part holds no block.
    pub fn bootstrap(region: &MemoryRegion) -> (r: Result<BlockAllocator, Failure>)
        ensures
            r is Ok <==> aligned_len(*region) >= 4096,
            r matches Err(e) ==> e == Failure::NoUsableRegion,
            r matches Ok(b) ==> {
                let cap = if aligned_len(*region) < BOOTSTRAP_CAPACITY {
                    aligned_len(*region)
                } else {
                    BOOTSTRAP_CAPACITY as int
                };
                &&& b.wf()
                &&& b.spec_head() == align_up(region.start as int)
                &&& b.spec_capacity() == cap
                &&& b@ == Seq::new((cap / 4096) as nat, |i: int| false)
            },
    {
        let a = match align_region(region) {
            None => return Err(Failure::NoUsableRegion),
            Some(a) => a,
        };
        let len = a.end - a.start;
        let capacity = if len < BOOTSTRAP_CAPACITY {
            len
        } else {
            BOOTSTRAP_CAPACITY
        };
        let blocks = capacity / BLOCK_SIZE;
        let bitmap = padded_bitmap(BOOTSTRAP_WORDS, blocks as usize);
        let b = BlockAllocator { head: a.start, capacity, bitmap };
        assert(b@ =~= Seq::new((capacity / 4096) as nat, |i: int| false));
        Ok(b)
    }

    /// Base address of the managed region.
    pub fn head(&self) -> (r: u64)
        ensures
            r == self.spec_head(),
    {
        self.head
    }

    /// Bytes under management.
    pub fn capacity(&self) -> (r: u64)
        ensures
            r == self.spec_capacity(),
    {
        self.capacity
    }

    /// Whether block `block` is in use; `None` past the last block.
    pub fn is_used(&self, block: u64) -> (r: Option<bool>)
        requires
            self.wf(),
        ensures
            r matches Some(u) <==> block < self@.len(),
            r matches Some(u) ==> u == self@[block as int],
    {
        if block < self.capacity / BLOCK_SIZE {
            Some(test_bit(&self.bitmap, block as usize))
        } else {
            None
        }
    }

    /// Sets blocks `[s, s + n)` to `v`.
    fn fill(&mut self, s: usize, n: usize, v: bool)
        requires
            old(self).wf(),
            s + n <= old(self)@.len(),
        ensures
            final(self).wf(),
            final(self).head == old(self).head,
            final(self).capacity == old(self).capacity,
            final(self)@ == mark(old(self)@, s as int, n as int, v),
    {
        let ghost pre = self.bitmap@;
        let ghost blocks = self.capacity / 4096;
        let mut k: usize = 0;
        while k < n
            invariant
                old(self).wf(),
                pre == old(self).bitmap@,
                self.head == old(self).head,
                self.capacity == old(self).capacity,
                k <= n,
                s + n <= blocks,
                blocks == self.capacity / 4096,
                self.bitmap@.len() == pre.len(),
                blocks <= pre.len() * 64,
                forall|j: int|
                    0 <= j < pre.len() * 64 ==> bit_of(self.bitmap@, j) == if s <= j < s + k {
                        v
                    } else {
                        bit_of(pre, j)
                    },
            decreases n - k,
        {
            put_bit(&mut self.bitmap, s + k, v);
            k = k + 1;
        }
        assert(self@ =~= mark(old(self)@, s as int, n as int, v));
    }

    /// Start of the leftmost run of `n` free blocks, if there is one.
    fn find_run(&self, n: usize) -> (r: Option<usize>)
        requires
            self.wf(),
            n > 0,
        ensures
            r matches Some(s) ==> is_first_fit(self@, s as int, n as int),
            r is None ==> !has_free_run(self@, n as int),
    {
        let total = self.bitmap.len() * WORD_BITS;
        let ghost words = self.bitmap@;
        let mut run: usize = 0;
        let mut i: usize = 0;
        while i < total && run < n
            invariant
                self.wf(),
                words == self.bitmap@,
                total == words.len() * 64,
                n > 0,
                i <= total,
                run <= i,
                run <= n,
                forall|j: int| i - run <= j < i ==> !bit_of(words, j),
                i - run == 0 || bit_of(words, i - run - 1),
                forall|t: int| 0 <= t && t + n <= i && t < i - run ==> !bits_free(words, t, n as int),
            decreases total - i,
        {
            let used = test_bit(&self.bitmap, i);
            let ghost old_run = run;
            if used {
                run = 0;
            } else {
                run = run + 1;
            }
            proof {
                assert forall|t: int|
                    0 <= t && t + n <= i + 1 && t < i + 1 - run implies !bits_free(
                    words,
                    t,
                    n as int,
                ) by {
                    if t + n <= i && t < i - old_run {
                    } else if used {
                        assert(t + n == i + 1);
                        assert(bit_of(words, i as int));
                    } else {
                        assert(bit_of(words, i - old_run - 1));
                    }
                }
            }
            i = i + 1;
        }
        let ghost blocks = self.capacity / 4096;
        if run >= n {
            let s = i - n;
            proof {
                if i > blocks {
                    assert(bit_of(words, i - 1));
                }
                assert forall|t: int| 0 <= t < s implies !is_free_run(self@, t, n as int) by {
                    if is_free_run(self@, t, n as int) {
                        assert forall|j: int| t <= j < t + n implies !bit_of(words, j) by {
                            assert(!self@[j]);
                        }
                        assert(bits_free(words, t, n as int));
                    }
                }
            }
            Some(s)
        } else {
            proof {
                assert forall|t: int| !is_free_run(self@, t, n as int) by {
                    if is_free_run(self@, t, n as int) {
                        assert forall|j: int| t <= j < t + n implies !bit_of(words, j) by {
                            assert(!self@[j]);
                        }
                        assert(bits_free(words, t, n as int));
                    }
                }
            }
            None
        }
    }

    /// Takes the leftmost run of free blocks that holds `size` bytes and
    /// returns its address, or fails with `OutOfMemory`, leaving the
    /// allocator unchanged.
    pub fn acquire(&mut self, size: usize) -> (r: Result<u64, Failure>)
        requires
            old(self).wf(),
        ensures
            acquire_post(*old(self), size as int, r, *final(self)),
    {
        let n: usize = if size % 4096 == 0 {
            size / 4096
        } else {
            size / 4096 + 1
        };
        assert(n == entries_for(size as int));
        if n == 0 {
            assert(self@ =~= mark(self@, 0, 0, true));
            return Ok(self.head);
        }
        match self.find_run(n) {
            None => Err(Failure::OutOfMemory),
            Some(s) => {
                self.fill(s, n, true);
                let ghost blocks = self.capacity / 4096;
                assert((s + n) * 4096 <= self.capacity) by (nonlinear_arith)
                    requires
                        s + n <= blocks,
                        blocks == self.capacity / 4096,
                ;
                let a = self.head + (s as u64) * BLOCK_SIZE;
                assert((a - self.head) / 4096 == s) by (nonlinear_arith)
                    requires
                        a == self.head + s * 4096,
                ;
                assert(a % 4096 == 0) by (nonlinear_arith)
                    requires
                        a == self.head + s * 4096,
                        self.head % 4096 == 0,
                ;
                Ok(a)
            },
        }
    }

    /// Frees the run of blocks that `size` bytes occupy from the block that
    /// holds `addr`; refuses with `InvalidRelease` a run that leaves the
    /// region.
    pub fn release(&mut self, addr: u64, size: usize) -> (r: Result<(), Failure>)
        requires
            old(self).wf(),
        ensures
            release_post(*old(self), addr as int, size as int, r, *final(self)),
    {
        let n: usize = if size % 4096 == 0 {
            size / 4096
        } else {
            size / 4096 + 1
        };
        assert(n == entries_for(size as int));
        if addr < self.head {
            return Err(Failure::InvalidRelease);
        }
        let s = (addr - self.head) / BLOCK_SIZE;
        let blocks = self.capacity / BLOCK_SIZE;
        if s > blocks || n as u64 > blocks - s {
            return Err(Failure::InvalidRelease);
        }
        self.fill(s as usize, n, false);
        Ok(())
    }
}

} // verus!
