//! Properties of the allocator that relate several calls, stated over the
//! contracts of `acquire` and `release`.
use vstd::prelude::*;
use crate::allocator::{
    acquire_post,
    entries_for,
    has_free_run,
    is_free_run,
    mark,
    release_post,
    BlockAllocator,
};
use crate::Failure;

verus! {

/// Blocks `[s, s + n)` lie inside the region and are all in use.
pub open spec fn run_in_use(used: Seq<bool>, s: int, n: int) -> bool {
    &&& 0 <= s
    &&& s + n <= used.len()
    &&& forall|j: int| s <= j < s + n ==> used[j]
}

/// The block runs `a` and `b`, each a start and a length, share no block.
pub open spec fn disjoint(a: (int, int), b: (int, int)) -> bool {
    a.1 <= 0 || b.1 <= 0 || a.0 + a.1 <= b.0 || b.0 + b.1 <= a.0
}

/// Every live run is in use, and no two of them share a block.
pub open spec fn live_runs_ok(used: Seq<bool>, live: Seq<(int, int)>) -> bool {
    &&& forall|k: int| 0 <= k < live.len() ==> run_in_use(used, #[trigger] live[k].0, live[k].1)
    &&& forall|k: int, m: int|
        0 <= k < live.len() && 0 <= m < live.len() && k != m ==> disjoint(
            #[trigger] live[k],
            #[trigger] live[m],
        )
}

/// Live allocations never overlap. If the live runs are in use and pairwise
/// disjoint, the run that `acquire` takes (a free one) shares no block with
/// any of them, and after it is marked the live runs together with the new
/// one are again in use and pairwise disjoint.
pub proof fn lemma_acquired_run_is_disjoint(
    used: Seq<bool>,
    live: Seq<(int, int)>,
    s: int,
    n: int,
)
    requires
        live_runs_ok(used, live),
        is_free_run(used, s, n),
    ensures
        forall|k: int| 0 <= k < live.len() ==> disjoint(#[trigger] live[k], (s, n)),
        live_runs_ok(mark(used, s, n, true), live.push((s, n))),
{
    let after = mark(used, s, n, true);
    let grown = live.push((s, n));
    assert forall|k: int| 0 <= k < live.len() implies disjoint(#[trigger] live[k], (s, n)) by {
        let (a, l) = live[k];
        if !disjoint(live[k], (s, n)) {
            let j = if a >= s {
                a
            } else {
                s
            };
            assert(run_in_use(used, a, l));
            assert(used[j]);
        }
    }
    assert forall|k: int| 0 <= k < grown.len() implies run_in_use(
        after,
        #[trigger] grown[k].0,
        grown[k].1,
    ) by {
        if k < live.len() {
            assert(grown[k] == live[k]);
            assert(run_in_use(used, live[k].0, live[k].1));
        }
    }
    assert forall|k: int, m: int|
        0 <= k < grown.len() && 0 <= m < grown.len() && k != m implies disjoint(
        #[trigger] grown[k],
        #[trigger] grown[m],
    ) by {
        if k < live.len() && m < live.len() {
            assert(grown[k] == live[k] && grown[m] == live[m]);
        } else if k < live.len() {
            assert(disjoint(live[k], (s, n)));
        } else {
            assert(disjoint(live[m], (s, n)));
        }
    }
}

/// Releasing one live allocation leaves every other live allocation in use,
/// so the remaining runs still satisfy `live_runs_ok`.
pub proof fn lemma_release_keeps_other_runs(used: Seq<bool>, live: Seq<(int, int)>, k: int)
    requires
        live_runs_ok(used, live),
        0 <= k < live.len(),
    ensures
        live_runs_ok(mark(used, live[k].0, live[k].1, false), live.remove(k)),
{
    let after = mark(used, live[k].0, live[k].1, false);
    let rest = live.remove(k);
    assert forall|m: int| 0 <= m < rest.len() implies run_in_use(
        after,
        #[trigger] rest[m].0,
        rest[m].1,
    ) by {
        let i = if m < k {
            m
        } else {
            m + 1
        };
        assert(rest[m] == live[i]);
        assert(disjoint(live[i], live[k]));
        assert(run_in_use(used, live[i].0, live[i].1));
    }
    assert forall|a: int, b: int|
        0 <= a < rest.len() && 0 <= b < rest.len() && a != b implies disjoint(
        #[trigger] rest[a],
        #[trigger] rest[b],
    ) by {
        let ia = if a < k {
            a
        } else {
            a + 1
        };
        let ib = if b < k {
            b
        } else {
            b + 1
        };
        assert(rest[a] == live[ia] && rest[b] == live[ib]);
    }
}

/// An `acquire` followed at once by a `release` of the returned address with
/// the same size succeeds and leaves every block as it was before.
pub proof fn lemma_acquire_release_round_trip(
    pre: BlockAllocator,
    size: int,
    a: u64,
    mid: BlockAllocator,
    r: Result<(), Failure>,
    post: BlockAllocator,
)
    requires
        pre.wf(),
        acquire_post(pre, size, Ok(a), mid),
        release_post(mid, a as int, size, r, post),
    ensures
        r is Ok,
        post@ == pre@,
        post.spec_head() == pre.spec_head(),
        post.spec_capacity() == pre.spec_capacity(),
{
    let n = entries_for(size);
    let s = (a - pre.spec_head()) / 4096;
    assert(mark(mark(pre@, s, n, true), s, n, false) =~= pre@);
}

/// When every block is in use, a request of at least one byte fails with
/// `OutOfMemory` and leaves the allocator as it was; a release of any run
/// inside the region then succeeds, and its blocks can be acquired again.
pub proof fn lemma_exhaustion(
    pre: BlockAllocator,
    size: int,
    r: Result<u64, Failure>,
    mid: BlockAllocator,
    addr: int,
    old_size: int,
    r2: Result<(), Failure>,
    post: BlockAllocator,
)
    requires
        pre.wf(),
        size > 0,
        forall|i: int| 0 <= i < pre@.len() ==> pre@[i],
        acquire_post(pre, size, r, mid),
        pre.spec_head() <= addr,
        (addr - pre.spec_head()) / 4096 + entries_for(old_size) <= pre@.len(),
        release_post(mid, addr, old_size, r2, post),
    ensures
        r == Err::<u64, Failure>(Failure::OutOfMemory),
        mid == pre,
        r2 is Ok,
        is_free_run(post@, (addr - pre.spec_head()) / 4096, entries_for(old_size)),
        has_free_run(post@, entries_for(old_size)),
{
    let n = entries_for(size);
    if let Ok(a) = r {
        let s = (a - pre.spec_head()) / 4096;
        assert(is_free_run(pre@, s, n));
        assert(!pre@[s]);
    }
    assert(is_free_run(post@, (addr - pre.spec_head()) / 4096, entries_for(old_size)));
}

/// A request for more blocks than the region holds always fails, however the
/// padding bits past the region's last block lie in the bitmap.
pub proof fn lemma_oversized_request_fails(
    pre: BlockAllocator,
    size: int,
    r: Result<u64, Failure>,
    post: BlockAllocator,
)
    requires
        pre.wf(),
        entries_for(size) > pre@.len(),
        acquire_post(pre, size, r, post),
    ensures
        r == Err::<u64, Failure>(Failure::OutOfMemory),
        post == pre,
{
}

} // verus!
