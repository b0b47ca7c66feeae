//! Growing the kernel heap when it runs out: the size of the next block of
//! physical pages to claim, backing off by halves down to what the failed
//! allocation needs when memory is fragmented.

use vstd::prelude::*;
use crate::frames::{FrameBitmap, PAGE_SIZE, set_range, first_fit, free_run};

verus! {

/// Largest block claimed at once.
pub const MAX_BLOCK_SIZE: usize = 32 * 1024 * 1024;

/// Rounded-up pages for `bytes`.
pub open spec fn pages_for(bytes: int) -> int {
    bytes / (PAGE_SIZE as int) + (if bytes % (PAGE_SIZE as int) != 0 { 1int } else { 0int })
}

/// Whether a run of `n` free pages starts at or after page 0 and ends at or
/// before `limit`.
pub open spec fn has_run(used: Seq<bool>, n: int, limit: int) -> bool {
    exists|t: int| 0 <= t && t + n <= limit && #[trigger] free_run(used, t, n)
}

/// The next block size tried after `t` failed: half of it, but not below
/// `min`.
pub open spec fn backed_off(t: nat, min: nat) -> nat {
    if t / 2 > min {
        t / 2
    } else {
        min
    }
}

/// The block size taken when `t` is tried first: the first of `t`, its
/// back-offs, down to `min`, whose pages fit in a free run; `None` when none
/// does.
pub open spec fn chosen_block(used: Seq<bool>, limit: int, t: nat, min: nat) -> Option<nat>
    decreases t,
{
    if has_run(used, pages_for(t as int), limit) {
        Some(t)
    } else if t <= min {
        None
    } else {
        chosen_block(used, limit, backed_off(t, min), min)
    }
}

/// The heap's growth policy: the block size to try next.
pub struct HeapGrowth {
    pub next_block_size: usize,
}

impl HeapGrowth {
    /// A policy starting with blocks of `initial` bytes.
    pub fn new(initial: usize) -> (r: HeapGrowth)
        ensures
            r.next_block_size == initial,
    {
        HeapGrowth { next_block_size: initial }
    }

    /// Finds physical pages for a heap that could not serve `layout_size`
    /// bytes: tries a block of the planned size (at least one page and at
    /// least `layout_size`), halving it down to that minimum while no free
    /// run is large enough. On success the block is taken from `frames`,
    /// its address and page count are returned, and the next planned size
    /// is twice the block, at most `MAX_BLOCK_SIZE`; otherwise nothing
    /// changes.
    pub fn grow(&mut self, frames: &mut FrameBitmap, layout_size: usize) -> (r: Option<(u64, usize)>)
        requires
            old(frames).wf(),
            old(frames).allocated() <= u64::MAX / 2,
            layout_size <= usize::MAX / 4,
            old(self).next_block_size <= usize::MAX / 4,
        ensures
            final(frames).wf(),
            final(frames).capacity() == old(frames).capacity(),
            final(frames).max_page() == old(frames).max_page(),
            final(frames).total_usable() == old(frames).total_usable(),
            ({
                let min = if layout_size > 4096 { layout_size as nat } else { 4096nat };
                let first = if old(self).next_block_size > min { old(self).next_block_size as nat } else { min };
                let c = chosen_block(old(frames).used(), old(frames).max_page() + 1, first, min);
                &&& r is None <==> c is None
                &&& r is None ==> final(frames).used() == old(frames).used() && final(self).next_block_size == old(
                    self,
                ).next_block_size
                &&& r matches Some((addr, pages)) ==> {
                    &&& pages == pages_for(c->0 as int)
                    &&& addr % PAGE_SIZE == 0
                    &&& pages * PAGE_SIZE >= layout_size
                    &&& pages >= 1
                    &&& first_fit(old(frames).used(), pages as int, old(frames).max_page() + 1, (addr / PAGE_SIZE) as int)
                    &&& final(frames).used() == set_range(old(frames).used(), (addr / PAGE_SIZE) as int, pages as int, true)
                    &&& final(self).next_block_size == (if 2 * c->0 < MAX_BLOCK_SIZE { 2 * c->0 } else { MAX_BLOCK_SIZE as nat })
                }
            }),
    {
        let min_bytes = if layout_size > 4096 { layout_size } else { 4096 };
        let mut target = if self.next_block_size > min_bytes { self.next_block_size } else { min_bytes };
        let ghost used0 = frames.used();
        let ghost limit = frames.max_page() + 1;
        let ghost first = target as nat;
        loop
            invariant
                min_bytes == (if layout_size > 4096 { layout_size } else { 4096 }),
                first == (if old(self).next_block_size > min_bytes { old(self).next_block_size as nat } else { min_bytes as nat }),
                min_bytes >= layout_size,
                min_bytes >= 4096,
                min_bytes <= usize::MAX / 4,
                min_bytes <= target <= usize::MAX / 4,
                frames.wf(),
                frames.used() == old(frames).used(),
                frames.used() == used0,
                limit == frames.max_page() + 1,
                frames.allocated() == old(frames).allocated(),
                frames.capacity() == old(frames).capacity(),
                frames.max_page() == old(frames).max_page(),
                frames.total_usable() == old(frames).total_usable(),
                old(frames).allocated() <= u64::MAX / 2,
                self.next_block_size == old(self).next_block_size,
                chosen_block(used0, limit, first, min_bytes as nat) == chosen_block(used0, limit, target as nat, min_bytes as nat),
            decreases target,
        {
            let pages = target / 4096 + if target % 4096 != 0 { 1usize } else { 0usize };
            proof {
                assert(pages <= usize::MAX / 4096 + 1);
                assert(pages * 4096 >= target) by (nonlinear_arith)
                    requires
                        pages == target / 4096 + (if target % 4096 != 0 { 1int } else { 0int }),
                        target >= 0,
                ;
                assert(pages == pages_for(target as int));
                assert(pages >= 1);
            }
            match frames.alloc_contiguous(pages) {
                Some(addr) => {
                    proof {
                        let s = (addr / PAGE_SIZE) as int;
                        assert(0 <= s && s + pages <= limit && free_run(used0, s, pages as int));
                        assert(has_run(used0, pages_for(target as int), limit));
                    }
                    let doubled = target * 2;
                    self.next_block_size = if doubled < MAX_BLOCK_SIZE { doubled } else { MAX_BLOCK_SIZE };
                    return Some((addr, pages));
                },
                None => {
                    proof {
                        assert(!has_run(used0, pages_for(target as int), limit));
                    }
                },
            }
            if target <= min_bytes {
                return None;
            }
            let half = target / 2;
            target = if half > min_bytes { half } else { min_bytes };
        }
    }
}

} // verus!
