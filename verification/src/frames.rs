//! Physical page-frame accounting: a bitmap with one bit per 4 KiB page
//! (set = reserved or in use, clear = free), first-fit contiguous
//! allocation, and the usage statistics shown on screen.

use vstd::prelude::*;

verus! {

/// Size of a physical page in bytes.
pub const PAGE_SIZE: u64 = 4096;

/// Bit `b` of the word `w`.
pub open spec fn bit(w: u64, b: u64) -> bool {
    (w >> b) & 1u64 == 1u64
}

/// Testing a bit with a one-bit mask.
pub proof fn lemma_bit_test(w: u64, b: u64)
    requires
        b < 64,
    ensures
        ((w & (1u64 << b)) != 0u64) == bit(w, b),
{
    assert(((w & (1u64 << b)) != 0u64) == ((w >> b) & 1u64 == 1u64)) by (bit_vector)
        requires
            b < 64,
    ;
}

/// Setting bit `b` leaves every other bit unchanged.
pub proof fn lemma_bit_set(w: u64, b: u64, c: u64)
    requires
        b < 64,
        c < 64,
    ensures
        bit(w | (1u64 << b), c) == (c == b || bit(w, c)),
{
    assert(((((w | (1u64 << b)) >> c) & 1u64) == 1u64) == (c == b || ((w >> c) & 1u64) == 1u64))
        by (bit_vector)
        requires
            b < 64,
            c < 64,
    ;
}

/// Clearing bit `b` leaves every other bit unchanged.
pub proof fn lemma_bit_clear(w: u64, b: u64, c: u64)
    requires
        b < 64,
        c < 64,
    ensures
        bit(w & !(1u64 << b), c) == (c != b && bit(w, c)),
{
    assert(((((w & !(1u64 << b)) >> c) & 1u64) == 1u64) == (c != b && ((w >> c) & 1u64) == 1u64))
        by (bit_vector)
        requires
            b < 64,
            c < 64,
    ;
}

/// All bits of `!0` are set.
pub proof fn lemma_bit_all_ones(c: u64)
    requires
        c < 64,
    ensures
        bit(!0u64, c),
{
    assert(((!0u64 >> c) & 1u64) == 1u64) by (bit_vector)
        requires
            c < 64,
    ;
}

/// The frame bitmap. Page `p` lives in word `p / 64`, bit `p % 64`.
pub struct FrameBitmap {
    bitmap: Vec<u64>,
    total_usable_pages: u64,
    allocated_pages: u64,
    max_page: usize,
}

/// Memory usage in bytes.
#[derive(Clone, Copy, Debug)]
pub struct MemoryStats {
    pub used: u64,
    pub free: u64,
    pub other: u64,
}

/// Whether a page of this map entry is usable once boot services are gone.
#[derive(Clone, Copy, Debug, PartialEq, Eq)]
pub enum MemoryKind {
    Conventional,
    BootServicesCode,
    Other,
}

/// One entry of the firmware memory map.
#[derive(Clone, Copy, Debug)]
pub struct MemoryMapEntry {
    pub kind: MemoryKind,
    pub phys_start: u64,
    pub page_count: u64,
}

/// Whether every page of `[s, s + n)` is free in `used`.
pub open spec fn free_run(used: Seq<bool>, s: int, n: int) -> bool {
    forall|i: int| s <= i < s + n ==> !#[trigger] used[i]
}

/// The smallest start of a free run of `n` pages ending at or before `limit`
/// exists and is `s`.
pub open spec fn first_fit(used: Seq<bool>, n: int, limit: int, s: int) -> bool {
    &&& 0 <= s
    &&& s + n <= limit
    &&& free_run(used, s, n)
    &&& forall|t: int| 0 <= t < s && t + n <= limit ==> !#[trigger] free_run(used, t, n)
}

/// `used` after setting pages `[s, s + n)` that lie below `limit` to `v`.
pub open spec fn set_range(used: Seq<bool>, s: int, n: int, v: bool) -> Seq<bool> {
    Seq::new(used.len(), |i: int| if s <= i < s + n { v } else { used[i] })
}

impl FrameBitmap {
    /// Number of pages the bitmap can describe.
    pub closed spec fn capacity(self) -> nat {
        (self.bitmap@.len() * 64) as nat
    }

    /// Page usage: `used()[p]` holds when page `p` is reserved or allocated.
    pub closed spec fn used(self) -> Seq<bool> {
        Seq::new(self.capacity(), |p: int| bit(self.bitmap@[p / 64], (p % 64) as u64))
    }

    /// Number of pages that were ever made usable and not reserved again.
    pub closed spec fn total_usable(self) -> u64 {
        self.total_usable_pages
    }

    /// Number of pages handed out by the allocator and not freed.
    pub closed spec fn allocated(self) -> u64 {
        self.allocated_pages
    }

    /// Highest page ever marked free; allocation never looks past it.
    pub closed spec fn max_page(self) -> usize {
        self.max_page
    }

    /// Well-formedness: the highest page lies inside the bitmap, and every
    /// page address fits in a `u64`.
    pub closed spec fn wf(self) -> bool {
        &&& (self.max_page as int) < self.capacity()
        &&& self.capacity() * (PAGE_SIZE as int) <= u64::MAX
        &&& self.capacity() <= usize::MAX
    }

    /// The page map has one entry per page of the bitmap; in a well-formed
    /// bitmap the highest page lies inside it, every page number fits in a
    /// `usize` and every page address in a `u64`.
    pub broadcast proof fn lemma_shape(self)
        ensures
            #[trigger] self.used().len() == self.capacity(),
            self.wf() ==> (self.max_page() as int) < self.capacity(),
            self.wf() ==> self.capacity() <= usize::MAX,
            self.wf() ==> self.capacity() * (PAGE_SIZE as int) <= u64::MAX,
    {
    }

    /// A bitmap of `words * 64` pages, all reserved.
    pub fn new(words: usize) -> (r: Self)
        requires
            1 <= words,
            words * 64 * 4096 <= u64::MAX,
            words * 64 <= usize::MAX,
        ensures
            r.wf(),
            r.capacity() == words * 64,
            r.used() == Seq::new(r.capacity(), |p: int| true),
            r.total_usable() == 0,
            r.allocated() == 0,
            r.max_page() == 0,
    {
        let mut bitmap: Vec<u64> = Vec::new();
        let mut i: usize = 0;
        while i < words
            invariant
                i <= words,
                bitmap@.len() == i,
                forall|j: int| 0 <= j < i ==> #[trigger] bitmap@[j] == !0u64,
            decreases words - i,
        {
            bitmap.push(!0u64);
            i = i + 1;
        }
        let r = FrameBitmap { bitmap, total_usable_pages: 0, allocated_pages: 0, max_page: 0 };
        assert forall|p: int| 0 <= p < r.capacity() implies #[trigger] r.used()[p] by {
            lemma_bit_all_ones((p % 64) as u64);
        }
        r
    }

    /// Whether page `p` is in use.
    fn is_used(&self, p: usize) -> (r: bool)
        requires
            (p as int) < self.capacity(),
        ensures
            r == self.used()[p as int],
    {
        let word = p / 64;
        let b = (p % 64) as u64;
        proof {
            lemma_bit_test(self.bitmap@[word as int], b);
        }
        (self.bitmap[word] & (1u64 << b)) != 0
    }

    /// Sets the bit of page `p` to `v`, touching nothing else.
    fn set_page(&mut self, p: usize, v: bool)
        requires
            (p as int) < old(self).capacity(),
        ensures
            final(self).used() == old(self).used().update(p as int, v),
            final(self).capacity() == old(self).capacity(),
            final(self).total_usable_pages == old(self).total_usable_pages,
            final(self).allocated_pages == old(self).allocated_pages,
            final(self).max_page == old(self).max_page,
    {
        let word = p / 64;
        let b = (p % 64) as u64;
        let w = self.bitmap[word];
        let nw = if v { w | (1u64 << b) } else { w & !(1u64 << b) };
        let ghost before = self.used();
        self.bitmap.set(word, nw);
        proof {
            assert forall|q: int| 0 <= q < self.capacity() implies #[trigger] self.used()[q] == before.update(
                p as int,
                v,
            )[q] by {
                if q / 64 == word as int {
                    if v {
                        lemma_bit_set(w, b, (q % 64) as u64);
                    } else {
                        lemma_bit_clear(w, b, (q % 64) as u64);
                    }
                }
            }
            assert(self.used() =~= before.update(p as int, v));
        }
    }

    /// Makes the pages `[start_page, start_page + num_pages)` free; pages past
    /// the end of the bitmap are ignored. Each page that was reserved counts
    /// as one more usable page, and `max_page` grows to the highest page seen.
    pub fn mark_free(&mut self, start_page: usize, num_pages: usize)
        requires
            old(self).wf(),
            start_page + num_pages <= usize::MAX,
            old(self).total_usable() + num_pages <= u64::MAX,
        ensures
            final(self).wf(),
            final(self).capacity() == old(self).capacity(),
            final(self).used() == set_range(old(self).used(), start_page as int, num_pages as int, false),
            final(self).allocated() == old(self).allocated(),
            final(self).total_usable() == old(self).total_usable() + count_used(
                old(self).used(),
                start_page as int,
                num_pages as int,
            ),
            final(self).total_usable() <= old(self).total_usable() + num_pages,
            final(self).max_page() == (if num_pages > 0 && start_page < old(self).capacity() {
                max_usize(old(self).max_page(), min_int(start_page + num_pages, old(self).capacity() as int) - 1)
            } else {
                old(self).max_page() as int
            }),
    {
        let ghost old_used = self.used();
        let cap = self.bitmap.len() * 64;
        let end = start_page + num_pages;
        let mut p = start_page;
        while p < end
            invariant
                start_page <= p <= end,
                end == start_page + num_pages,
                cap == self.capacity(),
                self.capacity() == old(self).capacity(),
                self.wf(),
                self.allocated_pages == old(self).allocated_pages,
                old(self).total_usable() + num_pages <= u64::MAX,
                self.used() == set_range(old_used, start_page as int, p - start_page, false),
                self.total_usable_pages == old(self).total_usable_pages + count_used(
                    old_used,
                    start_page as int,
                    p - start_page,
                ),
                count_used(old_used, start_page as int, p - start_page) <= p - start_page,
                old_used == old(self).used(),
                self.max_page == (if p > start_page && start_page < cap {
                    max_usize(old(self).max_page, min_int(p as int, cap as int) - 1)
                } else {
                    old(self).max_page as int
                }),
            decreases end - p,
        {
            proof {
                lemma_count_used_step(old_used, start_page as int, p - start_page);
            }
            if p < cap {
                if self.is_used(p) {
                    assert(old_used[p as int]);
                    self.set_page(p, false);
                    self.total_usable_pages = self.total_usable_pages + 1;
                } else {
                    assert(!old_used[p as int]);
                }
                if p > self.max_page {
                    self.max_page = p;
                }
            }
            proof {
                assert(self.used() =~= set_range(old_used, start_page as int, p + 1 - start_page, false));
            }
            p = p + 1;
        }
        proof {
            assert(self.used() =~= set_range(old_used, start_page as int, num_pages as int, false));
        }
    }

    /// Reserves the pages `[start_page, start_page + num_pages)`; pages past
    /// the end of the bitmap are ignored. Each page that was free counts as
    /// one fewer usable page (never below zero).
    pub fn mark_used(&mut self, start_page: usize, num_pages: usize)
        requires
            old(self).wf(),
            start_page + num_pages <= usize::MAX,
        ensures
            final(self).wf(),
            final(self).capacity() == old(self).capacity(),
            final(self).used() == set_range(old(self).used(), start_page as int, num_pages as int, true),
            final(self).allocated() == old(self).allocated(),
            final(self).max_page() == old(self).max_page(),
            final(self).total_usable() == sat_sub(
                old(self).total_usable() as int,
                count_free(old(self).used(), start_page as int, num_pages as int),
            ),
    {
        let ghost old_used = self.used();
        let cap = self.bitmap.len() * 64;
        let end = start_page + num_pages;
        let mut p = start_page;
        while p < end
            invariant
                start_page <= p <= end,
                end == start_page + num_pages,
                cap == self.capacity(),
                self.capacity() == old(self).capacity(),
                self.wf(),
                self.allocated_pages == old(self).allocated_pages,
                self.max_page == old(self).max_page,
                self.used() == set_range(old_used, start_page as int, p - start_page, true),
                self.total_usable_pages == sat_sub(
                    old(self).total_usable_pages as int,
                    count_free(old_used, start_page as int, p - start_page),
                ),
                old_used == old(self).used(),
            decreases end - p,
        {
            proof {
                lemma_count_free_step(old_used, start_page as int, p - start_page);
            }
            if p < cap {
                if !self.is_used(p) {
                    self.set_page(p, true);
                    self.total_usable_pages = self.total_usable_pages.saturating_sub(1);
                }
            }
            proof {
                assert(self.used() =~= set_range(old_used, start_page as int, p + 1 - start_page, true));
            }
            p = p + 1;
        }
        proof {
            assert(self.used() =~= set_range(old_used, start_page as int, num_pages as int, true));
        }
    }

    /// First-fit allocation of `num_pages` contiguous free pages among pages
    /// `0..=max_page`. On success the pages become used, `allocated` grows by
    /// `num_pages`, and the physical address of the first page is returned.
    pub fn alloc_contiguous(&mut self, num_pages: usize) -> (r: Option<u64>)
        requires
            old(self).wf(),
            old(self).allocated() + num_pages <= u64::MAX,
        ensures
            final(self).wf(),
            final(self).capacity() == old(self).capacity(),
            final(self).max_page() == old(self).max_page(),
            final(self).total_usable() == old(self).total_usable(),
            match r {
                Some(addr) => {
                    &&& num_pages > 0
                    &&& addr % PAGE_SIZE == 0
                    &&& first_fit(
                        old(self).used(),
                        num_pages as int,
                        old(self).max_page() + 1,
                        (addr / PAGE_SIZE) as int,
                    )
                    &&& final(self).used() == set_range(
                        old(self).used(),
                        (addr / PAGE_SIZE) as int,
                        num_pages as int,
                        true,
                    )
                    &&& final(self).allocated() == old(self).allocated() + num_pages
                },
                None => {
                    &&& (num_pages == 0 || forall|t: int|
                        0 <= t && t + num_pages <= old(self).max_page() + 1 ==> !#[trigger] free_run(
                            old(self).used(),
                            t,
                            num_pages as int,
                        ))
                    &&& final(self).used() == old(self).used()
                    &&& final(self).allocated() == old(self).allocated()
                },
            },
    {
        if num_pages == 0 {
            return None;
        }
        let ghost used0 = self.used();
        let mut consecutive: usize = 0;
        let mut start_page: usize = 0;
        let mut p: usize = 0;
        let last = self.max_page;
        while p <= last
            invariant
                self.wf(),
                *self == *old(self),
                old(self).allocated() + num_pages <= u64::MAX,
                used0 == self.used(),
                last == self.max_page,
                num_pages > 0,
                p <= last + 1,
                consecutive < num_pages,
                consecutive <= p,
                consecutive > 0 ==> start_page == p - consecutive,
                free_run(used0, p - consecutive, consecutive as int),
                consecutive < p ==> used0[p - consecutive - 1],
                forall|t: int| 0 <= t && t + num_pages <= p ==> !#[trigger] free_run(used0, t, num_pages as int),
            decreases last + 1 - p,
        {
            if !self.is_used(p) {
                let ghost c0 = consecutive as int;
                if consecutive == 0 {
                    start_page = p;
                }
                consecutive = consecutive + 1;
                proof {
                    assert(free_run(used0, p + 1 - consecutive, consecutive as int));
                }
                if consecutive == num_pages {
                    let ghost before = self.used();
                    let mut i = start_page;
                    while i < start_page + num_pages
                        invariant
                            start_page <= i <= start_page + num_pages,
                            start_page + num_pages == p + 1,
                            (p as int) < self.capacity(),
                            self.wf(),
                            self.capacity() == old(self).capacity(),
                            self.max_page == old(self).max_page,
                            self.total_usable_pages == old(self).total_usable_pages,
                            self.allocated_pages == old(self).allocated_pages,
                            old(self).allocated() + num_pages <= u64::MAX,
                            self.used() == set_range(before, start_page as int, i - start_page, true),
                        decreases start_page + num_pages - i,
                    {
                        self.set_page(i, true);
                        proof {
                            assert(self.used() =~= set_range(before, start_page as int, i + 1 - start_page, true));
                        }
                        i = i + 1;
                    }
                    self.allocated_pages = self.allocated_pages + num_pages as u64;
                    let addr = (start_page as u64) * PAGE_SIZE;
                    proof {
                        assert(addr / PAGE_SIZE == start_page as u64);
                        assert(self.used() =~= set_range(before, start_page as int, num_pages as int, true));
                    }
                    return Some(addr);
                }
                proof {
                    assert forall|t: int| 0 <= t && t + num_pages <= p + 1 implies !#[trigger] free_run(
                        used0,
                        t,
                        num_pages as int,
                    ) by {
                        if t + num_pages == p + 1 {
                            // Such a run would contain the used page just before the current run.
                            assert(c0 < p);
                            assert(used0[p - c0 - 1]);
                            if free_run(used0, t, num_pages as int) {
                                assert(!used0[p - c0 - 1]);
                            }
                        }
                    }
                }
            } else {
                consecutive = 0;
                proof {
                    assert forall|t: int| 0 <= t && t + num_pages <= p + 1 implies !#[trigger] free_run(
                        used0,
                        t,
                        num_pages as int,
                    ) by {
                        if t + num_pages == p + 1 {
                            assert(used0[p as int]);
                        }
                    }
                }
            }
            p = p + 1;
        }
        None
    }

    /// Frees the pages `[phys / PAGE_SIZE, phys / PAGE_SIZE + num_pages)`;
    /// pages past the end of the bitmap are ignored. Each page that was in use
    /// lowers `allocated` by one (never below zero).
    pub fn free_contiguous(&mut self, phys: u64, num_pages: usize)
        requires
            old(self).wf(),
            (phys / PAGE_SIZE) as int + num_pages <= usize::MAX,
        ensures
            final(self).wf(),
            final(self).capacity() == old(self).capacity(),
            final(self).used() == set_range(
                old(self).used(),
                (phys / PAGE_SIZE) as int,
                num_pages as int,
                false,
            ),
            final(self).total_usable() == old(self).total_usable(),
            final(self).max_page() == old(self).max_page(),
            final(self).allocated() == sat_sub(
                old(self).allocated() as int,
                count_used(old(self).used(), (phys / PAGE_SIZE) as int, num_pages as int),
            ),
    {
        let ghost old_used = self.used();
        let start_page = (phys / PAGE_SIZE) as usize;
        let cap = self.bitmap.len() * 64;
        let end = start_page + num_pages;
        let mut p = start_page;
        while p < end
            invariant
                start_page <= p <= end,
                end == start_page + num_pages,
                start_page == phys / PAGE_SIZE,
                cap == self.capacity(),
                self.capacity() == old(self).capacity(),
                self.wf(),
                self.total_usable_pages == old(self).total_usable_pages,
                self.max_page == old(self).max_page,
                self.used() == set_range(old_used, start_page as int, p - start_page, false),
                self.allocated_pages == sat_sub(
                    old(self).allocated_pages as int,
                    count_used(old_used, start_page as int, p - start_page),
                ),
                old_used == old(self).used(),
            decreases end - p,
        {
            proof {
                lemma_count_used_step(old_used, start_page as int, p - start_page);
            }
            if p < cap {
                if self.is_used(p) {
                    self.set_page(p, false);
                    self.allocated_pages = self.allocated_pages.saturating_sub(1);
                }
            }
            proof {
                assert(self.used() =~= set_range(old_used, start_page as int, p + 1 - start_page, false));
            }
            p = p + 1;
        }
        proof {
            assert(self.used() =~= set_range(old_used, start_page as int, num_pages as int, false));
        }
    }
}

/// `a - b`, or zero when `b > a`.
pub open spec fn sat_sub(a: int, b: int) -> int {
    if a >= b { a - b } else { 0 }
}

/// `max(a, b)`.
pub open spec fn max_usize(a: usize, b: int) -> int {
    if (a as int) >= b { a as int } else { b }
}

/// `min(a, b)`.
pub open spec fn min_int(a: int, b: int) -> int {
    if a <= b { a } else { b }
}

/// Number of used pages among `[s, s + n)` that lie inside `used`.
pub open spec fn count_used(used: Seq<bool>, s: int, n: int) -> int
    decreases n,
{
    if n <= 0 {
        0
    } else {
        count_used(used, s, n - 1) + (if 0 <= s + n - 1 < used.len() && used[s + n - 1] { 1int } else { 0int })
    }
}

/// Number of free pages among `[s, s + n)` that lie inside `used`.
pub open spec fn count_free(used: Seq<bool>, s: int, n: int) -> int
    decreases n,
{
    if n <= 0 {
        0
    } else {
        count_free(used, s, n - 1) + (if 0 <= s + n - 1 < used.len() && !used[s + n - 1] { 1int } else { 0int })
    }
}

proof fn lemma_count_used_step(used: Seq<bool>, s: int, n: int)
    requires
        n >= 0,
    ensures
        count_used(used, s, n + 1) == count_used(used, s, n) + (if 0 <= s + n < used.len() && used[s + n] { 1int } else { 0int }),
        0 <= count_used(used, s, n) <= n,
    decreases n,
{
    if n > 0 {
        lemma_count_used_step(used, s, n - 1);
    }
}

proof fn lemma_count_free_step(used: Seq<bool>, s: int, n: int)
    requires
        n >= 0,
    ensures
        count_free(used, s, n + 1) == count_free(used, s, n) + (if 0 <= s + n < used.len() && !used[s + n] { 1int } else { 0int }),
        0 <= count_free(used, s, n) <= n,
    decreases n,
{
    if n > 0 {
        lemma_count_free_step(used, s, n - 1);
    }
}

/// Allocates one page: `fa.alloc_contiguous(1)`.
pub fn alloc_page(fa: &mut FrameBitmap) -> (r: Option<u64>)
    requires
        old(fa).wf(),
        old(fa).allocated() + 1 <= u64::MAX,
    ensures
        final(fa).wf(),
        final(fa).capacity() == old(fa).capacity(),
        final(fa).max_page() == old(fa).max_page(),
        final(fa).total_usable() == old(fa).total_usable(),
        match r {
            Some(addr) => {
                &&& addr % PAGE_SIZE == 0
                &&& first_fit(old(fa).used(), 1, old(fa).max_page() + 1, (addr / PAGE_SIZE) as int)
                &&& final(fa).used() == old(fa).used().update((addr / PAGE_SIZE) as int, true)
                &&& final(fa).used() == set_range(old(fa).used(), (addr / PAGE_SIZE) as int, 1, true)
                &&& final(fa).allocated() == old(fa).allocated() + 1
            },
            None => {
                &&& forall|t: int| 0 <= t <= old(fa).max_page() ==> old(fa).used()[t]
                &&& final(fa).used() == old(fa).used()
                &&& final(fa).allocated() == old(fa).allocated()
            },
        },
{
    let r = fa.alloc_contiguous(1);
    proof {
        match r {
            Some(addr) => {
                let s = (addr / PAGE_SIZE) as int;
                assert(final(fa).used() =~= old(fa).used().update(s, true));
            },
            None => {
                assert forall|t: int| 0 <= t <= old(fa).max_page() implies old(fa).used()[t] by {
                    assert(!free_run(old(fa).used(), t, 1));
                }
            },
        }
    }
    r
}

/// Allocates `num_pages` contiguous pages, first fit.
pub fn alloc_contiguous(fa: &mut FrameBitmap, num_pages: usize) -> (r: Option<u64>)
    requires
        old(fa).wf(),
        old(fa).allocated() + num_pages <= u64::MAX,
    ensures
        final(fa).wf(),
        final(fa).capacity() == old(fa).capacity(),
        final(fa).max_page() == old(fa).max_page(),
        final(fa).total_usable() == old(fa).total_usable(),
        match r {
            Some(addr) => {
                &&& num_pages > 0
                &&& addr % PAGE_SIZE == 0
                &&& first_fit(old(fa).used(), num_pages as int, old(fa).max_page() + 1, (addr / PAGE_SIZE) as int)
                &&& final(fa).used() == set_range(old(fa).used(), (addr / PAGE_SIZE) as int, num_pages as int, true)
                &&& final(fa).allocated() == old(fa).allocated() + num_pages
            },
            None => {
                &&& (num_pages == 0 || forall|t: int|
                    0 <= t && t + num_pages <= old(fa).max_page() + 1 ==> !#[trigger] free_run(old(fa).used(), t, num_pages as int))
                &&& final(fa).used() == old(fa).used()
                &&& final(fa).allocated() == old(fa).allocated()
            },
        },
{
    fa.alloc_contiguous(num_pages)
}

/// Frees the page at physical address `phys`.
pub fn free_page(fa: &mut FrameBitmap, phys: u64)
    requires
        old(fa).wf(),
        (phys / PAGE_SIZE) as int + 1 <= usize::MAX,
    ensures
        final(fa).wf(),
        final(fa).capacity() == old(fa).capacity(),
        final(fa).used() == set_range(old(fa).used(), (phys / PAGE_SIZE) as int, 1, false),
        final(fa).total_usable() == old(fa).total_usable(),
        final(fa).max_page() == old(fa).max_page(),
        final(fa).allocated() == sat_sub(old(fa).allocated() as int, count_used(old(fa).used(), (phys / PAGE_SIZE) as int, 1)),
{
    fa.free_contiguous(phys, 1);
}

/// Frees `num_pages` pages starting at physical address `phys`.
pub fn free_contiguous(fa: &mut FrameBitmap, phys: u64, num_pages: usize)
    requires
        old(fa).wf(),
        (phys / PAGE_SIZE) as int + num_pages <= usize::MAX,
    ensures
        final(fa).wf(),
        final(fa).capacity() == old(fa).capacity(),
        final(fa).used() == set_range(old(fa).used(), (phys / PAGE_SIZE) as int, num_pages as int, false),
        final(fa).total_usable() == old(fa).total_usable(),
        final(fa).max_page() == old(fa).max_page(),
        final(fa).allocated() == sat_sub(old(fa).allocated() as int, count_used(old(fa).used(), (phys / PAGE_SIZE) as int, num_pages as int)),
{
    fa.free_contiguous(phys, num_pages);
}

/// Memory statistics: bytes allocated, bytes usable but not allocated, and
/// the rest of `total_ram`.
pub fn stats(fa: &FrameBitmap, total_ram: u64) -> (r: MemoryStats)
    requires
        (fa.allocated() + sat_sub(fa.total_usable() as int, fa.allocated() as int)) * PAGE_SIZE <= u64::MAX,
    ensures
        r.used == fa.allocated() * PAGE_SIZE,
        r.free == sat_sub(fa.total_usable() as int, fa.allocated() as int) * PAGE_SIZE,
        r.other == sat_sub(total_ram as int, r.used + r.free),
{
    let free_pages = fa.total_usable_pages.saturating_sub(fa.allocated_pages);
    proof {
        assert(fa.allocated_pages * PAGE_SIZE <= u64::MAX) by (nonlinear_arith)
            requires (fa.allocated_pages + free_pages) * PAGE_SIZE <= u64::MAX;
        assert(free_pages * PAGE_SIZE <= u64::MAX) by (nonlinear_arith)
            requires (fa.allocated_pages + free_pages) * PAGE_SIZE <= u64::MAX;
        assert(fa.allocated_pages * PAGE_SIZE + free_pages * PAGE_SIZE == (fa.allocated_pages + free_pages) * PAGE_SIZE) by (nonlinear_arith);
    }
    let used = fa.allocated_pages * PAGE_SIZE;
    let free = free_pages * PAGE_SIZE;
    let other = total_ram.saturating_sub(used + free);
    MemoryStats { used, free, other }
}

/// Number of pages the first `k` entries of the memory map describe.
pub open spec fn sum_pages(entries: Seq<MemoryMapEntry>, k: int) -> int
    decreases k,
{
    if k <= 0 {
        0
    } else {
        sum_pages(entries, k - 1) + entries[k - 1].page_count
    }
}

/// Whether an entry describes memory that becomes free once boot services exit.
pub open spec fn usable_kind(k: MemoryKind) -> bool {
    k == MemoryKind::Conventional || k == MemoryKind::BootServicesCode
}

/// Whether page `p` lies in a usable entry among the first `k`.
pub open spec fn covered_by_usable(entries: Seq<MemoryMapEntry>, k: int, p: int) -> bool {
    exists|i: int|
        0 <= i < k && usable_kind(#[trigger] entries[i].kind)
            && entries[i].phys_start / PAGE_SIZE <= p < entries[i].phys_start / PAGE_SIZE + entries[i].page_count
}

/// Law: only conventional memory and boot-services code are handed to the
/// allocator. A page that no entry of either kind covers is not made free
/// by building the bitmap (whatever other entries cover it), and a page
/// that an entry of either kind covers is.
pub proof fn lemma_only_usable_kinds_freed(entries: Seq<MemoryMapEntry>, k: int, p: int)
    requires
        0 <= k <= entries.len(),
    ensures
        (forall|i: int|
            0 <= i < k && entries[i].phys_start / PAGE_SIZE <= p < entries[i].phys_start / PAGE_SIZE
                + entries[i].page_count ==> !(#[trigger] entries[i].kind is Conventional) && !(
            entries[i].kind is BootServicesCode)) ==> !covered_by_usable(entries, k, p),
        (exists|i: int|
            0 <= i < k && (#[trigger] entries[i].kind is Conventional || entries[i].kind is BootServicesCode)
                && entries[i].phys_start / PAGE_SIZE <= p < entries[i].phys_start / PAGE_SIZE
                + entries[i].page_count) ==> covered_by_usable(entries, k, p),
{
}

proof fn lemma_sum_pages_mono(entries: Seq<MemoryMapEntry>, a: int, b: int)
    requires
        0 <= a <= b <= entries.len(),
    ensures
        sum_pages(entries, a) <= sum_pages(entries, b),
        sum_pages(entries, b) - sum_pages(entries, a) >= 0,
    decreases b - a,
{
    if a < b {
        lemma_sum_pages_mono(entries, a, b - 1);
    }
}

/// Fills a fresh bitmap from the firmware memory map: conventional memory and
/// boot-services code become free, then the first MiB is reserved again.
/// Returns the total size of the memory map in bytes.
pub fn init_frames(fa: &mut FrameBitmap, entries: &Vec<MemoryMapEntry>) -> (total_ram: u64)
    requires
        old(fa).wf(),
        old(fa).total_usable() == 0,
        sum_pages(entries@, entries@.len() as int) * PAGE_SIZE <= u64::MAX,
        forall|i: int| 0 <= i < entries@.len() ==>
            (#[trigger] entries@[i]).phys_start / PAGE_SIZE + entries@[i].page_count <= usize::MAX,
    ensures
        final(fa).wf(),
        final(fa).capacity() == old(fa).capacity(),
        total_ram == sum_pages(entries@, entries@.len() as int) * PAGE_SIZE,
        final(fa).allocated() == old(fa).allocated(),
        forall|p: int| 0 <= p < final(fa).capacity() ==> #[trigger] final(fa).used()[p] == (p < 256 || (
            old(fa).used()[p] && !covered_by_usable(entries@, entries@.len() as int, p))),
        forall|p: int|
            0 <= p < final(fa).capacity() && (p < 256 || (old(fa).used()[p] && forall|i: int|
                0 <= i < entries@.len() && entries@[i].phys_start / PAGE_SIZE <= p < entries@[i].phys_start / PAGE_SIZE
                    + entries@[i].page_count ==> !(#[trigger] entries@[i].kind is Conventional) && !(
                entries@[i].kind is BootServicesCode))) ==> #[trigger] final(fa).used()[p],
{
    let ghost used0 = fa.used();
    let mut total: u64 = 0;
    let mut k: usize = 0;
    while k < entries.len()
        invariant
            k <= entries@.len(),
            fa.wf(),
            fa.capacity() == old(fa).capacity(),
            fa.allocated() == old(fa).allocated(),
            used0 == old(fa).used(),
            sum_pages(entries@, entries@.len() as int) * PAGE_SIZE <= u64::MAX,
            forall|i: int| 0 <= i < entries@.len() ==>
                (#[trigger] entries@[i]).phys_start / PAGE_SIZE + entries@[i].page_count <= usize::MAX,
            total == sum_pages(entries@, k as int) * PAGE_SIZE,
            fa.total_usable() <= sum_pages(entries@, k as int),
            forall|p: int| 0 <= p < fa.capacity() ==> #[trigger] fa.used()[p] == (used0[p]
                && !covered_by_usable(entries@, k as int, p)),
        decreases entries@.len() - k,
    {
        let e = entries[k];
        proof {
            lemma_sum_pages_mono(entries@, k + 1, entries@.len() as int);
            assert(sum_pages(entries@, k + 1) * PAGE_SIZE <= u64::MAX) by (nonlinear_arith)
                requires
                    sum_pages(entries@, k + 1) <= sum_pages(entries@, entries@.len() as int),
                    sum_pages(entries@, entries@.len() as int) * PAGE_SIZE <= u64::MAX,
                    0 <= sum_pages(entries@, k as int);
            assert(sum_pages(entries@, k + 1) * PAGE_SIZE == sum_pages(entries@, k as int) * PAGE_SIZE + e.page_count * PAGE_SIZE) by (nonlinear_arith)
                requires sum_pages(entries@, k + 1) == sum_pages(entries@, k as int) + e.page_count;
        }
        let sz = e.page_count * PAGE_SIZE;
        total = total + sz;
        let start_page = (e.phys_start / PAGE_SIZE) as usize;
        let num_pages = e.page_count as usize;
        let ghost before = fa.used();
        match e.kind {
            MemoryKind::Conventional | MemoryKind::BootServicesCode => {
                proof {
                    lemma_count_used_step(before, start_page as int, num_pages as int);
                }
                fa.mark_free(start_page, num_pages);
            },
            MemoryKind::Other => {},
        }
        proof {
            assert forall|p: int| 0 <= p < fa.capacity() implies #[trigger] fa.used()[p] == (used0[p]
                && !covered_by_usable(entries@, k + 1, p)) by {
                if covered_by_usable(entries@, k + 1, p) && !covered_by_usable(entries@, k as int, p) {
                    let i = choose|i: int|
                        0 <= i < k + 1 && usable_kind(#[trigger] entries@[i].kind)
                            && entries@[i].phys_start / PAGE_SIZE <= p < entries@[i].phys_start / PAGE_SIZE + entries@[i].page_count;
                    assert(i == k);
                }
                if covered_by_usable(entries@, k as int, p) {
                    let i = choose|i: int|
                        0 <= i < k && usable_kind(#[trigger] entries@[i].kind)
                            && entries@[i].phys_start / PAGE_SIZE <= p < entries@[i].phys_start / PAGE_SIZE + entries@[i].page_count;
                    assert(0 <= i < k + 1 && usable_kind(entries@[i].kind));
                }
                if usable_kind(e.kind) && start_page <= p < start_page + num_pages {
                    assert(covered_by_usable(entries@, k + 1, p)) by {
                        assert(usable_kind(entries@[k as int].kind));
                    }
                }
            }
        }
        k = k + 1;
    }
    fa.mark_used(0, 256);
    proof {
        assert forall|p: int| 0 <= p < fa.capacity() implies (p < 256 || (old(fa).used()[p] && forall|i: int|
            0 <= i < entries@.len() && entries@[i].phys_start / PAGE_SIZE <= p < entries@[i].phys_start / PAGE_SIZE
                + entries@[i].page_count ==> !(#[trigger] entries@[i].kind is Conventional) && !(
            entries@[i].kind is BootServicesCode))) ==> #[trigger] fa.used()[p] by {
            lemma_only_usable_kinds_freed(entries@, entries@.len() as int, p);
        }
    }
    total
}

/// Allocating a run and then freeing it restores the page map and the
/// allocated-page count.
pub proof fn alloc_then_free_restores(used: Seq<bool>, s: int, n: int, allocated: int)
    requires
        0 <= s,
        0 <= n,
        s + n <= used.len(),
        free_run(used, s, n),
        allocated >= 0,
    ensures
        set_range(set_range(used, s, n, true), s, n, false) == used,
        sat_sub(allocated + n, count_used(set_range(used, s, n, true), s, n)) == allocated,
{
    assert(set_range(set_range(used, s, n, true), s, n, false) =~= used);
    lemma_count_all_used(set_range(used, s, n, true), s, n);
}

proof fn lemma_count_all_used(used: Seq<bool>, s: int, n: int)
    requires
        0 <= s,
        0 <= n,
        s + n <= used.len(),
        forall|i: int| s <= i < s + n ==> #[trigger] used[i],
    ensures
        count_used(used, s, n) == n,
    decreases n,
{
    if n > 0 {
        lemma_count_all_used(used, s, n - 1);
    }
}

/// Two successive allocations never share a page: the second run is free in
/// the map that the first allocation left behind.
pub proof fn successive_allocations_disjoint(used: Seq<bool>, s1: int, n1: int, s2: int, n2: int)
    requires
        0 <= s1,
        0 < n1,
        s1 + n1 <= used.len(),
        0 <= s2,
        0 < n2,
        free_run(used, s1, n1),
        free_run(set_range(used, s1, n1, true), s2, n2),
        s2 + n2 <= used.len(),
    ensures
        s1 + n1 <= s2 || s2 + n2 <= s1,
{
    if !(s1 + n1 <= s2 || s2 + n2 <= s1) {
        let i = if s1 <= s2 { s2 } else { s1 };
        assert(set_range(used, s1, n1, true)[i]);
    }
}

/// Law: freeing a run that was just allocated puts the allocator back as
/// it was: the same page map and the same count of allocated pages (the
/// usable count and the highest page never change on either call).
pub proof fn lemma_alloc_free_round_trip(before: FrameBitmap, allocated: FrameBitmap, freed: FrameBitmap, s: int, n: int)
    requires
        before.wf(),
        n > 0,
        first_fit(before.used(), n, before.max_page() + 1, s),
        allocated.used() == set_range(before.used(), s, n, true),
        allocated.allocated() == before.allocated() + n,
        freed.used() == set_range(allocated.used(), s, n, false),
        freed.allocated() == sat_sub(allocated.allocated() as int, count_used(allocated.used(), s, n)),
    ensures
        freed.used() == before.used(),
        freed.allocated() == before.allocated(),
{
    before.lemma_shape();
    alloc_then_free_restores(before.used(), s, n, before.allocated() as int);
}

/// Law: a run handed out and not yet freed is never handed out again: while
/// its pages are still marked used, the next allocation from that bitmap
/// lies wholly outside it. (Allocations and frees of other runs leave its
/// pages marked used, since `set_range` changes only its own range.)
pub proof fn lemma_held_run_not_reissued(fb: FrameBitmap, held: int, m: int, n: int, s: int)
    requires
        fb.wf(),
        m > 0,
        n > 0,
        forall|p: int| held <= p < held + m ==> #[trigger] fb.used()[p],
        first_fit(fb.used(), n, fb.max_page() + 1, s),
    ensures
        held + m <= s || s + n <= held,
{
    if !(held + m <= s || s + n <= held) {
        let i = if held <= s { s } else { held };
        assert(fb.used()[i]);
        assert(!fb.used()[i]);
    }
}

/// Law: while the first MiB (pages below 256) stays reserved, as
/// `init_frames` leaves it and as long as no caller frees pages it did not
/// allocate, no allocation returns a page below it.
pub proof fn lemma_alloc_above_first_mib(fb: FrameBitmap, n: int, s: int)
    requires
        fb.wf(),
        n > 0,
        forall|p: int| 0 <= p < 256 && p < fb.capacity() ==> #[trigger] fb.used()[p],
        first_fit(fb.used(), n, fb.max_page() + 1, s),
    ensures
        s >= 256,
        s * PAGE_SIZE >= 0x100000,
{
    fb.lemma_shape();
    assert(!fb.used()[s]);
}

} // verus!
