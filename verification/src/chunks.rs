//! Disk chunk lists: the byte ranges of a disk that an image stores, their
//! splitting into bounded, window-aligned chunks, and the assembly of the
//! per-partition lists into one list for the whole disk.

use vstd::prelude::*;

verus! {

/// A byte range `[start, start + size)` of a disk or partition.
#[derive(Clone, Copy, Debug, PartialEq, Eq)]
pub struct ChunkInfo {
    pub start: usize,
    pub size: usize,
}

/// End of a chunk.
pub open spec fn end_of(c: ChunkInfo) -> int {
    c.start + c.size
}

/// Whether byte `b` lies in one of the first `k` chunks of `s`.
pub open spec fn covers_upto(s: Seq<ChunkInfo>, k: int, b: int) -> bool {
    exists|i: int| 0 <= i < k && #[trigger] s[i].start <= b < end_of(s[i])
}

/// Whether byte `b` lies in one of the chunks of `s`.
pub open spec fn covers(s: Seq<ChunkInfo>, b: int) -> bool {
    covers_upto(s, s.len() as int, b)
}

/// Every non-empty chunk ends at or before every later chunk starts.
pub open spec fn sorted_chunks(s: Seq<ChunkInfo>) -> bool {
    forall|i: int, j: int| #![trigger s[i], s[j]] 0 <= i < j < s.len() && s[i].size > 0 ==> end_of(s[i]) <= s[j].start
}

/// The chunk lies inside one window `[w * m, (w + 1) * m)`.
pub open spec fn in_window(c: ChunkInfo, m: int) -> bool {
    end_of(c) <= ((c.start as int) / m + 1) * m
}

/// The shape `split_chunks` produces: non-empty, sorted, each inside one
/// `m`-window, and two touching chunks meet only at a window boundary (so
/// touching ranges inside a window are always merged).
pub open spec fn well_split(s: Seq<ChunkInfo>, m: int) -> bool {
    &&& forall|i: int| 0 <= i < s.len() ==> (#[trigger] s[i]).size > 0 && in_window(s[i], m)
    &&& forall|i: int, j: int| #![trigger s[i], s[j]] 0 <= i < j < s.len() ==> end_of(s[i]) <= s[j].start
    &&& forall|i: int|
        0 <= i && i + 1 < s.len() && end_of(#[trigger] s[i]) == s[i + 1].start ==> (s[i + 1].start as int) % m == 0
}

/// While a chunk is being split: the bytes already emitted together with the
/// pending range `[start, end)` are exactly the bytes of the first `k` input chunks.
pub open spec fn pending_cover(out: Seq<ChunkInfo>, start: int, end: int, chunks: Seq<ChunkInfo>, k: int, b: int) -> bool {
    (covers(out, b) || (start <= b < end)) <==> covers_upto(chunks, k, b)
}

/// Every chunk ends within `usize` with room for one more window.
pub open spec fn chunks_fit(s: Seq<ChunkInfo>, m: int) -> bool {
    forall|i: int| 0 <= i < s.len() ==> end_of(#[trigger] s[i]) + m <= usize::MAX
}

/// Whether `split_chunks` applies to `chunks` with windows of `m` bytes:
/// the list is sorted and every chunk ends with room for a window.
pub fn splittable(chunks: &Vec<ChunkInfo>, m: usize) -> (r: bool)
    ensures
        r == (sorted_chunks(chunks@) && chunks_fit(chunks@, m as int)),
{
    let n = chunks.len();
    let mut max_end: usize = 0;
    let ghost mut arg: int = -1;
    let mut j: usize = 0;
    while j < n
        invariant
            n == chunks@.len(),
            j <= n,
            forall|a: int, b: int| #![trigger chunks@[a], chunks@[b]] 0 <= a < b < j && chunks@[a].size > 0 ==> end_of(chunks@[a]) <= chunks@[b].start,
            forall|a: int| 0 <= a < j ==> end_of(#[trigger] chunks@[a]) + m <= usize::MAX,
            forall|a: int| 0 <= a < j && (#[trigger] chunks@[a]).size > 0 ==> end_of(chunks@[a]) <= max_end,
            arg == -1 ==> max_end == 0,
            arg != -1 ==> 0 <= arg < j && chunks@[arg].size > 0 && end_of(chunks@[arg]) == max_end,
        decreases n - j,
    {
        let c = chunks[j];
        if c.start as u128 + c.size as u128 + m as u128 > usize::MAX as u128 {
            proof {
                assert(!chunks_fit(chunks@, m as int)) by {
                    assert(end_of(chunks@[j as int]) + m > usize::MAX);
                }
            }
            return false;
        }
        if c.start < max_end {
            proof {
                assert(!sorted_chunks(chunks@)) by {
                    assert(chunks@[arg] == chunks@[arg]);
                    assert(end_of(chunks@[arg]) > chunks@[j as int].start);
                }
            }
            return false;
        }
        if c.size > 0 {
            let e = c.start + c.size;
            if e > max_end {
                max_end = e;
                proof {
                    arg = j as int;
                }
            }
        }
        j = j + 1;
    }
    true
}

/// Re-cuts a sorted chunk list so that no chunk crosses a multiple of
/// `max_chunk_size`, merging chunks that touch. The result covers exactly
/// the bytes the input covers.
pub fn split_chunks(chunks: &Vec<ChunkInfo>, max_chunk_size: usize) -> (r: Vec<ChunkInfo>)
    requires
        max_chunk_size > 0,
        sorted_chunks(chunks@),
        chunks_fit(chunks@, max_chunk_size as int),
    ensures
        well_split(r@, max_chunk_size as int),
        forall|b: int| covers(r@, b) <==> covers(chunks@, b),
{
    let m = max_chunk_size;
    let n = chunks.len();
    let mut out: Vec<ChunkInfo> = Vec::new();
    let mut k: usize = 0;
    while k < n
        invariant
            n == chunks@.len(),
            k <= n,
            m > 0,
            sorted_chunks(chunks@),
            chunks_fit(chunks@, m as int),
            well_split(out@, m as int),
            forall|b: int| covers(out@, b) <==> covers_upto(chunks@, k as int, b),
            out@.len() > 0 ==> forall|j: int|
                k <= j < n ==> end_of(out@[out@.len() - 1]) <= #[trigger] chunks@[j].start,
        decreases n - k,
    {
        let c = chunks[k];
        let mut start = c.start;
        let end = c.start + c.size;
        let ghost out0 = out@;
        let ghost merged = false;
        if out.len() > 0 {
            let last = out[out.len() - 1];
            if last.start + last.size == start {
                start = last.start;
                out.pop();
                proof {
                    merged = true;
                    assert(out@ == out0.drop_last());
                }
            }
        }
        proof {
            assert forall|b: int| #[trigger] pending_cover(out@, start as int, end as int, chunks@, k + 1, b) by {
                if covers_upto(chunks@, k + 1, b) && !(start <= b < end) {
                    let i = choose|i: int| 0 <= i < k + 1 && #[trigger] chunks@[i].start <= b < end_of(chunks@[i]);
                    if i < k {
                        assert(covers(out0, b));
                        let j = choose|j: int| 0 <= j < out0.len() && #[trigger] out0[j].start <= b < end_of(out0[j]);
                        if merged && j == out0.len() - 1 {
                            assert(false);
                        } else {
                            assert(out@[j] == out0[j]);
                        }
                    }
                }
                if covers(out@, b) {
                    let j = choose|j: int| 0 <= j < out@.len() && #[trigger] out@[j].start <= b < end_of(out@[j]);
                    assert(out0[j] == out@[j]);
                    assert(covers(out0, b));
                    let i = choose|i: int| 0 <= i < k && #[trigger] chunks@[i].start <= b < end_of(chunks@[i]);
                    assert(chunks@[i].start <= b < end_of(chunks@[i]));
                }
                if start <= b < end {
                    if b >= c.start {
                        assert(chunks@[k as int].start <= b < end_of(chunks@[k as int]));
                    } else {
                        let j = out0.len() - 1;
                        assert(out0[j].start <= b < end_of(out0[j]));
                        assert(covers(out0, b));
                        let i = choose|i: int| 0 <= i < k && #[trigger] chunks@[i].start <= b < end_of(chunks@[i]);
                        assert(chunks@[i].start <= b < end_of(chunks@[i]));
                    }
                }
            }
        }
        let ghost pushed = false;
        while start < end
            invariant
                n == chunks@.len(),
                k < n,
                m > 0,
                c == chunks@[k as int],
                end == end_of(c),
                end + m <= usize::MAX,
                start <= end,
                well_split(out@, m as int),
                out@.len() > 0 ==> end_of(out@[out@.len() - 1]) <= start,
                out@.len() > 0 && start < end && end_of(out@[out@.len() - 1]) == start ==> (start as int) % (m as int) == 0,
                forall|b: int| #[trigger] pending_cover(out@, start as int, end as int, chunks@, k + 1, b),
                pushed ==> out@.len() > 0 && end_of(out@[out@.len() - 1]) == start,
                merged ==> out0.len() > 0 && end_of(out0[out0.len() - 1]) == c.start,
                !merged ==> (out0.len() > 0 ==> end_of(out0[out0.len() - 1]) < c.start),
                !pushed ==> out@ == (if merged { out0.drop_last() } else { out0 }),
                !pushed ==> start == (if merged { out0[out0.len() - 1].start } else { c.start }),
                pushed ==> (merged || c.size > 0),
            decreases end - start,
        {
            proof {
                assert(start / m * m <= start) by (nonlinear_arith)
                    requires m > 0;
                assert(start < start / m * m + m) by (nonlinear_arith)
                    requires m > 0;
                assert((start / m + 1) * m == start / m * m + m) by (nonlinear_arith);
            }
            let window_end = (start / m + 1) * m;
            let split = if window_end < end { window_end } else { end };
            let ghost before = out@;
            let piece = ChunkInfo { start, size: split - start };
            out.push(piece);
            proof {
                vstd::arithmetic::div_mod::lemma_mod_multiples_basic((start / m + 1) as int, m as int);
                assert(out@ == before.push(piece));
                assert forall|i: int, j: int| #![trigger out@[i], out@[j]] 0 <= i < j < out@.len() implies end_of(out@[i]) <= out@[j].start by {
                    if j == out@.len() - 1 && i < j {
                        if i < before.len() - 1 {
                            assert(end_of(before[i]) <= before[before.len() - 1].start);
                        }
                    }
                }
                assert forall|b: int| #[trigger] pending_cover(out@, split as int, end as int, chunks@, k + 1, b) by {
                    assert(pending_cover(before, start as int, end as int, chunks@, k + 1, b));
                    if covers(before, b) {
                        let j = choose|j: int| 0 <= j < before.len() && #[trigger] before[j].start <= b < end_of(before[j]);
                        assert(out@[j] == before[j]);
                    }
                    if covers(out@, b) {
                        let j = choose|j: int| 0 <= j < out@.len() && #[trigger] out@[j].start <= b < end_of(out@[j]);
                        if j < before.len() {
                            assert(before[j] == out@[j]);
                        }
                    }
                    if start <= b < split {
                        assert(out@[out@.len() - 1].start <= b < end_of(out@[out@.len() - 1]));
                    }
                }
                pushed = true;
            }
            start = split;
        }
        proof {
            assert forall|b: int| covers(out@, b) <==> covers_upto(chunks@, k + 1, b) by {
                assert(pending_cover(out@, start as int, end as int, chunks@, k + 1, b));
            }
            if out@.len() > 0 {
                assert forall|j: int| k + 1 <= j < n implies end_of(out@[out@.len() - 1]) <= #[trigger] chunks@[j].start by {
                    if pushed {
                        if c.size > 0 {
                            assert(end_of(chunks@[k as int]) <= chunks@[j].start);
                        } else {
                            assert(merged);
                            assert(end_of(out0[out0.len() - 1]) <= chunks@[j].start);
                        }
                    } else {
                        if merged {
                            assert(false);
                        }
                        assert(end_of(out0[out0.len() - 1]) <= chunks@[j].start);
                    }
                }
            }
        }
        k = k + 1;
    }
    out
}

} // verus!
