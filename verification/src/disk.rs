//! Block transfers of the AHCI and NVMe drivers: a byte range of the disk
//! is moved through a bounded DMA buffer in whole blocks, one command per
//! step. This module plans the steps, encodes the commands and decodes the
//! identify data; the drivers run the commands.

use vstd::prelude::*;
use vstd::arithmetic::div_mod::lemma_fundamental_div_mod;
use crate::le::{le_value, le64, le32};
use crate::error::Error;

verus! {

/// Size of a DMA page.
pub const PAGE_SIZE: u64 = 4096;

/// One command of a transfer: `blocks` blocks from block `lba` go through
/// the DMA buffer; the bytes `[in_block, in_block + len)` of the buffer are
/// the bytes `[buf_start, buf_start + len)` of the caller's buffer. Before a
/// write, `preload` says whether the blocks must be read first because the
/// step covers them only in part.
#[derive(Clone, Copy, Debug, PartialEq, Eq, Structural)]
pub struct TransferStep {
    pub lba: u64,
    pub blocks: u16,
    pub in_block: usize,
    pub len: usize,
    pub buf_start: usize,
    pub preload: bool,
}

/// Rounded-up quotient.
pub open spec fn div_ceil(x: int, d: int) -> int {
    x / d + (if x % d != 0 { 1int } else { 0int })
}

/// The step a transfer of `len` bytes at `offset` takes once `done` bytes
/// are through, with blocks of `bs` bytes and at most `maxb` blocks per
/// command.
pub open spec fn step_at(offset: int, len: int, bs: int, maxb: int, write: bool, done: int) -> TransferStep {
    let cur = offset + done;
    let rem = len - done;
    let in_block = cur % bs;
    let need = div_ceil(in_block + rem, bs);
    let blocks = if need < maxb { need } else { maxb };
    let chunk = if blocks * bs - in_block < rem { blocks * bs - in_block } else { rem };
    TransferStep {
        lba: (cur / bs) as u64,
        blocks: blocks as u16,
        in_block: in_block as usize,
        len: chunk as usize,
        buf_start: done as usize,
        preload: write && (in_block != 0 || rem < blocks * bs),
    }
}

/// The steps tile the caller's buffer of `len` bytes in order, each the
/// step `step_at` gives for the bytes before it.
pub open spec fn is_plan(steps: Seq<TransferStep>, offset: int, len: int, bs: int, maxb: int, write: bool) -> bool {
    &&& (steps.len() == 0 <==> len == 0)
    &&& steps.len() > 0 ==> steps[0].buf_start == 0
    &&& steps.len() > 0 ==> steps.last().buf_start + steps.last().len == len
    &&& forall|i: int|
        0 <= i < steps.len() - 1 ==> #[trigger] steps[i + 1].buf_start == steps[i].buf_start + steps[i].len
    &&& forall|i: int|
        0 <= i < steps.len() ==> {
            &&& #[trigger] steps[i] == step_at(offset, len, bs, maxb, write, steps[i].buf_start as int)
            &&& steps[i].len > 0
            &&& 1 <= steps[i].blocks <= maxb
            &&& steps[i].in_block + steps[i].len <= steps[i].blocks * bs
            &&& steps[i].lba * bs + steps[i].in_block == offset + steps[i].buf_start
        }
}

/// Plans a transfer of `len` bytes at disk byte `offset`, with blocks of
/// `block_size` bytes and at most `max_blocks` blocks per command.
pub fn plan_transfer(offset: u64, len: usize, block_size: u64, max_blocks: usize, write: bool) -> (r: Vec<TransferStep>)
    requires
        block_size > 0,
        1 <= max_blocks <= 65535,
        max_blocks * block_size <= usize::MAX,
        len + block_size <= usize::MAX,
        offset + len <= u64::MAX,
    ensures
        is_plan(r@, offset as int, len as int, block_size as int, max_blocks as int, write),
{
    let bs = block_size as usize;
    let mut steps: Vec<TransferStep> = Vec::new();
    let mut done: usize = 0;
    while done < len
        invariant
            bs == block_size,
            block_size > 0,
            1 <= max_blocks <= 65535,
            max_blocks * block_size <= usize::MAX,
            len + block_size <= usize::MAX,
            offset + len <= u64::MAX,
            done <= len,
            steps@.len() == 0 <==> done == 0,
            steps@.len() > 0 ==> steps@[0].buf_start == 0,
            steps@.len() > 0 ==> steps@.last().buf_start + steps@.last().len == done,
            forall|i: int|
                0 <= i < steps@.len() - 1 ==> #[trigger] steps@[i + 1].buf_start == steps@[i].buf_start
                    + steps@[i].len,
            forall|i: int|
                0 <= i < steps@.len() ==> {
                    &&& #[trigger] steps@[i] == step_at(
                        offset as int,
                        len as int,
                        block_size as int,
                        max_blocks as int,
                        write,
                        steps@[i].buf_start as int,
                    )
                    &&& steps@[i].len > 0
                    &&& 1 <= steps@[i].blocks <= max_blocks
                    &&& steps@[i].in_block + steps@[i].len <= steps@[i].blocks * block_size
                    &&& steps@[i].lba * block_size + steps@[i].in_block == offset + steps@[i].buf_start
                },
        decreases len - done,
    {
        let cur = offset + done as u64;
        let rem = len - done;
        let lba = cur / block_size;
        let in_block = (cur % block_size) as usize;
        let x = in_block + rem;
        let need = x / bs + if x % bs != 0 { 1usize } else { 0usize };
        let blocks = if need < max_blocks { need } else { max_blocks };
        proof {
            lemma_fundamental_div_mod(cur as int, block_size as int);
            lemma_fundamental_div_mod(x as int, bs as int);
            assert(need >= 1) by (nonlinear_arith)
                requires
                    x >= 1,
                    x == bs * (x / bs) + x % bs,
                    0 <= x % bs < bs,
                    need == x / bs + (if x % bs != 0 { 1int } else { 0int }),
            ;
            assert(blocks * bs <= max_blocks * bs) by (nonlinear_arith)
                requires
                    blocks <= max_blocks,
                    bs > 0,
            ;
            assert(blocks * bs >= bs) by (nonlinear_arith)
                requires
                    blocks >= 1,
                    bs > 0,
            ;
        }
        let span = blocks * bs;
        let chunk = if span - in_block < rem { span - in_block } else { rem };
        let preload = write && (in_block != 0 || rem < span);
        let step = TransferStep { lba, blocks: blocks as u16, in_block, len: chunk, buf_start: done, preload };
        proof {
            assert(step == step_at(offset as int, len as int, block_size as int, max_blocks as int, write, done as int));
            assert(lba * block_size + in_block == cur) by (nonlinear_arith)
                requires
                    cur == block_size * lba + in_block,
            ;
        }
        let ghost old_steps = steps@;
        steps.push(step);
        proof {
            assert forall|i: int| 0 <= i < steps@.len() - 1 implies #[trigger] steps@[i + 1].buf_start
                == steps@[i].buf_start + steps@[i].len by {
                if i + 1 < old_steps.len() {
                    assert(steps@[i + 1] == old_steps[i + 1]);
                    assert(steps@[i] == old_steps[i]);
                }
            }
        }
        done = done + chunk;
    }
    steps
}

/// Law: the steps of a plan move every byte of the range exactly once, in
/// order: byte `k` of the caller's buffer is byte `offset + k` of the disk,
/// and it is handled by the one step whose range holds it.
pub proof fn lemma_plan_covers(steps: Seq<TransferStep>, offset: int, len: int, bs: int, maxb: int, write: bool, k: int)
    requires
        is_plan(steps, offset, len, bs, maxb, write),
        0 <= k < len,
    ensures
        exists|i: int|
            0 <= i < steps.len() && steps[i].buf_start <= k < steps[i].buf_start + steps[i].len && steps[i].lba * bs
                + steps[i].in_block + (k - steps[i].buf_start) == offset + k,
        forall|i: int, j: int|
            0 <= i < j < steps.len() ==> #[trigger] steps[i].buf_start + steps[i].len <= #[trigger] steps[j].buf_start,
{
    lemma_plan_increasing(steps, offset, len, bs, maxb, write);
    let i = find_step(steps, offset, len, bs, maxb, write, k, (steps.len() - 1) as int);
    assert(steps[i].lba * bs + steps[i].in_block == offset + steps[i].buf_start);
}

proof fn lemma_plan_increasing(steps: Seq<TransferStep>, offset: int, len: int, bs: int, maxb: int, write: bool)
    requires
        is_plan(steps, offset, len, bs, maxb, write),
    ensures
        forall|i: int, j: int|
            0 <= i < j < steps.len() ==> #[trigger] steps[i].buf_start + steps[i].len <= #[trigger] steps[j].buf_start,
{
    assert forall|i: int, j: int| 0 <= i < j < steps.len() implies steps[i].buf_start + steps[i].len
        <= steps[j].buf_start by {
        lemma_plan_gap(steps, offset, len, bs, maxb, write, i, j);
    }
}

proof fn lemma_plan_gap(steps: Seq<TransferStep>, offset: int, len: int, bs: int, maxb: int, write: bool, i: int, j: int)
    requires
        is_plan(steps, offset, len, bs, maxb, write),
        0 <= i < j < steps.len(),
    ensures
        steps[i].buf_start + steps[i].len <= steps[j].buf_start,
    decreases j - i,
{
    assert(steps[i + 1].buf_start == steps[i].buf_start + steps[i].len);
    if i + 1 < j {
        lemma_plan_gap(steps, offset, len, bs, maxb, write, i + 1, j);
        assert(steps[i + 1].len > 0);
    }
}

/// The last step at or before `hi` that starts at or before `k`.
proof fn find_step(steps: Seq<TransferStep>, offset: int, len: int, bs: int, maxb: int, write: bool, k: int, hi: int) -> (i: int)
    requires
        is_plan(steps, offset, len, bs, maxb, write),
        0 <= k < len,
        0 <= hi < steps.len(),
        k < steps[hi].buf_start + steps[hi].len,
    ensures
        0 <= i <= hi,
        steps[i].buf_start <= k < steps[i].buf_start + steps[i].len,
    decreases hi,
{
    if steps[hi].buf_start <= k {
        hi
    } else {
        assert(hi > 0);
        let p = hi - 1;
        assert(steps[p + 1].buf_start == steps[p].buf_start + steps[p].len);
        find_step(steps, offset, len, bs, maxb, write, k, hi - 1)
    }
}

/// `buf` with the bytes from `at` on replaced by `src`.
pub open spec fn copy_into(buf: Seq<u8>, at: int, src: Seq<u8>) -> Seq<u8> {
    buf.subrange(0, at) + src + buf.subrange(at + src.len(), buf.len() as int)
}

/// Where a transfer stands: the step whose command runs next, and the
/// error of the command that failed, if one did.
pub struct PlanRun {
    pub next: usize,
    pub failed: Option<Error>,
}

impl PlanRun {
    /// A transfer that has not issued any command.
    pub fn new() -> (r: PlanRun)
        ensures
            r.next == 0,
            r.failed is None,
    {
        PlanRun { next: 0, failed: None }
    }

    /// The step whose command to issue next: none once every step is done
    /// or once a command failed, so that no command follows a failure.
    pub fn next_step(&self, steps: &Vec<TransferStep>) -> (r: Option<usize>)
        ensures
            r == (if self.failed is None && self.next < steps@.len() { Some(self.next) } else { None }),
    {
        if self.failed.is_none() && self.next < steps.len() {
            Some(self.next)
        } else {
            None
        }
    }

    /// The result of the transfer once no step is left to run: the error of
    /// the command that failed, else success.
    pub fn outcome(self) -> (r: Result<(), Error>)
        ensures
            r == (match self.failed {
                Some(e) => Err(e),
                None => Ok(()),
            }),
    {
        match self.failed {
            Some(e) => Err(e),
            None => Ok(()),
        }
    }

    /// Records what the read command of the current step gave. On success,
    /// the step's bytes of the DMA buffer (`dma[in_block..in_block + len]`)
    /// go to their place in `buf` and the run moves to the next step; on
    /// failure the run ends with that error and `buf` is left as it was.
    pub fn record_read(&mut self, steps: &Vec<TransferStep>, buf: &mut Vec<u8>, dma: &[u8], result: Result<(), Error>)
        requires
            old(self).failed is None,
            old(self).next < steps@.len(),
            steps@[old(self).next as int].in_block + steps@[old(self).next as int].len <= dma@.len(),
            steps@[old(self).next as int].buf_start + steps@[old(self).next as int].len <= old(buf)@.len(),
        ensures
            ({
                let st = steps@[old(self).next as int];
                match result {
                    Ok(()) => {
                        &&& final(self).next == old(self).next + 1
                        &&& final(self).failed is None
                        &&& final(buf)@ == copy_into(
                            old(buf)@,
                            st.buf_start as int,
                            dma@.subrange(st.in_block as int, st.in_block + st.len),
                        )
                    },
                    Err(e) => {
                        &&& final(self).next == old(self).next
                        &&& final(self).failed == Some(e)
                        &&& final(buf)@ == old(buf)@
                    },
                }
            }),
    {
        match result {
            Err(e) => {
                self.failed = Some(e);
            },
            Ok(()) => {
                let st = steps[self.next];
                let ghost b0 = buf@;
                let bl = buf.len();
                let sl = steps.len();
                let dl = dma.len();
                let mut i: usize = 0;
                while i < st.len
                    invariant
                        *self == *old(self),
                        self.next < steps@.len(),
                        steps@.len() == sl,
                        b0.len() == bl,
                        dma@.len() == dl,
                        st.in_block + st.len <= dma@.len(),
                        st.buf_start + st.len <= b0.len(),
                        i <= st.len,
                        buf@.len() == b0.len(),
                        forall|k: int| 0 <= k < b0.len() ==> #[trigger] buf@[k] == (if st.buf_start <= k < st.buf_start + i {
                            dma@[st.in_block + (k - st.buf_start)]
                        } else {
                            b0[k]
                        }),
                    decreases st.len - i,
                {
                    buf.set(st.buf_start + i, dma[st.in_block + i]);
                    i = i + 1;
                }
                proof {
                    assert(buf@ =~= copy_into(b0, st.buf_start as int, dma@.subrange(st.in_block as int, st.in_block + st.len)));
                }
                self.next = self.next + 1;
            },
        }
    }
}

/// The caller's buffer after the read commands of the first `k` steps all
/// succeeded, command `i` having left `dmas[i]` in the DMA buffer.
pub open spec fn apply_reads(buf: Seq<u8>, steps: Seq<TransferStep>, dmas: Seq<Seq<u8>>, k: int) -> Seq<u8>
    decreases k,
{
    if k <= 0 {
        buf
    } else {
        let st = steps[k - 1];
        copy_into(
            apply_reads(buf, steps, dmas, k - 1),
            st.buf_start as int,
            dmas[k - 1].subrange(st.in_block as int, st.in_block + st.len),
        )
    }
}

/// Law: reading through a plan fills the caller's buffer with the disk's
/// bytes. When each command of a read plan of `len` bytes at `offset` leaves
/// in the DMA buffer the disk's bytes of its blocks, running every step
/// leaves `buf` equal to the disk's bytes `[offset, offset + len)`.
pub proof fn lemma_read_plan_fills_buffer(
    steps: Seq<TransferStep>,
    offset: int,
    len: int,
    bs: int,
    maxb: int,
    buf: Seq<u8>,
    dmas: Seq<Seq<u8>>,
    disk: Seq<u8>,
)
    requires
        is_plan(steps, offset, len, bs, maxb, false),
        0 <= offset,
        offset + len <= disk.len(),
        buf.len() == len,
        dmas.len() == steps.len(),
        forall|i: int| 0 <= i < steps.len() ==> #[trigger] dmas[i].len() >= steps[i].blocks * bs,
        forall|i: int, j: int|
            #![trigger dmas[i][j]]
            0 <= i < steps.len() && 0 <= j < steps[i].blocks * bs && steps[i].lba * bs + j < disk.len() ==> dmas[i][j]
                == disk[steps[i].lba * bs + j],
    ensures
        apply_reads(buf, steps, dmas, steps.len() as int) == disk.subrange(offset, offset + len),
{
    let n = steps.len() as int;
    if n == 0 {
        assert(len == 0);
        assert(buf =~= disk.subrange(offset, offset + len));
    } else {
        lemma_reads_upto(steps, offset, len, bs, maxb, buf, dmas, disk, n);
        assert(steps.last() == steps[n - 1]);
        assert(apply_reads(buf, steps, dmas, n) =~= apply_reads(buf, steps, dmas, n).subrange(0, len));
    }
}

/// The end of step `k - 1` in the caller's buffer (0 for `k == 0`).
spec fn reads_end(steps: Seq<TransferStep>, k: int) -> int {
    if k == 0 { 0 } else { steps[k - 1].buf_start + steps[k - 1].len }
}

proof fn lemma_reads_upto(
    steps: Seq<TransferStep>,
    offset: int,
    len: int,
    bs: int,
    maxb: int,
    buf: Seq<u8>,
    dmas: Seq<Seq<u8>>,
    disk: Seq<u8>,
    k: int,
)
    requires
        is_plan(steps, offset, len, bs, maxb, false),
        0 <= offset,
        offset + len <= disk.len(),
        buf.len() == len,
        dmas.len() == steps.len(),
        forall|i: int| 0 <= i < steps.len() ==> #[trigger] dmas[i].len() >= steps[i].blocks * bs,
        forall|i: int, j: int|
            #![trigger dmas[i][j]]
            0 <= i < steps.len() && 0 <= j < steps[i].blocks * bs && steps[i].lba * bs + j < disk.len() ==> dmas[i][j]
                == disk[steps[i].lba * bs + j],
        0 <= k <= steps.len(),
    ensures
        apply_reads(buf, steps, dmas, k).len() == len,
        k < steps.len() ==> steps[k].buf_start == reads_end(steps, k),
        0 <= reads_end(steps, k) <= len,
        apply_reads(buf, steps, dmas, k).subrange(0, reads_end(steps, k)) == disk.subrange(
            offset,
            offset + reads_end(steps, k),
        ),
    decreases k,
{
    if k == 0 {
        if steps.len() > 0 {
            assert(steps[0].buf_start == 0);
        }
        assert(buf.subrange(0, 0) =~= disk.subrange(offset, offset));
    } else {
        lemma_reads_upto(steps, offset, len, bs, maxb, buf, dmas, disk, k - 1);
        lemma_step_end_within(steps, offset, len, bs, maxb, false, k - 1);
        let prev = apply_reads(buf, steps, dmas, k - 1);
        let st = steps[k - 1];
        let e = st.buf_start as int;
        let src = dmas[k - 1].subrange(st.in_block as int, st.in_block + st.len);
        assert(st == step_at(offset, len, bs, maxb, false, st.buf_start as int));
        assert(st.len > 0 && st.in_block + st.len <= st.blocks * bs);
        assert(st.lba * bs + st.in_block == offset + st.buf_start);
        let next = apply_reads(buf, steps, dmas, k);
        assert(next == copy_into(prev, e, src));
        assert(st.buf_start + st.len <= len);
        assert(dmas[k - 1].len() >= st.blocks * bs);
        assert(src =~= disk.subrange(offset + e, offset + e + st.len)) by {
            assert forall|j: int| 0 <= j < st.len implies #[trigger] src[j] == disk.subrange(offset + e, offset + e + st.len)[j] by {
                let jj = st.in_block + j;
                assert(st.lba * bs + jj < disk.len());
                assert(dmas[k - 1][jj] == disk[st.lba * bs + jj]);
                assert(src[j] == dmas[k - 1][jj]);
            }
        }
        assert(next.len() == len);
        assert(next.subrange(0, e + st.len) =~= disk.subrange(offset, offset + e + st.len)) by {
            assert forall|j: int| 0 <= j < e + st.len implies #[trigger] next.subrange(0, e + st.len)[j] == disk.subrange(
                offset,
                offset + e + st.len,
            )[j] by {
                if j < e {
                    assert(next[j] == prev[j]);
                    assert(prev.subrange(0, e)[j] == prev[j]);
                } else {
                    assert(next[j] == src[j - e]);
                }
            }
        }
        if k < steps.len() {
            let i = k - 1;
            assert(steps[i + 1].buf_start == steps[i].buf_start + steps[i].len);
        }
    }
}

proof fn lemma_step_end_within(steps: Seq<TransferStep>, offset: int, len: int, bs: int, maxb: int, write: bool, k: int)
    requires
        is_plan(steps, offset, len, bs, maxb, write),
        0 <= k < steps.len(),
    ensures
        steps[k].buf_start + steps[k].len <= len,
    decreases steps.len() - k,
{
    if k + 1 < steps.len() {
        lemma_step_end_within(steps, offset, len, bs, maxb, write, k + 1);
        assert(steps[k + 1].buf_start == steps[k].buf_start + steps[k].len);
    } else {
        assert(steps.last() == steps[k]);
    }
}

/// Law: a write reads a step's blocks first exactly when the step does not
/// overwrite all of them: it starts inside its first block, or it ends
/// before the end of its last one. A read never does.
pub proof fn lemma_preload_iff_partial(
    steps: Seq<TransferStep>,
    offset: int,
    len: int,
    bs: int,
    maxb: int,
    write: bool,
    i: int,
)
    requires
        is_plan(steps, offset, len, bs, maxb, write),
        0 < bs <= usize::MAX,
        1 <= maxb <= 65535,
        0 <= offset,
        0 <= len <= usize::MAX,
        0 <= i < steps.len(),
    ensures
        steps[i].preload <==> (write && (steps[i].in_block != 0 || steps[i].in_block + steps[i].len
            < steps[i].blocks * bs)),
{
    let st = steps[i];
    let done = st.buf_start as int;
    lemma_step_end_within(steps, offset, len, bs, maxb, write, i);
    assert(st == step_at(offset, len, bs, maxb, write, done));
    let cur = offset + done;
    let rem = len - done;
    let in_block = cur % bs;
    let need = div_ceil(in_block + rem, bs);
    let blocks = if need < maxb { need } else { maxb };
    let chunk = if blocks * bs - in_block < rem { blocks * bs - in_block } else { rem };
    assert(0 <= in_block < bs);
    assert(rem >= 1);
    assert(need >= 1) by {
        if in_block + rem >= bs {
            vstd::arithmetic::div_mod::lemma_div_is_ordered(bs, in_block + rem, bs);
            vstd::arithmetic::div_mod::lemma_div_basics(bs);
        } else {
            vstd::arithmetic::div_mod::lemma_small_mod((in_block + rem) as nat, bs as nat);
        }
    }
    assert(1 <= blocks <= 65535);
    assert(st.blocks == blocks);
    assert(blocks * bs >= bs) by (nonlinear_arith)
        requires
            blocks >= 1,
            bs > 0,
    ;
    assert(0 < chunk <= rem);
    assert(st.len == chunk);
    assert(st.in_block == in_block);
}

} // verus!
