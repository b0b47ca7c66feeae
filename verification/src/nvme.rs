//! The NVMe driver's logic: geometry of the namespace in use, queue
//! bookkeeping (submission tail, completion head and phase), command
//! encodings, and the decoding of identify data.

use vstd::prelude::*;
use crate::le::{le_value, le64, le32};
use crate::error::Error;
use crate::disk::{TransferStep, plan_transfer, is_plan, PAGE_SIZE};

verus! {

/// Entries in each submission and completion queue.
pub const QUEUE_ENTRIES: u16 = 64;

/// Offset of the first doorbell register.
pub const NVME_REG_DOORBELL: u64 = 0x1000;

/// The namespace a drive reads and writes, and its geometry.
pub struct NvmeDisk {
    pub namespace: u32,
    pub block_size: u64,
    pub blocks: u64,
    pub doorbell_stride: u64,
    pub admin: NvmeQueue,
    pub io: NvmeQueue,
}

/// Product of two `u64`s, saturated at `u64::MAX`.
pub open spec fn sat_mul(a: u64, b: u64) -> u64 {
    if a * b > u64::MAX {
        u64::MAX
    } else {
        (a * b) as u64
    }
}

impl NvmeDisk {
    /// A drive with no namespace selected yet and fresh queues.
    pub fn new(doorbell_stride: u64) -> (r: NvmeDisk)
        ensures
            r.namespace == 0 && r.block_size == 0 && r.blocks == 0,
            r.doorbell_stride == doorbell_stride,
            r.admin == NvmeQueue::fresh(),
            r.io == NvmeQueue::fresh(),
    {
        NvmeDisk { namespace: 0, block_size: 0, blocks: 0, doorbell_stride, admin: NvmeQueue::new(), io: NvmeQueue::new() }
    }

    /// Selects the namespace to use and records its geometry.
    pub fn set_namespace(&mut self, namespace: u32, blocks: u64, block_size: u64)
        ensures
            final(self).namespace == namespace,
            final(self).blocks == blocks,
            final(self).block_size == block_size,
            final(self).doorbell_stride == old(self).doorbell_stride,
            final(self).admin == old(self).admin,
            final(self).io == old(self).io,
    {
        self.namespace = namespace;
        self.blocks = blocks;
        self.block_size = block_size;
    }

    /// Size in bytes, saturated at `u64::MAX`.
    pub fn size(&self) -> (r: u64)
        ensures
            r == sat_mul(self.block_size, self.blocks),
    {
        match self.block_size.checked_mul(self.blocks) {
            Some(v) => v,
            None => u64::MAX,
        }
    }

    /// Block size as a `u32` (truncated).
    pub fn block_size(&self) -> (r: u32)
        ensures
            r == self.block_size as u32,
    {
        self.block_size as u32
    }

    /// Number of blocks.
    pub fn num_blocks(&self) -> (r: u64)
        ensures
            r == self.blocks,
    {
        self.blocks
    }

    /// The geometry the transfers need: a block size that divides the one
    /// DMA page.
    pub open spec fn transfer_ready(&self) -> bool {
        0 < self.block_size <= PAGE_SIZE
    }

    /// The commands of a synchronous read of `len` bytes at `offset`, one
    /// page of blocks at most each.
    pub fn read_sync(&self, offset: u64, len: usize) -> (r: Vec<TransferStep>)
        requires
            self.transfer_ready(),
            len + self.block_size <= usize::MAX,
            offset + len <= u64::MAX,
        ensures
            is_plan(r@, offset as int, len as int, self.block_size as int, (PAGE_SIZE / self.block_size) as int, false),
    {
        let max_blocks = (PAGE_SIZE / self.block_size) as usize;
        proof {
            assert(max_blocks * self.block_size <= PAGE_SIZE) by (nonlinear_arith)
                requires
                    max_blocks == PAGE_SIZE / self.block_size,
                    self.block_size > 0,
            ;
            assert(1 <= max_blocks <= 4096) by (nonlinear_arith)
                requires
                    max_blocks == PAGE_SIZE / self.block_size,
                    0 < self.block_size <= PAGE_SIZE,
            ;
        }
        plan_transfer(offset, len, self.block_size, max_blocks, false)
    }

    /// The commands of a synchronous write of `len` bytes at `offset`; a
    /// step that covers its blocks only in part reads them first.
    pub fn write_sync(&self, offset: u64, len: usize) -> (r: Vec<TransferStep>)
        requires
            self.transfer_ready(),
            len + self.block_size <= usize::MAX,
            offset + len <= u64::MAX,
        ensures
            is_plan(r@, offset as int, len as int, self.block_size as int, (PAGE_SIZE / self.block_size) as int, true),
    {
        let max_blocks = (PAGE_SIZE / self.block_size) as usize;
        proof {
            assert(max_blocks * self.block_size <= PAGE_SIZE) by (nonlinear_arith)
                requires
                    max_blocks == PAGE_SIZE / self.block_size,
                    self.block_size > 0,
            ;
            assert(1 <= max_blocks <= 4096) by (nonlinear_arith)
                requires
                    max_blocks == PAGE_SIZE / self.block_size,
                    0 < self.block_size <= PAGE_SIZE,
            ;
        }
        plan_transfer(offset, len, self.block_size, max_blocks, true)
    }
}

/// A submission/completion queue pair: where the next command goes, where
/// the next completion is expected, and the phase bit that marks it new.
#[derive(Clone, Copy, Debug, PartialEq, Eq, Structural)]
pub struct NvmeQueue {
    pub sq_tail: u16,
    pub cq_head: u16,
    pub cq_phase: bool,
}

/// What a completion entry says.
#[derive(Clone, Copy, Debug, PartialEq, Eq, Structural)]
pub enum CompletionState {
    /// Not yet written by the controller (old phase).
    Pending,
    /// Completed successfully.
    Success,
    /// Completed with an error status.
    Failed,
}

impl NvmeQueue {
    pub open spec fn fresh() -> NvmeQueue {
        NvmeQueue { sq_tail: 0, cq_head: 0, cq_phase: true }
    }

    /// Both indices stay inside the queue.
    pub open spec fn wf(&self) -> bool {
        self.sq_tail < QUEUE_ENTRIES && self.cq_head < QUEUE_ENTRIES
    }

    /// Empty queues, expecting phase 1.
    pub fn new() -> (r: NvmeQueue)
        ensures
            r == NvmeQueue::fresh(),
            r.wf(),
    {
        NvmeQueue { sq_tail: 0, cq_head: 0, cq_phase: true }
    }

    /// Takes the submission slot for a command: its index, which is also the
    /// command id; the tail moves on, wrapping at the queue size.
    pub fn submit(&mut self) -> (cid: u16)
        requires
            old(self).wf(),
        ensures
            final(self).wf(),
            cid == old(self).sq_tail,
            final(self).sq_tail == (old(self).sq_tail + 1) % (QUEUE_ENTRIES as int),
            final(self).cq_head == old(self).cq_head,
            final(self).cq_phase == old(self).cq_phase,
    {
        let cid = self.sq_tail;
        self.sq_tail = (cid + 1) % QUEUE_ENTRIES;
        cid
    }

    /// Reads the status of the entry at the completion head: pending while
    /// its phase bit is the old one; otherwise the head moves on (flipping
    /// the expected phase when it wraps) and the status says whether the
    /// command failed.
    pub fn complete(&mut self, status: u16) -> (r: CompletionState)
        requires
            old(self).wf(),
        ensures
            final(self).wf(),
            final(self).sq_tail == old(self).sq_tail,
            ((status & 1) != 0) != old(self).cq_phase ==> r == CompletionState::Pending && *final(self) == *old(self),
            ((status & 1) != 0) == old(self).cq_phase && (status & 0xfffe) != 0 ==> r == CompletionState::Failed
                && *final(self) == *old(self),
            ((status & 1) != 0) == old(self).cq_phase && (status & 0xfffe) == 0 ==> {
                &&& r == CompletionState::Success
                &&& final(self).cq_head == (old(self).cq_head + 1) % (QUEUE_ENTRIES as int)
                &&& final(self).cq_phase == (if old(self).cq_head + 1 == QUEUE_ENTRIES {
                    !old(self).cq_phase
                } else {
                    old(self).cq_phase
                })
            },
    {
        if ((status & 1) != 0) != self.cq_phase {
            return CompletionState::Pending;
        }
        if status & 0xfffe != 0 {
            return CompletionState::Failed;
        }
        self.cq_head = self.cq_head + 1;
        if self.cq_head == QUEUE_ENTRIES {
            self.cq_head = 0;
            self.cq_phase = !self.cq_phase;
        }
        CompletionState::Success
    }
}

/// Offset of the submission tail doorbell of queue `queue`.
pub fn sq_doorbell(queue: u16, stride: u64) -> (r: u64)
    requires
        NVME_REG_DOORBELL + 2 * queue * stride <= u64::MAX,
    ensures
        r == NVME_REG_DOORBELL + 2 * queue * stride,
{
    proof {
        assert(2 * queue * stride >= 0) by (nonlinear_arith)
            requires
                queue >= 0,
                stride >= 0,
        ;
        assert(2 * (queue as u64) * stride == 2 * queue * stride);
    }
    NVME_REG_DOORBELL + 2 * (queue as u64) * stride
}

/// Offset of the completion head doorbell of queue `queue`.
pub fn cq_doorbell(queue: u16, stride: u64) -> (r: u64)
    requires
        NVME_REG_DOORBELL + (2 * queue + 1) * stride <= u64::MAX,
    ensures
        r == NVME_REG_DOORBELL + (2 * queue + 1) * stride,
{
    proof {
        assert((2 * queue + 1) * stride >= 0) by (nonlinear_arith)
            requires
                queue >= 0,
                stride >= 0,
        ;
    }
    NVME_REG_DOORBELL + (2 * (queue as u64) + 1) * stride
}

/// The 64-byte NVMe submission entry, by field.
#[derive(Clone, Copy, Debug, PartialEq, Eq, Structural)]
pub struct NvmeCommand {
    pub cdw0: u32,
    pub nsid: u32,
    pub prp1: u64,
    pub cdw10: u32,
    pub cdw11: u32,
    pub cdw12: u32,
}

/// Opcode of an NVM read.
pub const NVME_CMD_READ: u32 = 0x02;
/// Opcode of an NVM write.
pub const NVME_CMD_WRITE: u32 = 0x01;

/// A read or write of `blocks` blocks from `lba` through the page at
/// `prp1`: the 64-bit LBA split over command dwords 10 and 11, the block
/// count less one in dword 12.
pub fn io_command(write: bool, nsid: u32, prp1: u64, lba: u64, blocks: u16) -> (r: NvmeCommand)
    requires
        blocks >= 1,
    ensures
        r.cdw0 == (if write { NVME_CMD_WRITE } else { NVME_CMD_READ }),
        r.nsid == nsid,
        r.prp1 == prp1,
        r.cdw10 as int + r.cdw11 as int * 0x1_0000_0000 == lba,
        r.cdw12 == blocks - 1,
{
    let cdw10 = (lba & 0xffff_ffff) as u32;
    let cdw11 = (lba >> 32) as u32;
    proof {
        assert((lba & 0xffff_ffff) + (lba >> 32) * 0x1_0000_0000 == lba) by (bit_vector);
        assert(lba >> 32 <= 0xffff_ffff) by (bit_vector);
        assert(lba & 0xffff_ffff <= 0xffff_ffff) by (bit_vector);
        assert(cdw10 == lba & 0xffff_ffff);
        assert(cdw11 == lba >> 32);
    }
    NvmeCommand {
        cdw0: if write { NVME_CMD_WRITE } else { NVME_CMD_READ },
        nsid,
        prp1,
        cdw10,
        cdw11,
        cdw12: blocks as u32 - 1,
    }
}

/// Admin queue attributes: both admin queues `QUEUE_ENTRIES` deep (the
/// sizes are stored less one).
pub const AQA_VALUE: u32 = 0x003F_003F;
/// Controller configuration that enables the controller with 4 KiB pages,
/// round-robin arbitration, 64-byte submission and 16-byte completion
/// entries.
pub const CC_ENABLE: u32 = 0x0046_0001;

/// The admin command that creates I/O completion queue 1, `QUEUE_ENTRIES`
/// deep and physically contiguous, at `prp1`.
pub fn create_io_cq(prp1: u64) -> (r: NvmeCommand)
    ensures
        r == (NvmeCommand { cdw0: 0x05, nsid: 0, prp1, cdw10: 0x003F_0001, cdw11: 1, cdw12: 0 }),
{
    NvmeCommand { cdw0: 0x05, nsid: 0, prp1, cdw10: 0x003F_0001, cdw11: 1, cdw12: 0 }
}

/// The admin command that creates I/O submission queue 1, `QUEUE_ENTRIES`
/// deep, physically contiguous and completing into queue 1, at `prp1`.
pub fn create_io_sq(prp1: u64) -> (r: NvmeCommand)
    ensures
        r == (NvmeCommand { cdw0: 0x01, nsid: 0, prp1, cdw10: 0x003F_0001, cdw11: 0x0001_0001, cdw12: 0 }),
{
    NvmeCommand { cdw0: 0x01, nsid: 0, prp1, cdw10: 0x003F_0001, cdw11: 0x0001_0001, cdw12: 0 }
}

/// The admin command that identifies namespace `nsid` into the page at
/// `prp1`.
pub fn identify_namespace_command(nsid: u32, prp1: u64) -> (r: NvmeCommand)
    ensures
        r == (NvmeCommand { cdw0: 0x06, nsid, prp1, cdw10: 0, cdw11: 0, cdw12: 0 }),
{
    NvmeCommand { cdw0: 0x06, nsid, prp1, cdw10: 0, cdw11: 0, cdw12: 0 }
}

/// The admin command that lists the active namespaces into the page at
/// `prp1`.
pub fn active_namespaces_command(prp1: u64) -> (r: NvmeCommand)
    ensures
        r == (NvmeCommand { cdw0: 0x06, nsid: 0, prp1, cdw10: 0x02, cdw11: 0, cdw12: 0 }),
{
    NvmeCommand { cdw0: 0x06, nsid: 0, prp1, cdw10: 0x02, cdw11: 0, cdw12: 0 }
}

/// Puts the command id in the upper half of dword 0.
pub fn with_command_id(cmd: NvmeCommand, cid: u16) -> (r: NvmeCommand)
    ensures
        r == (NvmeCommand { cdw0: cmd.cdw0 | ((cid as u32) << 16), ..cmd }),
{
    NvmeCommand { cdw0: cmd.cdw0 | ((cid as u32) << 16), ..cmd }
}

/// Why a namespace cannot be used.
pub open spec fn namespace_geometry(identify: Seq<u8>) -> Option<(u64, u64)> {
    let blocks = le_value(identify, 0, 8);
    let format = identify[26] % 16;
    let lbads = identify[128 + format * 4 + 2];
    if lbads >= 64 {
        None
    } else {
        let bs = 1u64 << (lbads as u64);
        if blocks == 0 || bs == 0 || bs > PAGE_SIZE {
            None
        } else {
            Some((blocks as u64, bs as u64))
        }
    }
}

/// Decodes an Identify Namespace page: the number of blocks and the block
/// size of the format in use. Fails when the size is not a representable
/// power of two, or the geometry is empty or larger than a page.
pub fn parse_namespace_identify(identify: &[u8]) -> (r: Result<(u64, u64), Error>)
    requires
        identify@.len() >= 192,
    ensures
        r is Ok <==> namespace_geometry(identify@) is Some,
        r matches Ok(g) ==> g == namespace_geometry(identify@)->0,
{
    let blocks = le64(identify, 0);
    let f = identify[26];
    let format = (f & 0x0f) as usize;
    proof {
        assert(f & 0x0f == f % 16) by (bit_vector);
    }
    let lbads = identify[128 + format * 4 + 2];
    if lbads >= 64 {
        return Err(Error::msg(String::from_str("Invalid NVMe namespace block size")));
    }
    let bs: u64 = 1u64 << (lbads as u64);
    if blocks == 0 || bs == 0 || bs > PAGE_SIZE {
        return Err(Error::msg(String::from_str("Unsupported NVMe namespace geometry")));
    }
    Ok((blocks, bs))
}

/// Decodes the active namespace list: little-endian 32-bit ids, up to the
/// first zero.
pub fn parse_namespace_list(bytes: &[u8]) -> (r: Vec<u32>)
    ensures
        r@.len() <= bytes@.len() / 4,
        forall|i: int| 0 <= i < r@.len() ==> r@[i] as nat == le_value(bytes@, 4 * i, 4) && r@[i] != 0,
        r@.len() < bytes@.len() / 4 ==> le_value(bytes@, 4 * (r@.len() as int), 4) == 0,
{
    let mut out: Vec<u32> = Vec::new();
    let len = bytes.len();
    let n = len / 4;
    let mut i: usize = 0;
    while i < n
        invariant
            len == bytes@.len(),
            n == len / 4,
            i <= n,
            out@.len() == i,
            forall|k: int| 0 <= k < i ==> out@[k] as nat == le_value(bytes@, 4 * k, 4) && out@[k] != 0,
        decreases n - i,
    {
        let ns = le32(bytes, 4 * i);
        if ns == 0 {
            return out;
        }
        out.push(ns);
        i = i + 1;
    }
    out
}

/// Checks the controller capabilities: the queues must hold at least
/// `QUEUE_ENTRIES` entries; gives the doorbell stride.
pub fn doorbell_stride(cap_lo: u32, cap_hi: u32) -> (r: Result<u64, Error>)
    ensures
        r is Err <==> (cap_lo & 0xffff) + 1 < QUEUE_ENTRIES,
        r matches Ok(s) ==> s == 4u64 << (cap_hi & 0xf),
{
    proof {
        assert(cap_lo & 0xffff <= 0xffff) by (bit_vector);
        assert(cap_hi & 0xf < 16) by (bit_vector);
    }
    if (cap_lo & 0xffff) + 1 < QUEUE_ENTRIES as u32 {
        return Err(Error::msg(String::from_str("NVMe queue depth too small")));
    }
    Ok(4u64 << (cap_hi & 0xf))
}

/// Whether a PCI function is an NVMe controller.
pub fn is_nvme_controller(class_code: u8, subclass: u8, prog_if: u8) -> (r: bool)
    ensures
        r == (class_code == 0x01 && subclass == 0x08 && prog_if == 0x02),
{
    class_code == 0x01 && subclass == 0x08 && prog_if == 0x02
}

} // verus!
