//! The AHCI driver's logic: drive geometry from IDENTIFY data, the command
//! header and H2D register FIS of a DMA command, the reading of command
//! completion, and which ports hold a SATA drive.

use vstd::prelude::*;
use crate::le::{le_value, le64, le32};
use crate::error::Error;
use crate::disk::{TransferStep, plan_transfer, is_plan, PAGE_SIZE};
use crate::nvme::sat_mul;

verus! {

/// ATA READ DMA EXT.
pub const ATA_CMD_READ_DMA_EXT: u8 = 0x25;
/// ATA WRITE DMA EXT.
pub const ATA_CMD_WRITE_DMA_EXT: u8 = 0x35;
/// ATA IDENTIFY DEVICE.
pub const ATA_CMD_IDENTIFY: u8 = 0xEC;
/// ATA FLUSH CACHE EXT.
pub const ATA_CMD_FLUSH_EXT: u8 = 0xEA;
/// Pages of the data DMA buffer.
pub const AHCI_DMA_PAGES: usize = 32;

/// A SATA drive behind an AHCI port: which port, its geometry, and the
/// size of its DMA buffer in pages.
pub struct AhciDisk {
    pub port_idx: usize,
    pub block_size: u64,
    pub blocks: u64,
    pub data_pages: usize,
}

/// Number of 512-byte sectors in IDENTIFY data: the 48-bit count when it is
/// not zero, else the 28-bit count.
pub open spec fn identify_sectors(id: Seq<u8>) -> u64 {
    if le_value(id, 200, 8) > 0 {
        le_value(id, 200, 8) as u64
    } else {
        le_value(id, 120, 4) as u64
    }
}

impl AhciDisk {
    /// A drive on port `port_idx` whose geometry is not known yet.
    pub fn new(port_idx: usize) -> (r: AhciDisk)
        ensures
            r.port_idx == port_idx,
            r.block_size == 0,
            r.blocks == 0,
            r.data_pages == AHCI_DMA_PAGES,
    {
        AhciDisk { port_idx, block_size: 0, blocks: 0, data_pages: AHCI_DMA_PAGES }
    }

    /// Records the geometry from IDENTIFY DEVICE data: 512-byte blocks, as
    /// many as the 48-bit sector count says, or the 28-bit one when that is
    /// zero. A drive with no blocks is refused.
    pub fn set_identify(&mut self, id: &[u8]) -> (r: Result<(), Error>)
        requires
            id@.len() >= 208,
        ensures
            final(self).port_idx == old(self).port_idx,
            final(self).data_pages == old(self).data_pages,
            final(self).block_size == 512,
            final(self).blocks == identify_sectors(id@),
            r is Ok <==> identify_sectors(id@) != 0,
    {
        let s48 = le64(id, 200);
        let s28 = le32(id, 120) as u64;
        self.blocks = if s48 > 0 { s48 } else { s28 };
        self.block_size = 512;
        if self.blocks == 0 {
            return Err(Error::msg(String::from_str("AHCI SATA drive reported 0 blocks")));
        }
        Ok(())
    }

    /// Size in bytes, saturated at `u64::MAX`.
    pub fn size(&self) -> (r: u64)
        ensures
            r == sat_mul(self.block_size, self.blocks),
    {
        match self.block_size.checked_mul(self.blocks) {
            Some(v) => v,
            None => u64::MAX,
        }
    }

    /// Block size as a `u32` (truncated).
    pub fn block_size(&self) -> (r: u32)
        ensures
            r == self.block_size as u32,
    {
        self.block_size as u32
    }

    /// Number of blocks.
    pub fn num_blocks(&self) -> (r: u64)
        ensures
            r == self.blocks,
    {
        self.blocks
    }

    /// Blocks that fit in the DMA buffer.
    pub open spec fn max_blocks(&self) -> int {
        (self.data_pages * PAGE_SIZE) / (self.block_size as int)
    }

    /// Geometry that transfers need: the buffer holds at least one block,
    /// and at most as many as a command can count.
    pub open spec fn transfer_ready(&self) -> bool {
        &&& self.block_size > 0
        &&& self.data_pages * PAGE_SIZE <= usize::MAX
        &&& self.block_size <= self.data_pages * PAGE_SIZE
        &&& 1 <= self.max_blocks() <= 65535
    }

    fn buffer_blocks(&self) -> (r: usize)
        requires
            self.transfer_ready(),
        ensures
            r == self.max_blocks(),
            r * self.block_size <= usize::MAX,
    {
        let r = (self.data_pages * (PAGE_SIZE as usize)) / (self.block_size as usize);
        proof {
            assert(r * self.block_size <= self.data_pages * PAGE_SIZE) by (nonlinear_arith)
                requires
                    r == (self.data_pages * PAGE_SIZE) / (self.block_size as int),
                    self.block_size > 0,
                    self.data_pages * PAGE_SIZE >= 0,
            ;
        }
        r
    }

    /// The commands of a synchronous read of `len` bytes at `offset`, a
    /// buffer of blocks at most each.
    pub fn read_sync(&self, offset: u64, len: usize) -> (r: Vec<TransferStep>)
        requires
            self.transfer_ready(),
            len + self.block_size <= usize::MAX,
            offset + len <= u64::MAX,
        ensures
            is_plan(r@, offset as int, len as int, self.block_size as int, self.max_blocks(), false),
    {
        let max_blocks = self.buffer_blocks();
        plan_transfer(offset, len, self.block_size, max_blocks, false)
    }

    /// The commands of a synchronous write of `len` bytes at `offset`; a
    /// step that covers its blocks only in part reads them first.
    pub fn write_sync(&self, offset: u64, len: usize) -> (r: Vec<TransferStep>)
        requires
            self.transfer_ready(),
            len + self.block_size <= usize::MAX,
            offset + len <= u64::MAX,
        ensures
            is_plan(r@, offset as int, len as int, self.block_size as int, self.max_blocks(), true),
    {
        let max_blocks = self.buffer_blocks();
        plan_transfer(offset, len, self.block_size, max_blocks, true)
    }
}

/// What command slot 0 needs: the command header flags (FIS length in
/// dwords, and the write bit), the 20-byte register H2D FIS, and the byte
/// count field of the one PRDT entry.
#[derive(Debug)]
pub struct AhciCommand {
    pub header_flags: u16,
    pub fis: Vec<u8>,
    pub prdt_dbc: u32,
}

/// Byte `k` (from the least significant) of `x`.
pub open spec fn byte_of(x: u64, k: u64) -> u8 {
    ((x >> (8 * k)) & 0xff) as u8
}

fn byte_at(x: u64, k: u64) -> (r: u8)
    requires
        k < 8,
    ensures
        r == byte_of(x, k),
{
    ((x >> (8 * k)) & 0xff) as u8
}

/// Port command register: start (process the command list).
pub const PXCMD_ST: u32 = 0x0001;
/// Port command register: FIS receive enable.
pub const PXCMD_FRE: u32 = 0x0010;
/// Port command register: FIS receive running.
pub const PXCMD_FR: u32 = 0x4000;
/// Port command register: command list running.
pub const PXCMD_CR: u32 = 0x8000;

/// The first write that stops a port: command processing off.
pub fn stop_command_list(cmd: u32) -> (r: u32)
    ensures
        r == cmd & !PXCMD_ST,
{
    cmd & !PXCMD_ST
}

/// The second write that stops a port, once its command list has stopped:
/// FIS reception off.
pub fn stop_fis_receive(cmd: u32) -> (r: u32)
    ensures
        r == cmd & !PXCMD_FRE,
{
    cmd & !PXCMD_FRE
}

/// The two writes that start a port: FIS reception on, then command
/// processing on as well.
pub fn start_writes(cmd: u32) -> (r: (u32, u32))
    ensures
        r == (cmd | PXCMD_FRE, cmd | PXCMD_FRE | PXCMD_ST),
{
    (cmd | PXCMD_FRE, cmd | PXCMD_FRE | PXCMD_ST)
}

/// Whether the port still processes its command list.
pub fn command_list_running(cmd: u32) -> (r: bool)
    ensures
        r == (cmd & PXCMD_CR != 0),
{
    cmd & PXCMD_CR != 0
}

/// Whether the port still receives FISes.
pub fn fis_receive_running(cmd: u32) -> (r: bool)
    ensures
        r == (cmd & PXCMD_FR != 0),
{
    cmd & PXCMD_FR != 0
}

/// The ATA command of a data transfer.
pub fn transfer_opcode(write: bool) -> (r: u8)
    ensures
        r == (if write { ATA_CMD_WRITE_DMA_EXT } else { ATA_CMD_READ_DMA_EXT }),
{
    if write {
        ATA_CMD_WRITE_DMA_EXT
    } else {
        ATA_CMD_READ_DMA_EXT
    }
}

/// Builds the command for an ATA command `cmd` on `count` sectors from
/// `lba`, moving `byte_count` bytes through one PRDT entry.
pub fn ahci_command(cmd: u8, write: bool, lba: u64, count: u16, byte_count: usize) -> (r: AhciCommand)
    requires
        1 <= byte_count <= 0x1_0000_0000,
    ensures
        r.header_flags == 5 + (if write { 64int } else { 0int }),
        r.prdt_dbc == ((byte_count - 1) as u32) | 0x8000_0000,
        r.fis@ == seq![
            0x27u8, 0x80u8, cmd, 0u8,
            byte_of(lba, 0), byte_of(lba, 1), byte_of(lba, 2), 0x40u8,
            byte_of(lba, 3), byte_of(lba, 4), byte_of(lba, 5), 0u8,
            (count % 256) as u8, (count / 256) as u8, 0u8, 0u8,
            0u8, 0u8, 0u8, 0u8,
        ],
{
    let mut fis: Vec<u8> = Vec::new();
    fis.push(0x27u8);
    fis.push(0x80u8);
    fis.push(cmd);
    fis.push(0u8);
    fis.push(byte_at(lba, 0));
    fis.push(byte_at(lba, 1));
    fis.push(byte_at(lba, 2));
    fis.push(0x40u8);
    fis.push(byte_at(lba, 3));
    fis.push(byte_at(lba, 4));
    fis.push(byte_at(lba, 5));
    fis.push(0u8);
    fis.push((count % 256) as u8);
    fis.push((count / 256) as u8);
    fis.push(0u8);
    fis.push(0u8);
    fis.push(0u8);
    fis.push(0u8);
    fis.push(0u8);
    fis.push(0u8);
    let header_flags: u16 = if write { 5 + 64 } else { 5 };
    let r = AhciCommand { header_flags, fis, prdt_dbc: ((byte_count - 1) as u32) | 0x8000_0000 };
    proof {
        assert(r.fis@ =~= seq![
            0x27u8, 0x80u8, cmd, 0u8,
            byte_of(lba, 0), byte_of(lba, 1), byte_of(lba, 2), 0x40u8,
            byte_of(lba, 3), byte_of(lba, 4), byte_of(lba, 5), 0u8,
            (count % 256) as u8, (count / 256) as u8, 0u8, 0u8,
            0u8, 0u8, 0u8, 0u8,
        ]);
    }
    r
}

/// State of a command issued on slot 0.
#[derive(Clone, Copy, Debug, PartialEq, Eq, Structural)]
pub enum CommandPoll {
    /// Still running.
    Running,
    /// Finished without error.
    Done,
    /// Finished with the error bit set in the task file.
    Failed,
    /// Not finished by the deadline.
    TimedOut,
}

/// Reads the command state from the command-issue and task-file
/// registers and the clock: done when slot 0 is no longer issued (failed
/// if the task file reports an error), else timed out past the deadline.
pub fn poll_command(ci: u32, tfd: u32, now: i64, deadline: i64) -> (r: CommandPoll)
    ensures
        (ci & 1) == 0 && (tfd & 1) != 0 <==> r == CommandPoll::Failed,
        (ci & 1) == 0 && (tfd & 1) == 0 <==> r == CommandPoll::Done,
        (ci & 1) != 0 && now > deadline <==> r == CommandPoll::TimedOut,
        (ci & 1) != 0 && now <= deadline <==> r == CommandPoll::Running,
{
    if (ci & 1) == 0 {
        if (tfd & 1) != 0 {
            CommandPoll::Failed
        } else {
            CommandPoll::Done
        }
    } else if now > deadline {
        CommandPoll::TimedOut
    } else {
        CommandPoll::Running
    }
}

/// Whether a port holds a SATA drive: device detected with PHY
/// communication, interface active, and an ATA signature (or none).
pub fn sata_drive_present(ssts: u32, sig: u32) -> (r: bool)
    ensures
        r == ((ssts & 0x0F) == 3 && ((ssts >> 8) & 0x0F) == 1 && (sig == 0x0000_0101 || sig == 0)),
{
    let det = ssts & 0x0F;
    let ipm = (ssts >> 8) & 0x0F;
    det == 3 && ipm == 1 && (sig == 0x0000_0101 || sig == 0)
}

/// Whether port `port` is implemented, from the ports-implemented register.
pub fn port_implemented(pi: u32, port: u32) -> (r: bool)
    requires
        port < 32,
    ensures
        r == ((pi >> port) & 1 == 1),
{
    proof {
        assert((pi & (1u32 << port)) != 0 <==> ((pi >> port) & 1 == 1)) by (bit_vector)
            requires
                port < 32,
        ;
    }
    (pi & (1u32 << port)) != 0
}

/// Register base of port `port` behind the controller registers at `abar`.
pub fn port_base(abar: u64, port: u64) -> (r: u64)
    requires
        port < 32,
        abar + 0x100 + port * 0x80 <= u64::MAX,
    ensures
        r == abar + 0x100 + port * 0x80,
{
    abar + 0x100 + port * 0x80
}

/// Whether a PCI function is an AHCI SATA controller.
pub fn is_ahci_controller(class_code: u8, subclass: u8, prog_if: u8) -> (r: bool)
    ensures
        r == (class_code == 0x01 && subclass == 0x06 && prog_if == 0x01),
{
    class_code == 0x01 && subclass == 0x06 && prog_if == 0x01
}

} // verus!
