//! The Realtek RTL8169 driver's logic: which PCI functions it drives, which
//! BAR reaches its registers, the descriptor flags of both rings and the
//! ring positions.

use vstd::prelude::*;
use crate::pci::{PciDevice, Bar};

verus! {

/// Receive descriptors in the ring.
pub const NUM_RX_DESC: usize = 64;
/// Transmit descriptors in the ring.
pub const NUM_TX_DESC: usize = 64;
/// Bytes of each packet buffer.
pub const BUFFER_SIZE: usize = 2048;
/// Descriptor owned by the NIC.
pub const DESC_OWN: u32 = 0x8000_0000;
/// Last descriptor of the ring.
pub const DESC_EOR: u32 = 0x4000_0000;
/// First segment of a packet.
pub const DESC_FS: u32 = 0x2000_0000;
/// Last segment of a packet.
pub const DESC_LS: u32 = 0x1000_0000;

/// A descriptor of either ring.
#[derive(Clone, Copy, Debug)]
pub struct RtlDesc {
    pub opts1: u32,
    pub opts2: u32,
    pub buf_addr_low: u32,
    pub buf_addr_high: u32,
}

/// How the registers are reached: memory-mapped at a base, or through an
/// I/O port range.
#[derive(Clone, Copy, Debug, PartialEq, Eq, Structural)]
pub enum RegisterAccess {
    Mmio(u64),
    Io(u16),
}

/// Whether this driver handles a PCI function: a Realtek network
/// controller.
pub fn probe(pci: &PciDevice) -> (r: bool)
    ensures
        r == (pci.vendor_id == 0x10EC && pci.class_code == 0x02),
{
    pci.vendor_id == 0x10EC && pci.class_code == 0x02
}

/// The register access chosen from the BARs in order: the first
/// memory BAR with a non-zero base, else the first I/O BAR with a non-zero
/// port.
pub open spec fn choose_access(bars: Seq<Option<Bar>>, i: int, io: Option<RegisterAccess>) -> Option<RegisterAccess>
    decreases bars.len() - i,
{
    if i >= bars.len() || i < 0 {
        io
    } else {
        match bars[i] {
            Some(Bar::Memory { base, .. }) if base != 0 => Some(RegisterAccess::Mmio(base)),
            Some(Bar::Io { port }) if port != 0 && io is None => choose_access(
                bars,
                i + 1,
                Some(RegisterAccess::Io(port)),
            ),
            _ => choose_access(bars, i + 1, io),
        }
    }
}

/// Picks how to reach the registers from the decoded BARs, in order: a
/// memory BAR wins; else the first I/O BAR; `None` when neither exists.
pub fn register_access(bars: &Vec<Option<Bar>>) -> (r: Option<RegisterAccess>)
    ensures
        r == choose_access(bars@, 0, None),
{
    let mut io: Option<RegisterAccess> = None;
    let mut i: usize = 0;
    while i < bars.len()
        invariant
            i <= bars@.len(),
            choose_access(bars@, 0, None) == choose_access(bars@, i as int, io),
        decreases bars@.len() - i,
    {
        match bars[i] {
            Some(Bar::Memory { base, .. }) => {
                if base != 0 {
                    return Some(RegisterAccess::Mmio(base));
                }
            },
            Some(Bar::Io { port }) => {
                if port != 0 && io.is_none() {
                    io = Some(RegisterAccess::Io(port));
                }
            },
            None => {},
        }
        i = i + 1;
    }
    io
}

/// `opts1` of receive descriptor `i` when it is handed to the NIC: owned,
/// the buffer size, and end-of-ring on the last one.
pub fn rx_ready_flags(i: usize) -> (r: u32)
    requires
        i < NUM_RX_DESC,
    ensures
        r == DESC_OWN + BUFFER_SIZE + (if i == NUM_RX_DESC - 1 { DESC_EOR as int } else { 0int }),
{
    proof {
        assert(DESC_OWN | (2048u32 & 0x3FFF) == 0x8000_0800) by (bit_vector);
        assert(DESC_OWN | (2048u32 & 0x3FFF) | DESC_EOR == 0xC000_0800) by (bit_vector);
    }
    if i == NUM_RX_DESC - 1 {
        DESC_OWN | (2048u32 & 0x3FFF) | DESC_EOR
    } else {
        DESC_OWN | (2048u32 & 0x3FFF)
    }
}

/// `opts1` of transmit descriptor `i` sending `len` bytes: owned, first and
/// last segment, the length, and end-of-ring on the last one.
pub fn tx_flags(i: usize, len: usize) -> (r: u32)
    requires
        i < NUM_TX_DESC,
        len <= BUFFER_SIZE,
    ensures
        r == DESC_OWN + DESC_FS + DESC_LS + len + (if i == NUM_TX_DESC - 1 { DESC_EOR as int } else { 0int }),
{
    let l = len as u32;
    proof {
        assert(l <= 2048 ==> l & 0x3FFF == l) by (bit_vector);
        assert(l <= 2048 ==> (DESC_OWN | DESC_FS | DESC_LS | l) == 0xB000_0000 + l) by (bit_vector);
        assert(l <= 2048 ==> (DESC_OWN | DESC_FS | DESC_LS | l | DESC_EOR) == 0xF000_0000 + l) by (bit_vector);
    }
    let mut flags = DESC_OWN | DESC_FS | DESC_LS | (l & 0x3FFF);
    if i == NUM_TX_DESC - 1 {
        flags = flags | DESC_EOR;
    }
    flags
}

/// A descriptor for the buffer at `addr` with flags `opts1`: the address
/// split into its low and high 32 bits.
pub open spec fn desc_for(opts1: u32, addr: u64) -> RtlDesc {
    RtlDesc {
        opts1,
        opts2: 0,
        buf_addr_low: (addr & 0xFFFF_FFFFu64) as u32,
        buf_addr_high: ((addr >> 32u64) & 0xFFFF_FFFFu64) as u32,
    }
}

/// The receive ring over `bufs`: every descriptor handed to the NIC.
pub fn rx_ring(bufs: &Vec<u64>) -> (r: Vec<RtlDesc>)
    requires
        bufs@.len() == NUM_RX_DESC,
    ensures
        r@.len() == NUM_RX_DESC,
        forall|i: int| 0 <= i < NUM_RX_DESC ==> #[trigger] r@[i] == desc_for(
            (DESC_OWN + BUFFER_SIZE + (if i == NUM_RX_DESC - 1 { DESC_EOR as int } else { 0int })) as u32,
            bufs@[i],
        ),
{
    let mut out: Vec<RtlDesc> = Vec::new();
    let mut i: usize = 0;
    while i < NUM_RX_DESC
        invariant
            i <= NUM_RX_DESC,
            bufs@.len() == NUM_RX_DESC,
            out@.len() == i,
            forall|k: int| 0 <= k < i ==> #[trigger] out@[k] == desc_for(
                (DESC_OWN + BUFFER_SIZE + (if k == NUM_RX_DESC - 1 { DESC_EOR as int } else { 0int })) as u32,
                bufs@[k],
            ),
        decreases NUM_RX_DESC - i,
    {
        let b = bufs[i];
        out.push(RtlDesc {
            opts1: rx_ready_flags(i),
            opts2: 0,
            buf_addr_low: (b & 0xFFFF_FFFFu64) as u32,
            buf_addr_high: ((b >> 32u64) & 0xFFFF_FFFFu64) as u32,
        });
        i = i + 1;
    }
    out
}

/// The transmit ring over `bufs`: every descriptor kept by the driver,
/// with end-of-ring on the last one.
pub fn tx_ring(bufs: &Vec<u64>) -> (r: Vec<RtlDesc>)
    requires
        bufs@.len() == NUM_TX_DESC,
    ensures
        r@.len() == NUM_TX_DESC,
        forall|i: int| 0 <= i < NUM_TX_DESC ==> #[trigger] r@[i] == desc_for(
            if i == NUM_TX_DESC - 1 { DESC_EOR } else { 0u32 },
            bufs@[i],
        ),
{
    let mut out: Vec<RtlDesc> = Vec::new();
    let mut i: usize = 0;
    while i < NUM_TX_DESC
        invariant
            i <= NUM_TX_DESC,
            bufs@.len() == NUM_TX_DESC,
            out@.len() == i,
            forall|k: int| 0 <= k < i ==> #[trigger] out@[k] == desc_for(
                if k == NUM_TX_DESC - 1 { DESC_EOR } else { 0u32 },
                bufs@[k],
            ),
        decreases NUM_TX_DESC - i,
    {
        let b = bufs[i];
        let opts1 = if i == NUM_TX_DESC - 1 { DESC_EOR } else { 0u32 };
        out.push(RtlDesc {
            opts1,
            opts2: 0,
            buf_addr_low: (b & 0xFFFF_FFFFu64) as u32,
            buf_addr_high: ((b >> 32u64) & 0xFFFF_FFFFu64) as u32,
        });
        i = i + 1;
    }
    out
}

/// Transmit configuration: 1024-byte DMA bursts, standard inter-frame gap.
pub const TCR_VALUE: u32 = 0x0300_0600;
/// Receive configuration: accept physical-match, multicast and broadcast
/// frames; unlimited receive DMA bursts and FIFO threshold.
pub const RCR_VALUE: u32 = 0x0000_E70E;

/// The MAC address and ring positions the driver keeps.
pub struct Rtl8169Device {
    pub reg: RegisterAccess,
    pub mac: [u8; 6],
    pub rx_cur: usize,
    pub tx_cur: usize,
}

impl Rtl8169Device {
    /// Ring positions stay inside the rings.
    pub open spec fn wf(&self) -> bool {
        self.rx_cur < NUM_RX_DESC && self.tx_cur < NUM_TX_DESC
    }

    /// A device reached through `reg`, with the address read from its ID
    /// registers and both rings at their start.
    pub fn new(reg: RegisterAccess, mac: [u8; 6]) -> (r: Rtl8169Device)
        ensures
            r.wf(),
            r.reg == reg,
            r.mac == mac,
            r.rx_cur == 0 && r.tx_cur == 0,
    {
        Rtl8169Device { reg, mac, rx_cur: 0, tx_cur: 0 }
    }

    /// The MAC address.
    pub fn mac_address(&self) -> (r: [u8; 6])
        ensures
            r == self.mac,
    {
        self.mac
    }

    /// Whether the link is up, from the PHY status and media status
    /// registers.
    pub fn is_link_up(&self, phy_status: u8, msr: u8) -> (r: bool)
        ensures
            r == ((phy_status & 0x02) != 0 || (msr & 0x04) == 0),
    {
        (phy_status & 0x02) != 0 || (msr & 0x04) == 0
    }

    /// Queues a packet of `len` bytes once the current transmit descriptor
    /// is free: its index and flags; the ring moves on.
    pub fn queue_tx(&mut self, len: usize) -> (r: (usize, u32))
        requires
            old(self).wf(),
            len <= BUFFER_SIZE,
        ensures
            final(self).wf(),
            r.0 == old(self).tx_cur,
            r.1 == DESC_OWN + DESC_FS + DESC_LS + len + (if old(self).tx_cur == NUM_TX_DESC - 1 {
                DESC_EOR as int
            } else {
                0int
            }),
            final(self).tx_cur == (old(self).tx_cur + 1) % (NUM_TX_DESC as int),
            final(self).rx_cur == old(self).rx_cur,
            final(self).mac == old(self).mac,
    {
        let slot = self.tx_cur;
        let flags = tx_flags(slot, len);
        self.tx_cur = (self.tx_cur + 1) % NUM_TX_DESC;
        (slot, flags)
    }

    /// Takes the current receive descriptor: nothing while the NIC owns it;
    /// otherwise the packet length without its CRC (at most `buf_len`) and
    /// the flags that give the descriptor back; the ring moves on.
    pub fn receive(&mut self, opts1: u32, buf_len: usize) -> (r: Option<(usize, u32)>)
        requires
            old(self).wf(),
        ensures
            final(self).wf(),
            final(self).tx_cur == old(self).tx_cur,
            final(self).mac == old(self).mac,
            (opts1 & DESC_OWN) != 0 ==> r is None && final(self).rx_cur == old(self).rx_cur,
            (opts1 & DESC_OWN) == 0 ==> {
                let raw = (opts1 & 0x3FFF) as int;
                let pkt = if raw > 4 { raw - 4 } else { raw };
                &&& r == Some(
                    (
                        (if pkt < buf_len { pkt } else { buf_len as int }) as usize,
                        (DESC_OWN + BUFFER_SIZE + (if old(self).rx_cur == NUM_RX_DESC - 1 {
                            DESC_EOR as int
                        } else {
                            0int
                        })) as u32,
                    ),
                )
                &&& final(self).rx_cur == (old(self).rx_cur + 1) % (NUM_RX_DESC as int)
            },
    {
        if (opts1 & DESC_OWN) != 0 {
            return None;
        }
        let raw_len = (opts1 & 0x3FFF) as usize;
        let pkt_len = if raw_len > 4 { raw_len - 4 } else { raw_len };
        let copy_len = if pkt_len < buf_len { pkt_len } else { buf_len };
        let flags = rx_ready_flags(self.rx_cur);
        self.rx_cur = (self.rx_cur + 1) % NUM_RX_DESC;
        Some((copy_len, flags))
    }

    /// Whether the current receive descriptor holds a packet.
    pub fn has_packets(&self, opts1: u32) -> (r: bool)
        ensures
            r == ((opts1 & DESC_OWN) == 0),
    {
        (opts1 & DESC_OWN) == 0
    }
}

} // verus!
