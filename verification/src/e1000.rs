//! The Intel e1000/e1000e driver's logic: which PCI functions it drives,
//! how the MAC address is chosen, and the bookkeeping of the transmit and
//! receive descriptor rings. Register and descriptor accesses are the
//! caller's; this module decides from what they read.

use vstd::prelude::*;
use crate::pci::PciDevice;

verus! {

/// Receive descriptors in the ring.
pub const NUM_RX_DESC: usize = 1024;
/// Transmit descriptors in the ring.
pub const NUM_TX_DESC: usize = 256;
/// Bytes of each packet buffer.
pub const BUFFER_SIZE: usize = 2048;
/// Receive errors that drop a packet: CRC, symbol and data errors.
pub const RX_FATAL_ERRORS: u8 = 0x83;
/// Transmit command: end of packet, insert FCS, report status.
pub const TX_CMD: u8 = 0x0B;

/// Statistics and ring registers, as read for diagnostics.
#[derive(Clone, Copy, Debug)]
pub struct E1000Stats {
    pub gprc: u32,
    pub gptc: u32,
    pub mpc: u32,
    pub rnbc: u32,
    pub crcerrs: u32,
    pub rdh: u32,
    pub rdt: u32,
    pub tdh: u32,
    pub tdt: u32,
    pub status: u32,
    pub tctl: u32,
    pub txdctl: u32,
    pub rctl: u32,
    pub rxdctl: u32,
}

/// A legacy receive descriptor.
#[derive(Clone, Copy, Debug)]
pub struct RxDesc {
    pub buffer_addr: u64,
    pub length: u16,
    pub checksum: u16,
    pub status: u8,
    pub errors: u8,
    pub special: u16,
}

/// A legacy transmit descriptor.
#[derive(Clone, Copy, Debug)]
pub struct TxDesc {
    pub buffer_addr: u64,
    pub length: u16,
    pub cso: u8,
    pub cmd: u8,
    pub status: u8,
    pub css: u8,
    pub special: u16,
}

/// Whether this driver handles a PCI function: an Intel Ethernet
/// controller that is not one of Intel's wireless parts.
pub fn probe(pci: &PciDevice) -> (r: bool)
    ensures
        r == (pci.vendor_id == 0x8086 && pci.class_code == 0x02 && pci.subclass == 0x00 && !(pci.device_id
            == 0x24f3 || pci.device_id == 0x24f4 || (pci.device_id & 0xFF00) == 0x2400)),
{
    if pci.vendor_id != 0x8086 || pci.class_code != 0x02 || pci.subclass != 0x00 {
        return false;
    }
    if pci.device_id == 0x24f3 || pci.device_id == 0x24f4 || (pci.device_id & 0xFF00 == 0x2400) {
        return false;
    }
    true
}

/// A usable unicast MAC address: not all zeros, not all ones, and not a
/// multicast address.
pub open spec fn valid_mac(m: Seq<u8>) -> bool {
    &&& !(forall|i: int| 0 <= i < 6 ==> m[i] == 0)
    &&& !(forall|i: int| 0 <= i < 6 ==> m[i] == 0xFF)
    &&& m[0] % 2 == 0
}

/// Whether `m` is a usable unicast MAC address.
pub fn is_valid_mac(m: &[u8; 6]) -> (r: bool)
    ensures
        r == valid_mac(m@),
{
    let mut all_zero = true;
    let mut all_ones = true;
    let mut i: usize = 0;
    while i < 6
        invariant
            i <= 6,
            m@.len() == 6,
            all_zero == (forall|k: int| 0 <= k < i ==> m@[k] == 0),
            all_ones == (forall|k: int| 0 <= k < i ==> m@[k] == 0xFF),
        decreases 6 - i,
    {
        if m[i] != 0 {
            all_zero = false;
        }
        if m[i] != 0xFF {
            all_ones = false;
        }
        i = i + 1;
    }
    let m0 = m[0];
    proof {
        assert(m0 & 1 == m0 % 2) by (bit_vector);
    }
    !all_zero && !all_ones && (m0 & 1) == 0
}

/// The MAC address held in the receive address registers, low byte first.
pub open spec fn ra_mac(ral: u32, rah: u32) -> Seq<u8> {
    seq![
        (ral & 0xFF) as u8,
        ((ral >> 8) & 0xFF) as u8,
        ((ral >> 16) & 0xFF) as u8,
        ((ral >> 24) & 0xFF) as u8,
        (rah & 0xFF) as u8,
        ((rah >> 8) & 0xFF) as u8,
    ]
}

/// The MAC address from the receive address registers, when they hold a
/// valid one (address-valid bit set, low register neither zero nor all
/// ones); all zeros otherwise.
pub fn mac_from_registers(ral: u32, rah: u32) -> (r: [u8; 6])
    ensures
        (ral != 0 && ral != 0xFFFF_FFFF && (rah & 0x8000_0000) != 0 && valid_mac(ra_mac(ral, rah))) ==> r@
            == ra_mac(ral, rah),
        !(ral != 0 && ral != 0xFFFF_FFFF && (rah & 0x8000_0000) != 0 && valid_mac(ra_mac(ral, rah))) ==> r@
            == seq![0u8, 0u8, 0u8, 0u8, 0u8, 0u8],
{
    let zero: [u8; 6] = [0u8; 6];
    if ral != 0 && ral != 0xFFFF_FFFF && (rah & 0x8000_0000) != 0 {
        let candidate: [u8; 6] = [
            (ral & 0xFF) as u8,
            ((ral >> 8) & 0xFF) as u8,
            ((ral >> 16) & 0xFF) as u8,
            ((ral >> 24) & 0xFF) as u8,
            (rah & 0xFF) as u8,
            ((rah >> 8) & 0xFF) as u8,
        ];
        proof {
            assert(candidate@ =~= ra_mac(ral, rah));
        }
        if is_valid_mac(&candidate) {
            return candidate;
        }
    }
    proof {
        assert(zero@ =~= seq![0u8, 0u8, 0u8, 0u8, 0u8, 0u8]);
    }
    zero
}

/// The MAC address from the first three EEPROM words, low byte first.
pub fn mac_from_eeprom(words: &[u16; 3]) -> (r: [u8; 6])
    ensures
        forall|i: int| 0 <= i < 3 ==> #[trigger] r@[2 * i] == words@[i] % 256 && r@[2 * i + 1] == words@[i] / 256,
{
    let mut mac: [u8; 6] = [0u8; 6];
    let mut i: usize = 0;
    while i < 3
        invariant
            i <= 3,
            mac@.len() == 6,
            words@.len() == 3,
            forall|k: int| 0 <= k < i ==> #[trigger] mac@[2 * k] == words@[k] % 256 && mac@[2 * k + 1] == words@[k] / 256,
        decreases 3 - i,
    {
        let w = words[i];
        proof {
            assert(w & 0xFF == w % 256) by (bit_vector);
            assert((w >> 8) & 0xFF == w / 256) by (bit_vector);
        }
        mac[2 * i] = (w & 0xFF) as u8;
        mac[2 * i + 1] = ((w >> 8) & 0xFF) as u8;
        i = i + 1;
    }
    mac
}

/// The address to use when neither the registers nor the EEPROM gave a
/// valid one: the firmware's, when it has one.
pub fn fallback_mac(mac: [u8; 6], firmware_mac: Option<[u8; 6]>) -> (r: [u8; 6])
    ensures
        !valid_mac(mac@) && firmware_mac is Some ==> r == firmware_mac->0,
        valid_mac(mac@) || firmware_mac is None ==> r == mac,
{
    if !is_valid_mac(&mac) {
        if let Some(m) = firmware_mac {
            return m;
        }
    }
    mac
}

/// The receive address registers for `mac`, with the address-valid bit.
pub fn receive_address_registers(mac: &[u8; 6]) -> (r: (u32, u32))
    ensures
        r.0 == mac@[0] + 256 * mac@[1] + 65536 * mac@[2] + 16777216 * mac@[3],
        r.1 == mac@[4] + 256 * mac@[5] + 0x8000_0000,
{
    let (a, b, c, d, e, f) = (mac[0] as u32, mac[1] as u32, mac[2] as u32, mac[3] as u32, mac[4] as u32, mac[5] as u32);
    proof {
        assert(a | (b << 8) | (c << 16) | (d << 24) == a + 256 * b + 65536 * c + 16777216 * d) by (bit_vector)
            requires
                a < 256 && b < 256 && c < 256 && d < 256,
        ;
        assert(e | (f << 8) | 0x8000_0000u32 == e + 256 * f + 0x8000_0000) by (bit_vector)
            requires
                e < 256 && f < 256,
        ;
    }
    (a | (b << 8) | (c << 16) | (d << 24), e | (f << 8) | 0x8000_0000u32)
}

/// Law: a valid MAC address written to the receive address registers reads
/// back as the same address, when its first four bytes are neither all
/// zeros nor all ones (the registers are not trusted then).
pub proof fn lemma_mac_registers_round_trip(mac: Seq<u8>, ral: u32, rah: u32)
    requires
        mac.len() == 6,
        valid_mac(mac),
        ral == mac[0] + 256 * mac[1] + 65536 * mac[2] + 16777216 * mac[3],
        rah == mac[4] + 256 * mac[5] + 0x8000_0000,
        ral != 0,
        ral != 0xFFFF_FFFF,
    ensures
        (rah & 0x8000_0000) != 0,
        ra_mac(ral, rah) == mac,
{
    let (a, b, c, d, e, f) = (mac[0], mac[1], mac[2], mac[3], mac[4], mac[5]);
    assert((ral & 0xFF) as u8 == a && ((ral >> 8) & 0xFF) as u8 == b && ((ral >> 16) & 0xFF) as u8 == c && ((ral
        >> 24) & 0xFF) as u8 == d) by (bit_vector)
        requires
            ral == a + 256 * b + 65536 * c + 16777216 * d,
    ;
    assert((rah & 0xFF) as u8 == e && ((rah >> 8) & 0xFF) as u8 == f && (rah & 0x8000_0000) != 0) by (bit_vector)
        requires
            rah == e + 256 * f + 0x8000_0000,
    ;
    assert(ra_mac(ral, rah) =~= mac);
}

/// An EEPROM read register value: the data word once the done bit is set
/// (bit 4 in the e1000 layout, bit 1 in the e1000e layout).
pub fn eeprom_word(eerd: u32, e1000e_layout: bool) -> (r: Option<u16>)
    ensures
        r is Some <==> (if e1000e_layout { eerd & 2 != 0 } else { eerd & 16 != 0 }),
        r matches Some(w) ==> w == eerd >> 16,
{
    let done = if e1000e_layout { eerd & 2 != 0 } else { eerd & 16 != 0 };
    if done {
        proof {
            assert(eerd >> 16 <= 0xFFFF) by (bit_vector);
        }
        Some((eerd >> 16) as u16)
    } else {
        None
    }
}

/// The EEPROM read command for word `addr`.
pub fn eeprom_command(addr: u8, e1000e_layout: bool) -> (r: u32)
    ensures
        r == (if e1000e_layout { 1 + 4 * addr } else { 1 + 256 * addr }),
{
    let a = addr as u32;
    proof {
        assert(1 | (a << 2) == 1 + 4 * a) by (bit_vector)
            requires
                a < 256,
        ;
        assert(1 | (a << 8) == 1 + 256 * a) by (bit_vector)
            requires
                a < 256,
        ;
    }
    if e1000e_layout {
        1 | (a << 2)
    } else {
        1 | (a << 8)
    }
}

/// What a receive descriptor holds.
#[derive(Clone, Copy, Debug, PartialEq, Eq, Structural)]
pub enum RxOutcome {
    /// The descriptor is still the hardware's.
    Empty,
    /// A packet with errors (or not ending here), recycled.
    Dropped,
    /// A packet; this many bytes are copied to the caller.
    Packet(usize),
}

/// The ring positions the driver keeps, and the chosen MAC address.
pub struct E1000Device {
    pub mac: [u8; 6],
    pub rx_cur: usize,
    pub tx_cur: usize,
    pub tx_clean: usize,
}

impl E1000Device {
    /// Ring positions stay inside the rings.
    pub open spec fn wf(&self) -> bool {
        self.rx_cur < NUM_RX_DESC && self.tx_cur < NUM_TX_DESC && self.tx_clean < NUM_TX_DESC
    }

    /// A device with address `mac` and empty rings.
    pub fn new(mac: [u8; 6]) -> (r: E1000Device)
        ensures
            r.wf(),
            r.mac == mac,
            r.rx_cur == 0 && r.tx_cur == 0 && r.tx_clean == 0,
    {
        E1000Device { mac, rx_cur: 0, tx_cur: 0, tx_clean: 0 }
    }

    /// The MAC address in use.
    pub fn mac_address(&self) -> (r: [u8; 6])
        ensures
            r == self.mac,
    {
        self.mac
    }

    /// Frees the transmit descriptors the hardware is done with: from the
    /// oldest in flight, while its descriptor-done bit (`done[i]`) is set.
    pub fn clean_tx(&mut self, done: &[bool])
        requires
            old(self).wf(),
            done@.len() == NUM_TX_DESC,
        ensures
            final(self).wf(),
            final(self).mac == old(self).mac,
            final(self).rx_cur == old(self).rx_cur,
            final(self).tx_cur == old(self).tx_cur,
            final(self).tx_clean == final(self).tx_cur || !done@[final(self).tx_clean as int],
            tx_in_flight(final(self).tx_clean, old(self).tx_clean) + tx_in_flight(old(self).tx_cur, final(self).tx_clean)
                == tx_in_flight(old(self).tx_cur, old(self).tx_clean),
            forall|k: int|
                0 <= k < tx_in_flight(final(self).tx_clean, old(self).tx_clean) ==> #[trigger] done@[(old(
                    self,
                ).tx_clean + k) % (NUM_TX_DESC as int)],
    {
        let mut steps: usize = 0;
        while self.tx_clean != self.tx_cur && steps < NUM_TX_DESC
            invariant
                self.wf(),
                done@.len() == NUM_TX_DESC,
                self.mac == old(self).mac,
                self.rx_cur == old(self).rx_cur,
                self.tx_cur == old(self).tx_cur,
                old(self).wf(),
                steps <= tx_in_flight(old(self).tx_cur, old(self).tx_clean),
                self.tx_clean == (old(self).tx_clean + steps) % (NUM_TX_DESC as int),
                tx_in_flight(self.tx_clean, old(self).tx_clean) == steps,
                tx_in_flight(self.tx_cur, self.tx_clean) + steps == tx_in_flight(old(self).tx_cur, old(self).tx_clean),
                forall|k: int| 0 <= k < steps ==> #[trigger] done@[(old(self).tx_clean + k) % (NUM_TX_DESC as int)],
            decreases NUM_TX_DESC - steps,
        {
            if done[self.tx_clean] {
                self.tx_clean = (self.tx_clean + 1) % NUM_TX_DESC;
                steps = steps + 1;
            } else {
                return;
            }
        }
    }

    /// Whether another packet can be queued after cleaning: the ring keeps
    /// one slot free.
    pub fn can_transmit(&mut self, done: &[bool]) -> (r: bool)
        requires
            old(self).wf(),
            done@.len() == NUM_TX_DESC,
        ensures
            final(self).wf(),
            final(self).mac == old(self).mac,
            final(self).rx_cur == old(self).rx_cur,
            final(self).tx_cur == old(self).tx_cur,
            final(self).tx_clean == final(self).tx_cur || !done@[final(self).tx_clean as int],
            tx_in_flight(final(self).tx_clean, old(self).tx_clean) + tx_in_flight(old(self).tx_cur, final(self).tx_clean)
                == tx_in_flight(old(self).tx_cur, old(self).tx_clean),
            forall|k: int|
                0 <= k < tx_in_flight(final(self).tx_clean, old(self).tx_clean) ==> #[trigger] done@[(old(
                    self,
                ).tx_clean + k) % (NUM_TX_DESC as int)],
            r == ((final(self).tx_cur + 1) % (NUM_TX_DESC as int) != final(self).tx_clean),
    {
        self.clean_tx(done);
        (self.tx_cur + 1) % NUM_TX_DESC != self.tx_clean
    }

    /// The fallback when descriptor write-back is late: whether the
    /// hardware head `tdh` has moved past the oldest descriptor in flight
    /// (inside the in-flight window, which may wrap).
    pub fn tdh_advanced(&self, tdh: usize) -> (r: bool)
        ensures
            r == (if self.tx_cur >= self.tx_clean {
                tdh > self.tx_clean && tdh <= self.tx_cur
            } else {
                tdh > self.tx_clean || tdh <= self.tx_cur
            }),
    {
        if self.tx_cur >= self.tx_clean {
            tdh > self.tx_clean && tdh <= self.tx_cur
        } else {
            tdh > self.tx_clean || tdh <= self.tx_cur
        }
    }

    /// Queues a packet of `len` bytes in the current transmit descriptor:
    /// the descriptor to write, after which the tail moves on.
    pub fn queue_tx(&mut self, buffer_addr: u64, len: usize) -> (r: (usize, TxDesc))
        requires
            old(self).wf(),
            len <= BUFFER_SIZE,
        ensures
            final(self).wf(),
            r.0 == old(self).tx_cur,
            r.1 == (TxDesc { buffer_addr, length: len as u16, cso: 0, cmd: TX_CMD, status: 0, css: 0, special: 0 }),
            final(self).tx_cur == (old(self).tx_cur + 1) % (NUM_TX_DESC as int),
            final(self).tx_clean == old(self).tx_clean,
            final(self).rx_cur == old(self).rx_cur,
            final(self).mac == old(self).mac,
    {
        let slot = self.tx_cur;
        self.tx_cur = (self.tx_cur + 1) % NUM_TX_DESC;
        (slot, TxDesc { buffer_addr, length: len as u16, cso: 0, cmd: TX_CMD, status: 0, css: 0, special: 0 })
    }

    /// Takes the current receive descriptor: nothing while the hardware
    /// owns it; otherwise the packet is dropped on a fatal error or when it
    /// does not end here, else its bytes (at most `buf_len`) are handed
    /// over. Either way the descriptor is recycled and the ring moves on.
    pub fn receive(&mut self, status: u8, errors: u8, length: u16, buf_len: usize) -> (r: RxOutcome)
        requires
            old(self).wf(),
        ensures
            final(self).wf(),
            final(self).mac == old(self).mac,
            final(self).tx_cur == old(self).tx_cur && final(self).tx_clean == old(self).tx_clean,
            (status & 1) == 0 ==> r == RxOutcome::Empty && final(self).rx_cur == old(self).rx_cur,
            (status & 1) != 0 ==> final(self).rx_cur == (old(self).rx_cur + 1) % (NUM_RX_DESC as int),
            (status & 1) != 0 && ((errors & RX_FATAL_ERRORS) != 0 || (status & 2) == 0) ==> r == RxOutcome::Dropped,
            (status & 1) != 0 && (errors & RX_FATAL_ERRORS) == 0 && (status & 2) != 0 ==> r == RxOutcome::Packet(
                if (length as usize) < buf_len { length as usize } else { buf_len },
            ),
    {
        if (status & 1) == 0 {
            return RxOutcome::Empty;
        }
        self.rx_cur = (self.rx_cur + 1) % NUM_RX_DESC;
        if (errors & RX_FATAL_ERRORS) != 0 || (status & 2) == 0 {
            return RxOutcome::Dropped;
        }
        let l = length as usize;
        RxOutcome::Packet(if l < buf_len { l } else { buf_len })
    }

    /// Whether the current receive descriptor holds a packet.
    pub fn has_packets(&self, status: u8) -> (r: bool)
        ensures
            r == ((status & 1) != 0),
    {
        (status & 1) != 0
    }
}

/// Descriptors in flight between the oldest unfinished one and the tail.
pub open spec fn tx_in_flight(tx_cur: usize, tx_clean: usize) -> int {
    if tx_cur >= tx_clean {
        tx_cur - tx_clean
    } else {
        tx_cur + NUM_TX_DESC - tx_clean
    }
}

/// Whether the link is up, from the device status register.
pub fn link_up(status: u32) -> (r: bool)
    ensures
        r == ((status & 2) != 0),
{
    (status & 2) != 0
}

/// Device control: set link up.
pub const CTRL_SLU: u32 = 0x40;
/// Device control: device reset.
pub const CTRL_RST: u32 = 0x400_0000;
/// Manageability: route management packets to the host.
pub const MANC_EN_MNG2HOST: u32 = 0x20_0000;
/// Manageability: hardware ARP interception.
pub const MANC_ARP_EN: u32 = 0x2000;
/// The I219 MULR datapath hang erratum fix bit.
pub const FEXTNVM11_DISABLE_MULR_FIX: u32 = 0x2000;
/// Receive control: enabled, unicast and multicast promiscuous, broadcast
/// accepted, 2048-byte buffers, CRC stripped.
pub const RCTL_VALUE: u32 = 0x0400_801A;
/// Receive queue enable.
pub const RXDCTL_ENABLE: u32 = 0x200_0000;
/// Transmit queue enable.
pub const TXDCTL_ENABLE: u32 = 0x200_0000;
/// Transmit descriptor fetching: prefetch 31, host and write-back
/// thresholds 1, descriptor counting and granularity.
pub const TXDCTL_DMA_BURST: u32 = 0x0141_011F;
/// The threshold fields of a descriptor control register.
pub const DCTL_THRESHOLDS: u32 = 0x003F_3F3F;
/// Transmit control: enabled, short packets padded.
pub const TCTL_EN_PSP: u32 = 0x0A;
/// Transmit control when firmware left none: enabled, short packets
/// padded, collision threshold 15, collision distance 64, multiple
/// requests.
pub const TCTL_DEFAULT: u32 = 0x1004_00FA;
/// Inter-packet gap when firmware left none.
pub const TIPG_DEFAULT: u32 = 0x0060_200A;
/// Bytes of one descriptor.
pub const DESC_BYTES: usize = 16;

/// A register value that reads as all ones belongs to absent hardware.
pub open spec fn present(v: u32) -> bool {
    v != 0xFFFF_FFFF
}

/// The MULR erratum fix to write back, when the register exists.
pub fn mulr_errata(fextnvm11: u32) -> (r: Option<u32>)
    ensures
        r == (if present(fextnvm11) { Some(fextnvm11 | FEXTNVM11_DISABLE_MULR_FIX) } else { None::<u32> }),
{
    if fextnvm11 != 0xFFFF_FFFF {
        Some(fextnvm11 | FEXTNVM11_DISABLE_MULR_FIX)
    } else {
        None
    }
}

/// The transmit arbitration value written to both queues, when the
/// register exists: bits 28 and 29 replaced by `01`.
pub fn tarc_errata(tarc0: u32) -> (r: Option<u32>)
    ensures
        r == (if present(tarc0) { Some((tarc0 & 0xCFFF_FFFF) | 0x2000_0000) } else { None::<u32> }),
{
    if tarc0 != 0xFFFF_FFFF {
        Some((tarc0 & 0xCFFF_FFFF) | 0x2000_0000)
    } else {
        None
    }
}

/// The manageability value that lets the host see management traffic
/// (and stops the firmware answering ARP), when the register exists.
pub fn manc_forwarding(manc: u32) -> (r: Option<u32>)
    ensures
        r == (if present(manc) { Some((manc | MANC_EN_MNG2HOST) & !MANC_ARP_EN) } else { None::<u32> }),
{
    if manc != 0xFFFF_FFFF {
        Some((manc | MANC_EN_MNG2HOST) & !MANC_ARP_EN)
    } else {
        None
    }
}

/// Device control forcing the link up, without reset.
pub fn ctrl_link_up(ctrl: u32) -> (r: u32)
    ensures
        r == (ctrl & !CTRL_RST) | CTRL_SLU,
{
    (ctrl & !CTRL_RST) | CTRL_SLU
}

/// Receive descriptor control: thresholds cleared (write-back on every
/// packet), queue enabled.
pub fn rxdctl_enabled(rxdctl: u32) -> (r: u32)
    ensures
        r == (rxdctl & !DCTL_THRESHOLDS) | RXDCTL_ENABLE,
{
    (rxdctl & !DCTL_THRESHOLDS) | RXDCTL_ENABLE
}

/// Transmit descriptor control: thresholds set for prefetching, queue
/// enabled.
pub fn txdctl_enabled(txdctl: u32) -> (r: u32)
    ensures
        r == (txdctl & !DCTL_THRESHOLDS) | TXDCTL_DMA_BURST | TXDCTL_ENABLE,
{
    (txdctl & !DCTL_THRESHOLDS) | TXDCTL_DMA_BURST | TXDCTL_ENABLE
}

/// The inter-packet gap: the firmware's when it set one, else the default.
pub fn tipg_value(tipg_init: u32) -> (r: u32)
    ensures
        r == (if tipg_init != 0 && present(tipg_init) { tipg_init } else { TIPG_DEFAULT }),
{
    if tipg_init != 0 && tipg_init != 0xFFFF_FFFF {
        tipg_init
    } else {
        TIPG_DEFAULT
    }
}

/// Transmit control: the firmware's setting, enabled and padding, when it
/// set one, else the default.
pub fn tctl_value(tctl_init: u32) -> (r: u32)
    ensures
        r == (if tctl_init != 0 && present(tctl_init) { tctl_init | TCTL_EN_PSP } else { TCTL_DEFAULT }),
{
    if tctl_init != 0 && tctl_init != 0xFFFF_FFFF {
        tctl_init | TCTL_EN_PSP
    } else {
        TCTL_DEFAULT
    }
}

/// Pages holding a ring of `n` descriptors.
pub fn ring_pages(n: usize) -> (r: usize)
    requires
        n * DESC_BYTES + 4095 <= usize::MAX,
    ensures
        r == (n * DESC_BYTES + 4095) / 4096,
{
    (n * DESC_BYTES + 4095) / 4096
}

/// The high and low halves of a ring's physical address, as its base
/// registers take them.
pub fn ring_base(phys: u64) -> (r: (u32, u32))
    ensures
        r.0 == (phys >> 32u64) as u32,
        r.1 == (phys & 0xFFFF_FFFFu64) as u32,
{
    ((phys >> 32u64) as u32, (phys & 0xFFFF_FFFFu64) as u32)
}

/// Packet buffers for a ring: two per page, the second half a page on.
pub fn ring_buffers(pages: &Vec<u64>) -> (r: Vec<u64>)
    requires
        forall|i: int| 0 <= i < pages@.len() ==> #[trigger] pages@[i] + BUFFER_SIZE <= u64::MAX,
        2 * pages@.len() <= usize::MAX,
    ensures
        r@.len() == 2 * pages@.len(),
        forall|i: int| 0 <= i < pages@.len() ==> #[trigger] r@[2 * i] == pages@[i] && r@[2 * i + 1] == pages@[i] + BUFFER_SIZE,
{
    let mut out: Vec<u64> = Vec::new();
    let mut i: usize = 0;
    while i < pages.len()
        invariant
            i <= pages@.len(),
            2 * pages@.len() <= usize::MAX,
            forall|k: int| 0 <= k < pages@.len() ==> #[trigger] pages@[k] + BUFFER_SIZE <= u64::MAX,
            out@.len() == 2 * i,
            forall|k: int| 0 <= k < i ==> #[trigger] out@[2 * k] == pages@[k] && out@[2 * k + 1] == pages@[k] + BUFFER_SIZE,
        decreases pages@.len() - i,
    {
        let p = pages[i];
        let ghost before = out@;
        out.push(p);
        out.push(p + BUFFER_SIZE as u64);
        proof {
            assert forall|k: int| 0 <= k < i + 1 implies #[trigger] out@[2 * k] == pages@[k] && out@[2 * k + 1]
                == pages@[k] + BUFFER_SIZE by {
                if k < i {
                    assert(out@[2 * k] == before[2 * k]);
                    assert(out@[2 * k + 1] == before[2 * k + 1]);
                }
            }
        }
        i = i + 1;
    }
    out
}

/// A receive ring over `bufs`: each descriptor empty and owned by the
/// hardware.
pub fn rx_ring(bufs: &Vec<u64>) -> (r: Vec<RxDesc>)
    ensures
        r@.len() == bufs@.len(),
        forall|i: int| 0 <= i < bufs@.len() ==> #[trigger] r@[i] == (RxDesc {
            buffer_addr: bufs@[i],
            length: 0,
            checksum: 0,
            status: 0,
            errors: 0,
            special: 0,
        }),
{
    let mut out: Vec<RxDesc> = Vec::new();
    let mut i: usize = 0;
    while i < bufs.len()
        invariant
            i <= bufs@.len(),
            out@.len() == i,
            forall|k: int| 0 <= k < i ==> #[trigger] out@[k] == (RxDesc {
                buffer_addr: bufs@[k],
                length: 0,
                checksum: 0,
                status: 0,
                errors: 0,
                special: 0,
            }),
        decreases bufs@.len() - i,
    {
        out.push(RxDesc { buffer_addr: bufs[i], length: 0, checksum: 0, status: 0, errors: 0, special: 0 });
        i = i + 1;
    }
    out
}

/// A transmit ring over `bufs`: each descriptor marked done, so free.
pub fn tx_ring(bufs: &Vec<u64>) -> (r: Vec<TxDesc>)
    ensures
        r@.len() == bufs@.len(),
        forall|i: int| 0 <= i < bufs@.len() ==> #[trigger] r@[i] == (TxDesc {
            buffer_addr: bufs@[i],
            length: 0,
            cso: 0,
            cmd: 0,
            status: 1,
            css: 0,
            special: 0,
        }),
{
    let mut out: Vec<TxDesc> = Vec::new();
    let mut i: usize = 0;
    while i < bufs.len()
        invariant
            i <= bufs@.len(),
            out@.len() == i,
            forall|k: int| 0 <= k < i ==> #[trigger] out@[k] == (TxDesc {
                buffer_addr: bufs@[k],
                length: 0,
                cso: 0,
                cmd: 0,
                status: 1,
                css: 0,
                special: 0,
            }),
        decreases bufs@.len() - i,
    {
        out.push(TxDesc { buffer_addr: bufs[i], length: 0, cso: 0, cmd: 0, status: 1, css: 0, special: 0 });
        i = i + 1;
    }
    out
}

} // verus!
