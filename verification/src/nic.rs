//! The network interface the stack uses: one of the supported NIC drivers
//! behind one type, the choice of interface at start-up, and the small
//! policies of the polling loop.

use vstd::prelude::*;
use crate::e1000::{E1000Device, NUM_TX_DESC};
use crate::rtl8169::Rtl8169Device;

verus! {

/// Largest Ethernet frame handled.
pub const ETH_PACKET_SIZE: usize = 1514;

/// A NIC of one of the supported families.
pub enum KernelNic {
    E1000(E1000Device),
    Rtl8169(Rtl8169Device),
}

/// The link registers of a NIC as read by the caller: the e1000 device
/// status, and the RTL8169 PHY and media status.
#[derive(Clone, Copy, Debug)]
pub struct LinkRegisters {
    pub status: u32,
    pub phy_status: u8,
    pub media_status: u8,
}

impl KernelNic {
    /// Rings of the driver inside.
    pub open spec fn wf(&self) -> bool {
        match self {
            KernelNic::E1000(d) => d.wf(),
            KernelNic::Rtl8169(d) => d.wf(),
        }
    }

    /// The MAC address of the NIC.
    pub fn mac_address(&self) -> (r: [u8; 6])
        ensures
            r == (match self {
                KernelNic::E1000(d) => d.mac,
                KernelNic::Rtl8169(d) => d.mac,
            }),
    {
        match self {
            KernelNic::E1000(d) => d.mac_address(),
            KernelNic::Rtl8169(d) => d.mac_address(),
        }
    }

    /// Whether the link is up, by the rule of the NIC's family.
    pub fn is_link_up(&self, regs: &LinkRegisters) -> (r: bool)
        ensures
            r == (match self {
                KernelNic::E1000(_) => (regs.status & 2) != 0,
                KernelNic::Rtl8169(_) => (regs.phy_status & 0x02) != 0 || (regs.media_status & 0x04) == 0,
            }),
    {
        match self {
            KernelNic::E1000(_) => crate::e1000::link_up(regs.status),
            KernelNic::Rtl8169(d) => d.is_link_up(regs.phy_status, regs.media_status),
        }
    }

    /// Whether the current receive descriptor holds a packet, from its
    /// status byte (e1000) or first option word (RTL8169).
    pub fn has_packets(&self, rx_word: u32) -> (r: bool)
        ensures
            r == (match self {
                KernelNic::E1000(_) => (rx_word & 1) != 0,
                KernelNic::Rtl8169(_) => (rx_word & 0x8000_0000) == 0,
            }),
    {
        match self {
            KernelNic::E1000(d) => {
                proof {
                    assert(((rx_word & 0xFF) as u8 & 1 != 0) == (rx_word & 1 != 0)) by (bit_vector);
                }
                d.has_packets((rx_word & 0xFF) as u8)
            },
            KernelNic::Rtl8169(d) => d.has_packets(rx_word),
        }
    }

    /// Whether a packet can be queued: for the e1000, after freeing the
    /// descriptors whose done bit is set, whether a slot is free; the
    /// RTL8169 waits for its descriptor when sending instead.
    pub fn can_transmit(&mut self, done: &[bool]) -> (r: bool)
        requires
            old(self).wf(),
            done@.len() == NUM_TX_DESC,
        ensures
            final(self).wf(),
            *old(self) is Rtl8169 ==> r && *final(self) == *old(self),
            *old(self) is E1000 ==> *final(self) is E1000 && r == (((*final(self))->E1000_0.tx_cur + 1) % (
            NUM_TX_DESC as int) != (*final(self))->E1000_0.tx_clean),
    {
        match self {
            KernelNic::E1000(d) => d.can_transmit(done),
            KernelNic::Rtl8169(_) => true,
        }
    }
}

/// The NIC the stack drives, with its frame buffers.
pub struct KernelNicDevice {
    pub nic: KernelNic,
    pub tx_buf: Vec<u8>,
    pub rx_buf: Vec<u8>,
}

impl KernelNicDevice {
    /// Wraps `nic` with zeroed buffers for one frame out and one frame
    /// (with its CRC) in.
    pub fn new(nic: KernelNic) -> (r: KernelNicDevice)
        ensures
            r.nic == nic,
            r.tx_buf@ == Seq::new(ETH_PACKET_SIZE as nat, |i: int| 0u8),
            r.rx_buf@ == Seq::new((ETH_PACKET_SIZE + 4) as nat, |i: int| 0u8),
    {
        let mut tx_buf: Vec<u8> = Vec::new();
        let mut i: usize = 0;
        while i < ETH_PACKET_SIZE
            invariant
                i <= ETH_PACKET_SIZE,
                tx_buf@ =~= Seq::new(i as nat, |k: int| 0u8),
            decreases ETH_PACKET_SIZE - i,
        {
            tx_buf.push(0u8);
            i = i + 1;
        }
        let mut rx_buf: Vec<u8> = Vec::new();
        let mut i: usize = 0;
        while i < ETH_PACKET_SIZE + 4
            invariant
                i <= ETH_PACKET_SIZE + 4,
                rx_buf@ =~= Seq::new(i as nat, |k: int| 0u8),
            decreases ETH_PACKET_SIZE + 4 - i,
        {
            rx_buf.push(0u8);
            i = i + 1;
        }
        KernelNicDevice { nic, tx_buf, rx_buf }
    }
}

/// The interface to use after one round of link checks: the first whose
/// link is up, if any.
pub fn first_link_up(link_up: &Vec<bool>) -> (r: Option<usize>)
    ensures
        r matches Some(i) ==> i < link_up@.len() && link_up@[i as int] && forall|k: int| 0 <= k < i ==> !link_up@[k],
        r is None ==> forall|k: int| 0 <= k < link_up@.len() ==> !link_up@[k],
{
    let mut i: usize = 0;
    while i < link_up.len()
        invariant
            i <= link_up@.len(),
            forall|k: int| 0 <= k < i ==> !link_up@[k],
        decreases link_up@.len() - i,
    {
        if link_up[i] {
            return Some(i);
        }
        i = i + 1;
    }
    None
}

/// Number of rounds of link checks, 100 ms apart, before giving up.
pub const LINK_ROUNDS: usize = 50;

/// What to do after round `step` of link checks.
#[derive(Clone, Copy, Debug, PartialEq, Eq)]
pub enum LinkStep {
    /// Use this interface: the first whose link is up.
    Use(usize),
    /// No link yet: print the waiting notice first when `notice`, then wait
    /// 100 ms; after the wait of the `last` round, use interface 0.
    Wait { notice: bool, last: bool },
}

/// The decision after round `step` (from 0) of link checks, given which
/// interfaces reported their link up in that round.
pub fn link_step(step: usize, link_up: &Vec<bool>) -> (r: LinkStep)
    requires
        step < LINK_ROUNDS,
    ensures
        r matches LinkStep::Use(i) ==> i < link_up@.len() && link_up@[i as int] && forall|k: int| 0 <= k < i ==> !link_up@[k],
        r matches LinkStep::Wait { notice, last } ==> {
            &&& forall|k: int| 0 <= k < link_up@.len() ==> !link_up@[k]
            &&& notice == (step % 10 == 0)
            &&& last == (step + 1 == LINK_ROUNDS)
        },
{
    match first_link_up(link_up) {
        Some(i) => LinkStep::Use(i),
        None => LinkStep::Wait { notice: step % 10 == 0, last: step + 1 == LINK_ROUNDS },
    }
}

/// Lowest ephemeral port.
pub const EPHEMERAL_LOW: u64 = 49152;
/// End of the ephemeral range.
pub const EPHEMERAL_HIGH: u64 = 60999;

/// The ephemeral port handed out for the `counter`-th connection: the
/// ports `49152..60999` in turn.
pub fn ephemeral_port(counter: u64) -> (r: u16)
    ensures
        r == counter % 11847 + EPHEMERAL_LOW,
        EPHEMERAL_LOW <= r < EPHEMERAL_HIGH,
{
    ((counter % (EPHEMERAL_HIGH - EPHEMERAL_LOW)) + EPHEMERAL_LOW) as u16
}

/// The counter of connections opened; each one takes the next ephemeral
/// port.
pub struct PortCounter {
    pub next: u64,
}

impl PortCounter {
    /// A counter that starts at the lowest ephemeral port.
    pub fn new() -> (r: PortCounter)
        ensures
            r.next == 0,
    {
        PortCounter { next: 0 }
    }

    /// The port for the next connection: `ephemeral_port` of the counter,
    /// which then advances by one (wrapping at the end of `u64`).
    pub fn get_ephemeral_port(&mut self) -> (r: u16)
        ensures
            r == old(self).next % 11847 + EPHEMERAL_LOW,
            final(self).next == (if old(self).next == u64::MAX { 0 } else { old(self).next + 1 }),
    {
        let ans = self.next;
        self.next = if ans == u64::MAX { 0 } else { ans + 1 };
        ephemeral_port(ans)
    }
}

/// Law: the ports for `k` consecutive counter values, fewer than the size
/// of the ephemeral range and without the counter wrapping, are pairwise
/// distinct.
pub proof fn lemma_ports_distinct(c: int, i: int, j: int)
    requires
        0 <= c,
        0 <= i < j < 11847,
    ensures
        (c + i) % 11847 + EPHEMERAL_LOW != (c + j) % 11847 + EPHEMERAL_LOW,
{
    let a = c + i;
    let b = c + j;
    vstd::arithmetic::div_mod::lemma_fundamental_div_mod(a, 11847);
    vstd::arithmetic::div_mod::lemma_fundamental_div_mod(b, 11847);
    if a % 11847 == b % 11847 {
        let q1 = a / 11847;
        let q2 = b / 11847;
        assert((q2 - q1) * 11847 == b - a);
        assert(false) by (nonlinear_arith)
            requires
                (q2 - q1) * 11847 == b - a,
                0 < b - a < 11847,
        ;
    }
}

/// How long the polling task sleeps, in microseconds, given what a poll
/// returned (`None`: nothing scheduled).
pub fn poll_sleep_micros(wait: Option<u64>) -> (r: u64)
    ensures
        wait is None ==> r == 2000,
        wait == Some(0u64) ==> r == 100,
        wait is Some && 0 < wait->0 < 1000 ==> r == (if wait->0 > 100 { wait->0 } else { 100 }),
        wait is Some && wait->0 >= 1000 ==> r == (if wait->0 < 5000 { wait->0 } else { 5000 }),
{
    match wait {
        Some(0) => 100,
        Some(us) => {
            if us < 1000 {
                if us > 100 { us } else { 100 }
            } else if us < 5000 {
                us
            } else {
                5000
            }
        },
        None => 2000,
    }
}

/// What a poll tells the polling task: poll again at once when anything
/// moved, else the stack's delay capped at a millisecond (`None` when the
/// stack has nothing scheduled).
pub fn poll_result(ingress: usize, egress_sent: bool, has_packets: bool, delay: Option<u64>) -> (r: Option<u64>)
    ensures
        ingress > 0 || egress_sent || has_packets ==> r == Some(0u64),
        !(ingress > 0 || egress_sent || has_packets) ==> r == (match delay {
            Some(d) => Some(if d < 1000 { d } else { 1000u64 }),
            None => None,
        }),
{
    if ingress > 0 || egress_sent || has_packets {
        return Some(0);
    }
    match delay {
        Some(d) => Some(if d < 1000 { d } else { 1000 }),
        None => None,
    }
}

} // verus!
