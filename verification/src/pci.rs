//! PCI configuration space: addresses, sub-word access within a dword,
//! base address register decoding and the bus scan's decisions.

use vstd::prelude::*;

verus! {

/// A PCI function found by the bus scan.
#[derive(Debug, Clone, Copy, PartialEq, Eq)]
pub struct PciDevice {
    pub bus: u8,
    pub dev: u8,
    pub func: u8,
    pub vendor_id: u16,
    pub device_id: u16,
    pub class_code: u8,
    pub subclass: u8,
    pub prog_if: u8,
}

/// A decoded base address register.
#[derive(Debug, Clone, Copy, PartialEq, Eq)]
pub enum Bar {
    Memory { base: u64, size: usize, is_64bit: bool },
    Io { port: u16 },
}

/// The value written to the configuration address port to reach `offset`
/// of function `func` of device `dev` on bus `bus` (the offset is dword-aligned).
pub open spec fn spec_config_address(bus: u8, dev: u8, func: u8, offset: u8) -> u32 {
    0x8000_0000u32 | ((bus as u32) << 16u32) | ((dev as u32) << 11u32) | ((func as u32) << 8u32) | ((offset as u32)
        & 0xFCu32)
}

/// The configuration address for a register.
pub fn config_address(bus: u8, dev: u8, func: u8, offset: u8) -> (r: u32)
    ensures
        r == spec_config_address(bus, dev, func, offset),
{
    0x8000_0000u32 | ((bus as u32) << 16) | ((dev as u32) << 11) | ((func as u32) << 8) | ((offset as u32) & 0xFC)
}

/// Shift of the 16-bit half that `offset` selects within its dword.
pub open spec fn half_shift(offset: u8) -> u32 {
    (((offset & 2u8) as u32) * 8) as u32
}

/// The 16-bit register at `offset`, taken from the dword `dword` that
/// contains it.
pub fn pci_read_u16(dword: u32, offset: u8) -> (r: u16)
    ensures
        r == ((dword >> half_shift(offset)) & 0xFFFFu32) as u16,
{
    proof {
        assert(offset & 2u8 <= 2) by (bit_vector);
    }
    let shift = ((offset & 2) as u32) * 8;
    proof {
        assert(((dword >> shift) & 0xFFFFu32) <= 0xFFFF) by (bit_vector);
    }
    ((dword >> shift) & 0xFFFF) as u16
}

/// The dword to write back so that the 16-bit register at `offset` becomes
/// `val` while the other half of `dword` is kept.
pub fn pci_write_u16(dword: u32, offset: u8, val: u16) -> (r: u32)
    ensures
        r == (dword & !(0xFFFFu32 << half_shift(offset))) | ((val as u32) << half_shift(offset)),
{
    proof {
        assert(offset & 2u8 <= 2) by (bit_vector);
    }
    let shift = ((offset & 2) as u32) * 8;
    (dword & !(0xFFFFu32 << shift)) | ((val as u32) << shift)
}

/// The 8-bit register at `offset`, taken from its dword.
pub fn pci_read_u8(dword: u32, offset: u8) -> (r: u8)
    ensures
        r == ((dword >> (((offset & 3u8) as u32) * 8)) & 0xFFu32) as u8,
{
    proof {
        assert(offset & 3u8 <= 3) by (bit_vector);
    }
    let shift = ((offset & 3) as u32) * 8;
    proof {
        assert(((dword >> shift) & 0xFFu32) <= 0xFF) by (bit_vector);
    }
    ((dword >> shift) & 0xFF) as u8
}

/// Writing a 16-bit register and reading it back gives the value written,
/// and the other half of the dword is untouched.
pub proof fn write_then_read_u16(dword: u32, offset: u8, val: u16)
    ensures
        ((((dword & !(0xFFFFu32 << half_shift(offset))) | ((val as u32) << half_shift(offset))) >> half_shift(offset))
            & 0xFFFFu32) as u16 == val,
        ((((dword & !(0xFFFFu32 << half_shift(offset))) | ((val as u32) << half_shift(offset))) >> half_shift(
            offset ^ 2u8,
        )) & 0xFFFFu32) == ((dword >> half_shift(offset ^ 2u8)) & 0xFFFFu32),
{
    let s = half_shift(offset);
    let t = half_shift(offset ^ 2u8);
    assert((offset & 2u8 == 0u8 && (offset ^ 2u8) & 2u8 == 2u8) || (offset & 2u8 == 2u8 && (offset ^ 2u8) & 2u8
        == 0u8)) by (bit_vector);
    let v = val as u32;
    assert(v <= 0xFFFF);
    assert(s == 0 || s == 16);
    assert(t == 0 || t == 16);
    assert(s != t);
    assert(forall|d: u32, v: u32, s: u32|
        v <= 0xFFFF && (s == 0 || s == 16) ==> ((((d & !(0xFFFFu32 << s)) | (v << s)) >> s) & 0xFFFFu32) == v)
        by (bit_vector);
    assert(forall|d: u32, v: u32, s: u32, t: u32|
        v <= 0xFFFF && (s == 0 || s == 16) && (t == 0 || t == 16) && s != t ==> ((((d & !(0xFFFFu32 << s)) | (v
            << s)) >> t) & 0xFFFFu32) == ((d >> t) & 0xFFFFu32)) by (bit_vector);
}

impl PciDevice {
    /// The configuration address of register `offset` of this function.
    pub fn config_address(&self, offset: u8) -> (r: u32)
        ensures
            r == spec_config_address(self.bus, self.dev, self.func, offset),
    {
        config_address(self.bus, self.dev, self.func, offset)
    }

    /// The command register value that enables I/O space, memory space and
    /// bus mastering, given the current value `cmd`.
    pub fn enable_bus_mastering(&self, cmd: u16) -> (r: u16)
        ensures
            r == cmd | 0x0007u16,
    {
        cmd | 0x0007
    }

    /// The configuration offset of base address register `bar_idx`, or `None`
    /// for an index past the sixth.
    pub fn bar_offset(&self, bar_idx: u8) -> (r: Option<u8>)
        ensures
            r == (if bar_idx > 5 { None } else { Some((0x10 + bar_idx * 4) as u8) }),
    {
        if bar_idx > 5 {
            None
        } else {
            Some(0x10 + bar_idx * 4)
        }
    }

    /// Decodes base address register `bar_idx` from its value `orig` and, for
    /// a 64-bit memory BAR, the following register's value `orig_high`
    /// (ignored otherwise). The size is not probed and reads as zero.
    pub fn read_bar(&self, bar_idx: u8, orig: u32, orig_high: u32) -> (r: Option<Bar>)
        ensures
            r == spec_read_bar(bar_idx, orig, orig_high),
    {
        if bar_idx > 5 {
            return None;
        }
        if (orig & 1) != 0 {
            let port = (orig & 0xFFFC) as u16;
            return Some(Bar::Io { port });
        }
        let is_64bit = ((orig >> 1) & 0x03) == 0x02;
        let base = if is_64bit {
            if bar_idx >= 5 {
                return None;
            }
            ((orig_high as u64) << 32) | ((orig as u64) & 0xFFFF_FFF0)
        } else {
            (orig as u64) & 0xFFFF_FFF0
        };
        Some(Bar::Memory { base, size: 0, is_64bit })
    }
}

/// Whether a BAR value describes a 64-bit memory BAR (which spans two registers).
pub open spec fn spec_bar_is_64bit(orig: u32) -> bool {
    (orig & 1u32) == 0 && ((orig >> 1u32) & 0x03u32) == 0x02
}

/// The decoded BAR.
pub open spec fn spec_read_bar(bar_idx: u8, orig: u32, orig_high: u32) -> Option<Bar> {
    if bar_idx > 5 {
        None
    } else if (orig & 1u32) != 0 {
        Some(Bar::Io { port: (orig & 0xFFFCu32) as u16 })
    } else if ((orig >> 1u32) & 0x03u32) == 0x02 {
        if bar_idx >= 5 {
            None
        } else {
            Some(
                Bar::Memory {
                    base: ((orig_high as u64) << 32u64) | ((orig as u64) & 0xFFFF_FFF0u64),
                    size: 0,
                    is_64bit: true,
                },
            )
        }
    } else {
        Some(Bar::Memory { base: (orig as u64) & 0xFFFF_FFF0u64, size: 0, is_64bit: false })
    }
}

/// Whether the BAR value needs the next register to complete its base.
pub fn bar_is_64bit(orig: u32) -> (r: bool)
    ensures
        r == spec_bar_is_64bit(orig),
{
    (orig & 1) == 0 && ((orig >> 1) & 0x03) == 0x02
}

/// Whether a vendor id read from a slot means a function is present there.
pub fn function_present(vendor_id: u16) -> (r: bool)
    ensures
        r == (vendor_id != 0xFFFF),
{
    vendor_id != 0xFFFF
}

/// How many functions of a present device the scan probes: all eight for a
/// multi-function device (header type bit 7), else only function 0.
pub fn functions_to_scan(header_type: u8) -> (r: u8)
    ensures
        r == (if (header_type & 0x80u8) != 0 { 8u8 } else { 1u8 }),
{
    if (header_type & 0x80) != 0 {
        8
    } else {
        1
    }
}

/// The configuration registers read for one present function.
#[derive(Debug, Clone, Copy)]
pub struct FunctionRegs {
    pub vendor_id: u16,
    pub device_id: u16,
    pub class_code: u8,
    pub subclass: u8,
    pub prog_if: u8,
}

/// Number of function slots: 256 buses of 32 devices of 8 functions.
pub const FUNCTION_SLOTS: usize = 65536;
/// Number of device slots: 256 buses of 32 devices.
pub const DEVICE_SLOTS: usize = 8192;

/// Whether the scan reports function slot `k` (bus `k / 256`, device
/// `(k / 8) % 32`, function `k % 8`): its device answers at function 0,
/// the function itself answers, and a function other than 0 is only
/// looked at when the device's header type marks it multi-function.
pub open spec fn slot_scanned(regs: Seq<FunctionRegs>, header_types: Seq<u8>, k: int) -> bool {
    &&& regs[(k / 8) * 8].vendor_id != 0xFFFF
    &&& regs[k].vendor_id != 0xFFFF
    &&& (k % 8 == 0 || (header_types[k / 8] & 0x80u8) != 0)
}

/// The device reported for function slot `k`.
pub open spec fn slot_device(regs: Seq<FunctionRegs>, k: int) -> PciDevice {
    PciDevice {
        bus: (k / 256) as u8,
        dev: ((k / 8) % 32) as u8,
        func: (k % 8) as u8,
        vendor_id: regs[k].vendor_id,
        device_id: regs[k].device_id,
        class_code: regs[k].class_code,
        subclass: regs[k].subclass,
        prog_if: regs[k].prog_if,
    }
}

/// The devices the scan reports among the first `k` function slots, in
/// slot order (bus, then device, then function).
pub open spec fn scan_upto(regs: Seq<FunctionRegs>, header_types: Seq<u8>, k: int) -> Seq<PciDevice>
    decreases k,
{
    if k <= 0 {
        Seq::empty()
    } else if slot_scanned(regs, header_types, k - 1) {
        scan_upto(regs, header_types, k - 1).push(slot_device(regs, k - 1))
    } else {
        scan_upto(regs, header_types, k - 1)
    }
}

/// The bus scan over what the configuration space reads give:
/// `regs[k]` holds the vendor id (offset 0x00), device id (0x02), class
/// (0x0B), subclass (0x0A) and programming interface (0x09) of function
/// slot `k`, and `header_types[d]` the header type (offset 0x0E) of
/// function 0 of device slot `d`. One device per function that
/// `slot_scanned` admits, in increasing (bus, device, function) order.
pub fn scan_pci(regs: &Vec<FunctionRegs>, header_types: &Vec<u8>) -> (r: Vec<PciDevice>)
    requires
        regs@.len() == FUNCTION_SLOTS,
        header_types@.len() == DEVICE_SLOTS,
    ensures
        r@ == scan_upto(regs@, header_types@, FUNCTION_SLOTS as int),
{
    let mut devices: Vec<PciDevice> = Vec::new();
    let mut k: usize = 0;
    while k < FUNCTION_SLOTS
        invariant
            k <= FUNCTION_SLOTS,
            regs@.len() == FUNCTION_SLOTS,
            header_types@.len() == DEVICE_SLOTS,
            devices@ == scan_upto(regs@, header_types@, k as int),
        decreases FUNCTION_SLOTS - k,
    {
        let d = k / 8;
        let f = k % 8;
        let first = regs[d * 8];
        let here = regs[k];
        if first.vendor_id != 0xFFFF && here.vendor_id != 0xFFFF && (f == 0 || (header_types[d] & 0x80u8) != 0) {
            devices.push(
                PciDevice {
                    bus: (k / 256) as u8,
                    dev: (d % 32) as u8,
                    func: f as u8,
                    vendor_id: here.vendor_id,
                    device_id: here.device_id,
                    class_code: here.class_code,
                    subclass: here.subclass,
                    prog_if: here.prog_if,
                },
            );
        }
        k = k + 1;
    }
    devices
}

/// Law: enabling bus mastering sets the I/O space, memory space and bus
/// master bits (bits 0 to 2) of the command register and keeps every other
/// bit as it was.
pub proof fn lemma_bus_mastering_bits(cmd: u16)
    ensures
        (cmd | 0x0007u16) & 0x0007u16 == 0x0007u16,
        (cmd | 0x0007u16) & !0x0007u16 == cmd & !0x0007u16,
{
    assert((cmd | 0x0007u16) & 0x0007u16 == 0x0007u16 && (cmd | 0x0007u16) & !0x0007u16 == cmd & !0x0007u16)
        by (bit_vector);
}

} // verus!
