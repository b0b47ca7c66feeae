//! Interrupt descriptor table entries and the local APIC base.

use vstd::prelude::*;
use vstd::string::StringSliceAdditionalSpecFns;
use vstd::utf8::encode_utf8;

verus! {

/// One 64-bit interrupt gate descriptor.
#[derive(Copy, Clone, Debug, PartialEq, Eq)]
pub struct IdtEntry {
    pub offset_low: u16,
    pub selector: u16,
    pub ist: u8,
    pub type_attr: u8,
    pub offset_mid: u16,
    pub offset_high: u32,
    pub zero: u32,
}

/// The handler address an entry points to.
pub open spec fn handler_address(e: IdtEntry) -> u64 {
    (e.offset_low as u64) | ((e.offset_mid as u64) << 16u64) | ((e.offset_high as u64) << 32u64)
}

impl IdtEntry {
    /// A non-present entry with every field zero.
    pub fn empty() -> (r: Self)
        ensures
            r == (IdtEntry { offset_low: 0, selector: 0, ist: 0, type_attr: 0, offset_mid: 0, offset_high: 0, zero: 0 }),
    {
        IdtEntry { offset_low: 0, selector: 0, ist: 0, type_attr: 0, offset_mid: 0, offset_high: 0, zero: 0 }
    }

    /// Points the entry at the handler at address `addr`: a present, ring-0,
    /// 64-bit interrupt gate in the kernel code segment.
    pub fn set_handler(&mut self, addr: u64)
        ensures
            final(self).offset_low == addr as u16,
            final(self).offset_mid == (addr >> 16u64) as u16,
            final(self).offset_high == (addr >> 32u64) as u32,
            final(self).selector == 0x08,
            final(self).ist == 0,
            final(self).type_attr == 0x8E,
            final(self).zero == 0,
            handler_address(*final(self)) == addr,
    {
        self.offset_low = addr as u16;
        self.selector = 0x08;
        self.ist = 0;
        self.type_attr = 0x8E;
        self.offset_mid = (addr >> 16) as u16;
        self.offset_high = (addr >> 32) as u32;
        self.zero = 0;
        proof {
            let lo = addr as u16;
            let mid = (addr >> 16u64) as u16;
            let hi = (addr >> 32u64) as u32;
            assert(((addr as u16) as u64) | ((((addr >> 16u64) as u16) as u64) << 16u64) | ((((addr >> 32u64) as u32) as u64)
                << 32u64) == addr) by (bit_vector);
        }
    }
}

/// The APIC base address from the `IA32_APIC_BASE` MSR value, falling back to
/// the architectural default when the MSR holds no base.
pub fn apic_base_from_msr(apic_msr: u64) -> (r: u64)
    ensures
        r == (if apic_msr & 0xFFFF_F000u64 == 0 { 0xFEE00000u64 } else { apic_msr & 0xFFFF_F000u64 }),
{
    let base = apic_msr & 0xFFFF_F000;
    if base == 0 {
        0xFEE00000
    } else {
        base
    }
}

/// The MSR value that enables the APIC globally (bit 11), or `None` when it
/// is already enabled and nothing needs writing.
pub fn apic_enable_msr(apic_msr: u64) -> (r: Option<u64>)
    ensures
        r == (if apic_msr & 0x800u64 == 0 { Some(apic_msr | 0x800u64) } else { None::<u64> }),
{
    if (apic_msr & 0x800) == 0 {
        Some(apic_msr | 0x800)
    } else {
        None
    }
}

/// The local APIC's register base.
pub struct Apic {
    base: u64,
}

impl Apic {
    /// An APIC at the base the MSR names.
    pub fn new(apic_msr: u64) -> (r: Apic)
        ensures
            r.get_apic_base_spec() == (if apic_msr & 0xFFFF_F000u64 == 0 { 0xFEE00000u64 } else { apic_msr & 0xFFFF_F000u64 }),
    {
        Apic { base: apic_base_from_msr(apic_msr) }
    }

    /// Spec view of the base.
    pub closed spec fn get_apic_base_spec(&self) -> u64 {
        self.base
    }

    /// The APIC register base address.
    pub fn get_apic_base(&self) -> (r: u64)
        ensures
            r == self.get_apic_base_spec(),
    {
        self.base
    }
}

/// The name of CPU exception `vector`.
pub open spec fn spec_exception_name(vector: u64) -> Seq<char> {
    if vector == 0 {
        "Division by Zero (#DE)"@
    } else if vector == 1 {
        "Debug (#DB)"@
    } else if vector == 2 {
        "Non-Maskable Interrupt (#NMI)"@
    } else if vector == 3 {
        "Breakpoint (#BP)"@
    } else if vector == 4 {
        "Overflow (#OF)"@
    } else if vector == 5 {
        "Bound Range Exceeded (#BR)"@
    } else if vector == 6 {
        "Invalid Opcode (#UD)"@
    } else if vector == 7 {
        "Device Not Available (#NM)"@
    } else if vector == 8 {
        "Double Fault (#DF)"@
    } else if vector == 10 {
        "Invalid TSS (#TS)"@
    } else if vector == 11 {
        "Segment Not Present (#NP)"@
    } else if vector == 12 {
        "Stack-Segment Fault (#SS)"@
    } else if vector == 13 {
        "General Protection Fault (#GP)"@
    } else if vector == 14 {
        "Page Fault (#PF)"@
    } else if vector == 16 {
        "x87 Floating-Point Exception (#MF)"@
    } else if vector == 17 {
        "Alignment Check (#AC)"@
    } else if vector == 18 {
        "Machine Check (#MC)"@
    } else if vector == 19 {
        "SIMD Floating-Point Exception (#XM)"@
    } else {
        "Unknown CPU Exception"@
    }
}

/// The name shown for CPU exception `vector`.
pub fn exception_name(vector: u64) -> (r: &'static str)
    ensures
        r@ == spec_exception_name(vector),
{
    if vector == 0 {
        "Division by Zero (#DE)"
    } else if vector == 1 {
        "Debug (#DB)"
    } else if vector == 2 {
        "Non-Maskable Interrupt (#NMI)"
    } else if vector == 3 {
        "Breakpoint (#BP)"
    } else if vector == 4 {
        "Overflow (#OF)"
    } else if vector == 5 {
        "Bound Range Exceeded (#BR)"
    } else if vector == 6 {
        "Invalid Opcode (#UD)"
    } else if vector == 7 {
        "Device Not Available (#NM)"
    } else if vector == 8 {
        "Double Fault (#DF)"
    } else if vector == 10 {
        "Invalid TSS (#TS)"
    } else if vector == 11 {
        "Segment Not Present (#NP)"
    } else if vector == 12 {
        "Stack-Segment Fault (#SS)"
    } else if vector == 13 {
        "General Protection Fault (#GP)"
    } else if vector == 14 {
        "Page Fault (#PF)"
    } else if vector == 16 {
        "x87 Floating-Point Exception (#MF)"
    } else if vector == 17 {
        "Alignment Check (#AC)"
    } else if vector == 18 {
        "Machine Check (#MC)"
    } else if vector == 19 {
        "SIMD Floating-Point Exception (#XM)"
    } else {
        "Unknown CPU Exception"
    }
}

/// Whether the fault report of exception `vector` includes the faulting
/// address (`CR2`): only for page faults.
pub fn reports_fault_address(vector: u64) -> (r: bool)
    ensures
        r == (vector == 14),
{
    vector == 14
}

/// The ASCII digit for `d` in base 16, upper case.
pub open spec fn digit_char(d: int) -> u8 {
    if d < 10 {
        (48 + d) as u8
    } else {
        (55 + d) as u8
    }
}

/// The digits of `v` in `base` (2 to 16), most significant first, without
/// leading zeros (`0` for zero).
pub open spec fn digits(v: nat, base: nat) -> Seq<u8>
    decreases v,
{
    if base < 2 || v < base {
        seq![digit_char(v as int)]
    } else {
        proof {
            vstd::arithmetic::div_mod::lemma_div_decreases(v as int, base as int);
        }
        digits(v / base, base).push(digit_char((v % base) as int))
    }
}

/// `s` preceded by enough zeros to be at least `width` long.
pub open spec fn zero_padded(s: Seq<u8>, width: nat) -> Seq<u8> {
    if s.len() < width {
        Seq::new((width - s.len()) as nat, |i: int| 48u8) + s
    } else {
        s
    }
}

/// Appends the digits of `v` in `base` to `out`.
fn push_digits(out: &mut Vec<u8>, v: u64, base: u64)
    requires
        2 <= base <= 16,
    ensures
        final(out)@ == old(out)@ + digits(v as nat, base as nat),
    decreases v,
{
    if v >= base {
        proof {
            vstd::arithmetic::div_mod::lemma_div_decreases(v as int, base as int);
        }
        push_digits(out, v / base, base);
    }
    let d = v % base;
    let c: u8 = if d < 10 { 48u8 + d as u8 } else { 55u8 + d as u8 };
    out.push(c);
    proof {
        assert(digit_char((v % base) as int) == c);
        if v < base {
            vstd::arithmetic::div_mod::lemma_small_mod(v as nat, base as nat);
        }
    }
}

/// Appends `bytes` to `out`.
fn push_bytes(out: &mut Vec<u8>, bytes: &[u8])
    ensures
        final(out)@ == old(out)@ + bytes@,
{
    let mut i: usize = 0;
    while i < bytes.len()
        invariant
            i <= bytes@.len(),
            out@ == old(out)@ + bytes@.subrange(0, i as int),
        decreases bytes@.len() - i,
    {
        out.push(bytes[i]);
        proof {
            assert(bytes@.subrange(0, i as int + 1) =~= bytes@.subrange(0, i as int).push(bytes@[i as int]));
        }
        i = i + 1;
    }
    proof {
        assert(bytes@.subrange(0, bytes@.len() as int) =~= bytes@);
    }
}

/// Appends `v` in upper-case hexadecimal, zero-padded to `width` digits.
fn push_hex(out: &mut Vec<u8>, v: u64, width: usize)
    ensures
        final(out)@ == old(out)@ + zero_padded(digits(v as nat, 16), width as nat),
{
    let mut tmp: Vec<u8> = Vec::new();
    push_digits(&mut tmp, v, 16);
    assert(tmp@ =~= digits(v as nat, 16));
    let mut padded: Vec<u8> = Vec::new();
    if tmp.len() < width {
        let mut k: usize = 0;
        while k < width - tmp.len()
            invariant
                k <= width - tmp@.len(),
                tmp@.len() < width,
                padded@ == Seq::new(k as nat, |i: int| 48u8),
            decreases width - tmp@.len() - k,
        {
            padded.push(48u8);
            proof {
                assert(padded@ =~= Seq::new((k + 1) as nat, |i: int| 48u8));
            }
            k = k + 1;
        }
    }
    push_bytes(&mut padded, tmp.as_slice());
    push_bytes(out, padded.as_slice());
    proof {
        assert(padded@ =~= zero_padded(digits(v as nat, 16), width as nat));
    }
}

/// The message a CPU exception is reported with: its vector in decimal,
/// its name, the error code in hexadecimal and the faulting instruction's
/// address in 16 hexadecimal digits, then for a page fault the faulting
/// address (`cr2`) the same way.
pub open spec fn spec_exception_message(vector: u64, error_code: u64, rip: u64, cr2: u64) -> Seq<u8> {
    let head = "CPU Exception ".spec_bytes() + digits(vector as nat, 10) + " (".spec_bytes() + encode_utf8(
        spec_exception_name(vector),
    ) + "), error code: 0x".spec_bytes() + digits(error_code as nat, 16) + ", RIP: 0x".spec_bytes()
        + zero_padded(digits(rip as nat, 16), 16);
    if vector == 14 {
        head + ", CR2: 0x".spec_bytes() + zero_padded(digits(cr2 as nat, 16), 16)
    } else {
        head
    }
}

/// Builds the report of CPU exception `vector`; `cr2` is read only for a
/// page fault.
pub fn exception_message(vector: u64, error_code: u64, rip: u64, cr2: u64) -> (r: Vec<u8>)
    ensures
        r@ == spec_exception_message(vector, error_code, rip, cr2),
{
    let mut out: Vec<u8> = Vec::new();
    push_bytes(&mut out, "CPU Exception ".as_bytes());
    push_digits(&mut out, vector, 10);
    push_bytes(&mut out, " (".as_bytes());
    push_bytes(&mut out, exception_name(vector).as_bytes());
    push_bytes(&mut out, "), error code: 0x".as_bytes());
    push_digits(&mut out, error_code, 16);
    push_bytes(&mut out, ", RIP: 0x".as_bytes());
    push_hex(&mut out, rip, 16);
    if reports_fault_address(vector) {
        push_bytes(&mut out, ", CR2: 0x".as_bytes());
        push_hex(&mut out, cr2, 16);
    }
    proof {
        assert(out@ =~= spec_exception_message(vector, error_code, rip, cr2));
    }
    out
}

/// Law: the local APIC base taken from the MSR is a non-zero address
/// aligned to a 4 KiB page.
pub proof fn lemma_apic_base_aligned(apic_msr: u64)
    ensures
        ({
            let base = if apic_msr & 0xFFFF_F000u64 == 0 { 0xFEE00000u64 } else { apic_msr & 0xFFFF_F000u64 };
            base != 0 && base % 4096 == 0
        }),
{
    assert((apic_msr & 0xFFFF_F000u64) % 4096 == 0) by (bit_vector);
}

} // verus!
