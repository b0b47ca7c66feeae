//! Little-endian integer decoding from byte buffers.

use vstd::prelude::*;

verus! {

/// The unsigned value of the `n` bytes of `s` starting at `lo`, read little-endian.
pub open spec fn le_value(s: Seq<u8>, lo: int, n: nat) -> nat
    decreases n,
{
    if n == 0 {
        0
    } else {
        (s[lo] as nat) + 256 * le_value(s, lo + 1, (n - 1) as nat)
    }
}

/// Reads a little-endian `u16` at byte offset `lo`.
pub fn le16(buf: &[u8], lo: usize) -> (r: u16)
    requires
        lo + 2 <= buf@.len(),
    ensures
        r as nat == le_value(buf@, lo as int, 2),
{
    proof {
        reveal_with_fuel(le_value, 3);
    }
    (buf[lo] as u16) + 256 * (buf[lo + 1] as u16)
}

/// Reads a little-endian `u32` at byte offset `lo`.
pub fn le32(buf: &[u8], lo: usize) -> (r: u32)
    requires
        lo + 4 <= buf@.len(),
    ensures
        r as nat == le_value(buf@, lo as int, 4),
{
    proof {
        reveal_with_fuel(le_value, 5);
    }
    let b0 = buf[lo] as u32;
    let b1 = buf[lo + 1] as u32;
    let b2 = buf[lo + 2] as u32;
    let b3 = buf[lo + 3] as u32;
    b0 + 256 * (b1 + 256 * (b2 + 256 * b3))
}

/// Reads a little-endian `u64` at byte offset `lo`.
pub fn le64(buf: &[u8], lo: usize) -> (r: u64)
    requires
        lo + 8 <= buf@.len(),
    ensures
        r as nat == le_value(buf@, lo as int, 8),
{
    proof {
        reveal_with_fuel(le_value, 9);
    }
    let _len = buf.len();
    let lo_half = le32(buf, lo) as u64;
    let hi_half = le32(buf, lo + 4) as u64;
    proof {
        lemma_le_split(buf@, lo as int, 4, 4);
    }
    lo_half + 4294967296 * hi_half
}

/// Reads a `u64` whose low 32 bits are little-endian at `lo` and whose high
/// 32 bits are little-endian at `hi` (the split layout ext4 uses).
pub fn le64_32_32(buf: &[u8], lo: usize, hi: usize) -> (r: u64)
    requires
        lo + 4 <= buf@.len(),
        hi + 4 <= buf@.len(),
    ensures
        r as nat == le_value(buf@, lo as int, 4) + 4294967296 * le_value(buf@, hi as int, 4),
{
    let l = le32(buf, lo) as u64;
    let h = le32(buf, hi) as u64;
    l + 4294967296 * h
}

/// Splitting a little-endian field: the first `a` bytes are the low part.
pub proof fn lemma_le_split(s: Seq<u8>, lo: int, a: nat, b: nat)
    ensures
        le_value(s, lo, a + b) == le_value(s, lo, a) + pow256(a) * le_value(s, lo + a, b),
    decreases a,
{
    if a == 0 {
    } else {
        lemma_le_split(s, lo + 1, (a - 1) as nat, b);
        assert((a - 1 + b) as nat == (a + b - 1) as nat);
        assert(pow256(a) == 256 * pow256((a - 1) as nat));
        assert(le_value(s, lo, a + b) == (s[lo] as nat) + 256 * le_value(s, lo + 1, (a + b - 1) as nat));
        assert(256 * (le_value(s, lo + 1, (a - 1) as nat) + pow256((a - 1) as nat) * le_value(s, lo + 1 + (a - 1), b))
            == 256 * le_value(s, lo + 1, (a - 1) as nat) + (256 * pow256((a - 1) as nat)) * le_value(s, lo + a, b)) by (nonlinear_arith);
    }
}

/// `256` raised to the power `n`.
pub open spec fn pow256(n: nat) -> nat
    decreases n,
{
    if n == 0 {
        1
    } else {
        256 * pow256((n - 1) as nat)
    }
}

/// Every `n`-byte little-endian value is below `256^n`.
pub proof fn lemma_le_bound(s: Seq<u8>, lo: int, n: nat)
    ensures
        le_value(s, lo, n) < pow256(n),
    decreases n,
{
    if n > 0 {
        lemma_le_bound(s, lo + 1, (n - 1) as nat);
        let r = le_value(s, lo + 1, (n - 1) as nat);
        let p = pow256((n - 1) as nat);
        assert((s[lo] as nat) + 256 * r < 256 * p) by (nonlinear_arith)
            requires r < p, (s[lo] as nat) < 256;
    }
}

} // verus!
