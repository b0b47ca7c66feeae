//! Receiving a compressed chunk as UDP packets with one XOR parity packet per
//! group: the per-chunk reception state, its completion counters, and the
//! recovery of the one packet per group that may be missing.
//!
//! A chunk of `csize` compressed bytes travels as `n = ceil(csize / B)` data
//! packets of `B` bytes (the last one possibly short) and 32 parity packets.
//! Packet `p` carries index `p`; parity packet `g` carries index `g - 32`
//! (wrapping in 16 bits). In the receive buffer, packet index `i` lands at
//! slot `i + 32`, so the parity packets fill slots `0..32` and the data
//! packets slots `32..32 + n`. Slot `q` belongs to group `q % 32`; a group is
//! recoverable once all of its packets but one are in.

use vstd::prelude::*;
use vstd::arithmetic::div_mod::lemma_fundamental_div_mod;
use vstd::arithmetic::div_mod::lemma_fundamental_div_mod_converse;

verus! {

/// Number of data packets of a chunk of `csize` bytes.
pub open spec fn num_packets(csize: int, b: int) -> int {
    (csize + b - 1) / b
}

/// Number of data packets in group `g` when there are `n` data packets.
pub open spec fn group_size(n: int, g: int) -> int {
    (n + 31 - g) / 32
}

/// Number of slots `g, g + 32, g + 64, ...` below `len`.
pub open spec fn col_count(len: int, g: int) -> int {
    (len - g + 31) / 32
}

/// Received packets among the first `k` slots of group `g`.
pub open spec fn received_upto(missing: Seq<bool>, g: int, k: int) -> int
    decreases k,
{
    if k <= 0 {
        0
    } else {
        received_upto(missing, g, k - 1) + (if !missing[g + 32 * (k - 1)] { 1int } else { 0int })
    }
}

/// Missing packets among the first `k` slots of group `g`.
pub open spec fn missing_upto(missing: Seq<bool>, g: int, k: int) -> int
    decreases k,
{
    if k <= 0 {
        0
    } else {
        missing_upto(missing, g, k - 1) + (if missing[g + 32 * (k - 1)] { 1int } else { 0int })
    }
}

/// Received packets of group `g`.
pub open spec fn received_in_group(missing: Seq<bool>, g: int) -> int {
    received_upto(missing, g, col_count(missing.len() as int, g))
}

/// How many more packets group `g` needs before it is recoverable.
pub open spec fn pending(missing: Seq<bool>, g: int) -> int {
    let need = group_size(missing.len() - 32, g);
    let have = received_in_group(missing, g);
    if have >= need {
        0
    } else {
        need - have
    }
}

/// Number of the first `i` counters that are not zero.
pub open spec fn count_nonzero(s: Seq<u16>, i: int) -> int
    decreases i,
{
    if i <= 0 {
        0
    } else {
        count_nonzero(s, i - 1) + (if s[i - 1] != 0 { 1int } else { 0int })
    }
}

/// Slot in the receive buffer of the packet with index `index`.
pub open spec fn slot_of(index: u16) -> int {
    (index + 32) % 65536
}

/// The XOR term of slot `g + 32 * k` at offset `j`: its byte when the slot is
/// selected and its window reaches offset `j`, else zero.
pub open spec fn sel_term(buf: Seq<u8>, sel: Seq<bool>, g: int, j: int, b: int, k: int) -> u8 {
    let q = g + 32 * k;
    if 0 <= q < sel.len() && sel[q] && q * b + j < buf.len() {
        buf[q * b + j]
    } else {
        0u8
    }
}

/// XOR of the terms of the first `k` slots of group `g` at offset `j`.
pub open spec fn col_xor(buf: Seq<u8>, sel: Seq<bool>, g: int, j: int, b: int, k: int) -> u8
    decreases k,
{
    if k <= 0 {
        0u8
    } else {
        col_xor(buf, sel, g, j, b, k - 1) ^ sel_term(buf, sel, g, j, b, k - 1)
    }
}

/// The slots that have arrived.
pub open spec fn received_mask(missing: Seq<bool>) -> Seq<bool> {
    Seq::new(missing.len(), |q: int| !missing[q])
}

/// Every slot.
pub open spec fn full_mask(len: nat) -> Seq<bool> {
    Seq::new(len, |q: int| true)
}

/// The buffer after recovery: each byte of a missing slot becomes the XOR of
/// the received bytes at the same offset in the same group.
pub open spec fn recovered(buf: Seq<u8>, missing: Seq<bool>, b: int) -> Seq<u8> {
    Seq::new(
        buf.len(),
        |p: int|
            if missing[p / b] {
                col_xor(
                    buf,
                    received_mask(missing),
                    (p / b) % 32,
                    p % b,
                    b,
                    col_count(missing.len() as int, (p / b) % 32),
                )
            } else {
                buf[p]
            },
    )
}

/// The sender's full buffer (parity slots then data) is consistent: in every
/// group, the bytes at each offset XOR to zero.
pub open spec fn parity_consistent(truth: Seq<u8>, len: nat, b: int) -> bool {
    forall|g: int, j: int|
        0 <= g < 32 && 0 <= j < b ==> #[trigger] col_xor(truth, full_mask(len), g, j, b, col_count(len as int, g)) == 0
}

/// What one packet did to the reception state of its chunk.
#[derive(Clone, Copy, Debug, PartialEq, Eq, Structural)]
pub enum PacketOutcome {
    /// The packet had already been received; nothing changed.
    Duplicate,
    /// The packet was stored; the chunk is not (newly) complete.
    Stored,
    /// The packet was stored and made every group recoverable.
    Complete,
}

/// Reception state of one chunk.
pub struct PartialChunk {
    /// Receive buffer: 32 parity slots of `body_len` bytes, then the data.
    pub data: Vec<u8>,
    /// Per slot: not yet received.
    pub missing_first: Vec<bool>,
    /// Per group: packets still needed before the group is recoverable.
    pub missing_second: Vec<u16>,
    /// Groups that are not yet recoverable.
    pub missing_third: u16,
    /// Payload bytes per packet.
    pub body_len: usize,
}

proof fn lemma_ceil(c: int, b: int)
    requires
        c >= 0,
        b > 0,
    ensures
        num_packets(c, b) >= 0,
        num_packets(c, b) * b >= c,
        num_packets(c, b) * b < c + b,
{
    lemma_fundamental_div_mod(c + b - 1, b);
    let n = (c + b - 1) / b;
    let r = (c + b - 1) % b;
    assert(0 <= r < b);
    assert(b * n + r == c + b - 1);
    assert(n * b == b * n) by (nonlinear_arith);
    assert(n >= 0) by (nonlinear_arith)
        requires
            b * n + r == c + b - 1,
            0 <= r < b,
            c >= 0,
            b > 0,
    ;
}

/// The slots of group `g` below `len` are exactly `g + 32k` for `k < col_count`.
proof fn lemma_col_range(len: int, g: int, k: int)
    requires
        0 <= g < 32,
        g < len,
        0 <= k,
    ensures
        k < col_count(len, g) ==> g + 32 * k < len,
        k >= col_count(len, g) ==> g + 32 * k >= len,
        col_count(len, g) >= 1,
{
    lemma_fundamental_div_mod(len - g + 31, 32);
}

/// Counting the group of a data set of size `n` with its parity slot.
proof fn lemma_col_count_group(n: int, g: int)
    requires
        n >= 0,
        0 <= g < 32,
    ensures
        col_count(32 + n, g) == group_size(n, g) + 1,
        group_size(n, g) >= 0,
{
    assert(32 + n - g + 31 == (n + 31 - g) + 32);
    lemma_fundamental_div_mod(n + 31 - g, 32);
    let c = (n + 31 - g) / 32;
    let r = (n + 31 - g) % 32;
    lemma_fundamental_div_mod_converse(32 + n - g + 31, 32, c + 1, r);
}

proof fn lemma_received_all_missing(missing: Seq<bool>, g: int, k: int)
    requires
        forall|q: int| 0 <= q < missing.len() ==> missing[q],
        0 <= g < 32,
        g < missing.len(),
        0 <= k <= col_count(missing.len() as int, g),
    ensures
        received_upto(missing, g, k) == 0,
    decreases k,
{
    if k > 0 {
        lemma_received_all_missing(missing, g, k - 1);
        lemma_col_range(missing.len() as int, g, k - 1);
    }
}

proof fn lemma_received_update(missing: Seq<bool>, g: int, k: int, s: int)
    requires
        0 <= s < missing.len(),
        missing[s],
        0 <= g < 32,
        g < missing.len(),
        0 <= k <= col_count(missing.len() as int, g),
    ensures
        received_upto(missing.update(s, false), g, k) == received_upto(missing, g, k) + (if s % 32 == g && s < g
            + 32 * k { 1int } else { 0int }),
    decreases k,
{
    if k > 0 {
        lemma_received_update(missing, g, k - 1, s);
        let q = g + 32 * (k - 1);
        lemma_col_range(missing.len() as int, g, k - 1);
        if q == s {
            assert(s % 32 == g) by {
                lemma_fundamental_div_mod_converse(s, 32, k - 1, g);
            }
        } else {
            if s % 32 == g && s < g + 32 * k {
                lemma_fundamental_div_mod(s, 32);
                assert(s < g + 32 * (k - 1));
            }
        }
    }
}

proof fn lemma_count_nonzero_bound(s: Seq<u16>, i: int)
    requires
        0 <= i <= s.len(),
    ensures
        0 <= count_nonzero(s, i) <= i,
        count_nonzero(s, i) == 0 <==> forall|h: int| 0 <= h < i ==> s[h] == 0,
    decreases i,
{
    if i > 0 {
        lemma_count_nonzero_bound(s, i - 1);
        if count_nonzero(s, i) == 0 {
            assert forall|h: int| 0 <= h < i implies s[h] == 0 by {
                if h < i - 1 {
                }
            }
        }
    }
}

proof fn lemma_count_nonzero_update(s: Seq<u16>, i: int, g: int, v: u16)
    requires
        0 <= i <= s.len(),
        0 <= g < s.len(),
    ensures
        count_nonzero(s.update(g, v), i) == count_nonzero(s, i) + (if g < i {
            (if v != 0 { 1int } else { 0int }) - (if s[g] != 0 { 1int } else { 0int })
        } else {
            0int
        }),
    decreases i,
{
    if i > 0 {
        lemma_count_nonzero_update(s, i - 1, g, v);
    }
}

/// Slot arithmetic: the slot of a packet is its index plus 32 (16-bit
/// wrapping) and belongs to group `index % 32`.
proof fn lemma_slot_group(index: u16)
    ensures
        slot_of(index) == index.wrapping_add(32),
        slot_of(index) % 32 == (index & 31) as int,
        (index & 31) < 32,
{
    assert(index & 31 == index % 32) by (bit_vector);
    assert(index & 31 < 32) by (bit_vector);
    assert(index.wrapping_add(32) % 32 == index % 32) by (bit_vector);
}

impl PartialChunk {
    /// Compressed size of the chunk.
    pub open spec fn csize(&self) -> int {
        self.data@.len() - 32 * self.body_len
    }

    /// Number of data packets.
    pub open spec fn packets(&self) -> int {
        self.missing_first@.len() - 32
    }

    /// Every group has all of its packets but at most one.
    pub open spec fn is_complete(&self) -> bool {
        forall|g: int| 0 <= g < 32 ==> #[trigger] pending(self.missing_first@, g) == 0
    }

    /// The counters agree with the received slots, and the buffer matches
    /// the slot layout.
    pub open spec fn wf(&self) -> bool {
        &&& self.body_len > 0
        &&& self.data@.len() >= 32 * self.body_len
        &&& self.missing_first@.len() == 32 + num_packets(self.csize(), self.body_len as int)
        &&& self.missing_first@.len() <= 65536
        &&& self.data@.len() + self.body_len <= usize::MAX
        &&& self.missing_second@.len() == 32
        &&& forall|g: int| 0 <= g < 32 ==> #[trigger] self.missing_second@[g] == pending(self.missing_first@, g)
        &&& self.missing_third == count_nonzero(self.missing_second@, 32)
    }

    /// Reception state for a chunk of `csize` compressed bytes sent in
    /// packets of `body_len` payload bytes: a zeroed buffer, every slot
    /// missing, and each group waiting for as many packets as it has data
    /// packets.
    pub fn new(csize: usize, body_len: usize) -> (r: PartialChunk)
        requires
            body_len > 0,
            33 * body_len + csize <= usize::MAX,
            32 + num_packets(csize as int, body_len as int) <= 65536,
        ensures
            r.wf(),
            r.body_len == body_len,
            r.csize() == csize,
            r.data@ == Seq::new((32 * body_len + csize) as nat, |i: int| 0u8),
            r.missing_first@ == Seq::new((32 + num_packets(csize as int, body_len as int)) as nat, |i: int| true),
            forall|g: int| 0 <= g < 32 ==> #[trigger] r.missing_second@[g] == group_size(r.packets(), g),
    {
        proof {
            lemma_ceil(csize as int, body_len as int);
        }
        let num_packets: usize = (csize + body_len - 1) / body_len;
        let len = 32 * body_len + csize;
        let mut data: Vec<u8> = Vec::new();
        let mut i: usize = 0;
        while i < len
            invariant
                i <= len,
                data@.len() == i,
                forall|p: int| 0 <= p < i ==> data@[p] == 0u8,
            decreases len - i,
        {
            data.push(0u8);
            i = i + 1;
        }
        let total = 32 + num_packets;
        let mut missing_first: Vec<bool> = Vec::new();
        let mut i: usize = 0;
        while i < total
            invariant
                i <= total,
                missing_first@.len() == i,
                forall|p: int| 0 <= p < i ==> missing_first@[p],
            decreases total - i,
        {
            missing_first.push(true);
            i = i + 1;
        }
        let ghost m = missing_first@;
        let mut missing_second: Vec<u16> = Vec::new();
        let mut missing_third: u16 = 0;
        let mut g: usize = 0;
        while g < 32
            invariant
                g <= 32,
                m == missing_first@,
                m.len() == 32 + num_packets,
                num_packets + 32 <= 65536,
                forall|p: int| 0 <= p < m.len() ==> m[p],
                missing_second@.len() == g,
                forall|h: int| 0 <= h < g ==> #[trigger] missing_second@[h] == group_size(num_packets as int, h),
                forall|h: int| 0 <= h < g ==> #[trigger] missing_second@[h] == pending(m, h),
                missing_third == count_nonzero(missing_second@, g as int),
                missing_third <= g,
            decreases 32 - g,
        {
            let size = ((num_packets + 31 - g) / 32) as u16;
            proof {
                lemma_col_count_group(num_packets as int, g as int);
                let c = col_count(m.len() as int, g as int);
                lemma_col_range(m.len() as int, g as int, 0);
                lemma_received_all_missing(m, g as int, c);
                assert(pending(m, g as int) == group_size(num_packets as int, g as int));
            }
            let ghost before = missing_second@;
            missing_second.push(size);
            proof {
                lemma_count_nonzero_prefix(missing_second@, before, g as int);
            }
            if size != 0 {
                missing_third = missing_third + 1;
            }
            g = g + 1;
        }
        let r = PartialChunk { data, missing_first, missing_second, missing_third, body_len };
        proof {
            assert(r.csize() == csize);
        }
        r
    }
}

/// `d` with `pl` written over it from `start` on.
pub open spec fn splice(d: Seq<u8>, start: int, pl: Seq<u8>) -> Seq<u8> {
    Seq::new(d.len(), |p: int| if start <= p < start + pl.len() { pl[p - start] } else { d[p] })
}

/// Writes `payload` into `data` from `start` on.
fn copy_into(data: &mut Vec<u8>, start: usize, payload: &[u8])
    requires
        start + payload@.len() <= old(data)@.len(),
    ensures
        final(data)@ == splice(old(data)@, start as int, payload@),
{
    let dlen = data.len();
    let mut i: usize = 0;
    while i < payload.len()
        invariant
            data@.len() == dlen,
            start + payload@.len() <= data@.len(),
            i <= payload@.len(),
            data@.len() == old(data)@.len(),
            forall|p: int|
                0 <= p < data@.len() ==> #[trigger] data@[p] == (if start <= p < start + i {
                    payload@[p - start]
                } else {
                    old(data)@[p]
                }),
        decreases payload@.len() - i,
    {
        data.set(start + i, payload[i]);
        i = i + 1;
    }
    assert(data@ =~= splice(old(data)@, start as int, payload@));
}

impl PartialChunk {
    /// The counters say "complete" exactly when every group is recoverable.
    proof fn lemma_complete_iff(&self)
        requires
            self.wf(),
        ensures
            self.is_complete() <==> self.missing_third == 0,
    {
        lemma_count_nonzero_bound(self.missing_second@, 32);
        if self.missing_third == 0 {
            assert forall|g: int| 0 <= g < 32 implies #[trigger] pending(self.missing_first@, g) == 0 by {
                assert(self.missing_second@[g] == 0);
            }
        }
        if self.is_complete() {
            assert forall|h: int| 0 <= h < 32 implies self.missing_second@[h] == 0 by {
                assert(pending(self.missing_first@, h) == 0);
            }
        }
    }

    /// Records the packet with index `index` and payload `payload`: a packet
    /// already seen changes nothing; otherwise its payload is written at its
    /// slot, the slot is marked received and its group counts one packet
    /// more. The result says whether this packet completed the chunk.
    pub fn add_packet(&mut self, index: u16, payload: &[u8]) -> (r: PacketOutcome)
        requires
            old(self).wf(),
            slot_of(index) < old(self).missing_first@.len(),
            slot_of(index) * old(self).body_len + payload@.len() <= old(self).data@.len(),
        ensures
            final(self).wf(),
            final(self).body_len == old(self).body_len,
            !old(self).missing_first@[slot_of(index)] ==> r == PacketOutcome::Duplicate && *final(self) == *old(self),
            old(self).missing_first@[slot_of(index)] ==> {
                &&& r != PacketOutcome::Duplicate
                &&& final(self).missing_first@ == old(self).missing_first@.update(slot_of(index), false)
                &&& final(self).data@ == splice(
                    old(self).data@,
                    slot_of(index) * old(self).body_len,
                    payload@,
                )
                &&& (r == PacketOutcome::Complete <==> (!old(self).is_complete() && final(self).is_complete()))
            },
    {
        proof {
            lemma_slot_group(index);
            self.lemma_complete_iff();
        }
        let rot = index.wrapping_add(32) as usize;
        if !self.missing_first[rot] {
            return PacketOutcome::Duplicate;
        }
        let ghost old_m = self.missing_first@;
        let ghost old_ms = self.missing_second@;
        let ghost len = old_m.len() as int;
        let start = rot * self.body_len;
        copy_into(&mut self.data, start, payload);
        self.missing_first.set(rot, false);
        let group = (index & 31) as usize;
        proof {
            assert forall|h: int| 0 <= h < 32 implies #[trigger] pending(self.missing_first@, h) == (if h
                == group {
                if old_ms[h] > 0 {
                    old_ms[h] - 1
                } else {
                    0
                }
            } else {
                old_ms[h] as int
            }) by {
                lemma_col_range(len, h, col_count(len, h));
                lemma_received_update(old_m, h, col_count(len, h), rot as int);
                assert(old_m.update(rot as int, false) == self.missing_first@);
            }
        }
        let ms = self.missing_second[group];
        if ms == 0 {
            proof {
                assert forall|h: int| 0 <= h < 32 implies #[trigger] self.missing_second@[h] == pending(
                    self.missing_first@,
                    h,
                ) by {}
                assert(self.is_complete() == old(self).is_complete()) by {
                    if old(self).is_complete() {
                        assert forall|h: int| 0 <= h < 32 implies #[trigger] pending(self.missing_first@, h)
                            == 0 by {
                            assert(pending(old_m, h) == 0);
                        }
                    }
                    if self.is_complete() {
                        assert forall|h: int| 0 <= h < 32 implies #[trigger] pending(old_m, h) == 0 by {
                            assert(pending(self.missing_first@, h) == 0);
                        }
                    }
                }
            }
            return PacketOutcome::Stored;
        }
        self.missing_second.set(group, ms - 1);
        proof {
            lemma_count_nonzero_update(old_ms, 32, group as int, (ms - 1) as u16);
            assert forall|h: int| 0 <= h < 32 implies #[trigger] self.missing_second@[h] == pending(
                self.missing_first@,
                h,
            ) by {}
            assert(!old(self).is_complete()) by {
                assert(pending(old_m, group as int) != 0);
            }
        }
        if ms >= 2 {
            proof {
                assert(!self.is_complete()) by {
                    assert(pending(self.missing_first@, group as int) != 0);
                }
            }
            return PacketOutcome::Stored;
        }
        self.missing_third = self.missing_third - 1;
        proof {
            self.lemma_complete_iff();
        }
        if self.missing_third > 0 {
            PacketOutcome::Stored
        } else {
            PacketOutcome::Complete
        }
    }
}

/// The column of byte `p`: its group times `b` plus its offset in the slot.
pub open spec fn col_id(p: int, b: int) -> int {
    ((p / b) % 32) * b + p % b
}

proof fn lemma_pos(q: int, j: int, b: int)
    requires
        0 <= j < b,
        0 <= q,
    ensures
        (q * b + j) / b == q,
        (q * b + j) % b == j,
        q * b + j >= 0,
{
    assert(q * b >= 0) by (nonlinear_arith)
        requires
            q >= 0,
            b > 0,
    ;
    lemma_fundamental_div_mod_converse(q * b + j, b, q, j);
}

/// A byte in column `g * b + j` sits at offset `j` of a slot of group `g`.
proof fn lemma_col_decompose(p: int, b: int, g: int, j: int)
    requires
        0 <= p,
        b > 0,
        0 <= g < 32,
        0 <= j < b,
        col_id(p, b) == g * b + j,
    ensures
        (p / b) % 32 == g,
        p % b == j,
        p / b >= g,
        p == (p / b) * b + j,
{
    lemma_fundamental_div_mod(p, b);
    assert(p / b >= 0) by (nonlinear_arith)
        requires
            p >= 0,
            b > 0,
            p == b * (p / b) + p % b,
            p % b < b,
    ;
    let s = p / b;
    let g2 = s % 32;
    let j2 = p % b;
    lemma_fundamental_div_mod(s, 32);
    assert(0 <= g2 < 32);
    assert(g2 == g && j2 == j) by (nonlinear_arith)
        requires
            g2 * b + j2 == g * b + j,
            0 <= j2 < b,
            0 <= j < b,
            0 <= g2,
            0 <= g,
            b > 0,
    ;
    assert(p == s * b + j) by (nonlinear_arith)
        requires
            p == b * s + j2,
            j2 == j,
    ;
}

/// Two slots of the same group less than 32 apart are the same slot.
proof fn lemma_same_slot(s1: int, s2: int, g: int)
    requires
        0 <= s1 <= s2 < s1 + 32,
        s1 % 32 == g,
        s2 % 32 == g,
    ensures
        s1 == s2,
{
    lemma_fundamental_div_mod(s1, 32);
    lemma_fundamental_div_mod(s2, 32);
}

/// Slot `g + 32k` is in group `g`.
proof fn lemma_slot_in_group(g: int, k: int)
    requires
        0 <= g < 32,
        0 <= k,
    ensures
        (g + 32 * k) % 32 == g,
{
    lemma_fundamental_div_mod_converse(g + 32 * k, 32, k, g);
}

impl PartialChunk {
    /// Fills every missing slot with the XOR of the received slots of its
    /// group, offset by offset (a slot's window ends at the buffer's end).
    /// Once the chunk is complete this restores the one missing packet of
    /// each group.
    pub fn recover(&mut self)
        requires
            old(self).wf(),
        ensures
            final(self).data@ == recovered(old(self).data@, old(self).missing_first@, old(self).body_len as int),
            final(self).missing_first == old(self).missing_first,
            final(self).missing_second == old(self).missing_second,
            final(self).missing_third == old(self).missing_third,
            final(self).body_len == old(self).body_len,
    {
        let b = self.body_len;
        let len = self.data.len();
        let slots = self.missing_first.len();
        let ghost old_d = self.data@;
        let ghost m = self.missing_first@;
        let ghost rec = recovered(old_d, m, b as int);
        proof {
            lemma_ceil(self.csize(), b as int);
            let n = num_packets(self.csize(), b as int);
            assert(slots * b == 32 * b + n * b) by (nonlinear_arith)
                requires
                    slots == 32 + n,
            ;
        }
        let ncols = 32 * b;
        let mut c: usize = 0;
        while c < ncols
            invariant
                b == self.body_len,
                b > 0,
                ncols == 32 * b,
                len == old_d.len(),
                len + b <= usize::MAX,
                slots == m.len(),
                32 <= slots,
                slots * b < len + b,
                len <= slots * b,
                slots <= 65536,
                m == self.missing_first@,
                self.missing_first == old(self).missing_first,
                self.missing_second == old(self).missing_second,
                self.missing_third == old(self).missing_third,
                self.body_len == old(self).body_len,
                old_d == old(self).data@,
                rec == recovered(old_d, m, b as int),
                c <= ncols,
                self.data@.len() == len,
                forall|p: int|
                    0 <= p < len ==> #[trigger] self.data@[p] == (if col_id(p, b as int) < c {
                        rec[p]
                    } else {
                        old_d[p]
                    }),
            decreases ncols - c,
        {
            let g = c / b;
            let j = c % b;
            proof {
                lemma_fundamental_div_mod(c as int, b as int);
                assert(g < 32) by (nonlinear_arith)
                    requires
                        g == c / b,
                        c < 32 * b,
                        b > 0,
                ;
            }
            let ghost cnt = col_count(slots as int, g as int);
            let mut x: u8 = 0;
            let mut q: usize = g;
            let ghost mut k: int = 0;
            while q < slots
                invariant
                    0 <= g < 32,
                    0 <= j < b,
                    c == g * b + j,
                    q == g + 32 * k,
                    0 <= k <= cnt,
                    cnt == col_count(slots as int, g as int),
                    slots == m.len(),
                    32 <= slots <= usize::MAX,
                    slots * b < len + b,
                    len + b <= usize::MAX,
                    len == old_d.len(),
                    self.data@.len() == len,
                    m == self.missing_first@,
                    x == col_xor(old_d, received_mask(m), g as int, j as int, b as int, k),
                    slots <= 65536,
                    b == self.body_len,
                    self.missing_first == old(self).missing_first,
                    self.missing_second == old(self).missing_second,
                    self.missing_third == old(self).missing_third,
                    self.body_len == old(self).body_len,
                    forall|p: int|
                        0 <= p < len ==> #[trigger] self.data@[p] == (if col_id(p, b as int) < c {
                            rec[p]
                        } else {
                            old_d[p]
                        }),
                decreases cnt - k,
            {
                proof {
                    lemma_col_range(slots as int, g as int, k);
                    assert(q * b + j < len + b) by (nonlinear_arith)
                        requires
                            q < slots,
                            slots * b < len + b,
                            j < b,
                            b > 0,
                    ;
                }
                let pos = q * b + j;
                proof {
                    lemma_pos(q as int, j as int, b as int);
                    lemma_slot_in_group(g as int, k);
                }
                let ghost xo = x;
                proof {
                    assert(xo ^ 0u8 == xo) by (bit_vector);
                }
                if !self.missing_first[q] && pos < len {
                    x = x ^ self.data[pos];
                }
                proof {
                    assert(sel_term(old_d, received_mask(m), g as int, j as int, b as int, k) == (if !m[q as int]
                        && pos < len {
                        old_d[pos as int]
                    } else {
                        0u8
                    }));
                    assert(x == xo ^ sel_term(old_d, received_mask(m), g as int, j as int, b as int, k));
                }
                q = q + 32;
                proof {
                    k = k + 1;
                }
            }
            proof {
                lemma_col_range(slots as int, g as int, k);
                if k < cnt {
                    lemma_col_range(slots as int, g as int, k);
                }
            }
            proof {
                assert forall|p: int| 0 <= p < len && col_id(p, b as int) == c implies p / (b as int) >= g by {
                    lemma_col_decompose(p, b as int, g as int, j as int);
                }
            }
            let mut q: usize = g;
            let ghost mut k2: int = 0;
            while q < slots
                invariant
                    0 <= g < 32,
                    0 <= j < b,
                    c == g * b + j,
                    q == g + 32 * k2,
                    0 <= k2 <= cnt,
                    slots == m.len(),
                    32 <= slots <= usize::MAX,
                    slots * b < len + b,
                    len + b <= usize::MAX,
                    len == old_d.len(),
                    self.data@.len() == len,
                    m == self.missing_first@,
                    x == col_xor(old_d, received_mask(m), g as int, j as int, b as int, cnt),
                    slots <= 65536,
                    b == self.body_len,
                    self.missing_first == old(self).missing_first,
                    self.missing_second == old(self).missing_second,
                    self.missing_third == old(self).missing_third,
                    self.body_len == old(self).body_len,
                    cnt == col_count(slots as int, g as int),
                    rec == recovered(old_d, m, b as int),
                    forall|p: int|
                        0 <= p < len ==> #[trigger] self.data@[p] == (if col_id(p, b as int) < c {
                            rec[p]
                        } else if col_id(p, b as int) == c && p / (b as int) < q && m[p / (b as int)] {
                            x
                        } else {
                            old_d[p]
                        }),
                decreases cnt - k2,
            {
                proof {
                    assert(q * b + j < len + b) by (nonlinear_arith)
                        requires
                            q < slots,
                            slots * b < len + b,
                            j < b,
                            b > 0,
                    ;
                }
                let pos = q * b + j;
                proof {
                    lemma_pos(q as int, j as int, b as int);
                    lemma_slot_in_group(g as int, k2);
                }
                let ghost before = self.data@;
                if self.missing_first[q] && pos < len {
                    self.data.set(pos, x);
                }
                proof {
                    assert forall|p: int| 0 <= p < len implies #[trigger] self.data@[p] == (if col_id(p, b as int) < c {
                        rec[p]
                    } else if col_id(p, b as int) == c && p / (b as int) < q + 32 && m[p / (b as int)] {
                        x
                    } else {
                        old_d[p]
                    }) by {
                        if p != pos {
                            assert(self.data@[p] == before[p]);
                            if col_id(p, b as int) == c && q <= p / (b as int) < q + 32 {
                                lemma_col_decompose(p, b as int, g as int, j as int);
                                lemma_same_slot(q as int, p / (b as int), g as int);
                            }
                        }
                    }
                }
                q = q + 32;
                proof {
                    k2 = k2 + 1;
                }
            }
            proof {
                assert forall|p: int| 0 <= p < len implies #[trigger] self.data@[p] == (if col_id(p, b as int) < c + 1 {
                    rec[p]
                } else {
                    old_d[p]
                }) by {
                    if col_id(p, b as int) == c {
                        lemma_col_decompose(p, b as int, g as int, j as int);
                        assert(p / (b as int) < slots) by (nonlinear_arith)
                            requires
                                p < len,
                                len <= slots * b,
                                p == (p / (b as int)) * b + j,
                                0 <= j,
                                b > 0,
                        ;
                    }
                }
            }
            c = c + 1;
        }
        proof {
            assert forall|p: int| 0 <= p < len implies col_id(p, b as int) < c by {
                lemma_fundamental_div_mod(p, b as int);
                assert(col_id(p, b as int) < 32 * b) by (nonlinear_arith)
                    requires
                        col_id(p, b as int) == ((p / (b as int)) % 32) * b + p % (b as int),
                        0 <= p % (b as int) < b,
                        0 <= (p / (b as int)) % 32 < 32,
                ;
            }
            assert(self.data@ =~= rec);
        }
    }
}

proof fn lemma_counts_sum(m: Seq<bool>, g: int, k: int)
    requires
        0 <= k,
    ensures
        received_upto(m, g, k) + missing_upto(m, g, k) == k,
    decreases k,
{
    if k > 0 {
        lemma_counts_sum(m, g, k - 1);
    }
}

/// Two distinct missing slots among the first `k` of a group count twice.
proof fn lemma_two_missing(m: Seq<bool>, g: int, k: int, k0: int, k1: int)
    requires
        0 <= k,
        0 <= k0,
        0 <= k1,
        k0 != k1,
        m[g + 32 * k0],
        m[g + 32 * k1],
    ensures
        missing_upto(m, g, k) >= (if k0 < k { 1int } else { 0int }) + (if k1 < k { 1int } else { 0int }),
    decreases k,
{
    if k > 0 {
        lemma_two_missing(m, g, k - 1, k0, k1);
    }
}

proof fn lemma_col_xor_agree(buf1: Seq<u8>, buf2: Seq<u8>, sel: Seq<bool>, g: int, j: int, b: int, k: int)
    requires
        forall|kk: int| 0 <= kk < k ==> #[trigger] sel_term(buf1, sel, g, j, b, kk) == sel_term(buf2, sel, g, j, b, kk),
    ensures
        col_xor(buf1, sel, g, j, b, k) == col_xor(buf2, sel, g, j, b, k),
    decreases k,
{
    if k > 0 {
        lemma_col_xor_agree(buf1, buf2, sel, g, j, b, k - 1);
        assert(sel_term(buf1, sel, g, j, b, k - 1) == sel_term(buf2, sel, g, j, b, k - 1));
    }
}

/// Two selections that differ only at slot `k0`, unselected in `s2`, XOR to
/// values that differ by that slot's term.
proof fn lemma_col_xor_diff(buf: Seq<u8>, s1: Seq<bool>, s2: Seq<bool>, g: int, j: int, b: int, k: int, k0: int)
    requires
        forall|kk: int|
            0 <= kk < k && kk != k0 ==> #[trigger] sel_term(buf, s1, g, j, b, kk) == sel_term(buf, s2, g, j, b, kk),
        sel_term(buf, s2, g, j, b, k0) == 0,
    ensures
        col_xor(buf, s1, g, j, b, k) == col_xor(buf, s2, g, j, b, k) ^ (if 0 <= k0 < k {
            sel_term(buf, s1, g, j, b, k0)
        } else {
            0u8
        }),
    decreases k,
{
    if k > 0 {
        lemma_col_xor_diff(buf, s1, s2, g, j, b, k - 1, k0);
        let a1 = col_xor(buf, s1, g, j, b, k - 1);
        let a2 = col_xor(buf, s2, g, j, b, k - 1);
        let t1 = sel_term(buf, s1, g, j, b, k - 1);
        let t2 = sel_term(buf, s2, g, j, b, k - 1);
        let d: u8 = if 0 <= k0 < k - 1 { sel_term(buf, s1, g, j, b, k0) } else { 0u8 };
        assert(a1 == a2 ^ d);
        if k - 1 == k0 {
            assert(t2 == 0);
            assert(d == 0);
            assert((a2 ^ 0u8) ^ t1 == (a2 ^ 0u8) ^ t1);
            assert(a2 ^ 0u8 == a2) by (bit_vector);
        } else {
            assert(t1 == t2);
            assert((a2 ^ d) ^ t1 == (a2 ^ t1) ^ d) by (bit_vector);
        }
    } else {
        let z = col_xor(buf, s2, g, j, b, k);
        assert(z ^ 0u8 == z) by (bit_vector);
    }
}

/// The receive buffer `d` and slot map `m` have the layout of a chunk sent
/// in packets of `b` bytes: 32 parity slots, then the compressed bytes.
pub open spec fn slot_layout(d: Seq<u8>, m: Seq<bool>, b: int) -> bool {
    &&& b > 0
    &&& d.len() >= 32 * b
    &&& m.len() == 32 + num_packets(d.len() - 32 * b, b)
}

/// Every group has all of its packets but at most one.
pub open spec fn all_recoverable(m: Seq<bool>) -> bool {
    forall|g: int| 0 <= g < 32 ==> #[trigger] pending(m, g) == 0
}

/// One byte of the law below.
proof fn lemma_restore_byte(d: Seq<u8>, m: Seq<bool>, b: int, truth: Seq<u8>, p: int)
    requires
        slot_layout(d, m, b),
        all_recoverable(m),
        truth.len() == d.len(),
        parity_consistent(truth, m.len(), b),
        forall|i: int| 0 <= i < truth.len() && !m[i / b] ==> #[trigger] d[i] == truth[i],
        0 <= p < truth.len(),
    ensures
        recovered(d, m, b)[p] == truth[p],
{
    let len = d.len() as int;
    let big_l = m.len() as int;
    let n = num_packets(len - 32 * b, b);
    lemma_ceil(len - 32 * b, b);
    assert(big_l * b == 32 * b + n * b) by (nonlinear_arith)
        requires
            big_l == 32 + n,
    ;
    lemma_fundamental_div_mod(p, b);
    let q = p / b;
    let j = p % b;
    assert(0 <= q < big_l) by (nonlinear_arith)
        requires
            0 <= p < len,
            len <= big_l * b,
            p == b * q + j,
            0 <= j < b,
            b > 0,
    ;
    assert(p == q * b + j) by (nonlinear_arith)
        requires
            p == b * q + j,
    ;
    if m[q] {
        lemma_fundamental_div_mod(q, 32);
        let g = q % 32;
        let k0 = q / 32;
        assert(q == g + 32 * k0);
        let kk_count = col_count(big_l, g);
        lemma_col_range(big_l, g, k0);
        lemma_col_count_group(n, g);
        assert(k0 < kk_count);
        let recv = received_mask(m);
        let full = full_mask(m.len());
        // every other slot of the group has arrived
        assert(pending(m, g) == 0);
        lemma_counts_sum(m, g, kk_count);
        // received bytes agree with the sender's
        assert forall|kk: int| 0 <= kk < kk_count implies #[trigger] sel_term(d, recv, g, j, b, kk) == sel_term(
            truth,
            recv,
            g,
            j,
            b,
            kk,
        ) by {
            let qq = g + 32 * kk;
            lemma_col_range(big_l, g, kk);
            if 0 <= qq < recv.len() && recv[qq] && qq * b + j < len {
                lemma_pos(qq, j, b);
                assert(d[qq * b + j] == truth[qq * b + j]);
            }
        }
        lemma_col_xor_agree(d, truth, recv, g, j, b, kk_count);
        assert forall|kk: int| 0 <= kk < kk_count && kk != k0 implies #[trigger] sel_term(truth, full, g, j, b, kk)
            == sel_term(truth, recv, g, j, b, kk) by {
            lemma_col_range(big_l, g, kk);
            if m[g + 32 * kk] {
                lemma_two_missing(m, g, kk_count, k0, kk);
            }
        }
        lemma_col_xor_diff(truth, full, recv, g, j, b, kk_count, k0);
        let x = col_xor(truth, recv, g, j, b, kk_count);
        let t = truth[p];
        assert(sel_term(truth, full, g, j, b, k0) == t);
        assert(col_xor(truth, full, g, j, b, kk_count) == 0);
        assert(x ^ t == 0u8 ==> x == t) by (bit_vector);
    } else {
        assert(d[p] == truth[p]);
    }
}

/// Law: once every group of a receive buffer `d` (slots `m` of `b` bytes)
/// is recoverable, recovery gives back the sender's buffer `truth`,
/// provided the sender's parity makes every group XOR to zero at every
/// offset and every received slot holds the sender's bytes.
pub proof fn lemma_recovery_restores_buffer(d: Seq<u8>, m: Seq<bool>, b: int, truth: Seq<u8>)
    requires
        slot_layout(d, m, b),
        all_recoverable(m),
        truth.len() == d.len(),
        parity_consistent(truth, m.len(), b),
        forall|i: int| 0 <= i < truth.len() && !m[i / b] ==> #[trigger] d[i] == truth[i],
    ensures
        recovered(d, m, b) == truth,
{
    assert forall|p: int| 0 <= p < truth.len() implies recovered(d, m, b)[p] == truth[p] by {
        lemma_restore_byte(d, m, b, truth, p);
    }
    assert(recovered(d, m, b) =~= truth);
}

/// Law: once every group of a chunk is recoverable, recovery gives back the
/// sender's buffer, provided the sender's parity makes every group XOR to
/// zero at every offset and every received slot holds the sender's bytes.
pub proof fn lemma_recovery_restores(pc: PartialChunk, truth: Seq<u8>)
    requires
        pc.wf(),
        pc.is_complete(),
        truth.len() == pc.data@.len(),
        parity_consistent(truth, pc.missing_first@.len(), pc.body_len as int),
        forall|i: int|
            0 <= i < truth.len() && !pc.missing_first@[i / (pc.body_len as int)] ==> #[trigger] pc.data@[i]
                == truth[i],
    ensures
        recovered(pc.data@, pc.missing_first@, pc.body_len as int) == truth,
{
    lemma_recovery_restores_buffer(pc.data@, pc.missing_first@, pc.body_len as int, truth);
}

/// Counting over a prefix only looks at the prefix.
proof fn lemma_count_nonzero_prefix(s: Seq<u16>, t: Seq<u16>, h: int)
    requires
        0 <= h <= t.len(),
        t.len() <= s.len(),
        forall|i: int| 0 <= i < t.len() ==> s[i] == t[i],
    ensures
        count_nonzero(s, h) == count_nonzero(t, h),
    decreases h,
{
    if h > 0 {
        lemma_count_nonzero_prefix(s, t, h - 1);
    }
}

} // verus!
