//! NTFS: which clusters of a partition are in use, read from the boot
//! sector, the `$Bitmap` file record, its data runs and the bitmap clusters
//! they point to. The caller reads the sectors; this module decodes them.

use vstd::prelude::*;
use crate::chunks::ChunkInfo;
use crate::le::{le16, le32, le64, le_value};

verus! {

/// Size of the file record read for `$Bitmap`.
pub const FILE_RECORD_LEN: usize = 1024;

/// The OEM id `"NTFS    "` at byte 3 of the boot sector.
pub open spec fn is_ntfs(bs: Seq<u8>) -> bool {
    &&& bs[3] == 78 && bs[4] == 84 && bs[5] == 70 && bs[6] == 83
    &&& bs[7] == 32 && bs[8] == 32 && bs[9] == 32 && bs[10] == 32
}

/// Whether the boot sector carries the NTFS OEM id.
pub fn ntfs_signature(bs: &[u8]) -> (r: bool)
    requires
        bs@.len() >= 512,
    ensures
        r == is_ntfs(bs@),
{
    bs[3] == 78 && bs[4] == 84 && bs[5] == 70 && bs[6] == 83 && bs[7] == 32 && bs[8] == 32 && bs[9] == 32 && bs[10]
        == 32
}

/// A size field of the boot sector: a count when below 128, else a power
/// of two whose negated exponent the byte holds.
pub open spec fn size_code(x: u8) -> int {
    if x <= 127 {
        x as int
    } else {
        (1u64 << ((256 - x) as u64)) as int
    }
}

/// Whether a size byte is one the format allows (not 128 to 224).
pub open spec fn size_code_valid(x: u8) -> bool {
    x <= 127 || x >= 225
}

/// Where the clusters are and how big they are.
#[derive(Clone, Copy, Debug)]
pub struct NtfsGeometry {
    pub bytes_per_cluster: u64,
    pub num_clusters: u64,
    pub bitmap_record_address: u64,
}

/// Bytes per cluster of a boot sector.
pub open spec fn spec_bytes_per_cluster(bs: Seq<u8>) -> int {
    le_value(bs, 0x0b, 2) * size_code(bs[0x0d])
}

/// Bytes per file record of a boot sector.
pub open spec fn spec_bytes_per_record(bs: Seq<u8>) -> int {
    if bs[0x40] <= 127 {
        bs[0x40] * spec_bytes_per_cluster(bs)
    } else {
        size_code(bs[0x40])
    }
}

/// Byte offset, in the partition, of the `$Bitmap` file record (record 6
/// of the MFT).
pub open spec fn spec_bitmap_record(bs: Seq<u8>) -> int {
    spec_bytes_per_cluster(bs) * le_value(bs, 0x30, 8) + 6 * spec_bytes_per_record(bs)
}

/// The boot sector of an NTFS partition of `len` bytes can be used: the
/// size codes are valid, clusters are not empty, and the offsets fit.
pub open spec fn ntfs_usable(bs: Seq<u8>, len: u64) -> bool {
    &&& size_code_valid(bs[0x0d])
    &&& size_code_valid(bs[0x40])
    &&& spec_bytes_per_cluster(bs) > 0
    &&& spec_bitmap_record(bs) <= u64::MAX
    &&& len * 8 <= usize::MAX
}

fn size_from_code(x: u8) -> (r: u64)
    requires
        size_code_valid(x),
    ensures
        r == size_code(x),
        r <= 0x8000_0000,
{
    if x <= 127 {
        x as u64
    } else {
        let sh = (256 - x as u64);
        proof {
            assert(sh <= 31);
            assert(sh <= 31 ==> 1u64 << sh <= 0x8000_0000) by (bit_vector);
        }
        1u64 << sh
    }
}

/// Whether `ntfs_geometry` can be applied to a boot sector: the check the
/// caller makes before decoding one (an unusable one stops the agent).
pub fn ntfs_boot_sector_usable(bs: &[u8], len: u64) -> (r: bool)
    requires
        bs@.len() >= 512,
    ensures
        r == ntfs_usable(bs@, len),
{
    if !(bs[0x0d] <= 127 || bs[0x0d] >= 225) || !(bs[0x40] <= 127 || bs[0x40] >= 225) {
        return false;
    }
    let bps = le16(bs, 0x0b) as u64;
    let spc = size_from_code(bs[0x0d]);
    proof {
        assert(bps * spc <= 65535 * 0x8000_0000) by (nonlinear_arith)
            requires
                bps <= 65535,
                spc <= 0x8000_0000,
        ;
    }
    let bpc = bps * spc;
    if bpc == 0 {
        return false;
    }
    let rec_code = bs[0x40];
    let bpr: u64 = if rec_code <= 127 {
        match bpc.checked_mul(rec_code as u64) {
            Some(v) => v,
            None => {
                proof {
                    assert(rec_code * bpc == bpc * rec_code) by (nonlinear_arith);
                }
                return false;
            },
        }
    } else {
        size_from_code(rec_code)
    };
    proof {
        assert(bpr == spec_bytes_per_record(bs@)) by (nonlinear_arith)
            requires
                rec_code <= 127 ==> bpr == bpc * rec_code,
                rec_code > 127 ==> bpr == size_code(rec_code),
                rec_code == bs@[0x40],
                bpc == spec_bytes_per_cluster(bs@),
        ;
    }
    let mft = le64(bs, 0x30);
    let a = match bpc.checked_mul(mft) {
        Some(v) => v,
        None => {
            return false;
        },
    };
    let b = match bpr.checked_mul(6) {
        Some(v) => v,
        None => {
            return false;
        },
    };
    match a.checked_add(b) {
        None => {
            return false;
        },
        Some(_) => {},
    }
    match len.checked_mul(8) {
        Some(l8) => l8 <= usize::MAX as u64,
        None => false,
    }
}

/// The geometry of an NTFS partition of `len` bytes, from its boot sector.
pub fn ntfs_geometry(bs: &[u8], len: u64) -> (r: NtfsGeometry)
    requires
        bs@.len() >= 512,
        ntfs_usable(bs@, len),
    ensures
        r.bytes_per_cluster == spec_bytes_per_cluster(bs@),
        r.num_clusters == len / r.bytes_per_cluster,
        r.bitmap_record_address == spec_bitmap_record(bs@),
{
    let bps = le16(bs, 0x0b) as u64;
    let spc = size_from_code(bs[0x0d]);
    proof {
        assert(bps * spc <= 65535 * 0x8000_0000) by (nonlinear_arith)
            requires
                bps <= 65535,
                spc <= 0x8000_0000,
        ;
    }
    let bpc = bps * spc;
    let rec_code = bs[0x40];
    proof {
        assert(spec_bytes_per_record(bs@) >= 0);
        assert(le_value(bs@, 0x30, 8) * bpc >= 0) by (nonlinear_arith)
            requires
                bpc >= 0,
        ;
    }
    let bpr: u64 = if rec_code <= 127 {
        proof {
            assert(rec_code * bpc <= spec_bitmap_record(bs@)) by (nonlinear_arith)
                requires
                    spec_bitmap_record(bs@) == bpc * le_value(bs@, 0x30, 8) + 6 * (rec_code * bpc),
                    bpc * le_value(bs@, 0x30, 8) >= 0,
                    rec_code * bpc >= 0,
            ;
        }
        rec_code as u64 * bpc
    } else {
        size_from_code(rec_code)
    };
    let mft = le64(bs, 0x30);
    proof {
        assert(bpc * mft <= spec_bitmap_record(bs@));
    }
    let addr = bpc * mft + 6 * bpr;
    NtfsGeometry { bytes_per_cluster: bpc, num_clusters: len / bpc, bitmap_record_address: addr }
}

/// The `$Bitmap` record's unnamed data attribute (type 0x80): the range of
/// virtual clusters it maps and where its data runs start.
#[derive(Clone, Copy, Debug, PartialEq, Eq, Structural)]
pub enum BitmapAttr {
    /// The attribute list ends, is malformed, or the data is resident.
    Missing,
    /// The data attribute header runs past the record.
    Truncated,
    /// A non-resident data attribute.
    Found { start_vcn: u64, last_vcn: u64, runs: usize },
}

/// The offset of the first attribute of type 0x80 from `off` on, walking
/// attribute lengths; `None` at the end marker, a zero or overlong length.
pub open spec fn attr_walk(e: Seq<u8>, off: int) -> Option<int>
    decreases e.len() - off,
{
    if off < 0 || off + 8 > e.len() {
        Some(off)
    } else if le_value(e, off, 4) == 0x80 {
        Some(off)
    } else if le_value(e, off, 4) == 0xFFFF_FFFF {
        None
    } else {
        let l = le_value(e, off + 4, 4) as int;
        if l == 0 || off + l > e.len() {
            None
        } else {
            attr_walk(e, off + l)
        }
    }
}

/// Finds the data attribute of a file record.
pub fn find_bitmap_attribute(e: &[u8]) -> (r: BitmapAttr)
    requires
        e@.len() == FILE_RECORD_LEN,
    ensures
        attr_walk(e@, le_value(e@, 0x14, 2) as int) matches Some(off) ==> {
            if off + 8 > e@.len() {
                r == BitmapAttr::Missing
            } else if off + 8 == e@.len() {
                r == BitmapAttr::Truncated
            } else if e@[off + 8] != 1 {
                r == BitmapAttr::Missing
            } else if off + 0x22 > e@.len() {
                r == BitmapAttr::Truncated
            } else {
                r == (BitmapAttr::Found {
                    start_vcn: le_value(e@, off + 0x10, 8) as u64,
                    last_vcn: le_value(e@, off + 0x18, 8) as u64,
                    runs: (off + le_value(e@, off + 0x20, 2)) as usize,
                })
            }
        },
        attr_walk(e@, le_value(e@, 0x14, 2) as int) is None ==> r == BitmapAttr::Missing,
{
    let len = e.len();
    let mut off = le16(e, 0x14) as usize;
    let ghost start = off as int;
    let mut found = false;
    while off + 8 <= len && !found
        invariant
            len == e@.len() == FILE_RECORD_LEN,
            start == le_value(e@, 0x14, 2) as int,
            off <= 0x10000 + FILE_RECORD_LEN,
            !found ==> attr_walk(e@, start) == attr_walk(e@, off as int),
            found ==> attr_walk(e@, start) == Some(off as int) && off + 8 <= len,
        decreases len + 1 - off - (if found { 1int } else { 0int }),
    {
        let t = le32(e, off);
        if t == 0x80 {
            found = true;
        } else {
            if t == 0xFFFF_FFFF {
                proof {
                    assert(attr_walk(e@, off as int) is None);
                }
                return BitmapAttr::Missing;
            }
            let l = le32(e, off + 4) as usize;
            if l == 0 || l > len - off {
                proof {
                    assert(attr_walk(e@, off as int) is None);
                }
                return BitmapAttr::Missing;
            }
            off = off + l;
        }
    }
    if off + 8 > len {
        return BitmapAttr::Missing;
    }
    if off + 8 == len {
        return BitmapAttr::Truncated;
    }
    if e[off + 8] != 1 {
        return BitmapAttr::Missing;
    }
    if off + 0x22 > len {
        return BitmapAttr::Truncated;
    }
    let start_vcn = le64(e, off + 0x10);
    let last_vcn = le64(e, off + 0x18);
    let runs = off + le16(e, off + 0x20) as usize;
    BitmapAttr::Found { start_vcn, last_vcn, runs }
}

/// One data run: `length` clusters at `delta` clusters from the previous
/// run's start; the next run header follows at `next`.
#[derive(Clone, Copy, Debug, PartialEq, Eq, Structural)]
pub struct DataRun {
    pub length: u64,
    pub delta: i64,
    pub next: usize,
}

/// Sign-extension of the low `n` bytes of `raw` (no change for `n == 0`).
pub open spec fn sign_extend(raw: u64, n: u64) -> i64 {
    if n == 0 {
        0
    } else {
        ((raw << (64 - 8 * n)) as i64) >> (64 - 8 * n)
    }
}

/// The data run whose header is at `p`: its length and the signed offset
/// of its first cluster, each little-endian in as many bytes as the header
/// nibbles say. `None` at the end marker or on a malformed header.
pub open spec fn spec_data_run(e: Seq<u8>, p: int) -> Option<DataRun> {
    let ctrl = e[p];
    let ll = (ctrl % 16) as int;
    let ol = (ctrl / 16) as int;
    if ctrl == 0 || ll == 0 || ll > 8 || ol > 8 || p + 1 + ll + ol > e.len() {
        None
    } else {
        Some(
            DataRun {
                length: le_value(e, p + 1, ll as nat) as u64,
                delta: sign_extend(le_value(e, p + 1 + ll, ol as nat) as u64, ol as u64),
                next: (p + 1 + ll + ol) as usize,
            },
        )
    }
}

fn le_bytes(e: &[u8], lo: usize, n: usize) -> (r: u64)
    requires
        n <= 8,
        lo + n <= e@.len(),
    ensures
        r == le_value(e@, lo as int, n as nat),
{
    let _len = e.len();
    let mut v: u64 = 0;
    let mut k: usize = n;
    while k > 0
        invariant
            k <= n <= 8,
            lo + n <= e@.len(),
            _len == e@.len(),
            v == le_value(e@, (lo + k) as int, (n - k) as nat),
            v < crate::le::pow256((n - k) as nat),
        decreases k,
    {
        proof {
            crate::le::lemma_le_bound(e@, (lo + k) as int, (n - k) as nat);
            lemma_pow256_8((n - k + 1) as nat);
        }
        v = v * 256 + e[lo + k - 1] as u64;
        k = k - 1;
    }
    v
}

proof fn lemma_pow256_8(n: nat)
    requires
        n <= 8,
    ensures
        crate::le::pow256(n) <= 0x1_0000_0000_0000_0000,
        crate::le::pow256(n) == 256 * crate::le::pow256((n - 1) as nat) || n == 0,
{
    reveal_with_fuel(crate::le::pow256, 9);
}

/// Decodes the data run whose header is at `p`.
pub fn data_run(e: &[u8], p: usize) -> (r: Option<DataRun>)
    requires
        p < e@.len(),
    ensures
        r == spec_data_run(e@, p as int),
{
    let ctrl = e[p];
    let ll = (ctrl % 16) as usize;
    let ol = (ctrl / 16) as usize;
    if ctrl == 0 || ll == 0 || ll > 8 || ol > 8 || ll + ol + 1 > e.len() - p {
        return None;
    }
    let length = le_bytes(e, p + 1, ll);
    let raw = le_bytes(e, p + 1 + ll, ol);
    let delta: i64 = if ol == 0 {
        0
    } else {
        let sh = (64 - 8 * ol) as u64;
        ((raw << sh) as i64) >> sh
    };
    Some(DataRun { length, delta, next: p + 1 + ll + ol })
}

/// Walks the data runs of the `$Bitmap` attribute.
pub struct RunWalker {
    pub vcn: u64,
    pub last_vcn: u64,
    pub offset: usize,
    pub lcn: i64,
}

impl RunWalker {
    /// A walk over the runs of an attribute.
    pub fn new(start_vcn: u64, last_vcn: u64, runs: usize) -> (r: RunWalker)
        ensures
            r.vcn == start_vcn && r.last_vcn == last_vcn && r.offset == runs && r.lcn == 0,
    {
        RunWalker { vcn: start_vcn, last_vcn, offset: runs, lcn: 0 }
    }

    /// The next run to read, as its first cluster and cluster count: while
    /// the virtual clusters are not all mapped and the header is inside the
    /// record; `None` at the end.
    pub fn next(&mut self, e: &[u8]) -> (r: Option<(u64, u64)>)
        requires
            old(self).offset < e@.len() && old(self).vcn <= old(self).last_vcn ==> (spec_data_run(e@, old(self).offset as int)
                matches Some(run) ==> i64::MIN <= old(self).lcn + run.delta <= i64::MAX && old(self).vcn + run.length
                <= u64::MAX),
        ensures
            !(old(self).vcn <= old(self).last_vcn && old(self).offset < e@.len()) ==> r is None && *final(self)
                == *old(self),
            old(self).vcn <= old(self).last_vcn && old(self).offset < e@.len() ==> match spec_data_run(
                e@,
                old(self).offset as int,
            ) {
                None => r is None && *final(self) == *old(self),
                Some(run) => {
                    &&& final(self).lcn == old(self).lcn + run.delta
                    &&& r == Some(((old(self).lcn + run.delta) as u64, run.length))
                    &&& final(self).vcn == old(self).vcn + run.length
                    &&& final(self).offset == run.next
                    &&& final(self).last_vcn == old(self).last_vcn
                },
            },
    {
        if !(self.vcn <= self.last_vcn && self.offset < e.len()) {
            return None;
        }
        match data_run(e, self.offset) {
            None => None,
            Some(run) => {
                self.lcn = self.lcn + run.delta;
                self.vcn = self.vcn + run.length;
                self.offset = run.next;
                Some((self.lcn as u64, run.length))
            },
        }
    }
}

/// `s` with the range `[start, start + size)` added, merged into the last
/// chunk when it ends where the range starts.
pub open spec fn push_merge(s: Seq<ChunkInfo>, start: int, size: int) -> Seq<ChunkInfo> {
    if s.len() > 0 && s.last().start + s.last().size == start {
        s.update(s.len() - 1, ChunkInfo { start: s.last().start, size: (s.last().size + size) as usize })
    } else {
        s.push(ChunkInfo { start: start as usize, size: size as usize })
    }
}

/// Adds the range `[start, start + size)` to a chunk list, merging it into
/// the last chunk when they touch.
pub fn push_chunk(chunks: &mut Vec<ChunkInfo>, start: usize, size: usize)
    requires
        old(chunks)@.len() > 0 ==> old(chunks)@.last().size + size <= usize::MAX,
    ensures
        final(chunks)@ == push_merge(old(chunks)@, start as int, size as int),
{
    let n = chunks.len();
    if n > 0 && chunks[n - 1].start as u128 + chunks[n - 1].size as u128 == start as u128 {
        let last = chunks[n - 1];
        chunks.set(n - 1, ChunkInfo { start: last.start, size: last.size + size });
    } else {
        chunks.push(ChunkInfo { start, size });
    }
}

proof fn lemma_push_merge_bound(s: Seq<ChunkInfo>, start: int, size: int)
    requires
        forall|i: int| 0 <= i < s.len() ==> (#[trigger] s[i]).start + s[i].size <= start,
        size >= 0,
        start >= 0,
        start + size <= usize::MAX,
        s.len() > 0 ==> s.last().size + size <= usize::MAX,
    ensures
        forall|i: int| 0 <= i < push_merge(s, start, size).len() ==> (#[trigger] push_merge(s, start, size)[i]).start
            + push_merge(s, start, size)[i].size <= start + size,
{
    let t = push_merge(s, start, size);
    assert forall|i: int| 0 <= i < t.len() implies (#[trigger] t[i]).start + t[i].size <= start + size by {
        if i < s.len() && t[i] == s[i] {
            assert(s[i].start + s[i].size <= start);
        }
    }
}

/// Bit `b` of a bitmap (least significant bit of each byte first).
pub open spec fn bit_at(buf: Seq<u8>, b: int) -> bool {
    (buf[b / 8] >> ((b % 8) as u8)) & 1 != 0
}

/// The used-cluster bitmap as it is read, cluster after cluster.
pub struct ClusterBitmap {
    pub cnt: u64,
    pub num_clusters: u64,
    pub bytes_per_cluster: usize,
    pub chunks: Vec<ChunkInfo>,
}

/// The chunks of the clusters `c0, c0 + 1, ...` whose bits are the first
/// `k` bits of `buf`, added to `s` (only clusters below `num`).
pub open spec fn feed_spec(s: Seq<ChunkInfo>, c0: int, num: int, bpc: int, buf: Seq<u8>, k: int) -> (Seq<ChunkInfo>, int)
    decreases k,
{
    if k <= 0 {
        (s, c0)
    } else {
        let (prev, c) = feed_spec(s, c0, num, bpc, buf, k - 1);
        if c < num {
            (if bit_at(buf, k - 1) { push_merge(prev, c * bpc, bpc) } else { prev }, c + 1)
        } else {
            (prev, c)
        }
    }
}

impl ClusterBitmap {
    /// Chunks cover whole clusters below the cluster count, in order.
    pub open spec fn wf(&self) -> bool {
        &&& self.cnt <= self.num_clusters
        &&& self.bytes_per_cluster > 0
        &&& self.num_clusters * self.bytes_per_cluster <= usize::MAX
        &&& forall|i: int| 0 <= i < self.chunks@.len() ==> (#[trigger] self.chunks@[i]).start + self.chunks@[i].size
            <= self.cnt * self.bytes_per_cluster
    }

    /// An empty bitmap reader for `num_clusters` clusters of
    /// `bytes_per_cluster` bytes.
    pub fn new(num_clusters: u64, bytes_per_cluster: usize) -> (r: ClusterBitmap)
        requires
            bytes_per_cluster > 0,
            num_clusters * bytes_per_cluster <= usize::MAX,
        ensures
            r.wf(),
            r.cnt == 0 && r.num_clusters == num_clusters && r.bytes_per_cluster == bytes_per_cluster,
            r.chunks@.len() == 0,
    {
        ClusterBitmap { cnt: 0, num_clusters, bytes_per_cluster, chunks: Vec::new() }
    }

    /// Takes in one bitmap cluster: each bit, least significant first,
    /// marks the next cluster used (a chunk) or free, until every cluster
    /// of the partition is accounted for.
    pub fn feed(&mut self, buf: &[u8])
        requires
            old(self).wf(),
        ensures
            final(self).wf(),
            final(self).num_clusters == old(self).num_clusters,
            final(self).bytes_per_cluster == old(self).bytes_per_cluster,
            (final(self).chunks@, final(self).cnt as int) == feed_spec(
                old(self).chunks@,
                old(self).cnt as int,
                old(self).num_clusters as int,
                old(self).bytes_per_cluster as int,
                buf@,
                8 * (buf@.len() as int),
            ),
    {
        let n = buf.len();
        let mut i: usize = 0;
        while i < n
            invariant
                n == buf@.len(),
                i <= n,
                self.wf(),
                self.num_clusters == old(self).num_clusters,
                self.bytes_per_cluster == old(self).bytes_per_cluster,
                (self.chunks@, self.cnt as int) == feed_spec(
                    old(self).chunks@,
                    old(self).cnt as int,
                    old(self).num_clusters as int,
                    old(self).bytes_per_cluster as int,
                    buf@,
                    8 * i,
                ),
            decreases n - i,
        {
            let byte = buf[i];
            let mut bit: u8 = 0;
            while bit < 8
                invariant
                    n == buf@.len(),
                    i < n,
                    byte == buf@[i as int],
                    bit <= 8,
                    self.wf(),
                    self.num_clusters == old(self).num_clusters,
                    self.bytes_per_cluster == old(self).bytes_per_cluster,
                    (self.chunks@, self.cnt as int) == feed_spec(
                        old(self).chunks@,
                        old(self).cnt as int,
                        old(self).num_clusters as int,
                        old(self).bytes_per_cluster as int,
                        buf@,
                        8 * i + bit,
                    ),
                decreases 8 - bit,
            {
                proof {
                    let b = 8 * i + bit;
                    assert(b / 8 == i && b % 8 == bit) by (nonlinear_arith)
                        requires
                            b == 8 * i + bit,
                            bit < 8,
                    ;
                }
                if self.cnt < self.num_clusters {
                    if (byte >> bit) & 1 != 0 {
                        let bpc = self.bytes_per_cluster;
                        proof {
                            assert(self.cnt * bpc + bpc <= self.num_clusters * bpc) by (nonlinear_arith)
                                requires
                                    self.cnt < self.num_clusters,
                                    bpc >= 0,
                            ;
                            assert(self.cnt <= self.cnt * bpc) by (nonlinear_arith)
                                requires
                                    bpc >= 1,
                                    self.cnt >= 0,
                            ;
                            if self.chunks@.len() > 0 {
                                let l = self.chunks@.len() - 1;
                                assert(self.chunks@[l].start + self.chunks@[l].size <= self.cnt * bpc);
                            }
                        }
                        let start = (self.cnt as usize) * bpc;
                        let ghost before = self.chunks@;
                        push_chunk(&mut self.chunks, start, bpc);
                        proof {
                            lemma_push_merge_bound(before, start as int, bpc as int);
                            assert((self.cnt + 1) * bpc == self.cnt * bpc + bpc) by (nonlinear_arith);
                        }
                    }
                    proof {
                        assert(self.cnt * self.bytes_per_cluster <= (self.cnt + 1) * self.bytes_per_cluster)
                            by (nonlinear_arith)
                            requires
                                self.cnt >= 0,
                        ;
                    }
                    self.cnt = self.cnt + 1;
                }
                bit = bit + 1;
            }
            i = i + 1;
        }
    }
}

/// The runs of the bitmap's data attribute from a walk at virtual cluster
/// `vcn` (the attribute maps up to `last`), run header at `off`, current
/// cluster `lcn`: each as (first cluster, cluster count), until the
/// clusters are all mapped, the header leaves the record, or an end marker
/// or malformed header comes.
pub open spec fn spec_runs(e: Seq<u8>, vcn: int, last: int, off: int, lcn: int) -> Seq<(u64, u64)>
    decreases e.len() - off,
{
    if !(vcn <= last && 0 <= off < e.len() && e.len() <= usize::MAX) {
        Seq::empty()
    } else {
        match spec_data_run(e, off) {
            None => Seq::empty(),
            Some(run) => seq![((lcn + run.delta) as u64, run.length)] + spec_runs(
                e,
                vcn + run.length,
                last,
                run.next as int,
                lcn + run.delta,
            ),
        }
    }
}

/// The walk of `spec_runs` keeps the current cluster in an `i64` and the
/// virtual cluster in a `u64`.
pub open spec fn runs_fit(e: Seq<u8>, vcn: int, last: int, off: int, lcn: int) -> bool
    decreases e.len() - off,
{
    if !(vcn <= last && 0 <= off < e.len() && e.len() <= usize::MAX) {
        true
    } else {
        match spec_data_run(e, off) {
            None => true,
            Some(run) => {
                &&& i64::MIN <= lcn + run.delta <= i64::MAX
                &&& vcn + run.length <= u64::MAX
                &&& runs_fit(e, vcn + run.length, last, run.next as int, lcn + run.delta)
            },
        }
    }
}

/// The runs of the `$Bitmap` data attribute found in file record `e`
/// (first virtual cluster `start_vcn`, last `last_vcn`, run list at `runs`),
/// as (first cluster, cluster count).
pub fn bitmap_runs(e: &[u8], start_vcn: u64, last_vcn: u64, runs: usize) -> (r: Vec<(u64, u64)>)
    requires
        runs_fit(e@, start_vcn as int, last_vcn as int, runs as int, 0),
    ensures
        r@ == spec_runs(e@, start_vcn as int, last_vcn as int, runs as int, 0),
{
    let len = e.len();
    let mut w = RunWalker::new(start_vcn, last_vcn, runs);
    let mut out: Vec<(u64, u64)> = Vec::new();
    loop
        invariant
            len == e@.len(),
            w.last_vcn == last_vcn,
            runs_fit(e@, w.vcn as int, last_vcn as int, w.offset as int, w.lcn as int),
            out@ + spec_runs(e@, w.vcn as int, last_vcn as int, w.offset as int, w.lcn as int) == spec_runs(
                e@,
                start_vcn as int,
                last_vcn as int,
                runs as int,
                0,
            ),
        ensures
            out@ == spec_runs(e@, start_vcn as int, last_vcn as int, runs as int, 0),
        decreases e@.len() - w.offset,
    {
        let ghost w0 = w;
        match w.next(e) {
            None => {
                proof {
                    assert(spec_runs(e@, w0.vcn as int, last_vcn as int, w0.offset as int, w0.lcn as int) =~= Seq::<(u64, u64)>::empty());
                    assert(out@ + Seq::<(u64, u64)>::empty() =~= out@);
                }
                break;
            },
            Some(x) => {
                let ghost before = out@;
                out.push(x);
                proof {
                    assert(out@ + spec_runs(e@, w.vcn as int, last_vcn as int, w.offset as int, w.lcn as int) =~= before
                        + spec_runs(e@, w0.vcn as int, last_vcn as int, w0.offset as int, w0.lcn as int));
                }
            },
        }
    }
    out
}

/// The clusters of `runs`, run by run, each cluster's byte offset in the
/// partition.
pub open spec fn run_offsets(runs: Seq<(u64, u64)>, bpc: int) -> Seq<int>
    decreases runs.len(),
{
    if runs.len() == 0 {
        Seq::empty()
    } else {
        run_offsets(runs.drop_last(), bpc) + Seq::new(
            runs.last().1 as nat,
            |i: int| (runs.last().0 + i) * bpc,
        )
    }
}

/// Byte offsets (within the partition) of the bitmap clusters to read, in
/// the order the runs give them.
pub fn bitmap_cluster_offsets(runs: &Vec<(u64, u64)>, bytes_per_cluster: u64) -> (r: Vec<u64>)
    requires
        forall|j: int| 0 <= j < runs@.len() ==> (#[trigger] runs@[j]).0 + runs@[j].1 <= u64::MAX && (runs@[j].0
            + runs@[j].1) * bytes_per_cluster <= u64::MAX,
        run_offsets(runs@, bytes_per_cluster as int).len() <= usize::MAX,
    ensures
        r@.len() == run_offsets(runs@, bytes_per_cluster as int).len(),
        forall|k: int| 0 <= k < r@.len() ==> #[trigger] r@[k] == run_offsets(runs@, bytes_per_cluster as int)[k],
{
    let mut out: Vec<u64> = Vec::new();
    let mut j: usize = 0;
    while j < runs.len()
        invariant
            j <= runs@.len(),
            forall|q: int| 0 <= q < runs@.len() ==> (#[trigger] runs@[q]).0 + runs@[q].1 <= u64::MAX && (runs@[q].0
                + runs@[q].1) * bytes_per_cluster <= u64::MAX,
            run_offsets(runs@, bytes_per_cluster as int).len() <= usize::MAX,
            out@.len() == run_offsets(runs@.take(j as int), bytes_per_cluster as int).len(),
            forall|k: int| 0 <= k < out@.len() ==> #[trigger] out@[k] == run_offsets(runs@.take(j as int), bytes_per_cluster as int)[k],
        decreases runs@.len() - j,
    {
        let (lcn, count) = runs[j];
        proof {
            assert(runs@.take(j as int + 1).drop_last() =~= runs@.take(j as int));
            lemma_run_offsets_prefix(runs@, bytes_per_cluster as int, j as int + 1);
        }
        let ghost base = out@;
        let mut i: u64 = 0;
        while i < count
            invariant
                j < runs@.len(),
                runs@[j as int] == (lcn, count),
                lcn + count <= u64::MAX,
                (lcn + count) * bytes_per_cluster <= u64::MAX,
                i <= count,
                base.len() + count <= usize::MAX,
                out@.len() == base.len() + i,
                forall|k: int| 0 <= k < base.len() ==> #[trigger] out@[k] == base[k],
                forall|k: int| 0 <= k < i ==> #[trigger] out@[base.len() + k] == (lcn + k) * bytes_per_cluster,
            decreases count - i,
        {
            proof {
                assert((lcn + i) * bytes_per_cluster <= (lcn + count) * bytes_per_cluster) by (nonlinear_arith)
                    requires i <= count;
            }
            out.push((lcn + i) * bytes_per_cluster);
            i = i + 1;
        }
        proof {
            let t = run_offsets(runs@.take(j as int + 1), bytes_per_cluster as int);
            assert(out@.len() == t.len());
            assert forall|k: int| 0 <= k < out@.len() implies #[trigger] out@[k] == t[k] by {
                if k >= base.len() {
                    assert(out@[base.len() + (k - base.len())] == (lcn + (k - base.len())) * bytes_per_cluster);
                }
            }
        }
        j = j + 1;
    }
    proof {
        assert(runs@.take(runs@.len() as int) =~= runs@);
    }
    out
}

proof fn lemma_run_offsets_prefix(runs: Seq<(u64, u64)>, bpc: int, j: int)
    requires
        0 <= j <= runs.len(),
    ensures
        run_offsets(runs.take(j), bpc).len() <= run_offsets(runs, bpc).len(),
    decreases runs.len() - j,
{
    if j < runs.len() {
        lemma_run_offsets_prefix(runs, bpc, j + 1);
        assert(runs.take(j + 1).drop_last() =~= runs.take(j));
        assert(run_offsets(runs.take(j + 1), bpc).len() >= run_offsets(runs.take(j), bpc).len());
    } else {
        assert(runs.take(j) =~= runs);
    }
}

/// The chunks of the bitmap clusters `bufs` read in order, from cluster 0:
/// the state after feeding the first `k` of them.
pub open spec fn feed_all(num: int, bpc: int, bufs: Seq<Vec<u8>>, k: int) -> (Seq<ChunkInfo>, int)
    decreases k,
{
    if k <= 0 {
        (Seq::empty(), 0)
    } else {
        let (s, c) = feed_all(num, bpc, bufs, k - 1);
        feed_spec(s, c, num, bpc, bufs[k - 1]@, 8 * (bufs[k - 1]@.len() as int))
    }
}

/// The chunks of an NTFS partition of `num_clusters` clusters of
/// `bytes_per_cluster` bytes, from the clusters of its `$Bitmap` read in
/// run order: one cluster-sized chunk per set bit (least significant bit
/// first), touching chunks merged, bits past the last cluster ignored.
pub fn get_ntfs_chunks(num_clusters: u64, bytes_per_cluster: usize, bitmap: &Vec<Vec<u8>>) -> (r: Vec<ChunkInfo>)
    requires
        bytes_per_cluster > 0,
        num_clusters * bytes_per_cluster <= usize::MAX,
    ensures
        r@ == feed_all(num_clusters as int, bytes_per_cluster as int, bitmap@, bitmap@.len() as int).0,
{
    let mut cb = ClusterBitmap::new(num_clusters, bytes_per_cluster);
    let mut k: usize = 0;
    while k < bitmap.len()
        invariant
            k <= bitmap@.len(),
            cb.wf(),
            cb.num_clusters == num_clusters,
            cb.bytes_per_cluster == bytes_per_cluster,
            (cb.chunks@, cb.cnt as int) == feed_all(num_clusters as int, bytes_per_cluster as int, bitmap@, k as int),
        decreases bitmap@.len() - k,
    {
        cb.feed(bitmap[k].as_slice());
        k = k + 1;
    }
    cb.chunks
}

} // verus!
