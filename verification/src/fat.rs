//! FAT12/16/32: which clusters of a partition are in use, read from the
//! extended BIOS parameter block and the first allocation table.

use vstd::prelude::*;
use crate::chunks::ChunkInfo;
use crate::le::{le16, le32, le_value};

verus! {

/// The width of the allocation table entries.
#[derive(Clone, Copy, Debug, PartialEq, Eq, Structural)]
pub enum FatType {
    Fat12,
    Fat16,
    Fat32,
}

/// Bytes a table needs to hold entry `idx`.
pub open spec fn entry_end(t: FatType, idx: int) -> int {
    match t {
        FatType::Fat12 => idx * 3 / 2 + 2,
        FatType::Fat16 => idx * 2 + 2,
        FatType::Fat32 => idx * 4 + 4,
    }
}

/// Entry `idx` of an allocation table.
pub open spec fn spec_entry(t: FatType, buf: Seq<u8>, idx: int) -> u64 {
    match t {
        FatType::Fat12 => (((le_value(buf, idx * 3 / 2, 2) as u16) >> (if idx % 2 == 1 { 4u16 } else { 0u16 })) & 0x0FFF) as u64,
        FatType::Fat16 => le_value(buf, idx * 2, 2) as u64,
        FatType::Fat32 => (le_value(buf, idx * 4, 4) as u64) & 0x0FFF_FFFF,
    }
}

impl FatType {
    /// Bits per table entry.
    pub fn bits(self) -> (r: usize)
        ensures
            r == (match self {
                FatType::Fat12 => 12usize,
                FatType::Fat16 => 16usize,
                FatType::Fat32 => 32usize,
            }),
    {
        match self {
            FatType::Fat12 => 12,
            FatType::Fat16 => 16,
            FatType::Fat32 => 32,
        }
    }

    /// Entry `idx` of the allocation table `buf`: twelve bits at byte
    /// `idx * 3 / 2` (the upper ones for odd entries), or a little-endian
    /// 16-bit word, or the low 28 bits of a 32-bit word.
    pub fn index(self, buf: &[u8], idx: usize) -> (r: u64)
        requires
            entry_end(self, idx as int) <= buf@.len(),
        ensures
            r == spec_entry(self, buf@, idx as int),
    {
        let _len = buf.len();
        match self {
            FatType::Fat12 => {
                let byte = idx / 2 + idx;
                proof {
                    assert(idx / 2 + idx == idx * 3 / 2);
                }
                let v = le16(buf, byte);
                proof {
                    assert(idx & 1 == idx % 2) by (bit_vector);
                }
                let shift: u16 = if idx & 1 == 1 { 4 } else { 0 };
                ((v >> shift) & 0x0FFF) as u64
            },
            FatType::Fat16 => le16(buf, idx * 2) as u64,
            FatType::Fat32 => (le32(buf, idx * 4) as u64) & 0x0FFF_FFFF,
        }
    }
}

/// The layout of a FAT file system.
#[derive(Clone, Copy, Debug)]
pub struct FatGeometry {
    pub fat_type: FatType,
    pub sector_size: u64,
    pub sectors_per_cluster: u64,
    pub total_sectors: u64,
    pub first_fat_sector: u64,
    pub fat_size: u64,
    pub table_count: u64,
    pub root_dir_entries: u64,
}

/// The bytes `"FAT32   "`, `"FAT16   "`, `"FAT12   "` at `lo`.
pub open spec fn has_label(b: Seq<u8>, lo: int, digit1: u8, digit2: u8) -> bool {
    &&& b[lo] == 70 && b[lo + 1] == 65 && b[lo + 2] == 84
    &&& b[lo + 3] == digit1 && b[lo + 4] == digit2
    &&& b[lo + 5] == 32 && b[lo + 6] == 32 && b[lo + 7] == 32
}

/// The table type a boot sector announces, if any.
pub open spec fn spec_fat_type(b: Seq<u8>) -> Option<FatType> {
    if has_label(b, 0x52, 51, 50) {
        Some(FatType::Fat32)
    } else if has_label(b, 0x36, 49, 54) {
        Some(FatType::Fat16)
    } else if has_label(b, 0x36, 49, 50) {
        Some(FatType::Fat12)
    } else {
        None
    }
}

fn label_at(b: &[u8], lo: usize, digit1: u8, digit2: u8) -> (r: bool)
    requires
        lo + 8 <= b@.len(),
    ensures
        r == has_label(b@, lo as int, digit1, digit2),
{
    b[lo] == 70 && b[lo + 1] == 65 && b[lo + 2] == 84 && b[lo + 3] == digit1 && b[lo + 4] == digit2 && b[lo + 5]
        == 32 && b[lo + 6] == 32 && b[lo + 7] == 32
}

/// The geometry a FAT boot sector describes.
pub open spec fn spec_fat_geometry(b: Seq<u8>, t: FatType) -> FatGeometry {
    let short = le_value(b, 0x13, 2);
    FatGeometry {
        fat_type: t,
        sector_size: le_value(b, 0x0B, 2) as u64,
        sectors_per_cluster: b[0x0D] as u64,
        total_sectors: (if short > 0 { short } else { le_value(b, 0x20, 4) }) as u64,
        first_fat_sector: le_value(b, 0x0E, 2) as u64,
        fat_size: (match t {
            FatType::Fat32 => le_value(b, 0x24, 4),
            _ => le_value(b, 0x16, 2),
        }) as u64,
        table_count: b[0x10] as u64,
        root_dir_entries: le_value(b, 0x11, 2) as u64,
    }
}

/// Law: the size of one allocation table comes from the field of the
/// table type the boot sector announces. A sector labelled `FAT32   ` at
/// byte 0x52 gives the 32-bit little-endian value at 0x24 (BPB_FATSz32); a
/// sector labelled `FAT16   ` or `FAT12   ` at 0x36 (and not `FAT32   ` at
/// 0x52) gives the 16-bit value at 0x16 (BPB_FATSz16).
pub proof fn lemma_fat_size_field(b: Seq<u8>)
    requires
        b.len() >= 512,
    ensures
        (b[0x52] == 70 && b[0x53] == 65 && b[0x54] == 84 && b[0x55] == 51 && b[0x56] == 50 && b[0x57] == 32
            && b[0x58] == 32 && b[0x59] == 32) ==> {
            &&& spec_fat_type(b) == Some(FatType::Fat32)
            &&& spec_fat_geometry(b, FatType::Fat32).fat_size == b[0x24] as int + 256 * b[0x25] as int + 65536
                * b[0x26] as int + 16777216 * b[0x27] as int
        },
        (!has_label(b, 0x52, 51, 50) && b[0x36] == 70 && b[0x37] == 65 && b[0x38] == 84 && b[0x39] == 49 && (b[0x3A]
            == 54 || b[0x3A] == 50) && b[0x3B] == 32 && b[0x3C] == 32 && b[0x3D] == 32) ==> {
            &&& spec_fat_type(b) is Some
            &&& spec_fat_type(b) != Some(FatType::Fat32)
            &&& spec_fat_geometry(b, spec_fat_type(b)->0).fat_size == b[0x16] as int + 256 * b[0x17] as int
        },
{
    reveal_with_fuel(le_value, 5);
}

/// The geometry of the FAT file system on the partition `start..end`, given
/// its first 512 bytes (read only when the partition holds that many):
/// `None` when the partition is shorter than a boot sector or the sector
/// carries no FAT label.
pub fn fat_partition_geometry(start: u64, end: u64, boot: &[u8]) -> (r: Option<FatGeometry>)
    requires
        start <= end,
        end - start >= 512 ==> boot@.len() >= 512,
    ensures
        end - start < 512 ==> r is None,
        end - start >= 512 ==> {
            &&& r is None <==> spec_fat_type(boot@) is None
            &&& r matches Some(g) ==> g == spec_fat_geometry(boot@, spec_fat_type(boot@)->0)
        },
{
    if end - start < 512 {
        return None;
    }
    parse_fat_boot_sector(boot)
}

/// Reads the extended BIOS parameter block: `None` when it carries no FAT
/// label.
pub fn parse_fat_boot_sector(b: &[u8]) -> (r: Option<FatGeometry>)
    requires
        b@.len() >= 512,
    ensures
        r is None <==> spec_fat_type(b@) is None,
        r matches Some(g) ==> g == spec_fat_geometry(b@, spec_fat_type(b@)->0),
{
    let t = if label_at(b, 0x52, 51, 50) {
        FatType::Fat32
    } else if label_at(b, 0x36, 49, 54) {
        FatType::Fat16
    } else if label_at(b, 0x36, 49, 50) {
        FatType::Fat12
    } else {
        return None;
    };
    let short = le16(b, 0x13) as u64;
    let total = if short > 0 { short } else { le32(b, 0x20) as u64 };
    let fat_size = match t {
        FatType::Fat32 => le32(b, 0x24) as u64,
        _ => le16(b, 0x16) as u64,
    };
    Some(FatGeometry {
        fat_type: t,
        sector_size: le16(b, 0x0B) as u64,
        sectors_per_cluster: b[0x0D] as u64,
        total_sectors: total,
        first_fat_sector: le16(b, 0x0E) as u64,
        fat_size,
        table_count: b[0x10] as u64,
        root_dir_entries: le16(b, 0x11) as u64,
    })
}

impl FatGeometry {
    /// Sectors of the root directory (FAT12/16), rounded up.
    pub open spec fn root_dir_sectors(&self) -> int {
        let bytes = self.root_dir_entries * 32;
        bytes / (self.sector_size as int) + (if bytes % (self.sector_size as int) != 0 { 1int } else { 0int })
    }

    /// First sector of the data area.
    pub open spec fn first_data_sector(&self) -> int {
        self.first_fat_sector + self.fat_size * self.table_count + self.root_dir_sectors()
    }

    /// Clusters of the data area.
    pub open spec fn data_clusters(&self) -> int {
        (self.total_sectors - self.first_data_sector()) / (self.sectors_per_cluster as int)
    }

    /// The layout is usable: non-zero sizes, a data area inside the file
    /// system, and byte offsets that fit in memory.
    pub open spec fn sane(&self) -> bool {
        &&& self.sector_size > 0
        &&& self.sectors_per_cluster > 0
        &&& self.root_dir_entries * 32 <= u64::MAX
        &&& self.first_data_sector() <= self.total_sectors
        &&& self.total_sectors * self.sector_size <= usize::MAX
        &&& self.fat_size * self.sector_size <= usize::MAX
    }

    /// Whether `get_fat_chunks` applies: a sane layout and a table of
    /// `fat_len` bytes with an entry for every data cluster.
    pub fn ready(&self, fat_len: usize) -> (r: bool)
        ensures
            r == (self.sane() && entry_end(self.fat_type, self.data_clusters() + 1) <= fat_len),
    {
        if self.sector_size == 0 || self.sectors_per_cluster == 0 || self.root_dir_entries > u64::MAX / 32 {
            return false;
        }
        let root_bytes = self.root_dir_entries * 32;
        let root_sectors = root_bytes / self.sector_size + if root_bytes % self.sector_size != 0 { 1u64 } else { 0u64 };
        let t = match self.fat_size.checked_mul(self.table_count) {
            Some(t) => t,
            None => {
                proof {
                    assert(self.fat_size * self.table_count > u64::MAX);
                    assert(self.root_dir_sectors() >= 0);
                }
                return false;
            },
        };
        let first = match self.first_fat_sector.checked_add(t) {
            Some(f) => f,
            None => {
                return false;
            },
        };
        let first = match first.checked_add(root_sectors) {
            Some(f) => f,
            None => {
                return false;
            },
        };
        if first > self.total_sectors {
            return false;
        }
        match self.total_sectors.checked_mul(self.sector_size) {
            Some(v) => {
                if v > usize::MAX as u64 {
                    return false;
                }
            },
            None => {
                return false;
            },
        }
        match self.fat_size.checked_mul(self.sector_size) {
            Some(v) => {
                if v > usize::MAX as u64 {
                    return false;
                }
            },
            None => {
                return false;
            },
        }
        let clusters = (self.total_sectors - first) / self.sectors_per_cluster;
        proof {
            assert(clusters as int == self.data_clusters());
        }
        let idx = clusters as u128 + 1;
        let end: u128 = match self.fat_type {
            FatType::Fat12 => idx * 3 / 2 + 2,
            FatType::Fat16 => idx * 2 + 2,
            FatType::Fat32 => idx * 4 + 4,
        };
        end <= fat_len as u128
    }

    /// Byte size of one allocation table.
    pub fn table_bytes(&self) -> (r: usize)
        requires
            self.sane(),
        ensures
            r == self.fat_size * self.sector_size,
            r as int == self.fat_size * self.sector_size,
    {
        (self.fat_size * self.sector_size) as usize
    }
}

/// The chunk of cluster `idx` (from 2) of the data area.
pub open spec fn cluster_chunk(g: FatGeometry, idx: int) -> ChunkInfo {
    ChunkInfo {
        start: ((g.first_data_sector() + (idx - 2) * g.sectors_per_cluster) * g.sector_size) as usize,
        size: (g.sectors_per_cluster * g.sector_size) as usize,
    }
}

/// The chunks of the used clusters `2..2 + k`, in order.
pub open spec fn used_clusters(g: FatGeometry, fat: Seq<u8>, k: int) -> Seq<ChunkInfo>
    decreases k,
{
    if k <= 0 {
        Seq::empty()
    } else {
        let prev = used_clusters(g, fat, k - 1);
        if spec_entry(g.fat_type, fat, k + 1) != 0 {
            prev.push(cluster_chunk(g, k + 1))
        } else {
            prev
        }
    }
}

/// The data clusters `2, 3, ..., k + 1`.
pub open spec fn cluster_numbers(k: int) -> Seq<int> {
    Seq::new(k as nat, |i: int| i + 2)
}

/// Whether a cluster's table entry marks it in use (not zero).
pub open spec fn cluster_in_use(g: FatGeometry, fat: Seq<u8>) -> spec_fn(int) -> bool {
    |c: int| spec_entry(g.fat_type, fat, c) != 0
}

/// The chunk of a cluster.
pub open spec fn chunk_of_cluster(g: FatGeometry) -> spec_fn(int) -> ChunkInfo {
    |c: int| cluster_chunk(g, c)
}

/// `used_clusters` stated directly: one chunk for each cluster among
/// `2..2 + k` whose table entry is not zero, in increasing cluster order.
pub proof fn lemma_used_clusters_direct(g: FatGeometry, fat: Seq<u8>, k: int)
    requires
        k >= 0,
    ensures
        used_clusters(g, fat, k) == cluster_numbers(k).filter(cluster_in_use(g, fat)).map_values(chunk_of_cluster(g)),
    decreases k,
{
    if k > 0 {
        lemma_used_clusters_direct(g, fat, k - 1);
        let s = cluster_numbers(k - 1);
        assert(cluster_numbers(k) =~= s.push(k + 1));
        s.lemma_filter_push(k + 1, cluster_in_use(g, fat));
        let t = s.filter(cluster_in_use(g, fat));
        assert(t.push(k + 1).map_values(chunk_of_cluster(g)) =~= t.map_values(chunk_of_cluster(g)).push(cluster_chunk(g, k + 1)));
    }
}

/// The table holds an entry for every cluster of the data area.
pub open spec fn table_covers(g: FatGeometry, fat: Seq<u8>) -> bool {
    entry_end(g.fat_type, g.data_clusters() + 1) <= fat.len()
}

/// The chunks of a FAT file system that hold data: the reserved sectors,
/// tables and root directory in one chunk, then each used cluster.
pub fn get_fat_chunks(g: &FatGeometry, fat: &[u8]) -> (r: Vec<ChunkInfo>)
    requires
        g.sane(),
        table_covers(*g, fat@),
    ensures
        r@ == seq![ChunkInfo { start: 0, size: (g.first_data_sector() * g.sector_size) as usize }] + used_clusters(
            *g,
            fat@,
            g.data_clusters(),
        ),
        r@ == seq![ChunkInfo { start: 0, size: (g.first_data_sector() * g.sector_size) as usize }]
            + cluster_numbers(g.data_clusters()).filter(cluster_in_use(*g, fat@)).map_values(
            chunk_of_cluster(*g),
        ),
{
    let fat_len = fat.len();
    let ss = g.sector_size;
    let spc = g.sectors_per_cluster;
    let root_bytes = g.root_dir_entries * 32;
    let root_sectors = root_bytes / ss + if root_bytes % ss != 0 { 1u64 } else { 0u64 };
    proof {
        assert(g.fat_size * g.table_count + root_sectors <= g.total_sectors);
        assert(g.first_data_sector() * g.sector_size <= g.total_sectors * g.sector_size) by (nonlinear_arith)
            requires
                g.first_data_sector() <= g.total_sectors,
                g.sector_size > 0,
        ;
        assert(g.first_data_sector() >= 0) by (nonlinear_arith)
            requires
                g.first_data_sector() == g.first_fat_sector + g.fat_size * g.table_count + g.root_dir_sectors(),
                g.root_dir_sectors() >= 0,
                g.fat_size * g.table_count >= 0,
        ;
    }
    let first_data = g.first_fat_sector + g.fat_size * g.table_count + root_sectors;
    let count = (g.total_sectors - first_data) / spc;
    let mut chunks: Vec<ChunkInfo> = Vec::new();
    chunks.push(ChunkInfo { start: 0, size: (first_data * ss) as usize });
    let mut k: u64 = 0;
    while k < count
        invariant
            ss == g.sector_size,
            spc == g.sectors_per_cluster,
            first_data == g.first_data_sector(),
            count == g.data_clusters(),
            g.sane(),
            table_covers(*g, fat@),
            fat_len == fat@.len(),
            k <= count,
            chunks@ == seq![ChunkInfo { start: 0, size: (g.first_data_sector() * g.sector_size) as usize }]
                + used_clusters(*g, fat@, k as int),
        decreases count - k,
    {
        proof {
            lemma_entry_end_mono(g.fat_type, k + 2, count + 1);
        }
        let idx = k + 2;
        let e = g.fat_type.index(fat, idx as usize);
        if e != 0 {
            proof {
                assert(k * spc <= g.total_sectors - first_data) by (nonlinear_arith)
                    requires
                        k < count,
                        count == (g.total_sectors - first_data) / (spc as int),
                        spc > 0,
                        first_data <= g.total_sectors,
                ;
                assert((first_data + k * spc) * ss <= g.total_sectors * ss) by (nonlinear_arith)
                    requires
                        k < count,
                        count == (g.total_sectors - first_data) / (spc as int),
                        spc > 0,
                        first_data <= g.total_sectors,
                        ss > 0,
                ;
                assert(spc * ss <= g.total_sectors * ss) by (nonlinear_arith)
                    requires
                        k < count,
                        count == (g.total_sectors - first_data) / (spc as int),
                        spc > 0,
                        first_data <= g.total_sectors,
                        ss > 0,
                ;
            }
            let start = ((first_data + k * spc) * ss) as usize;
            chunks.push(ChunkInfo { start, size: (spc * ss) as usize });
        }
        proof {
            assert(used_clusters(*g, fat@, k as int + 1) == (if spec_entry(g.fat_type, fat@, k + 2) != 0 {
                used_clusters(*g, fat@, k as int).push(cluster_chunk(*g, k + 2))
            } else {
                used_clusters(*g, fat@, k as int)
            }));
        }
        k = k + 1;
    }
    proof {
        lemma_used_clusters_direct(*g, fat@, g.data_clusters());
    }
    chunks
}

proof fn lemma_entry_end_mono(t: FatType, a: int, b: int)
    requires
        0 <= a <= b,
    ensures
        entry_end(t, a) <= entry_end(t, b),
        a <= entry_end(t, a),
{
}

} // verus!
