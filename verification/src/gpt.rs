//! GUID partition tables: the byte ranges the table itself occupies, and the
//! assembly of a whole-disk chunk list from the partitions' chunk lists.

use vstd::prelude::*;
use crate::chunks::ChunkInfo;
use crate::le::{le64, le_value};
use vstd::multiset::Multiset;
use gpt_disk_io::gpt_disk_types::BlockSize;
use gpt_disk_io::BlockIoAdapter;

verus! {

/// A used partition, as bytes `[byte_start, byte_end)` of the disk.
#[derive(Debug)]
pub struct DiskPartition {
    pub byte_start: u64,
    pub byte_end: u64,
    pub guid: String,
    pub name: String,
}

/// The fields of a GPT header that locate it and its partition entry array.
#[derive(Clone, Copy, Debug)]
pub struct GptHeaderInfo {
    pub my_lba: u64,
    pub partition_entry_lba: u64,
    pub number_of_partition_entries: u32,
    pub size_of_partition_entry: u32,
}

/// `ceil(a / b)`.
pub open spec fn div_ceil(a: int, b: int) -> int {
    (a + b - 1) / b
}

/// The bytes `[lo, hi)` covering a GPT header block and its entry array.
pub open spec fn spec_gpt_range(h: GptHeaderInfo, block_size: int) -> (int, int) {
    let header_start = h.my_lba * block_size;
    let header_end = header_start + block_size;
    let entries_bytes = h.number_of_partition_entries as int * h.size_of_partition_entry as int;
    let entries_start = h.partition_entry_lba * block_size;
    let entries_end = entries_start + div_ceil(entries_bytes, block_size) * block_size;
    (
        if header_start <= entries_start { header_start } else { entries_start },
        if header_end >= entries_end { header_end } else { entries_end },
    )
}

/// Whether the arithmetic of `gpt_range` stays within `u64`.
pub open spec fn gpt_range_fits(h: GptHeaderInfo, block_size: int) -> bool {
    let entries_bytes = h.number_of_partition_entries as int * h.size_of_partition_entry as int;
    &&& h.my_lba * block_size + block_size <= u64::MAX
    &&& h.partition_entry_lba * block_size + div_ceil(entries_bytes, block_size) * block_size <= u64::MAX
    &&& entries_bytes + block_size <= u64::MAX
}

/// The byte range that a GPT header and its partition entry array occupy.
pub fn gpt_range(header: &GptHeaderInfo, block_size: u64) -> (r: (u64, u64))
    requires
        block_size > 0,
        gpt_range_fits(*header, block_size as int),
    ensures
        (r.0 as int, r.1 as int) == spec_gpt_range(*header, block_size as int),
{
    let entries_bytes = header.number_of_partition_entries as u64 * header.size_of_partition_entry as u64;
    proof {
        assert(header.number_of_partition_entries as int * header.size_of_partition_entry as int <= u32::MAX * u32::MAX) by (nonlinear_arith)
            requires header.number_of_partition_entries <= u32::MAX, header.size_of_partition_entry <= u32::MAX;
        assert(header.my_lba * block_size <= header.my_lba * block_size + block_size);
        let eb = entries_bytes as int;
        assert(div_ceil(eb, block_size as int) * block_size >= 0) by (nonlinear_arith)
            requires eb >= 0, block_size > 0;
        assert(header.partition_entry_lba * block_size >= 0) by (nonlinear_arith);
    }
    let header_start = header.my_lba * block_size;
    let header_end = header_start + block_size;
    let entries_blocks = (entries_bytes + block_size - 1) / block_size;
    let entries_start = header.partition_entry_lba * block_size;
    let entries_end = entries_start + entries_blocks * block_size;
    let lo = if header_start <= entries_start { header_start } else { entries_start };
    let hi = if header_end >= entries_end { header_end } else { entries_end };
    (lo, hi)
}

/// Whether the partitions are in increasing order of `byte_start`.
pub open spec fn sorted_by_start(s: Seq<DiskPartition>) -> bool {
    forall|i: int, j: int| #![trigger s[i], s[j]] 0 <= i < j < s.len() ==> s[i].byte_start <= s[j].byte_start
}

/// Sorts partitions by their first byte (a stable insertion sort).
pub fn sort_partitions(partitions: Vec<DiskPartition>) -> (r: Vec<DiskPartition>)
    ensures
        sorted_by_start(r@),
        r@.to_multiset() == partitions@.to_multiset(),
{
    broadcast use vstd::seq_lib::group_to_multiset_ensures, vstd::multiset::group_multiset_axioms;

    let mut input = partitions;
    let mut out: Vec<DiskPartition> = Vec::new();
    proof {
        assert(out@.to_multiset() =~= Multiset::empty()) by {
            assert(out@.to_multiset().len() == 0);
        }
        assert(out@.to_multiset().add(input@.to_multiset()) =~= input@.to_multiset());
    }
    while input.len() > 0
        invariant
            sorted_by_start(out@),
            out@.to_multiset().add(input@.to_multiset()) == partitions@.to_multiset(),
        decreases input@.len(),
    {
        let ghost in0 = input@;
        let last = input.len() - 1;
        let p = input.remove(last);
        assert(in0.remove(last as int) =~= input@);
        proof {
            vstd::seq_lib::to_multiset_remove(in0, last as int);
        }
        let mut pos: usize = 0;
        while pos < out.len() && out[pos].byte_start < p.byte_start
            invariant
                pos <= out@.len(),
                forall|i: int| 0 <= i < pos ==> (#[trigger] out@[i]).byte_start < p.byte_start,
            decreases out@.len() - pos,
        {
            pos = pos + 1;
        }
        let ghost out0 = out@;
        out.insert(pos, p);
        proof {
            assert forall|i: int, j: int| #![trigger out@[i], out@[j]] 0 <= i < j < out@.len() implies out@[i].byte_start
                <= out@[j].byte_start by {
                if j < pos {
                    assert(out@[i] == out0[i] && out@[j] == out0[j]);
                } else if j == pos {
                    assert(out@[i] == out0[i]);
                } else if i == pos {
                    assert(out@[j] == out0[j - 1]);
                    if pos < out0.len() {
                        assert(out0[pos as int].byte_start >= p.byte_start);
                        if pos < j - 1 {
                            assert(out0[pos as int].byte_start <= out0[j - 1].byte_start);
                        }
                    }
                } else if i < pos {
                    assert(out@[i] == out0[i] && out@[j] == out0[j - 1]);
                } else {
                    assert(out@[i] == out0[i - 1] && out@[j] == out0[j - 1]);
                }
            }
            assert(in0.to_multiset() == input@.to_multiset().insert(p)) by {
                assert(in0.to_multiset().remove(in0[last as int]) == input@.to_multiset());
                assert(in0[last as int] == p);
                assert(in0.to_multiset().contains(p)) by {
                    vstd::seq_lib::to_multiset_contains(in0, p);
                    assert(in0.contains(p)) by {
                        assert(in0[last as int] == p);
                    }
                }
            }
            vstd::seq_lib::to_multiset_insert(out0, pos as int, p);
            assert(out@.to_multiset() == out0.to_multiset().insert(p));
            assert(out@.to_multiset().add(input@.to_multiset()) =~= out0.to_multiset().add(in0.to_multiset()));
        }
    }
    proof {
        assert(input@.to_multiset() =~= Multiset::empty()) by {
            assert(input@.to_multiset().len() == 0);
        }
        assert(out@.to_multiset().add(Multiset::empty()) =~= out@.to_multiset());
    }
    out
}

/// `s` with every chunk moved `off` bytes later.
pub open spec fn shifted(s: Seq<ChunkInfo>, off: int) -> Seq<ChunkInfo> {
    s.map_values(|c: ChunkInfo| ChunkInfo { start: (c.start + off) as usize, size: c.size })
}

/// The chunks of the first `k` partitions, each moved to its partition's offset.
pub open spec fn all_partition_chunks(parts: Seq<DiskPartition>, pchunks: Seq<Vec<ChunkInfo>>, k: int) -> Seq<ChunkInfo>
    decreases k,
{
    if k <= 0 {
        Seq::empty()
    } else {
        all_partition_chunks(parts, pchunks, k - 1) + shifted(pchunks[k - 1]@, parts[k - 1].byte_start as int)
    }
}

/// The whole-disk chunk list: the primary GPT area, every partition's chunks
/// at their partition's offset, and the backup GPT area when the last
/// partition ends before the disk does.
pub open spec fn spec_gpt_chunks(
    disk_size: int,
    primary: (u64, u64),
    secondary: (u64, u64),
    parts: Seq<DiskPartition>,
    pchunks: Seq<Vec<ChunkInfo>>,
) -> Seq<ChunkInfo> {
    let pos = if parts.len() == 0 { 0 } else { parts[parts.len() - 1].byte_end as int };
    let head = seq![ChunkInfo { start: 0, size: primary.1 as usize }];
    let body = head + all_partition_chunks(parts, pchunks, parts.len() as int);
    if pos < disk_size {
        body.push(ChunkInfo { start: secondary.0 as usize, size: (secondary.1 - secondary.0) as usize })
    } else {
        body
    }
}

/// The total number of chunks in the first `k` partition chunk lists.
pub open spec fn chunk_count(pchunks: Seq<Vec<ChunkInfo>>, k: int) -> int
    decreases k,
{
    if k <= 0 {
        0
    } else {
        chunk_count(pchunks, k - 1) + pchunks[k - 1]@.len()
    }
}

proof fn lemma_all_partition_chunks_len(parts: Seq<DiskPartition>, pchunks: Seq<Vec<ChunkInfo>>, k: int)
    requires
        0 <= k <= pchunks.len(),
    ensures
        all_partition_chunks(parts, pchunks, k).len() == chunk_count(pchunks, k),
    decreases k,
{
    if k > 0 {
        lemma_all_partition_chunks_len(parts, pchunks, k - 1);
    }
}

/// Law: the whole-disk chunk list starts with the primary GPT area
/// `[0, primary.1)`, holds one chunk per partition chunk, and ends with the
/// backup GPT area `[secondary.0, secondary.1)` exactly when the last
/// partition (by start) ends before the end of the disk, or there is no
/// partition and the disk is not empty.
pub proof fn lemma_gpt_chunks_shape(
    disk_size: int,
    primary: (u64, u64),
    secondary: (u64, u64),
    parts: Seq<DiskPartition>,
    pchunks: Seq<Vec<ChunkInfo>>,
)
    requires
        parts.len() == pchunks.len(),
        secondary.0 <= secondary.1,
    ensures
        ({
            let r = spec_gpt_chunks(disk_size, primary, secondary, parts, pchunks);
            let end = if parts.len() == 0 { 0 } else { parts.last().byte_end as int };
            let n = 1 + chunk_count(pchunks, pchunks.len() as int);
            &&& r[0] == ChunkInfo { start: 0, size: primary.1 as usize }
            &&& end < disk_size ==> r.len() == n + 1 && r.last() == ChunkInfo {
                start: secondary.0 as usize,
                size: (secondary.1 - secondary.0) as usize,
            }
            &&& end >= disk_size ==> r.len() == n
        }),
{
    lemma_all_partition_chunks_len(parts, pchunks, pchunks.len() as int);
    let head = seq![ChunkInfo { start: 0, size: primary.1 as usize }];
    let body = head + all_partition_chunks(parts, pchunks, parts.len() as int);
    assert(body[0] == head[0]);
}

/// Offsets fit in `usize` and chunk starts do not overflow when moved.
pub open spec fn gpt_inputs_fit(
    disk_size: u64,
    primary: (u64, u64),
    secondary: (u64, u64),
    parts: Seq<DiskPartition>,
    pchunks: Seq<Vec<ChunkInfo>>,
) -> bool {
    &&& parts.len() == pchunks.len()
    &&& disk_size <= usize::MAX
    &&& primary.1 <= usize::MAX
    &&& secondary.0 <= secondary.1 <= usize::MAX
    &&& forall|i: int| 0 <= i < parts.len() ==> (#[trigger] parts[i]).byte_start <= parts[i].byte_end <= usize::MAX
    &&& forall|i: int, j: int|
        0 <= i < pchunks.len() && 0 <= j < pchunks[i]@.len() ==> #[trigger] pchunks[i]@[j].start + parts[i].byte_start
            <= usize::MAX
}

/// Assembles the whole-disk chunk list of a GPT disk from its partitions
/// (sorted by start) and the chunk list of each partition, given relative to
/// the partition.
pub fn parse_gpt(
    disk_size: u64,
    primary: (u64, u64),
    secondary: (u64, u64),
    partitions: &Vec<DiskPartition>,
    part_chunks: &Vec<Vec<ChunkInfo>>,
) -> (r: Vec<ChunkInfo>)
    requires
        gpt_inputs_fit(disk_size, primary, secondary, partitions@, part_chunks@),
    ensures
        r@ == spec_gpt_chunks(disk_size as int, primary, secondary, partitions@, part_chunks@),
{
    let mut chunks: Vec<ChunkInfo> = Vec::new();
    chunks.push(ChunkInfo { start: 0, size: primary.1 as usize });
    let mut pos: usize = 0;
    let mut k: usize = 0;
    while k < partitions.len()
        invariant
            gpt_inputs_fit(disk_size, primary, secondary, partitions@, part_chunks@),
            k <= partitions@.len(),
            chunks@ == seq![ChunkInfo { start: 0, size: primary.1 as usize }] + all_partition_chunks(
                partitions@,
                part_chunks@,
                k as int,
            ),
            pos == (if k == 0 { 0 } else { partitions@[k - 1].byte_end as int }),
        decreases partitions@.len() - k,
    {
        let begin = partitions[k].byte_start as usize;
        let end = partitions[k].byte_end as usize;
        let pc = &part_chunks[k];
        let ghost before = chunks@;
        let mut j: usize = 0;
        while j < pc.len()
            invariant
                gpt_inputs_fit(disk_size, primary, secondary, partitions@, part_chunks@),
                k < partitions@.len(),
                *pc == part_chunks@[k as int],
                begin == partitions@[k as int].byte_start,
                j <= pc@.len(),
                chunks@ == before + shifted(pc@, begin as int).take(j as int),
            decreases pc@.len() - j,
        {
            let c = pc[j];
            proof {
                assert(part_chunks@[k as int]@[j as int].start + partitions@[k as int].byte_start <= usize::MAX);
            }
            chunks.push(ChunkInfo { start: c.start + begin, size: c.size });
            proof {
                assert(shifted(pc@, begin as int).take(j + 1) =~= shifted(pc@, begin as int).take(j as int).push(
                    ChunkInfo { start: (c.start + begin) as usize, size: c.size },
                ));
            }
            j = j + 1;
        }
        proof {
            assert(shifted(pc@, begin as int).take(pc@.len() as int) =~= shifted(pc@, begin as int));
            assert(all_partition_chunks(partitions@, part_chunks@, k + 1) == all_partition_chunks(
                partitions@,
                part_chunks@,
                k as int,
            ) + shifted(part_chunks@[k as int]@, partitions@[k as int].byte_start as int));
            assert(chunks@ =~= seq![ChunkInfo { start: 0, size: primary.1 as usize }] + all_partition_chunks(
                partitions@,
                part_chunks@,
                k + 1,
            ));
        }
        pos = end;
        k = k + 1;
    }
    if (pos as u64) < disk_size {
        chunks.push(ChunkInfo { start: secondary.0 as usize, size: secondary.1 as usize - secondary.0 as usize });
    }
    chunks
}

/// The chunk list of a partition of unknown type: the whole partition.
pub fn whole_partition(start: u64, end: u64) -> (r: Vec<ChunkInfo>)
    requires
        start <= end,
        end - start <= usize::MAX,
    ensures
        r@ == seq![ChunkInfo { start: 0, size: (end - start) as usize }],
{
    let mut v = Vec::new();
    v.push(ChunkInfo { start: 0, size: (end - start) as usize });
    v
}

/// Whether a partition entry is in use: its partition type GUID (its
/// first 16 bytes) is not the all-zero "unused" type.
pub open spec fn entry_used(entry: Seq<u8>) -> bool {
    exists|i: int| 0 <= i < 16 && entry[i] != 0
}

/// The byte range `[start, end)` of a partition entry's LBA range
/// (starting LBA at byte 32, inclusive ending LBA at byte 40) on a disk of
/// `block_size`-byte blocks.
pub open spec fn entry_range(entry: Seq<u8>, block_size: int) -> (int, int) {
    (le_value(entry, 32, 8) * block_size, (le_value(entry, 40, 8) + 1) * block_size)
}

/// The byte range of a GPT partition entry, or `None` for an unused entry.
pub fn partition_of_entry(entry: &[u8], block_size: u64) -> (r: Option<(u64, u64)>)
    requires
        entry@.len() >= 48,
        entry_used(entry@) ==> le_value(entry@, 40, 8) + 1 <= u64::MAX && entry_range(entry@, block_size as int).0
            <= u64::MAX && entry_range(entry@, block_size as int).1 <= u64::MAX,
    ensures
        r is None <==> !entry_used(entry@),
        r matches Some((a, b)) ==> (a as int, b as int) == entry_range(entry@, block_size as int),
{
    let mut i: usize = 0;
    let mut used = false;
    while i < 16 && !used
        invariant
            i <= 16,
            entry@.len() >= 48,
            used ==> entry_used(entry@),
            !used ==> forall|k: int| 0 <= k < i ==> entry@[k] == 0,
        decreases 16 - i + (if used { 0int } else { 1int }),
    {
        if entry[i] != 0 {
            used = true;
        } else {
            i = i + 1;
        }
    }
    if !used {
        return None;
    }
    let first = le64(entry, 32);
    let last = le64(entry, 40);
    Some((first * block_size, (last + 1) * block_size))
}

/// The partition entries that `gpt_disk_io` reads from a disk whose bytes
/// are `disk` and whose blocks are `block_size` bytes: for each entry of the
/// array the primary GPT header describes, in order, whether it is in use
/// and its first and last LBA; `None` when the header or the array cannot
/// be read.
pub uninterp spec fn gpt_entries(disk: Seq<u8>, block_size: u32) -> Option<Seq<(bool, u64, u64)>>;

/// `gpt_disk_io::Disk::read_primary_gpt_header`, then the header's
/// `get_partition_entry_array_layout` and `gpt_partition_entry_array_iter`,
/// on the bytes `disk` seen as a disk of `block_size`-byte blocks; each
/// entry as `is_used()`, `starting_lba` and `ending_lba`. The result is a
/// function of the bytes and the block size (`gpt_entries`); any read or
/// layout error gives `None`.
#[verifier::external_body]
fn read_gpt_entries(disk: &[u8], block_size: u32) -> (r: Option<Vec<(bool, u64, u64)>>)
    requires
        block_size >= 512,
    ensures
        r matches Some(v) ==> gpt_entries(disk@, block_size) == Some(v@),
        r is None ==> gpt_entries(disk@, block_size) is None,
{
    let bs = BlockSize::new(block_size)?;
    let mut d = gpt_disk_io::Disk::new(BlockIoAdapter::new(disk, bs)).ok()?;
    let mut buf = vec![0u8; block_size as usize];
    let layout = d.read_primary_gpt_header(&mut buf).ok()?.get_partition_entry_array_layout().ok()?;
    let mut out = Vec::new();
    for e in d.gpt_partition_entry_array_iter(layout, &mut buf).ok()? {
        let e = e.ok()?;
        out.push((e.is_used(), e.starting_lba.to_u64(), e.ending_lba.to_u64()));
    }
    Some(out)
}

/// The byte range `[first * block_size, (last + 1) * block_size)` of an
/// entry's LBA range.
pub open spec fn lba_range(first: u64, last: u64, block_size: u64) -> (int, int) {
    (first * block_size, (last + 1) * block_size)
}

/// The byte ranges of the entries in use, in order.
pub open spec fn used_ranges(entries: Seq<(bool, u64, u64)>, block_size: u64) -> Seq<(int, int)>
    decreases entries.len(),
{
    if entries.len() == 0 {
        Seq::empty()
    } else {
        let prev = used_ranges(entries.drop_last(), block_size);
        let e = entries.last();
        if e.0 { prev.push(lba_range(e.1, e.2, block_size)) } else { prev }
    }
}

/// Every entry in use has a byte range that fits in a `u64`.
pub open spec fn ranges_fit(entries: Seq<(bool, u64, u64)>, block_size: u64) -> bool {
    forall|i: int|
        0 <= i < entries.len() && (#[trigger] entries[i]).0 ==> entries[i].2 + 1 <= u64::MAX
            && lba_range(entries[i].1, entries[i].2, block_size).0 <= u64::MAX && lba_range(
            entries[i].1,
            entries[i].2,
            block_size,
        ).1 <= u64::MAX
}

/// The partitions of a GPT disk as byte ranges: one for each entry in use,
/// in the order of the entry array.
pub fn partitions_of_entries(entries: &Vec<(bool, u64, u64)>, block_size: u64) -> (r: Vec<(u64, u64)>)
    requires
        ranges_fit(entries@, block_size),
    ensures
        r@.map_values(|p: (u64, u64)| (p.0 as int, p.1 as int)) == used_ranges(entries@, block_size),
{
    let mut out: Vec<(u64, u64)> = Vec::new();
    let mut i: usize = 0;
    while i < entries.len()
        invariant
            i <= entries@.len(),
            ranges_fit(entries@, block_size),
            out@.map_values(|p: (u64, u64)| (p.0 as int, p.1 as int)) == used_ranges(entries@.take(i as int), block_size),
        decreases entries@.len() - i,
    {
        let (used, first, last) = entries[i];
        proof {
            assert(entries@.take(i + 1).drop_last() =~= entries@.take(i as int));
            assert(entries@.take(i + 1).last() == entries@[i as int]);
        }
        if used {
            let ghost before = out@;
            out.push((first * block_size, (last + 1) * block_size));
            proof {
                assert(out@.map_values(|p: (u64, u64)| (p.0 as int, p.1 as int)) =~= before.map_values(
                    |p: (u64, u64)| (p.0 as int, p.1 as int),
                ).push(lba_range(first, last, block_size)));
            }
        }
        i = i + 1;
    }
    proof {
        assert(entries@.take(entries@.len() as int) =~= entries@);
    }
    out
}

/// The partitions of the GPT disk whose bytes are `disk`, as the byte
/// ranges of the entries in use that `gpt_disk_io` reads, in order; `None`
/// when the header or the array cannot be read, or when a partition's byte
/// range does not fit in a `u64`.
pub fn disk_partitions(disk: &[u8], block_size: u32) -> (r: Option<Vec<(u64, u64)>>)
    requires
        block_size >= 512,
    ensures
        gpt_entries(disk@, block_size) is None ==> r is None,
        gpt_entries(disk@, block_size) matches Some(es) ==> {
            &&& r is Some <==> ranges_fit(es, block_size as u64)
            &&& r matches Some(v) ==> v@.map_values(|p: (u64, u64)| (p.0 as int, p.1 as int)) == used_ranges(
                es,
                block_size as u64,
            )
        },
{
    let entries = match read_gpt_entries(disk, block_size) {
        Some(e) => e,
        None => {
            return None;
        },
    };
    let bs = block_size as u64;
    let mut i: usize = 0;
    while i < entries.len()
        invariant
            i <= entries@.len(),
            bs == block_size as u64,
            gpt_entries(disk@, block_size) == Some(entries@),
            forall|k: int|
                0 <= k < i && (#[trigger] entries@[k]).0 ==> entries@[k].2 + 1 <= u64::MAX && lba_range(
                    entries@[k].1,
                    entries@[k].2,
                    bs,
                ).0 <= u64::MAX && lba_range(entries@[k].1, entries@[k].2, bs).1 <= u64::MAX,
        decreases entries@.len() - i,
    {
        let (used, first, last) = entries[i];
        if used {
            let fits = last < u64::MAX && first.checked_mul(bs).is_some() && (last + 1).checked_mul(bs).is_some();
            if !fits {
                proof {
                    let e = entries@[i as int];
                    assert(e.0);
                    assert(!(e.2 + 1 <= u64::MAX && lba_range(e.1, e.2, bs).0 <= u64::MAX && lba_range(e.1, e.2, bs).1
                        <= u64::MAX));
                    assert(!ranges_fit(entries@, bs));
                    assert(gpt_entries(disk@, block_size) == Some(entries@));
                }
                return None;
            }
        }
        i = i + 1;
    }
    Some(partitions_of_entries(&entries, bs))
}

} // verus!
