//! ext4: which blocks of a partition hold data, read from the superblock,
//! the group descriptor table and the block bitmaps.

use vstd::prelude::*;
use crate::chunks::ChunkInfo;
use crate::le::{le16, le32, le64_32_32, le_value};
use vstd::arithmetic::power2::pow2;

verus! {

/// `d` raised to the power `k`.
pub open spec fn pow_nat(d: nat, k: nat) -> nat
    decreases k,
{
    if k == 0 {
        1
    } else {
        d * pow_nat(d, (k - 1) as nat)
    }
}

/// Whether `g` is a power of `d`.
pub open spec fn is_power_of(g: nat, d: nat) -> bool {
    exists|k: nat| #[trigger] pow_nat(d, k) == g
}

/// Groups 0 and 1 and the powers of 3, 5 and 7 carry a superblock backup
/// when the sparse-superblock feature is on.
pub open spec fn spec_has_superblock(group: nat) -> bool {
    group <= 1 || is_power_of(group, 3) || is_power_of(group, 5) || is_power_of(group, 7)
}

proof fn lemma_pow_mono(d: nat, a: nat, b: nat)
    requires
        d >= 2,
        a < b,
    ensures
        pow_nat(d, a) < pow_nat(d, b),
    decreases b,
{
    lemma_pow_pos(d, a);
    if b == a + 1 {
        assert(pow_nat(d, b) == d * pow_nat(d, a));
        assert(d * pow_nat(d, a) > pow_nat(d, a)) by (nonlinear_arith)
            requires d >= 2, pow_nat(d, a) >= 1;
    } else {
        lemma_pow_mono(d, a, (b - 1) as nat);
        lemma_pow_pos(d, (b - 1) as nat);
        assert(d * pow_nat(d, (b - 1) as nat) > pow_nat(d, (b - 1) as nat)) by (nonlinear_arith)
            requires d >= 2, pow_nat(d, (b - 1) as nat) >= 1;
    }
}

proof fn lemma_pow_pos(d: nat, a: nat)
    requires
        d >= 1,
    ensures
        pow_nat(d, a) >= 1,
    decreases a,
{
    if a > 0 {
        lemma_pow_pos(d, (a - 1) as nat);
        assert(d * pow_nat(d, (a - 1) as nat) >= 1) by (nonlinear_arith)
            requires d >= 1, pow_nat(d, (a - 1) as nat) >= 1;
    }
}

/// Whether `group` is a power of `d`, by multiplying up from 1.
fn is_power(group: usize, d: u128) -> (r: bool)
    requires
        2 <= d <= 7,
    ensures
        r == is_power_of(group as nat, d as nat),
{
    let mut p: u128 = 1;
    let ghost mut k: nat = 0;
    while p < group as u128
        invariant
            2 <= d <= 7,
            p == pow_nat(d as nat, k),
            p >= 1,
            p <= 7 * (usize::MAX as u128),
            forall|j: nat| j < k ==> #[trigger] pow_nat(d as nat, j) < group,
        decreases (if p < group as u128 { group as int - p as int } else { 0 }),
    {
        proof {
            assert forall|j: nat| j < k + 1 implies #[trigger] pow_nat(d as nat, j) < group by {
                if j < k {
                } else {
                    assert(j == k);
                }
            }
            lemma_pow_mono(d as nat, k, k + 1);
            assert(p * d <= 7 * (usize::MAX as u128)) by (nonlinear_arith)
                requires p < group as u128, group <= usize::MAX, d <= 7;
            assert(p * d > p) by (nonlinear_arith)
                requires p >= 1, d >= 2;
            assert(p * d == d * p) by (nonlinear_arith);
            assert(pow_nat(d as nat, k + 1) == d * pow_nat(d as nat, k));
        }
        p = p * d;
        proof {
            k = k + 1;
        }
    }
    proof {
        if p != group as u128 && is_power_of(group as nat, d as nat) {
            let m = choose|m: nat| #[trigger] pow_nat(d as nat, m) == group as nat;
            if m < k {
                assert(pow_nat(d as nat, m) < group);
            } else if m > k {
                lemma_pow_mono(d as nat, k, m);
            }
        }
    }
    p == group as u128
}

/// Whether block group `group` holds a superblock backup.
pub fn has_superblock(group: usize) -> (r: bool)
    ensures
        r == spec_has_superblock(group as nat),
{
    if group <= 1 {
        return true;
    }
    is_power(group, 3) || is_power(group, 5) || is_power(group, 7)
}

/// Where the superblock of an ext4 partition `[start, end)` is read from, or
/// `None` when the partition is too small to hold one.
pub fn ext4_superblock_offset(start: u64, end: u64) -> (r: Option<u64>)
    requires
        start + 2048 <= u64::MAX,
    ensures
        r == (if start + 2048 > end { None } else { Some((start + 1024) as u64) }),
{
    if start + 2048 > end {
        None
    } else {
        Some(start + 1024)
    }
}

/// The layout of an ext4 file system as the superblock describes it.
#[derive(Clone, Copy, Debug)]
pub struct Ext4Geometry {
    pub start: u64,
    pub blocks_count: u64,
    pub block_size: u64,
    pub blocks_per_group: u64,
    pub groups: u64,
    pub first_data_block: u64,
    pub desc_size: u64,
    pub blocks_for_special_group: usize,
}

/// Magic, 64-bit feature and sparse-superblock feature are all present.
pub open spec fn spec_is_ext4(sb: Seq<u8>) -> bool {
    &&& le_value(sb, 0x38, 2) == 0xEF53
    &&& (le_value(sb, 0x60, 4) as u32) & 0x80 != 0
    &&& (le_value(sb, 0x64, 4) as u32) & 0x1 != 0
}

/// `ceil(a / b)`.
pub open spec fn ceil_div(a: int, b: int) -> int {
    (a + b - 1) / b
}

/// The geometry that a superblock `sb` of a partition at `start` describes.
pub open spec fn spec_geometry(sb: Seq<u8>, start: u64) -> Ext4Geometry {
    let blocks_count = le_value(sb, 0x4, 4) + 4294967296 * le_value(sb, 0x150, 4);
    let block_size = 1u64 << (10 + le_value(sb, 0x18, 4)) as u64;
    let bpg = le_value(sb, 0x20, 4);
    let groups = ceil_div(blocks_count as int, bpg as int);
    let desc_size = le_value(sb, 0xfe, 2);
    Ext4Geometry {
        start,
        blocks_count: blocks_count as u64,
        block_size: block_size as u64,
        blocks_per_group: bpg as u64,
        groups: groups as u64,
        first_data_block: le_value(sb, 0x14, 4) as u64,
        desc_size: desc_size as u64,
        blocks_for_special_group: (1 + ceil_div(desc_size * groups, block_size as int) + le_value(sb, 0xce, 2)) as usize,
    }
}

/// The uncapped count of metadata blocks at the start of a group that holds a
/// superblock backup: the superblock, the descriptor table and the reserved
/// table-growth blocks.
pub open spec fn special_blocks_raw(sb: Seq<u8>) -> int {
    let blocks_count = le_value(sb, 0x4, 4) + 4294967296 * le_value(sb, 0x150, 4);
    let block_size = 1u64 << (10 + le_value(sb, 0x18, 4)) as u64;
    let groups = ceil_div(blocks_count as int, le_value(sb, 0x20, 4) as int);
    1 + ceil_div(le_value(sb, 0xfe, 2) * groups, block_size as int) + le_value(sb, 0xce, 2)
}

/// Bounds under which reading the file system is free of arithmetic
/// overflow, division by zero and out-of-range reads: a block size of at most
/// 2^53 bytes, a non-empty group size, descriptors large enough for the
/// fields read, and a file system whose offsets fit in `usize`.
pub open spec fn spec_sane(sb: Seq<u8>, start: u64) -> bool {
    let g = spec_geometry(sb, start);
    &&& le_value(sb, 0x18, 4) <= 43
    &&& le_value(sb, 0x20, 4) > 0
    &&& le_value(sb, 0xfe, 2) >= 0x24
    &&& special_blocks_raw(sb) <= usize::MAX
    &&& geometry_fits(g)
    &&& g.desc_size * g.groups <= usize::MAX
    &&& start + g.block_size * (g.first_data_block + 1) <= u64::MAX
}

/// The fields of a parsed geometry are the superblock values, untruncated.
pub proof fn lemma_geometry_fields(sb: Seq<u8>, start: u64)
    requires
        le_value(sb, 0x20, 4) > 0,
    ensures
        spec_geometry(sb, start).blocks_count as int == le_value(sb, 0x4, 4) + 4294967296 * le_value(sb, 0x150, 4),
        spec_geometry(sb, start).blocks_per_group as int == le_value(sb, 0x20, 4),
        spec_geometry(sb, start).blocks_per_group <= u32::MAX,
        spec_geometry(sb, start).first_data_block as int == le_value(sb, 0x14, 4),
        spec_geometry(sb, start).first_data_block <= u32::MAX,
        spec_geometry(sb, start).desc_size as int == le_value(sb, 0xfe, 2),
        spec_geometry(sb, start).desc_size <= 0xffff,
        spec_geometry(sb, start).groups as int == ceil_div(
            spec_geometry(sb, start).blocks_count as int,
            spec_geometry(sb, start).blocks_per_group as int,
        ),
        spec_geometry(sb, start).groups <= spec_geometry(sb, start).blocks_count,
{
    crate::le::lemma_le_bound(sb, 0x4, 4);
    crate::le::lemma_le_bound(sb, 0x150, 4);
    crate::le::lemma_le_bound(sb, 0x20, 4);
    crate::le::lemma_le_bound(sb, 0x14, 4);
    crate::le::lemma_le_bound(sb, 0xfe, 2);
    reveal_with_fuel(crate::le::pow256, 5);
    let bc = le_value(sb, 0x4, 4) + 4294967296 * le_value(sb, 0x150, 4);
    let b = le_value(sb, 0x20, 4) as int;
    assert(bc <= u64::MAX);
    assert(ceil_div(bc as int, b) <= bc) by (nonlinear_arith)
        requires b >= 1, bc >= 0;
    assert(ceil_div(bc as int, b) >= 0) by (nonlinear_arith)
        requires b >= 1, bc >= 0;
}

/// `2^(10 + log)` lies in `[1024, 2^53]` when `log <= 43`.
proof fn lemma_shift_bounds(log: u64)
    requires
        log <= 43,
    ensures
        1024 <= (1u64 << (10 + log) as u64) <= 0x20000000000000,
{
    let k = (10 + log) as u64;
    assert(10 <= k <= 53 ==> 1024 <= (1u64 << k) <= 0x20000000000000) by (bit_vector);
}

/// Checks `spec_sane`: the app tests it before reading an ext4 file system,
/// and stops as the reader would on a superblock outside these bounds.
pub fn superblock_is_sane(sb: &[u8], start: u64) -> (r: bool)
    requires
        sb@.len() >= 1024,
    ensures
        r == spec_sane(sb@, start),
{
    let log = le32(sb, 0x18);
    let bpg = le32(sb, 0x20) as u64;
    let desc = le16(sb, 0xfe) as u64;
    if log > 43 || bpg == 0 || desc < 0x24 {
        return false;
    }
    let g = parse_geometry(sb, start);
    proof {
        lemma_shift_bounds(log as u64);
        lemma_geometry_fields(sb@, start);
    }
    let bs = g.block_size as u128;
    let groups = g.groups as u128;
    let bc = g.blocks_count as u128;
    let reserved = le16(sb, 0xce) as u128;
    proof {
        assert((groups + 1) * (bpg as u128) <= 0x10000000000000000 * 0x100000000) by (nonlinear_arith)
            requires groups <= u64::MAX, bpg <= u32::MAX;
        assert(bc * bs <= 0x10000000000000000 * 0x20000000000000) by (nonlinear_arith)
            requires bc <= u64::MAX, bs <= 0x20000000000000;
        assert((desc as u128) * groups <= 0x10000 * 0x10000000000000000) by (nonlinear_arith)
            requires desc <= 0xffff, groups <= u64::MAX;
        assert(bs * (g.first_data_block as u128 + 1) <= 0x20000000000000 * 0x100000000) by (nonlinear_arith)
            requires bs <= 0x20000000000000, g.first_data_block <= u32::MAX;
    }
    let table = (desc as u128) * groups;
    let table_blocks = table / bs + (if table % bs != 0 { 1u128 } else { 0u128 });
    proof {
        assert(table_blocks == ceil_div(table as int, bs as int)) by (nonlinear_arith)
            requires bs > 0, table_blocks == table / bs + (if table % bs != 0 { 1int } else { 0int }), table >= 0;
        assert(table_blocks <= table) by (nonlinear_arith)
            requires bs >= 1024, table_blocks == table / bs + (if table % bs != 0 { 1int } else { 0int }), table >= 0;
    }
    let special = 1 + table_blocks + reserved;
    let span = (groups + 1) * (bpg as u128);
    let max_usize = usize::MAX as u128;
    special <= max_usize
        && span + 8 * bs <= max_usize
        && span + special <= max_usize
        && bc * bs <= max_usize
        && table <= max_usize
        && (start as u128) + bs * (g.first_data_block as u128 + 1) <= u64::MAX as u128
}

/// The file system geometry read from superblock `sb`, assuming it passed
/// the feature checks and `spec_sane` bounds.
pub fn parse_geometry(sb: &[u8], start: u64) -> (g: Ext4Geometry)
    requires
        sb@.len() >= 1024,
        le_value(sb@, 0x18, 4) <= 43,
        le_value(sb@, 0x20, 4) > 0,
    ensures
        g == spec_geometry(sb@, start),
{
    let blocks_count = le64_32_32(sb, 0x4, 0x150);
    let log_block_size = le32(sb, 0x18);
    proof {
        lemma_shift_bounds(log_block_size as u64);
    }
    let block_size = 1u64 << (10 + log_block_size) as u64;
    let blocks_per_group = le32(sb, 0x20) as u64;
    proof {
        let bc = blocks_count as int;
        let b = blocks_per_group as int;
        assert(bc % b != 0 ==> bc / b + 1 <= bc) by (nonlinear_arith)
            requires b > 0, bc >= 0;
    }
    let groups = blocks_count / blocks_per_group + (if blocks_count % blocks_per_group != 0 { 1u64 } else { 0u64 });
    proof {
        let bc = blocks_count as int;
        let b = blocks_per_group as int;
        assert(groups == ceil_div(bc, b)) by (nonlinear_arith)
            requires b > 0, groups == bc / b + (if bc % b != 0 { 1int } else { 0int }), bc >= 0;
    }
    let first_data_block = le32(sb, 0x14) as u64;
    let desc_size = le16(sb, 0xfe) as u64;
    let reserved_gdt_blocks = le16(sb, 0xce);
    proof {
        assert((desc_size as u128) * (groups as u128) <= 0x10000 * 0x10000000000000000) by (nonlinear_arith)
            requires desc_size <= 0xffff, groups <= u64::MAX;
    }
    let table = (desc_size as u128) * (groups as u128);
    let bs = block_size as u128;
    let table_blocks = table / bs + (if table % bs != 0 { 1u128 } else { 0u128 });
    proof {
        assert(table_blocks == ceil_div(table as int, bs as int)) by (nonlinear_arith)
            requires bs > 0, table_blocks == table / bs + (if table % bs != 0 { 1int } else { 0int }), table >= 0;
        assert(table_blocks <= table) by (nonlinear_arith)
            requires bs >= 1024, table_blocks == table / bs + (if table % bs != 0 { 1int } else { 0int }), table >= 0;
    }
    let special = 1 + table_blocks + reserved_gdt_blocks as u128;
    Ext4Geometry {
        start,
        blocks_count,
        block_size,
        blocks_per_group,
        groups,
        first_data_block,
        desc_size,
        blocks_for_special_group: #[verifier::truncate] (special as usize),
    }
}

/// Parses an ext4 superblock: `None` unless it carries the ext4 magic, the
/// 64-bit feature and the sparse-superblock feature.
pub fn parse_ext4_superblock(sb: &[u8], start: u64) -> (r: Option<Ext4Geometry>)
    requires
        sb@.len() >= 1024,
        spec_is_ext4(sb@) ==> spec_sane(sb@, start),
    ensures
        r == (if spec_is_ext4(sb@) { Some(spec_geometry(sb@, start)) } else { None }),
{
    let magic = le16(sb, 0x38);
    if magic != 0xEF53 {
        return None;
    }
    let feature_incompat = le32(sb, 0x60);
    if feature_incompat & 0x80 == 0 {
        return None;
    }
    let feature_ro_compat = le32(sb, 0x64);
    if feature_ro_compat & 0x1 == 0 {
        return None;
    }
    Some(parse_geometry(sb, start))
}

/// Where the group descriptor table starts on disk, and how many bytes it has.
pub fn descriptor_table_location(g: &Ext4Geometry) -> (r: (u64, usize))
    requires
        g.block_size >= 1,
        g.start + g.block_size * (g.first_data_block + 1) <= u64::MAX,
        g.desc_size * g.groups <= usize::MAX,
    ensures
        r.0 == g.start + g.block_size * (g.first_data_block + 1),
        r.1 == g.desc_size * g.groups,
{
    proof {
        assert(g.block_size * (g.first_data_block + 1) >= g.first_data_block + 1) by (nonlinear_arith)
            requires g.block_size >= 1, g.first_data_block >= 0;
    }
    (g.start + g.block_size * (g.first_data_block + 1), (g.desc_size * g.groups) as usize)
}

/// The descriptor of group `group` within the descriptor table.
pub open spec fn descriptor(table: Seq<u8>, desc_size: int, group: int) -> Seq<u8> {
    table.subrange(group * desc_size, group * desc_size + desc_size)
}

/// `EXT4_BG_BLOCK_UNINIT`: the group's block bitmap was never written.
pub open spec fn spec_block_uninit(table: Seq<u8>, desc_size: int, group: int) -> bool {
    (le_value(table, group * desc_size + 0x12, 2) as u16) & 0x2 != 0
}

/// The block number of the group's block bitmap.
pub open spec fn spec_bitmap_block(table: Seq<u8>, desc_size: int, group: int) -> int {
    (le_value(table, group * desc_size, 4) + 4294967296 * le_value(table, group * desc_size + 0x20, 4)) as int
}

/// For each group, the disk offset of its block bitmap, or `None` for groups
/// whose bitmap is uninitialised (their used blocks follow from the layout).
pub fn bitmap_locations(g: &Ext4Geometry, table: &[u8]) -> (r: Vec<Option<u64>>)
    requires
        g.desc_size >= 0x24,
        table@.len() == g.desc_size * g.groups,
        g.desc_size * g.groups <= usize::MAX,
        forall|i: int| 0 <= i < g.groups && !spec_block_uninit(table@, g.desc_size as int, i) ==>
            g.start + g.block_size * #[trigger] spec_bitmap_block(table@, g.desc_size as int, i) <= u64::MAX,
    ensures
        r@.len() == g.groups,
        forall|i: int| 0 <= i < g.groups ==> #[trigger] r@[i] == (if spec_block_uninit(table@, g.desc_size as int, i) {
            None
        } else {
            Some((g.start + g.block_size * spec_bitmap_block(table@, g.desc_size as int, i)) as u64)
        }),
{
    let mut r: Vec<Option<u64>> = Vec::new();
    let mut i: u64 = 0;
    while i < g.groups
        invariant
            g.desc_size >= 0x24,
            table@.len() == g.desc_size * g.groups,
            g.desc_size * g.groups <= usize::MAX,
            forall|i: int| 0 <= i < g.groups && !spec_block_uninit(table@, g.desc_size as int, i) ==>
                g.start + g.block_size * #[trigger] spec_bitmap_block(table@, g.desc_size as int, i) <= u64::MAX,
            i <= g.groups,
            r@.len() == i,
            forall|j: int| 0 <= j < i ==> #[trigger] r@[j] == (if spec_block_uninit(table@, g.desc_size as int, j) {
                None
            } else {
                Some((g.start + g.block_size * spec_bitmap_block(table@, g.desc_size as int, j)) as u64)
            }),
        decreases g.groups - i,
    {
        proof {
            assert(i * g.desc_size + g.desc_size <= g.desc_size * g.groups) by (nonlinear_arith)
                requires i < g.groups, g.desc_size >= 0;
        }
        let off = (i * g.desc_size) as usize;
        let flags = le16(table, off + 0x12);
        if flags & 0x2 != 0 {
            r.push(None);
        } else {
            let block = le64_32_32(table, off, off + 0x20);
            proof {
                assert(off == i * g.desc_size);
                assert(block == spec_bitmap_block(table@, g.desc_size as int, i as int));
                assert(g.start + g.block_size * block <= u64::MAX);
                assert(g.block_size * block >= 0) by (nonlinear_arith);
            }
            r.push(Some(g.start + g.block_size * block));
        }
        proof {
            assert(off == i * g.desc_size);
        }
        i = i + 1;
    }
    r
}

/// Chunk for block number `n` of a file system with `block_size`-byte blocks.
pub open spec fn block_chunk(block_size: int, n: int) -> ChunkInfo {
    ChunkInfo { start: (block_size * n) as usize, size: block_size as usize }
}

/// Whether bit `b` of the bitmap is set.
pub open spec fn bitmap_bit(bitmap: Seq<u8>, b: int) -> bool {
    (bitmap[b / 8] >> ((b % 8) as u8)) & 1 != 0
}

/// The used blocks among the first `n` blocks of group `group`, in order:
/// for an uninitialised group, the leading metadata blocks when the group
/// holds a superblock backup; otherwise the blocks whose bitmap bit is set.
/// Blocks past the end of the file system are left out.
pub open spec fn group_chunks(g: Ext4Geometry, group: int, uninit: bool, bitmap: Seq<u8>, n: int) -> Seq<ChunkInfo>
    decreases n,
{
    if n <= 0 {
        Seq::empty()
    } else {
        let b = n - 1;
        let idx = group * g.blocks_per_group + b;
        let used = if uninit { spec_has_superblock(group as nat) } else { bitmap_bit(bitmap, b) };
        let prev = group_chunks(g, group, uninit, bitmap, n - 1);
        if used && idx < g.blocks_count {
            prev.push(block_chunk(g.block_size as int, idx))
        } else {
            prev
        }
    }
}

/// The block numbers of the first `n` blocks of group `group`.
pub open spec fn group_blocks(g: Ext4Geometry, group: int, n: int) -> Seq<int> {
    Seq::new(n as nat, |b: int| group * g.blocks_per_group + b)
}

/// Whether a block of group `group` is in use and inside the file system:
/// for an uninitialised group, every leading block when the group holds a
/// superblock backup; otherwise the blocks whose bitmap bit is set.
pub open spec fn block_in_use(g: Ext4Geometry, group: int, uninit: bool, bitmap: Seq<u8>) -> spec_fn(int) -> bool {
    |idx: int| {
        let used = if uninit { spec_has_superblock(group as nat) } else { bitmap_bit(bitmap, idx - group * g.blocks_per_group) };
        used && idx < g.blocks_count
    }
}

/// The chunk of a block.
pub open spec fn chunk_of_block(g: Ext4Geometry) -> spec_fn(int) -> ChunkInfo {
    |idx: int| block_chunk(g.block_size as int, idx)
}

/// `group_chunks` stated directly: one chunk for each of the first `n`
/// blocks of the group that is in use and inside the file system, in
/// increasing block order.
pub proof fn lemma_group_chunks_direct(g: Ext4Geometry, group: int, uninit: bool, bitmap: Seq<u8>, n: int)
    requires
        n >= 0,
    ensures
        group_chunks(g, group, uninit, bitmap, n) == group_blocks(g, group, n).filter(
            block_in_use(g, group, uninit, bitmap),
        ).map_values(chunk_of_block(g)),
    decreases n,
{
    if n > 0 {
        lemma_group_chunks_direct(g, group, uninit, bitmap, n - 1);
        let idx = group * g.blocks_per_group + (n - 1);
        let s = group_blocks(g, group, n - 1);
        assert(group_blocks(g, group, n) =~= s.push(idx));
        s.lemma_filter_push(idx, block_in_use(g, group, uninit, bitmap));
        let t = s.filter(block_in_use(g, group, uninit, bitmap));
        assert(t.push(idx).map_values(chunk_of_block(g)) =~= t.map_values(chunk_of_block(g)).push(block_chunk(g.block_size as int, idx)));
    }
}

/// Bit `j` of byte `x`, counted from the least significant, as the bitmap
/// spec reads it.
proof fn lemma_bit_lsb_first(x: u8, j: int)
    requires
        0 <= j < 8,
    ensures
        ((x >> (j as u8)) & 1 != 0) <==> (x as int / pow2(j as nat) as int) % 2 == 1,
{
    vstd::bits::lemma_u8_shr_is_div(x, j as u8);
    let y = x >> (j as u8);
    vstd::bits::lemma_u8_low_bits_mask_is_mod(y, 1);
    vstd::arithmetic::power2::lemma2_to64();
    assert(vstd::bits::low_bits_mask(1) == 1);
    assert(y & 1 == y % 2);
}

/// Law: block bitmaps are read least significant bit first. In a group
/// whose bitmap is initialised, block `group * blocks_per_group + b` of the
/// file system (one inside it) is in the group's chunk list exactly when
/// bit `b % 8` of byte `b / 8` of the bitmap is set, that is when
/// `bitmap[b / 8] / 2^(b % 8)` is odd.
pub proof fn lemma_bitmap_read_lsb_first(g: Ext4Geometry, group: int, bitmap: Seq<u8>, b: int)
    requires
        geometry_fits(g),
        0 <= group,
        bitmap.len() == g.block_size,
        0 <= b < 8 * g.block_size,
        group * g.blocks_per_group + b < g.blocks_count,
    ensures
        group_chunks(g, group, false, bitmap, 8 * g.block_size).contains(
            block_chunk(g.block_size as int, group * g.blocks_per_group + b),
        ) <==> (bitmap[b / 8] as int / pow2((b % 8) as nat) as int) % 2 == 1,
{
    let n = 8 * g.block_size;
    let bs = g.block_size as int;
    let idx = group * g.blocks_per_group + b;
    let p = block_in_use(g, group, false, bitmap);
    let s = group_blocks(g, group, n);
    let f = s.filter(p);
    let c = chunk_of_block(g);
    lemma_group_chunks_direct(g, group, false, bitmap, n);
    lemma_bit_lsb_first(bitmap[b / 8], b % 8);
    assert(p(idx) == bitmap_bit(bitmap, b));
    assert(bs * idx <= usize::MAX) by (nonlinear_arith)
        requires
            idx < g.blocks_count,
            g.blocks_count * g.block_size <= usize::MAX,
            bs == g.block_size,
            bs >= 0,
            idx >= 0,
    ;
    if f.map_values(c).contains(block_chunk(bs, idx)) {
        let j = choose|j: int| 0 <= j < f.map_values(c).len() && f.map_values(c)[j] == block_chunk(bs, idx);
        let idx2 = f[j];
        s.lemma_filter_pred(p, j);
        assert(f.contains(idx2));
        s.lemma_filter_contains_rev(p, idx2);
        let k = choose|k: int| 0 <= k < s.len() && s[k] == idx2;
        assert(idx2 == group * g.blocks_per_group + k);
        assert(idx2 >= 0) by (nonlinear_arith)
            requires
                idx2 == group * g.blocks_per_group + k,
                group >= 0,
                g.blocks_per_group >= 0,
                k >= 0,
        ;
        assert(bs * idx2 <= usize::MAX) by (nonlinear_arith)
            requires
                idx2 < g.blocks_count,
                g.blocks_count * g.block_size <= usize::MAX,
                bs == g.block_size,
                bs >= 0,
                idx2 >= 0,
        ;
        assert(block_chunk(bs, idx2) == block_chunk(bs, idx));
        assert(bs * idx2 == bs * idx);
        assert(idx2 == idx) by (nonlinear_arith)
            requires
                bs * idx2 == bs * idx,
                bs > 0,
        ;
    }
    if p(idx) {
        assert(s[b] == idx);
        s.lemma_filter_contains(p, b);
        let j = choose|j: int| 0 <= j < f.len() && f[j] == idx;
        assert(f.map_values(c)[j] == block_chunk(bs, idx));
    }
}

/// How many leading blocks `group_chunks` looks at.
pub open spec fn group_span(g: Ext4Geometry, uninit: bool) -> int {
    if uninit { g.blocks_for_special_group as int } else { 8 * g.block_size }
}

/// The used blocks of the first `k` groups.
pub open spec fn fs_chunks(g: Ext4Geometry, table: Seq<u8>, bitmaps: Seq<Vec<u8>>, k: int) -> Seq<ChunkInfo>
    decreases k,
{
    if k <= 0 {
        Seq::empty()
    } else {
        let group = k - 1;
        let uninit = spec_block_uninit(table, g.desc_size as int, group);
        fs_chunks(g, table, bitmaps, k - 1) + group_chunks(g, group, uninit, bitmaps[group]@, group_span(g, uninit))
    }
}

/// Bounds that keep every block index and byte offset within `usize`.
pub open spec fn geometry_fits(g: Ext4Geometry) -> bool {
    &&& g.block_size >= 1024
    &&& g.blocks_per_group >= 1
    &&& (g.groups as int + 1) * (g.blocks_per_group as int) + 8 * g.block_size <= usize::MAX
    &&& (g.groups as int + 1) * (g.blocks_per_group as int) + g.blocks_for_special_group <= usize::MAX
    &&& g.blocks_count * g.block_size <= usize::MAX
}

/// The used blocks of one group, as chunks relative to the partition start.
fn push_group_chunks(out: &mut Vec<ChunkInfo>, g: &Ext4Geometry, group: u64, uninit: bool, bitmap: &Vec<u8>)
    requires
        geometry_fits(*g),
        group < g.groups,
        !uninit ==> bitmap@.len() == g.block_size,
    ensures
        final(out)@ == old(out)@ + group_chunks(*g, group as int, uninit, bitmap@, group_span(*g, uninit)),
{
    proof {
        assert(g.groups <= usize::MAX) by (nonlinear_arith)
            requires (g.groups as int + 1) * (g.blocks_per_group as int) + 8 * g.block_size <= usize::MAX, g.blocks_per_group >= 1;
    }
    let n: usize = if uninit { g.blocks_for_special_group } else { (8 * g.block_size) as usize };
    let used_group = if uninit { has_superblock(group as usize) } else { false };
    proof {
        assert((group as int) * (g.blocks_per_group as int) + 8 * g.block_size <= usize::MAX) by (nonlinear_arith)
            requires group < g.groups, (g.groups as int + 1) * (g.blocks_per_group as int) + 8 * g.block_size <= usize::MAX;
        assert((group as int) * (g.blocks_per_group as int) + g.blocks_for_special_group <= usize::MAX) by (nonlinear_arith)
            requires group < g.groups, (g.groups as int + 1) * (g.blocks_per_group as int) + g.blocks_for_special_group <= usize::MAX;
    }
    let base = (group * g.blocks_per_group) as usize;
    let ghost out0 = out@;
    let mut b: usize = 0;
    while b < n
        invariant
            geometry_fits(*g),
            group < g.groups,
            !uninit ==> bitmap@.len() == g.block_size,
            n == group_span(*g, uninit),
            base == group * g.blocks_per_group,
            base + n <= usize::MAX,
            uninit ==> used_group == spec_has_superblock(group as nat),
            b <= n,
            out@ == out0 + group_chunks(*g, group as int, uninit, bitmap@, b as int),
        decreases n - b,
    {
        let used = if uninit {
            used_group
        } else {
            (bitmap[b / 8] >> ((b % 8) as u8)) & 1 != 0
        };
        let idx = base + b;
        if used && (idx as u64) < g.blocks_count {
            proof {
                assert(g.block_size * idx <= usize::MAX) by (nonlinear_arith)
                    requires idx < g.blocks_count, g.blocks_count * g.block_size <= usize::MAX, g.block_size >= 0;
            }
            out.push(ChunkInfo { start: (g.block_size as usize) * idx, size: g.block_size as usize });
        }
        proof {
            assert(out@ =~= out0 + group_chunks(*g, group as int, uninit, bitmap@, b + 1));
        }
        b = b + 1;
    }
}

/// The used blocks of an ext4 file system as chunks relative to the start of
/// its partition, given the group descriptor table and, for each group whose
/// bitmap is initialised, its block bitmap (other entries are not read).
pub fn get_ext4_chunks(g: &Ext4Geometry, table: &[u8], bitmaps: &Vec<Vec<u8>>) -> (r: Vec<ChunkInfo>)
    requires
        geometry_fits(*g),
        g.desc_size >= 0x24,
        table@.len() == g.desc_size * g.groups,
        g.desc_size * g.groups <= usize::MAX,
        bitmaps@.len() == g.groups,
        forall|i: int| 0 <= i < g.groups && !spec_block_uninit(table@, g.desc_size as int, i) ==> (#[trigger] bitmaps@[i])@.len()
            == g.block_size,
    ensures
        r@ == fs_chunks(*g, table@, bitmaps@, g.groups as int),
{
    let mut out: Vec<ChunkInfo> = Vec::new();
    let mut i: u64 = 0;
    while i < g.groups
        invariant
            geometry_fits(*g),
            g.desc_size >= 0x24,
            table@.len() == g.desc_size * g.groups,
            g.desc_size * g.groups <= usize::MAX,
            bitmaps@.len() == g.groups,
            forall|i: int| 0 <= i < g.groups && !spec_block_uninit(table@, g.desc_size as int, i) ==> (#[trigger] bitmaps@[i])@.len()
                == g.block_size,
            i <= g.groups,
            out@ == fs_chunks(*g, table@, bitmaps@, i as int),
        decreases g.groups - i,
    {
        proof {
            assert(i * g.desc_size + g.desc_size <= g.desc_size * g.groups) by (nonlinear_arith)
                requires i < g.groups, g.desc_size >= 0;
        }
        let off = (i * g.desc_size) as usize;
        let flags = le16(table, off + 0x12);
        let uninit = flags & 0x2 != 0;
        proof {
            assert(off == i * g.desc_size);
            assert(uninit == spec_block_uninit(table@, g.desc_size as int, i as int));
        }
        let ghost before = out@;
        proof {
            assert(g.groups <= usize::MAX) by (nonlinear_arith)
                requires (g.groups as int + 1) * (g.blocks_per_group as int) + 8 * g.block_size <= usize::MAX, g.blocks_per_group >= 1;
            if !uninit {
                assert(bitmaps@[i as int]@.len() == g.block_size);
            }
        }
        push_group_chunks(&mut out, g, i, uninit, &bitmaps[i as usize]);
        proof {
            assert(fs_chunks(*g, table@, bitmaps@, i + 1) == fs_chunks(*g, table@, bitmaps@, i as int) + group_chunks(
                *g,
                i as int,
                uninit,
                bitmaps@[i as int]@,
                group_span(*g, uninit),
            ));
        }
        i = i + 1;
    }
    out
}

} // verus!
