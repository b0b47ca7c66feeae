use pixie::gpt::{disk_partitions, partition_of_entry, partitions_of_entries};
use pixie::chunks::{split_chunks, ChunkInfo};
use pixie::fat::{fat_partition_geometry, get_fat_chunks, parse_fat_boot_sector, FatType};
use pixie::ntfs::{
    bitmap_cluster_offsets, bitmap_runs, data_run, find_bitmap_attribute, get_ntfs_chunks, ntfs_boot_sector_usable,
    ntfs_geometry, ntfs_signature, push_chunk, BitmapAttr, ClusterBitmap, DataRun, RunWalker,
};
use pixie::partition::{get_swap_chunks, parse_partition};
use pixie::ext4::has_superblock;

fn c(start: usize, size: usize) -> ChunkInfo {
    ChunkInfo { start, size }
}

#[test]
fn split_chunks_cuts_at_windows_and_merges() {
    let r = split_chunks(&vec![c(0, 10), c(10, 20), c(40, 5)], 16);
    assert_eq!(r, vec![c(0, 16), c(16, 14), c(40, 5)]);
}

#[test]
fn ext4_superblock_groups() {
    assert!(has_superblock(0));
    assert!(has_superblock(1));
    assert!(has_superblock(9));
    assert!(has_superblock(25));
    assert!(has_superblock(49));
    assert!(!has_superblock(6));
    assert!(!has_superblock(10));
}

#[test]
fn fat12_entries_are_packed_by_three_nibbles() {
    // entries 0x123 and 0x456 packed as 23 61 45
    let buf = [0x23u8, 0x61, 0x45, 0];
    assert_eq!(FatType::Fat12.index(&buf, 0), 0x123);
    assert_eq!(FatType::Fat12.index(&buf, 1), 0x456);
    assert_eq!(FatType::Fat16.index(&buf, 0), 0x6123);
    assert_eq!(FatType::Fat32.index(&[0xff, 0xff, 0xff, 0xff], 0), 0x0FFF_FFFF);
    assert_eq!(FatType::Fat12.bits(), 12);
}

fn fat16_boot_sector() -> Vec<u8> {
    let mut b = vec![0u8; 512];
    b[0x0B..0x0D].copy_from_slice(&512u16.to_le_bytes());
    b[0x0D] = 1; // sectors per cluster
    b[0x0E..0x10].copy_from_slice(&1u16.to_le_bytes()); // reserved sectors
    b[0x10] = 2; // tables
    b[0x11..0x13].copy_from_slice(&16u16.to_le_bytes()); // root entries: one sector
    b[0x13..0x15].copy_from_slice(&20u16.to_le_bytes()); // total sectors
    b[0x16..0x18].copy_from_slice(&1u16.to_le_bytes()); // sectors per table
    b[0x36..0x3E].copy_from_slice(b"FAT16   ");
    b
}

#[test]
fn fat16_layout_and_used_clusters() {
    let b = fat16_boot_sector();
    let g = parse_fat_boot_sector(&b).unwrap();
    assert_eq!(g.fat_type, FatType::Fat16);
    assert_eq!(g.total_sectors, 20);
    // data starts at 1 + 2 + 1 = 4; 16 clusters
    let mut fat = vec![0u8; 512];
    fat[2 * 2] = 0xff; // cluster 2 used
    fat[2 * 5] = 3; // cluster 5 used
    let chunks = get_fat_chunks(&g, &fat);
    assert_eq!(chunks, vec![c(0, 4 * 512), c(4 * 512, 512), c(7 * 512, 512)]);
}

#[test]
fn fat_partition_shorter_than_a_boot_sector() {
    let b = fat16_boot_sector();
    assert!(fat_partition_geometry(1000, 1511, &[]).is_none());
    assert_eq!(fat_partition_geometry(1000, 1512, &b).unwrap().total_sectors, 20);
    assert!(fat_partition_geometry(0, 4096, &vec![0u8; 512]).is_none());
}

#[test]
fn not_a_fat_boot_sector() {
    assert!(parse_fat_boot_sector(&vec![0u8; 512]).is_none());
}

fn ntfs_boot_sector() -> Vec<u8> {
    let mut b = vec![0u8; 512];
    b[3..11].copy_from_slice(b"NTFS    ");
    b[0x0b..0x0d].copy_from_slice(&512u16.to_le_bytes());
    b[0x0d] = 8; // 4 KiB clusters
    b[0x30..0x38].copy_from_slice(&4u64.to_le_bytes()); // MFT at cluster 4
    b[0x40] = 0xF6; // 2^10 bytes per file record
    b
}

#[test]
fn ntfs_geometry_from_boot_sector() {
    let b = ntfs_boot_sector();
    assert!(ntfs_signature(&b));
    assert!(ntfs_boot_sector_usable(&b, 1 << 20));
    let g = ntfs_geometry(&b, 1 << 20);
    assert_eq!(g.bytes_per_cluster, 4096);
    assert_eq!(g.num_clusters, 256);
    assert_eq!(g.bitmap_record_address, 4 * 4096 + 6 * 1024);
    let mut bad = b.clone();
    bad[0x0d] = 200;
    assert!(!ntfs_boot_sector_usable(&bad, 1 << 20));
}

#[test]
fn ntfs_bitmap_attribute_is_found() {
    let mut e = vec![0u8; 1024];
    e[0x14..0x16].copy_from_slice(&0x38u16.to_le_bytes());
    // a $STANDARD_INFORMATION attribute of 0x60 bytes
    e[0x38..0x3C].copy_from_slice(&0x10u32.to_le_bytes());
    e[0x3C..0x40].copy_from_slice(&0x60u32.to_le_bytes());
    let a = 0x38 + 0x60;
    e[a..a + 4].copy_from_slice(&0x80u32.to_le_bytes());
    e[a + 8] = 1;
    e[a + 0x10..a + 0x18].copy_from_slice(&0u64.to_le_bytes());
    e[a + 0x18..a + 0x20].copy_from_slice(&3u64.to_le_bytes());
    e[a + 0x20..a + 0x22].copy_from_slice(&0x40u16.to_le_bytes());
    assert_eq!(find_bitmap_attribute(&e), BitmapAttr::Found { start_vcn: 0, last_vcn: 3, runs: a + 0x40 });
    let mut end = vec![0u8; 1024];
    end[0x14..0x16].copy_from_slice(&0x38u16.to_le_bytes());
    end[0x38..0x3C].copy_from_slice(&0xFFFF_FFFFu32.to_le_bytes());
    assert_eq!(find_bitmap_attribute(&end), BitmapAttr::Missing);
}

#[test]
fn ntfs_data_runs_with_negative_offset() {
    // run 1: 2 clusters at +0x10; run 2: 1 cluster at -4; end
    let e = vec![0x11u8, 0x02, 0x10, 0x11, 0x01, 0xFC, 0x00];
    assert_eq!(data_run(&e, 0), Some(DataRun { length: 2, delta: 0x10, next: 3 }));
    assert_eq!(data_run(&e, 3), Some(DataRun { length: 1, delta: -4, next: 6 }));
    assert_eq!(data_run(&e, 6), None);
    let mut w = RunWalker::new(0, 10, 0);
    assert_eq!(w.next(&e), Some((0x10, 2)));
    assert_eq!(w.next(&e), Some((0x0C, 1)));
    assert_eq!(w.next(&e), None);
}

#[test]
fn ntfs_cluster_bitmap_merges_touching_clusters() {
    let mut bm = ClusterBitmap::new(10, 4096);
    bm.feed(&[0b0000_0111, 0b1111_1110]);
    // clusters 0..3 used, 3..8 free, 8 free, 9 used, rest past the end
    assert_eq!(bm.chunks, vec![c(0, 3 * 4096), c(9 * 4096, 4096)]);
    assert_eq!(bm.cnt, 10);
    let mut v = vec![c(0, 10)];
    push_chunk(&mut v, 10, 5);
    push_chunk(&mut v, 20, 5);
    assert_eq!(v, vec![c(0, 15), c(20, 5)]);
}

#[test]
fn swap_signature_and_fallback_partition() {
    let mut page = vec![0u8; 4096];
    page[4086..].copy_from_slice(b"SWAPSPACE2");
    assert_eq!(get_swap_chunks(1 << 20, &page), Some(vec![c(0, 4096)]));
    assert_eq!(get_swap_chunks(1 << 20, &vec![0u8; 4096]), None);
    assert_eq!(get_swap_chunks(100, &[]), None);
    assert_eq!(parse_partition(None, None, None, 1234), vec![c(0, 1234)]);
    assert_eq!(parse_partition(None, Some(vec![c(1, 1)]), Some(vec![c(2, 2)]), 9), vec![c(1, 1)]);
}

#[test]
fn ntfs_bitmap_runs_offsets_and_chunks() {
    let mut e = vec![0u8; 1024];
    e[0x100..0x103].copy_from_slice(&[0x11, 2, 0x10]);
    e[0x103..0x107].copy_from_slice(&[0x21, 1, 0xF0, 0xFF]);
    let runs = bitmap_runs(&e, 0, 10, 0x100);
    assert_eq!(runs, vec![(16, 2), (0, 1)]);
    // all virtual clusters mapped after the first run
    assert_eq!(bitmap_runs(&e, 0, 1, 0x100), vec![(16, 2)]);
    assert_eq!(bitmap_cluster_offsets(&runs, 4096), vec![65536, 69632, 0]);
    let chunks = get_ntfs_chunks(10, 4096, &vec![vec![0b0000_0110, 0xFF]]);
    assert_eq!(chunks, vec![ChunkInfo { start: 4096, size: 8192 }, ChunkInfo { start: 32768, size: 8192 }]);
    let chunks = get_ntfs_chunks(12, 512, &vec![vec![0x80], vec![0x01, 0xFF]]);
    assert_eq!(chunks, vec![ChunkInfo { start: 7 * 512, size: 2 * 512 }]);
}

#[test]
fn gpt_entries_give_byte_ranges_of_used_partitions() {
    let mut entry = vec![0u8; 128];
    entry[32..40].copy_from_slice(&2048u64.to_le_bytes());
    entry[40..48].copy_from_slice(&4095u64.to_le_bytes());
    assert_eq!(partition_of_entry(&entry, 512), None);
    entry[15] = 0xAF;
    assert_eq!(partition_of_entry(&entry, 512), Some((2048 * 512, 4096 * 512)));
    assert_eq!(partition_of_entry(&entry, 4096), Some((2048 * 4096, 4096 * 4096)));
}

fn gpt_disk(entry_size: u32) -> Vec<u8> {
    let mut d = vec![0u8; 3 * 512];
    d[512..520].copy_from_slice(b"EFI PART");
    d[512 + 72..512 + 80].copy_from_slice(&2u64.to_le_bytes());
    d[512 + 80..512 + 84].copy_from_slice(&4u32.to_le_bytes());
    d[512 + 84..512 + 88].copy_from_slice(&entry_size.to_le_bytes());
    for (i, (first, last)) in [(34u64, 100u64), (0, 0), (200, 299), (0, 0)].iter().enumerate() {
        let e = 1024 + i * 128;
        if *last != 0 {
            d[e] = 0xAF;
            d[e + 32..e + 40].copy_from_slice(&first.to_le_bytes());
            d[e + 40..e + 48].copy_from_slice(&last.to_le_bytes());
        }
    }
    d
}

#[test]
fn gpt_disk_partitions_from_the_primary_header() {
    let d = gpt_disk(128);
    assert_eq!(disk_partitions(&d, 512), Some(vec![(34 * 512, 101 * 512), (200 * 512, 300 * 512)]));
    // The entry array lies past the end of the bytes.
    assert_eq!(disk_partitions(&d[..1024], 512), None);
    // An entry size that is not a power of two of at least 128 bytes.
    assert_eq!(disk_partitions(&gpt_disk(100), 512), None);
}

#[test]
fn partitions_of_used_entries_only() {
    let entries = vec![(false, 1, 2), (true, 2, 3), (true, 10, 10)];
    assert_eq!(partitions_of_entries(&entries, 4096), vec![(8192, 16384), (40960, 45056)]);
}
