use pixie::fetch::{
    chunk_matches, chunk_result, copy_targets, max_chunks_in_memory, packet_header, Codec, PacketResult, ReceiveWindow,
};
use pixie::image::{hash_order, Chunk, ChunkTable};
use pixie::pull::{PacketOutcome, PartialChunk};
use pixie::boot_options::BootOptions;
use pixie::upload::{compress_if_unknown, hash_chunk, make_chunk, progress_after, UploadState, image_boot_option};

const BLAKE3_EMPTY: [u8; 32] = [
    0xaf, 0x13, 0x49, 0xb9, 0xf5, 0xf9, 0xa1, 0xa6, 0xa0, 0x40, 0x4d, 0xea, 0x36, 0xdc, 0xc9, 0x49, 0x9b, 0xcb, 0x25,
    0xc9, 0xad, 0xc1, 0x12, 0xb7, 0xcc, 0x9a, 0x93, 0xca, 0xe4, 0x1f, 0x32, 0x62,
];

/// The 32 parity packets and the data packets of a compressed chunk, as
/// the server sends them: (index, payload).
fn packets_of(cdata: &[u8], body_len: usize) -> Vec<(u16, Vec<u8>)> {
    let n = (cdata.len() + body_len - 1) / body_len;
    let mut parity = vec![vec![0u8; body_len]; 32];
    let mut out = Vec::new();
    for p in 0..n {
        let start = p * body_len;
        let end = (start + body_len).min(cdata.len());
        let payload = cdata[start..end].to_vec();
        for (j, b) in payload.iter().enumerate() {
            parity[p % 32][j] ^= *b;
        }
        out.push((p as u16, payload));
    }
    for g in 0..32u16 {
        out.push((g.wrapping_sub(32), parity[g as usize].clone()));
    }
    out
}

fn frame(hash: &[u8; 32], index: u16, payload: &[u8]) -> Vec<u8> {
    let mut v = hash.to_vec();
    v.extend_from_slice(&index.to_le_bytes());
    v.extend_from_slice(payload);
    v
}

#[test]
fn partial_chunk_counters_start_from_group_sizes() {
    let pc = PartialChunk::new(100, 10);
    assert_eq!(pc.data.len(), 32 * 10 + 100);
    assert_eq!(pc.missing_first.len(), 32 + 10);
    assert!(pc.missing_first.iter().all(|m| *m));
    for g in 0..32 {
        assert_eq!(pc.missing_second[g], if g < 10 { 1 } else { 0 });
    }
    assert_eq!(pc.missing_third, 10);
}

#[test]
fn partial_chunk_completes_with_one_packet_missing_per_group() {
    // 40 data packets: groups 0..8 hold two data packets, the others one.
    let body = 4;
    let cdata: Vec<u8> = (0..160u32).map(|i| (i * 7 + 3) as u8).collect();
    let packets = packets_of(&cdata, body);
    let mut pc = PartialChunk::new(cdata.len(), body);
    let mut last = PacketOutcome::Stored;
    let mut completed = 0;
    for (index, payload) in &packets {
        // drop data packet 5 (group 5) and the parity packet of group 20
        if *index == 5 || *index == 20u16.wrapping_sub(32) {
            continue;
        }
        last = pc.add_packet(*index, payload);
        if last == PacketOutcome::Complete {
            completed += 1;
        }
    }
    assert_eq!(completed, 1);
    assert_eq!(pc.missing_third, 0);
    let _ = last;
    pc.recover();
    assert_eq!(&pc.data[32 * body..], &cdata[..]);
}

#[test]
fn recovery_restores_a_missing_last_packet() {
    let body = 8;
    let cdata: Vec<u8> = (0..45u8).collect();
    let packets = packets_of(&cdata, body);
    let mut pc = PartialChunk::new(cdata.len(), body);
    for (index, payload) in &packets {
        if *index == 5 {
            continue; // the short last packet
        }
        pc.add_packet(*index, payload);
    }
    pc.recover();
    assert_eq!(&pc.data[32 * body..], &cdata[..]);
}

#[test]
fn duplicate_packets_change_nothing() {
    let mut pc = PartialChunk::new(20, 10);
    assert_eq!(pc.add_packet(0, &[1; 10]), PacketOutcome::Stored);
    let before = pc.data.clone();
    assert_eq!(pc.add_packet(0, &[9; 10]), PacketOutcome::Duplicate);
    assert_eq!(pc.data, before);
    assert_eq!(pc.add_packet(1, &[2; 10]), PacketOutcome::Complete);
}

#[test]
fn chunk_table_groups_by_hash_in_hash_order() {
    let a = [2u8; 32];
    let b = [1u8; 32];
    let disk = vec![
        Chunk { hash: a, start: 0, size: 10, csize: 5 },
        Chunk { hash: b, start: 10, size: 20, csize: 7 },
        Chunk { hash: a, start: 30, size: 99, csize: 99 },
    ];
    let mut t = ChunkTable::from_chunks(&disk);
    assert_eq!(t.len(), 2);
    assert_eq!(t.entries[0].hash, b);
    assert_eq!(t.entries[1].hash, a);
    assert_eq!(t.entries[1].starts, vec![0, 30]);
    assert_eq!(t.get(&a), Some((10, 5)));
    assert_eq!(t.get(&[3u8; 32]), None);
    assert_eq!(t.first_hashes(1), vec![b]);
    let e = t.remove(&b).unwrap();
    assert_eq!(e.starts, vec![10]);
    assert!(t.remove(&b).is_none());
    assert!(!t.is_empty());
}

#[test]
fn hash_order_is_lexicographic() {
    let mut a = [0u8; 32];
    let mut b = [0u8; 32];
    a[3] = 1;
    b[3] = 2;
    b[4] = 0;
    assert_eq!(hash_order(&a, &b), Some(true));
    assert_eq!(hash_order(&b, &a), Some(false));
    assert_eq!(hash_order(&a, &a), None);
}

#[test]
fn blake3_of_nothing() {
    assert_eq!(hash_chunk(&[]), BLAKE3_EMPTY);
    assert!(chunk_matches(&[], &BLAKE3_EMPTY));
    assert!(!chunk_matches(&[0], &BLAKE3_EMPTY));
}

#[test]
fn make_chunk_hashes_and_compresses() {
    let data = vec![7u8; 1000];
    let (c, cdata) = make_chunk(4096, &data);
    assert_eq!(c.start, 4096);
    assert_eq!(c.size, 1000);
    assert_eq!(c.csize, cdata.len());
    assert!(cdata.len() < 1000);
    assert_eq!(c.hash, hash_chunk(&data));
    assert_eq!(compress_if_unknown(&data, Some(12)), (12, None));
    let (n, v) = compress_if_unknown(&data, None);
    assert_eq!(n, v.unwrap().len());
}

#[test]
fn window_delivers_lz4_chunk_despite_lost_packets() {
    let body = 16;
    let data: Vec<u8> = (0..3000u32).map(|i| (i % 251) as u8).collect();
    let (chunk, cdata) = make_chunk(8192, &data);
    let table = ChunkTable::from_chunks(&vec![chunk]);
    let mut w = ReceiveWindow::new(table, body);
    let packets = packets_of(&cdata, body);
    let mut done = None;
    for (k, (index, payload)) in packets.iter().enumerate() {
        if k == 3 {
            continue;
        }
        match w.handle_packet(&frame(&chunk.hash, *index, payload), Codec::Lz4) {
            PacketResult::Complete(starts, out) => done = Some((starts, out)),
            PacketResult::Pending => {}
            other => panic!("unexpected {:?}", other),
        }
    }
    let (starts, out) = done.expect("chunk completed");
    assert_eq!(starts, vec![8192]);
    assert_eq!(out, data);
    assert!(w.table.is_empty());
    assert!(w.recent.is_empty());
    // a chunk that is no longer wanted is ignored
    let again = w.handle_packet(&frame(&chunk.hash, 0, &packets[0].1), Codec::Lz4);
    assert!(matches!(again, PacketResult::Pending));
}

#[test]
fn window_inflates_deflate_chunk() {
    // one stored DEFLATE block holding "hi"
    let cdata = vec![0x01u8, 0x02, 0x00, 0xfd, 0xff, 0x68, 0x69];
    let hash = [5u8; 32];
    let table = ChunkTable::from_chunks(&vec![Chunk { hash, start: 0, size: 2, csize: cdata.len() }]);
    let mut w = ReceiveWindow::new(table, 4);
    let mut out = None;
    for (index, payload) in packets_of(&cdata, 4) {
        if let PacketResult::Complete(_, d) = w.handle_packet(&frame(&hash, index, &payload), Codec::Deflate) {
            out = Some(d);
        }
    }
    assert_eq!(out.unwrap(), b"hi".to_vec());
}

#[test]
fn window_rejects_packets_that_do_not_fit() {
    let hash = [5u8; 32];
    let table = ChunkTable::from_chunks(&vec![Chunk { hash, start: 0, size: 2, csize: 8 }]);
    let mut w = ReceiveWindow::new(table, 4);
    let r = w.handle_packet(&frame(&hash, 7, &[0; 4]), Codec::Deflate);
    assert!(matches!(r, PacketResult::Invalid));
    assert_eq!(w.recent.len(), 1);
    w.evict_over(0);
    assert!(w.recent.is_empty());
}

#[test]
fn corrupt_lz4_chunk_is_reported() {
    let cdata = vec![0xffu8; 8];
    let hash = [9u8; 32];
    let table = ChunkTable::from_chunks(&vec![Chunk { hash, start: 0, size: 100, csize: cdata.len() }]);
    let mut w = ReceiveWindow::new(table, 8);
    let mut corrupt = false;
    for (index, payload) in packets_of(&cdata, 8) {
        if let PacketResult::Corrupt(_) = w.handle_packet(&frame(&hash, index, &payload), Codec::Lz4) {
            corrupt = true;
        }
    }
    assert!(corrupt);
    assert!(w.table.is_empty());
}

#[test]
fn packet_header_and_copy_targets() {
    let mut buf = vec![3u8; 32];
    buf.extend_from_slice(&[0x34, 0x12, 9]);
    assert_eq!(packet_header(&buf), ([3u8; 32], 0x1234));
    assert_eq!(copy_targets(&vec![1, 2, 3, 2], 2), vec![1, 3]);
}

#[test]
fn max_chunks_in_memory_has_a_floor() {
    assert_eq!(max_chunks_in_memory(1 << 20, 32 << 20, 1 << 20), 128);
    assert_eq!(max_chunks_in_memory((32 << 20) + (300 << 20), 32 << 20, 1 << 20), 300);
}

#[test]
fn upload_progress_sums_chunks() {
    let done = vec![
        Chunk { hash: [0; 32], start: 0, size: 10, csize: 4 },
        Chunk { hash: [1; 32], start: 10, size: 20, csize: 6 },
    ];
    assert_eq!(
        progress_after(5, &done),
        UploadState::PushingChunks { cur: 2, total: 5, tsize: 30, tcsize: 10 }
    );
    assert_eq!(image_boot_option(&BootOptions { current: 1, order: vec![1, 7, 3] }), 7);
    assert_eq!(image_boot_option(&BootOptions { current: 1, order: vec![1, 0x2001, 5] }), 5);
    assert_eq!(image_boot_option(&BootOptions { current: 9, order: vec![0x3000, 4, 1] }), 4);
}


#[test]
fn stored_chunk_decompresses_to_its_bytes() {
    for data in [Vec::new(), vec![7u8; 5], (0..5000u32).map(|i| (i * 31 % 256) as u8).collect::<Vec<u8>>()] {
        let (chunk, cdata) = make_chunk(0, &data);
        assert_eq!(chunk.size, data.len());
        assert_eq!(lz4_flex::decompress(&cdata, chunk.size).unwrap(), data);
    }
}

#[test]
fn decoded_chunk_results() {
    match chunk_result(Codec::Lz4, 3, vec![0, 512], Ok(vec![1, 2, 3])) {
        PacketResult::Complete(starts, data) => {
            assert_eq!(starts, vec![0, 512]);
            assert_eq!(data, vec![1, 2, 3]);
        }
        other => panic!("unexpected {:?}", other),
    }
    assert!(matches!(chunk_result(Codec::Lz4, 4, vec![0], Ok(vec![1, 2, 3])), PacketResult::Corrupt(_)));
    assert!(matches!(chunk_result(Codec::Deflate, 4, vec![0], Ok(vec![1, 2, 3])), PacketResult::Complete(_, _)));
    match chunk_result(Codec::Deflate, 4, vec![0], Err("bad stream".to_string())) {
        PacketResult::Corrupt(e) => assert_eq!(e, "bad stream"),
        other => panic!("unexpected {:?}", other),
    }
}
