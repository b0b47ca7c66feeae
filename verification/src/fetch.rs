//! Fetching an image's chunks over UDP: which chunks the disk already holds,
//! which to ask the server for, and the receive window that turns packets
//! into decompressed chunks, keeping at most a bounded number of partly
//! received chunks (the least recently seen one is dropped first).

use vstd::prelude::*;
use crate::image::{ChunkTable, hash_order};
use crate::pull::{
    PartialChunk, PacketOutcome, num_packets, slot_of, splice, recovered, all_recoverable, slot_layout, parity_consistent,
    lemma_recovery_restores_buffer,
};
use crate::codec::{blake3_hash, blake3_digest, lz4_decompress, lz4_unblock, inflate, deflate_decoded};

verus! {

/// Bytes before a packet's payload: the chunk hash and the packet index.
pub const HEADER_LEN: usize = 34;

/// Whether `data` is the chunk with hash `hash`.
pub fn chunk_matches(data: &[u8], hash: &[u8; 32]) -> (r: bool)
    ensures
        r == (blake3_digest(data@) == hash@),
{
    let h = blake3_hash(data);
    hash_order(&h, hash).is_none()
}

/// The chunk hash and packet index at the head of a chunk packet.
pub fn packet_header(buf: &[u8]) -> (r: ([u8; 32], u16))
    requires
        buf@.len() >= HEADER_LEN,
    ensures
        r.0@ == buf@.subrange(0, 32),
        r.1 == buf@[32] + 256 * buf@[33],
{
    let mut h: [u8; 32] = [0u8; 32];
    let mut i: usize = 0;
    while i < 32
        invariant
            i <= 32,
            buf@.len() >= HEADER_LEN,
            h@.len() == 32,
            forall|k: int| 0 <= k < i ==> h@[k] == buf@[k],
        decreases 32 - i,
    {
        h[i] = buf[i];
        i = i + 1;
    }
    proof {
        assert(h@ =~= buf@.subrange(0, 32));
    }
    (h, buf[32] as u16 + 256 * (buf[33] as u16))
}

/// Where a chunk found on disk must still be written: every start but the
/// one it was found at.
pub fn copy_targets(starts: &Vec<usize>, found: usize) -> (r: Vec<usize>)
    ensures
        r@ == starts@.filter(|s: usize| s != found),
{
    let mut out: Vec<usize> = Vec::new();
    let mut i: usize = 0;
    while i < starts.len()
        invariant
            i <= starts@.len(),
            out@ == starts@.take(i as int).filter(|s: usize| s != found),
        decreases starts@.len() - i,
    {
        proof {
            assert(starts@.take(i as int + 1).drop_last() =~= starts@.take(i as int));
            reveal(Seq::filter);
        }
        if starts[i] != found {
            out.push(starts[i]);
        }
        i = i + 1;
    }
    proof {
        assert(starts@.take(starts@.len() as int) =~= starts@);
    }
    out
}

/// How many partly received chunks may be kept: the memory beyond the
/// reserve, in maximum-size chunks, and never fewer than 128.
pub fn max_chunks_in_memory(total_mem: u64, min_memory: u64, max_chunk_size: usize) -> (r: usize)
    requires
        max_chunk_size > 0,
    ensures
        r == (if ((if total_mem >= min_memory { total_mem - min_memory } else { 0 }) as usize) / max_chunk_size > 128 {
            ((if total_mem >= min_memory { total_mem - min_memory } else { 0 }) as usize) / max_chunk_size
        } else {
            128
        }),
{
    let free = if total_mem >= min_memory { total_mem - min_memory } else { 0 };
    let n = (free as usize) / max_chunk_size;
    if n > 128 { n } else { 128 }
}

/// A chunk being received.
pub struct ReceivingChunk {
    pub hash: [u8; 32],
    pub chunk: PartialChunk,
}

/// How a finished chunk is compressed.
#[derive(Clone, Copy, Debug, PartialEq, Eq, Structural)]
pub enum Codec {
    /// LZ4 block, decoded into a buffer of the chunk's size.
    Lz4,
    /// Raw DEFLATE.
    Deflate,
}

/// What a packet did.
#[derive(Debug)]
pub enum PacketResult {
    /// Not a chunk still wanted, or not (yet) completing one.
    Pending,
    /// It does not fit its chunk, or its chunk is too large to receive;
    /// dropped.
    Invalid,
    /// It completed a chunk: where the chunk goes, and its bytes.
    Complete(Vec<usize>, Vec<u8>),
    /// It completed a chunk that does not decompress to its size.
    Corrupt(String),
}

/// The chunks still wanted and the ones partly received, least recently
/// seen first.
pub struct ReceiveWindow {
    pub table: ChunkTable,
    pub recent: Vec<ReceivingChunk>,
    pub body_len: usize,
}

/// Whether a chunk of `csize` compressed bytes can be received in packets
/// of `body_len` bytes.
pub open spec fn receivable(csize: int, body_len: int) -> bool {
    &&& body_len > 0
    &&& 33 * body_len + csize <= usize::MAX
    &&& 32 + num_packets(csize, body_len) <= 65536
}

impl ReceiveWindow {
    /// The table is ordered, each partial chunk is consistent and uses the
    /// window's packet size, and no hash is received twice.
    pub open spec fn wf(&self) -> bool {
        &&& self.table.wf()
        &&& self.body_len > 0
        &&& forall|i: int| 0 <= i < self.recent@.len() ==> (#[trigger] self.recent@[i]).chunk.wf()
            && self.recent@[i].chunk.body_len == self.body_len
        &&& forall|i: int, j: int|
            0 <= i < j < self.recent@.len() ==> #[trigger] self.recent@[i].hash@ != #[trigger] self.recent@[j].hash@
    }

    /// A window over the chunks of `table`, nothing received yet.
    pub fn new(table: ChunkTable, body_len: usize) -> (r: ReceiveWindow)
        requires
            table.wf(),
            body_len > 0,
        ensures
            r.wf(),
            r.table == table,
            r.recent@.len() == 0,
            r.body_len == body_len,
    {
        ReceiveWindow { table, recent: Vec::new(), body_len }
    }

    fn find_recent(&self, h: &[u8; 32]) -> (r: Option<usize>)
        ensures
            r matches Some(i) ==> i < self.recent@.len() && self.recent@[i as int].hash@ == h@,
            r is None ==> forall|i: int| 0 <= i < self.recent@.len() ==> self.recent@[i].hash@ != h@,
    {
        let mut i: usize = 0;
        while i < self.recent.len()
            invariant
                i <= self.recent@.len(),
                forall|k: int| 0 <= k < i ==> self.recent@[k].hash@ != h@,
            decreases self.recent@.len() - i,
        {
            if hash_order(&self.recent[i].hash, h).is_none() {
                return Some(i);
            }
            i = i + 1;
        }
        None
    }

    /// Drops the least recently seen partial chunk when more than `max` are
    /// kept.
    pub fn evict_over(&mut self, max: usize)
        requires
            old(self).wf(),
        ensures
            final(self).wf(),
            final(self).table == old(self).table,
            final(self).body_len == old(self).body_len,
            old(self).recent@.len() > max ==> final(self).recent@ == old(self).recent@.drop_first(),
            old(self).recent@.len() <= max ==> final(self).recent@ == old(self).recent@,
    {
        if self.recent.len() > max {
            let _dropped = self.recent.remove(0);
            proof {
                assert(self.recent@ =~= old(self).recent@.drop_first());
                assert forall|i: int, j: int| 0 <= i < j < self.recent@.len() implies #[trigger] self.recent@[i].hash@
                    != #[trigger] self.recent@[j].hash@ by {
                    assert(self.recent@[i] == old(self).recent@[i + 1]);
                    assert(self.recent@[j] == old(self).recent@[j + 1]);
                }
            }
        }
    }

    /// Whether the chunk with hash `h` is partly received.
    pub open spec fn is_receiving(&self, h: Seq<u8>) -> bool {
        exists|i: int| 0 <= i < self.recent@.len() && #[trigger] self.recent@[i].hash@ == h
    }

    /// The position of the partly received chunk with hash `h`.
    pub open spec fn receiving_index(&self, h: Seq<u8>) -> int {
        choose|i: int| 0 <= i < self.recent@.len() && #[trigger] self.recent@[i].hash@ == h
    }

    /// The partly received chunks other than the one with hash `h`.
    pub open spec fn others(&self, h: Seq<u8>) -> Seq<ReceivingChunk> {
        if self.is_receiving(h) {
            self.recent@.remove(self.receiving_index(h))
        } else {
            self.recent@
        }
    }

    /// Whether a packet of the wanted chunk `h` can be taken in: its chunk
    /// is being received, or a reception of its size can start.
    pub open spec fn admits(&self, h: Seq<u8>) -> bool {
        self.is_receiving(h) || receivable(self.table.view()[h].1 as int, self.body_len as int)
    }

    /// The receive buffer of chunk `h` before its next packet: the one kept
    /// for it, or a zeroed one when its reception starts.
    pub open spec fn prior_data(&self, h: Seq<u8>) -> Seq<u8> {
        if self.is_receiving(h) {
            self.recent@[self.receiving_index(h)].chunk.data@
        } else {
            Seq::new((32 * self.body_len + self.table.view()[h].1) as nat, |i: int| 0u8)
        }
    }

    /// The missing slots of chunk `h` before its next packet.
    pub open spec fn prior_missing(&self, h: Seq<u8>) -> Seq<bool> {
        if self.is_receiving(h) {
            self.recent@[self.receiving_index(h)].chunk.missing_first@
        } else {
            Seq::new(
                (32 + num_packets(self.table.view()[h].1 as int, self.body_len as int)) as nat,
                |i: int| true,
            )
        }
    }
}

/// The chunk hash of a packet.
pub open spec fn packet_hash(buf: Seq<u8>) -> Seq<u8> {
    buf.subrange(0, 32)
}

/// The packet index of a packet.
pub open spec fn packet_index(buf: Seq<u8>) -> u16 {
    (buf[32] + 256 * buf[33]) as u16
}

/// The payload of a packet.
pub open spec fn packet_payload(buf: Seq<u8>) -> Seq<u8> {
    buf.subrange(HEADER_LEN as int, buf.len() as int)
}

/// Whether a payload of `len` bytes with index `index` lies inside a
/// receive buffer `data` with slots `missing` of `b` bytes.
pub open spec fn packet_fits(data: Seq<u8>, missing: Seq<bool>, index: u16, len: int, b: int) -> bool {
    slot_of(index) < missing.len() && slot_of(index) * b + len <= data.len()
}

/// The compressed bytes of a chunk once its missing packets are recovered.
pub open spec fn recovered_payload(data: Seq<u8>, missing: Seq<bool>, b: int) -> Seq<u8> {
    let r = recovered(data, missing, b);
    r.subrange(32 * b, r.len() as int)
}

/// Whether `p` decodes to a chunk of `size` bytes.
pub open spec fn decodes(codec: Codec, p: Seq<u8>, size: int) -> bool {
    match codec {
        Codec::Lz4 => lz4_unblock(p, size as usize) is Some && lz4_unblock(p, size as usize)->0.len() == size,
        Codec::Deflate => deflate_decoded(p) is Some,
    }
}

/// The chunk that `p` decodes to.
pub open spec fn decoded(codec: Codec, p: Seq<u8>, size: int) -> Seq<u8> {
    match codec {
        Codec::Lz4 => lz4_unblock(p, size as usize)->0,
        Codec::Deflate => deflate_decoded(p)->0,
    }
}

impl ReceiveWindow {
    /// The receive buffer of the packet's chunk once the packet is stored.
    pub open spec fn after_data(&self, buf: Seq<u8>) -> Seq<u8> {
        splice(
            self.prior_data(packet_hash(buf)),
            slot_of(packet_index(buf)) * self.body_len,
            packet_payload(buf),
        )
    }

    /// The missing slots of the packet's chunk once the packet is stored.
    pub open spec fn after_missing(&self, buf: Seq<u8>) -> Seq<bool> {
        self.prior_missing(packet_hash(buf)).update(slot_of(packet_index(buf)), false)
    }

    /// Whether the packet fits its chunk's buffer.
    pub open spec fn fits(&self, buf: Seq<u8>) -> bool {
        packet_fits(
            self.prior_data(packet_hash(buf)),
            self.prior_missing(packet_hash(buf)),
            packet_index(buf),
            packet_payload(buf).len() as int,
            self.body_len as int,
        )
    }

    /// Whether the packet is new and makes every group of its chunk
    /// recoverable.
    pub open spec fn completes(&self, buf: Seq<u8>) -> bool {
        &&& self.fits(buf)
        &&& self.prior_missing(packet_hash(buf))[slot_of(packet_index(buf))]
        &&& all_recoverable(self.after_missing(buf))
        &&& !all_recoverable(self.prior_missing(packet_hash(buf)))
    }

    proof fn lemma_receiving_at(&self, i: int, h: Seq<u8>)
        requires
            self.wf(),
            0 <= i < self.recent@.len(),
            self.recent@[i].hash@ == h,
        ensures
            self.is_receiving(h),
            self.receiving_index(h) == i,
    {
        let j = self.receiving_index(h);
        assert(0 <= j < self.recent@.len() && self.recent@[j].hash@ == h);
        if j < i {
            assert(self.recent@[j].hash@ != self.recent@[i].hash@);
        } else if i < j {
            assert(self.recent@[i].hash@ != self.recent@[j].hash@);
        }
    }

    /// Handles a chunk packet `buf` (hash, index, payload). A packet of a
    /// chunk no longer wanted is ignored. A packet of a chunk whose
    /// reception cannot start is dropped. Otherwise the chunk becomes the
    /// most recently seen one (its reception starts if it had not) and the
    /// packet is stored unless it was received before; one that does not
    /// fit is dropped. When the packet makes every group recoverable, the
    /// chunk leaves both the table and the window, its missing packets are
    /// recovered and it is decompressed.
    pub fn handle_packet(&mut self, buf: &[u8], codec: Codec) -> (r: PacketResult)
        requires
            old(self).wf(),
            buf@.len() >= HEADER_LEN,
        ensures
            final(self).wf(),
            final(self).body_len == old(self).body_len,
            ({
                let h = packet_hash(buf@);
                let w = *old(self);
                let fin = *final(self);
                let b = w.body_len as int;
                let slot = slot_of(packet_index(buf@));
                let pd = w.prior_data(h);
                let pm = w.prior_missing(h);
                let nd = w.after_data(buf@);
                let nm = w.after_missing(buf@);
                let kept = fin.table == w.table && fin.recent@.len() > 0 && fin.recent@.drop_last() == w.others(h)
                    && fin.recent@.last().hash@ == h;
                &&& !w.table.view().contains_key(h) ==> r is Pending && fin.table == w.table && fin.recent@
                    == w.recent@
                &&& w.table.view().contains_key(h) && !w.admits(h) ==> r is Invalid && fin.table == w.table
                    && fin.recent@ == w.recent@
                &&& w.table.view().contains_key(h) && w.admits(h) && !w.fits(buf@) ==> r is Invalid && kept
                    && fin.recent@.last().chunk.data@ == pd && fin.recent@.last().chunk.missing_first@ == pm
                &&& w.table.view().contains_key(h) && w.admits(h) && w.fits(buf@) && !pm[slot] ==> r is Pending
                    && kept && fin.recent@.last().chunk.data@ == pd && fin.recent@.last().chunk.missing_first@ == pm
                &&& w.table.view().contains_key(h) && w.admits(h) && w.fits(buf@) && pm[slot] && !w.completes(buf@)
                    ==> r is Pending && kept && fin.recent@.last().chunk.data@ == nd
                    && fin.recent@.last().chunk.missing_first@ == nm
                &&& w.table.view().contains_key(h) && w.admits(h) && w.completes(buf@) ==> {
                    let p = recovered_payload(nd, nm, b);
                    let size = w.table.view()[h].0 as int;
                    &&& fin.table.view() == w.table.view().remove(h)
                    &&& fin.recent@ == w.others(h)
                    &&& (r is Complete <==> decodes(codec, p, size))
                    &&& (r is Complete || r is Corrupt)
                    &&& r matches PacketResult::Complete(starts, data) ==> starts@ == w.table.view()[h].2
                        && data@ == decoded(codec, p, size)
                }
            }),
    {
        let ghost h = buf@.subrange(0, 32);
        let ghost w = *self;
        let (hash, index) = packet_header(buf);
        let (size, csize) = match self.table.get(&hash) {
            Some(sc) => sc,
            None => {
                return PacketResult::Pending;
            },
        };
        let body_len = self.body_len;
        let ghost old_recent = self.recent@;
        let found = self.find_recent(&hash);
        let mut entry = match found {
            Some(i) => {
                proof {
                    w.lemma_receiving_at(i as int, h);
                }
                let e = self.recent.remove(i);
                proof {
                    assert(self.recent@ =~= old_recent.remove(i as int));
                    assert forall|a: int, b: int| 0 <= a < b < self.recent@.len() implies #[trigger] self.recent@[a].hash@
                        != #[trigger] self.recent@[b].hash@ by {
                        let aa = if a < i { a } else { a + 1 };
                        let bb = if b < i { b } else { b + 1 };
                        assert(self.recent@[a] == old_recent[aa]);
                        assert(self.recent@[b] == old_recent[bb]);
                    }
                    assert forall|k: int| 0 <= k < self.recent@.len() implies self.recent@[k].hash@ != hash@ by {
                        let kk = if k < i { k } else { k + 1 };
                        assert(self.recent@[k] == old_recent[kk]);
                    }
                    assert(old_recent[i as int] == e);
                }
                e
            },
            None => {
                proof {
                    assert(!w.is_receiving(h));
                }
                let m = match body_len.checked_mul(33) {
                    Some(m) => m,
                    None => {
                        return PacketResult::Invalid;
                    },
                };
                if csize > usize::MAX - m {
                    return PacketResult::Invalid;
                }
                let n = (csize + body_len - 1) / body_len;
                if n > 65536 - 32 {
                    return PacketResult::Invalid;
                }
                ReceivingChunk { hash, chunk: PartialChunk::new(csize, body_len) }
            },
        };
        proof {
            assert(self.recent@ == w.others(h));
            assert(entry.chunk.data@ == w.prior_data(h));
            assert(entry.chunk.missing_first@ == w.prior_missing(h));
            assert(entry.hash@ == h);
        }
        let payload_len = buf.len() - HEADER_LEN;
        let slot = (index as usize + 32) % 65536;
        let mut outcome: Option<PacketOutcome> = None;
        if payload_len <= entry.chunk.data.len() && slot < entry.chunk.missing_first.len() {
            match slot.checked_mul(body_len) {
                Some(start) => {
                    if start <= entry.chunk.data.len() - payload_len {
                        let payload = slice_from(buf, HEADER_LEN);
                        outcome = Some(entry.chunk.add_packet(index, payload.as_slice()));
                    }
                },
                None => {},
            }
        }
        match outcome {
            Some(PacketOutcome::Complete) => {
                let removed = self.table.remove(&hash);
                let starts = match removed {
                    Some(e) => e.starts,
                    None => Vec::new(),
                };
                entry.chunk.recover();
                let cdata = slice_from(&entry.chunk.data, 32 * body_len);
                let decoded = match codec {
                    Codec::Lz4 => lz4_decompress(cdata.as_slice(), size),
                    Codec::Deflate => inflate(cdata.as_slice()),
                };
                chunk_result(codec, size, starts, decoded)
            },
            _ => {
                let ghost before = self.recent@;
                self.recent.push(entry);
                proof {
                    assert(self.recent@.drop_last() =~= before);
                    assert forall|a: int, b: int| 0 <= a < b < self.recent@.len() implies #[trigger] self.recent@[a].hash@
                        != #[trigger] self.recent@[b].hash@ by {
                        if b < before.len() {
                            assert(self.recent@[a] == before[a]);
                            assert(self.recent@[b] == before[b]);
                        } else {
                            assert(self.recent@[a] == before[a]);
                        }
                    }
                    assert forall|k: int| 0 <= k < self.recent@.len() implies (#[trigger] self.recent@[k]).chunk.wf()
                        && self.recent@[k].chunk.body_len == self.body_len by {
                        if k < before.len() {
                            assert(self.recent@[k] == before[k]);
                        }
                    }
                }
                if outcome.is_some() {
                    PacketResult::Pending
                } else {
                    PacketResult::Invalid
                }
            },
        }
    }
}

/// What a completed chunk yields once its compressed bytes were decoded
/// (`decoded`: the bytes, or the decoder's error text): the chunk, to be
/// written at `starts`, when decoding succeeded and, for LZ4, gave exactly
/// `size` bytes; otherwise `Corrupt` with the decoder's error, or with a
/// note of the wrong size.
pub fn chunk_result(codec: Codec, size: usize, starts: Vec<usize>, decoded: Result<Vec<u8>, String>) -> (r: PacketResult)
    ensures
        (r is Complete) <==> (decoded is Ok && (codec is Deflate || decoded->Ok_0@.len() == size)),
        r matches PacketResult::Complete(s, data) ==> s@ == starts@ && data@ == decoded->Ok_0@,
        decoded matches Err(e) ==> r == PacketResult::Corrupt(e),
        (decoded is Ok && !(r is Complete)) ==> r is Corrupt,
{
    match decoded {
        Ok(data) => {
            match codec {
                Codec::Lz4 => {
                    if data.len() != size {
                        return PacketResult::Corrupt(String::from_str("decompressed chunk has the wrong size"));
                    }
                },
                Codec::Deflate => {},
            }
            PacketResult::Complete(starts, data)
        },
        Err(e) => PacketResult::Corrupt(e),
    }
}

/// Law: the chunk a packet completes is the chunk that was stored. Let
/// `truth` be the sender's buffer for the chunk (32 parity slots whose
/// bytes XOR every group to zero, then the stored compressed bytes
/// `cdata`), and let every slot received so far, this packet's included,
/// hold the sender's bytes. When the packet completes its chunk, the
/// recovered bytes decode to `chunk`, provided `cdata` is the LZ4 encoding
/// that decodes to `chunk` at the chunk's size, as storing a chunk makes it.
pub proof fn lemma_fetched_chunk_is_stored(
    w: ReceiveWindow,
    buf: Seq<u8>,
    truth: Seq<u8>,
    cdata: Seq<u8>,
    chunk: Seq<u8>,
)
    requires
        w.wf(),
        buf.len() >= HEADER_LEN,
        w.table.view().contains_key(packet_hash(buf)),
        w.admits(packet_hash(buf)),
        w.completes(buf),
        truth.len() == w.after_data(buf).len(),
        parity_consistent(truth, w.after_missing(buf).len(), w.body_len as int),
        forall|i: int|
            0 <= i < truth.len() && !w.after_missing(buf)[i / (w.body_len as int)] ==> #[trigger] w.after_data(
                buf,
            )[i] == truth[i],
        truth.subrange(32 * w.body_len, truth.len() as int) == cdata,
        chunk.len() == w.table.view()[packet_hash(buf)].0,
        decodes(Codec::Lz4, cdata, chunk.len() as int),
        decoded(Codec::Lz4, cdata, chunk.len() as int) == chunk,
    ensures
        decodes(
            Codec::Lz4,
            recovered_payload(w.after_data(buf), w.after_missing(buf), w.body_len as int),
            w.table.view()[packet_hash(buf)].0 as int,
        ),
        decoded(
            Codec::Lz4,
            recovered_payload(w.after_data(buf), w.after_missing(buf), w.body_len as int),
            w.table.view()[packet_hash(buf)].0 as int,
        ) == chunk,
{
    let h = packet_hash(buf);
    let b = w.body_len as int;
    let pd = w.prior_data(h);
    let pm = w.prior_missing(h);
    let nd = w.after_data(buf);
    let nm = w.after_missing(buf);
    assert(slot_layout(pd, pm, b)) by {
        if w.is_receiving(h) {
            let i = w.receiving_index(h);
            assert(w.recent@[i].chunk.wf());
        }
    }
    assert(nd.len() == pd.len());
    assert(nm.len() == pm.len());
    lemma_recovery_restores_buffer(nd, nm, b, truth);
    assert(recovered_payload(nd, nm, b) == cdata);
}

/// The bytes of `buf` from `from` on.
pub fn slice_from(buf: &[u8], from: usize) -> (r: Vec<u8>)
    requires
        from <= buf@.len(),
    ensures
        r@ == buf@.subrange(from as int, buf@.len() as int),
{
    let mut out: Vec<u8> = Vec::new();
    let mut i: usize = from;
    while i < buf.len()
        invariant
            from <= i <= buf@.len(),
            out@ == buf@.subrange(from as int, i as int),
        decreases buf@.len() - i,
    {
        out.push(buf[i]);
        proof {
            assert(out@ =~= buf@.subrange(from as int, i + 1));
        }
        i = i + 1;
    }
    out
}

} // verus!
