//! Uploading a disk image: each chunk read from disk is hashed and, unless
//! the server already has it, compressed; the chunks become the image's
//! list, and the progress screen counts them.

use vstd::prelude::*;
use crate::image::Chunk;
use crate::codec::{blake3_hash, blake3_digest, lz4_compress, lz4_unblock};
use crate::fetch::{Codec, decodes, decoded};
use crate::boot_options::{BootOptions, spec_reboot_target};

verus! {

/// A chunk read from disk at `start`, hashed and compressed: its entry in
/// the image and its compressed bytes, which decode back to the chunk when
/// it is fetched.
pub fn make_chunk(start: usize, data: &[u8]) -> (r: (Chunk, Vec<u8>))
    ensures
        r.0.hash@ == blake3_digest(data@),
        r.0.start == start,
        decodes(Codec::Lz4, r.1@, r.0.size as int),
        decoded(Codec::Lz4, r.1@, r.0.size as int) == data@,
        r.0.size == data@.len(),
        r.0.csize == r.1@.len(),
{
    let hash = blake3_hash(data);
    let cdata = lz4_compress(data);
    (Chunk { hash, start, size: data.len(), csize: cdata.len() }, cdata)
}

/// The hash of a chunk's bytes.
pub fn hash_chunk(data: &[u8]) -> (r: [u8; 32])
    ensures
        r@ == blake3_digest(data@),
{
    blake3_hash(data)
}

/// The compressed size of a chunk, and its compressed bytes when they must
/// be uploaded: the size the server reports when it has the chunk, else
/// the compressed bytes and their length.
pub fn compress_if_unknown(data: &[u8], known_csize: Option<usize>) -> (r: (usize, Option<Vec<u8>>))
    ensures
        known_csize matches Some(c) ==> r.0 == c && r.1 is None,
        known_csize is None ==> r.1 is Some && lz4_unblock(r.1->0@, data@.len() as usize) == Some(data@) && r.0
            == r.1->0@.len(),
{
    match known_csize {
        Some(c) => (c, None),
        None => {
            let cdata = lz4_compress(data);
            (cdata.len(), Some(cdata))
        },
    }
}

/// What the upload screen shows.
#[derive(Clone, Copy, Debug, PartialEq, Eq, Structural)]
pub enum UploadState {
    ReadingPartitions,
    PushingChunks { cur: usize, total: usize, tsize: usize, tcsize: usize },
}

impl UploadState {
    /// Pushing starts: none of `total` chunks done.
    pub fn start_pushing(total: usize) -> (r: UploadState)
        ensures
            r == (UploadState::PushingChunks { cur: 0, total, tsize: 0, tcsize: 0 }),
    {
        UploadState::PushingChunks { cur: 0, total, tsize: 0, tcsize: 0 }
    }

    /// One more chunk of `size` bytes, `csize` compressed, is done.
    pub fn record(&self, size: usize, csize: usize) -> (r: UploadState)
        requires
            *self is PushingChunks,
            self->cur + 1 <= usize::MAX,
            self->tsize + size <= usize::MAX,
            self->tcsize + csize <= usize::MAX,
        ensures
            r == (UploadState::PushingChunks {
                cur: (self->cur + 1) as usize,
                total: self->total,
                tsize: (self->tsize + size) as usize,
                tcsize: (self->tcsize + csize) as usize,
            }),
    {
        match *self {
            UploadState::PushingChunks { cur, total, tsize, tcsize } => UploadState::PushingChunks {
                cur: cur + 1,
                total,
                tsize: tsize + size,
                tcsize: tcsize + csize,
            },
            UploadState::ReadingPartitions => UploadState::ReadingPartitions,
        }
    }
}

/// Sum of the sizes of a list of chunks.
pub open spec fn total_size(s: Seq<Chunk>) -> int
    decreases s.len(),
{
    if s.len() == 0 {
        0
    } else {
        total_size(s.drop_last()) + s.last().size
    }
}

/// Sum of the compressed sizes of a list of chunks.
pub open spec fn total_csize(s: Seq<Chunk>) -> int
    decreases s.len(),
{
    if s.len() == 0 {
        0
    } else {
        total_csize(s.drop_last()) + s.last().csize
    }
}

proof fn lemma_sums_nonneg(s: Seq<Chunk>)
    ensures
        total_size(s) >= 0,
        total_csize(s) >= 0,
    decreases s.len(),
{
    if s.len() > 0 {
        lemma_sums_nonneg(s.drop_last());
    }
}

proof fn lemma_prefix_sums(s: Seq<Chunk>, k: int, n: int)
    requires
        0 <= k <= n <= s.len(),
    ensures
        total_size(s.take(k)) <= total_size(s.take(n)),
        total_csize(s.take(k)) <= total_csize(s.take(n)),
    decreases n - k,
{
    if k < n {
        lemma_prefix_sums(s, k, n - 1);
        assert(s.take(n).drop_last() =~= s.take(n - 1));
    }
    if n == s.len() {
        assert(s.take(n) =~= s);
    }
}

/// The screen after the chunks of `done` were pushed one by one: the
/// counters are the number of chunks and the sums of their sizes.
pub fn progress_after(total: usize, done: &Vec<Chunk>) -> (r: UploadState)
    requires
        total_size(done@) <= usize::MAX,
        total_csize(done@) <= usize::MAX,
    ensures
        r == (UploadState::PushingChunks {
            cur: done@.len() as usize,
            total,
            tsize: total_size(done@) as usize,
            tcsize: total_csize(done@) as usize,
        }),
{
    let mut st = UploadState::start_pushing(total);
    let mut i: usize = 0;
    proof {
        assert(done@.take(0) =~= Seq::<Chunk>::empty());
    }
    while i < done.len()
        invariant
            i <= done@.len(),
            total_size(done@) <= usize::MAX,
            total_csize(done@) <= usize::MAX,
            st == (UploadState::PushingChunks {
                cur: i,
                total,
                tsize: total_size(done@.take(i as int)) as usize,
                tcsize: total_csize(done@.take(i as int)) as usize,
            }),
        decreases done@.len() - i,
    {
        let c = done[i];
        proof {
            assert(done@.take(i as int + 1).drop_last() =~= done@.take(i as int));
            lemma_prefix_sums(done@, i as int + 1, done@.len() as int);
            lemma_prefix_sums(done@, i as int, i as int + 1);
            lemma_sums_nonneg(done@.take(i as int));
            assert(done@.take(done@.len() as int) =~= done@);
            assert(total_size(done@.take(i as int + 1)) == total_size(done@.take(i as int)) + c.size);
            assert(total_csize(done@.take(i as int + 1)) == total_csize(done@.take(i as int)) + c.csize);
        }
        st = st.record(c.size, c.csize);
        i = i + 1;
    }
    proof {
        assert(done@.take(done@.len() as int) =~= done@);
    }
    st
}

/// The boot option an uploaded image records: the reboot target, that is
/// the first OS entry after the current option in the boot order. Storing
/// an image needs one.
pub fn image_boot_option(options: &BootOptions) -> (r: u16)
    requires
        spec_reboot_target(options.order@, options.current) is Some,
    ensures
        r == spec_reboot_target(options.order@, options.current)->0,
{
    match options.reboot_target() {
        Some(t) => t,
        None => 0,
    }
}

} // verus!
