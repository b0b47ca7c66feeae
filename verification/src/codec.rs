//! The hashing and compression that chunks go through, from the `blake3`,
//! `lz4_flex` and `miniz_oxide` crates.

use vstd::prelude::*;

verus! {

/// The BLAKE3 digest of a byte string.
pub uninterp spec fn blake3_digest(data: Seq<u8>) -> Seq<u8>;

/// The LZ4 block decoding of `data` into a buffer of `capacity` bytes;
/// `None` when `data` is not a valid block or does not fit.
pub uninterp spec fn lz4_unblock(data: Seq<u8>, capacity: usize) -> Option<Seq<u8>>;

/// The raw DEFLATE decoding of a byte string; `None` when it is not valid.
pub uninterp spec fn deflate_decoded(data: Seq<u8>) -> Option<Seq<u8>>;

/// `blake3::hash`: the 32-byte BLAKE3 digest of `data`, which depends on
/// `data` alone.
#[verifier::external_body]
pub(crate) fn blake3_hash(data: &[u8]) -> (r: [u8; 32])
    ensures
        r@ == blake3_digest(data@),
{
    *blake3::hash(data).as_bytes()
}

/// `lz4_flex::compress`: an LZ4 block encoding of `data`, which
/// `lz4_flex::decompress` with the original length as capacity decodes back
/// to `data` (the block-format round trip the crate documents). Which
/// encoding it picks is left unsaid: its match finder hashes machine words,
/// so the bytes can differ between machines.
#[verifier::external_body]
pub(crate) fn lz4_compress(data: &[u8]) -> (r: Vec<u8>)
    ensures
        lz4_unblock(r@, data@.len() as usize) == Some(data@),
{
    lz4_flex::compress(data)
}

/// `lz4_flex::decompress` (safe decoding): decodes `data` into a buffer of
/// `capacity` bytes and truncates it to what was written, so the result is
/// never longer than `capacity`; on failure, the error's text.
#[verifier::external_body]
pub(crate) fn lz4_decompress(data: &[u8], capacity: usize) -> (r: Result<Vec<u8>, String>)
    ensures
        r is Ok <==> lz4_unblock(data@, capacity) is Some,
        r matches Ok(v) ==> v@ == lz4_unblock(data@, capacity)->0 && v@.len() <= capacity,
{
    match lz4_flex::decompress(data, capacity) {
        Ok(v) => Ok(v),
        Err(e) => Err(e.to_string()),
    }
}

/// `miniz_oxide::inflate::decompress_to_vec`: decodes raw DEFLATE data; on
/// failure, the error's text.
#[verifier::external_body]
pub(crate) fn inflate(data: &[u8]) -> (r: Result<Vec<u8>, String>)
    ensures
        r is Ok <==> deflate_decoded(data@) is Some,
        r matches Ok(v) ==> v@ == deflate_decoded(data@)->0,
{
    match miniz_oxide::inflate::decompress_to_vec(data) {
        Ok(v) => Ok(v),
        Err(e) => Err(e.to_string()),
    }
}

} // verus!
