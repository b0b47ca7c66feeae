//! What a partition's content is, in chunks relative to its start: the
//! first file system that recognises it, or the whole partition.

use vstd::prelude::*;
use crate::chunks::ChunkInfo;

verus! {

/// The signature `"SWAPSPACE2"` ending the first page of a Linux swap area.
pub open spec fn is_swap(page: Seq<u8>) -> bool {
    &&& page.len() == 4096
    &&& page.subrange(4086, 4096) == seq![83u8, 87u8, 65u8, 80u8, 83u8, 80u8, 65u8, 67u8, 69u8, 50u8]
}

/// The chunks of a swap partition of `len` bytes whose first page is
/// `first_page`: only that page (the header) when it carries the swap
/// signature; `None` when the partition is smaller than a page or is not
/// swap.
pub fn get_swap_chunks(len: u64, first_page: &[u8]) -> (r: Option<Vec<ChunkInfo>>)
    requires
        len >= 4096 ==> first_page@.len() == 4096,
    ensures
        r is Some <==> len >= 4096 && is_swap(first_page@),
        r matches Some(v) ==> v@ == seq![ChunkInfo { start: 0, size: 4096 }],
{
    if len < 4096 {
        return None;
    }
    let sig: [u8; 10] = [83u8, 87u8, 65u8, 80u8, 83u8, 80u8, 65u8, 67u8, 69u8, 50u8];
    let mut i: usize = 0;
    while i < 10
        invariant
            first_page@.len() == 4096,
            i <= 10,
            sig@ == seq![83u8, 87u8, 65u8, 80u8, 83u8, 80u8, 65u8, 67u8, 69u8, 50u8],
            forall|k: int| 0 <= k < i ==> first_page@[4086 + k] == sig@[k],
        decreases 10 - i,
    {
        if first_page[4086 + i] != sig[i] {
            proof {
                assert(first_page@.subrange(4086, 4096)[i as int] != sig@[i as int]);
            }
            return None;
        }
        i = i + 1;
    }
    proof {
        assert(first_page@.subrange(4086, 4096) =~= sig@);
    }
    let mut v: Vec<ChunkInfo> = Vec::new();
    v.push(ChunkInfo { start: 0, size: 4096 });
    proof {
        assert(v@ =~= seq![ChunkInfo { start: 0, size: 4096 }]);
    }
    Some(v)
}

/// The chunks of a partition of `len` bytes: those of the first file
/// system that recognised it (ext4, then NTFS, then swap), else the whole
/// partition as one chunk.
pub fn parse_partition(
    ext4: Option<Vec<ChunkInfo>>,
    ntfs: Option<Vec<ChunkInfo>>,
    swap: Option<Vec<ChunkInfo>>,
    len: u64,
) -> (r: Vec<ChunkInfo>)
    ensures
        ext4 is Some ==> r@ == ext4->0@,
        ext4 is None && ntfs is Some ==> r@ == ntfs->0@,
        ext4 is None && ntfs is None && swap is Some ==> r@ == swap->0@,
        ext4 is None && ntfs is None && swap is None ==> r@ == seq![ChunkInfo { start: 0, size: len as usize }],
{
    match ext4 {
        Some(c) => c,
        None => match ntfs {
            Some(c) => c,
            None => match swap {
                Some(c) => c,
                None => {
                    let mut v: Vec<ChunkInfo> = Vec::new();
                    v.push(ChunkInfo { start: 0, size: len as usize });
                    proof {
                        assert(v@ =~= seq![ChunkInfo { start: 0, size: len as usize }]);
                    }
                    v
                },
            },
        },
    }
}

} // verus!
