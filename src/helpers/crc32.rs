//! CRC-32 (IEEE) over a byte range of a container.
use crate::binary::Reader;
use vstd::prelude::*;

verus! {

/// The CRC-32 (IEEE) checksum of `data`.
pub uninterp spec fn crc32_of(data: Seq<u8>) -> u32;

/// Relies on crc32fast::hash: the CRC-32 (IEEE) checksum of the bytes, which
/// depends on the bytes alone.
#[verifier::external_body]
pub(crate) fn crc32_bytes(data: &[u8]) -> (r: u32)
    ensures
        r == crc32_of(data@),
{
    crc32fast::hash(data)
}

/// The CRC-32 of `file`'s bytes `[offset, offset + size)`, or `None` when that
/// range does not lie within the container. The reader's position is untouched.
pub fn hash(file: &Reader, offset: u64, size: u64) -> (r: Option<u32>)
    ensures
        r == if offset + size <= file.data@.len() {
            Some(crc32_of(file.data@.subrange(offset as int, offset + size)))
        } else {
            None::<u32>
        },
{
    let len = file.data.len();
    if offset as u128 + size as u128 > len as u128 {
        return None;
    }
    let start = offset as usize;
    let end = (offset + size) as usize;
    let part = &file.data.as_slice()[start..end];
    Some(crc32_bytes(part))
}

} // verus!
