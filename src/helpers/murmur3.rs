//! 32-bit Murmur3 over a byte range of a container.
use crate::binary::Reader;
use vstd::prelude::*;

verus! {

/// The 32-bit Murmur3 hash of `data` under `seed`.
pub uninterp spec fn murmur3_of(data: Seq<u8>, seed: u32) -> u32;

/// Relies on murmur3::murmur3_32 over an in-memory cursor: the x86 32-bit
/// Murmur3 hash of the bytes under the seed, a function of both alone. A read
/// from a cursor over a slice cannot fail; the function counts the bytes in a
/// `u32`, so inputs of 4 GiB and more are left out.
#[verifier::external_body]
pub(crate) fn murmur3_bytes(data: &[u8], seed: u32) -> (r: u32)
    requires
        data@.len() < 0x1_0000_0000,
    ensures
        r == murmur3_of(data@, seed),
{
    ::murmur3::murmur3_32(&mut std::io::Cursor::new(data), seed).unwrap_or_default()
}

/// The Murmur3 hash under `seed` of `file`'s bytes `[offset, offset + size)`,
/// or `None` when that range does not lie within the container or spans 4 GiB
/// or more. The reader's position is untouched.
pub fn hash(file: &Reader, offset: u64, size: u64, seed: u32) -> (r: Option<u32>)
    ensures
        r == if offset + size <= file.data@.len() && size < 0x1_0000_0000 {
            Some(murmur3_of(file.data@.subrange(offset as int, offset + size), seed))
        } else {
            None::<u32>
        },
{
    let len = file.data.len();
    if offset as u128 + size as u128 > len as u128 || size >= 0x1_0000_0000 {
        return None;
    }
    let start = offset as usize;
    let end = (offset + size) as usize;
    let part = &file.data.as_slice()[start..end];
    Some(murmur3_bytes(part, seed))
}

} // verus!
