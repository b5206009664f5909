//! The cyclic-redundancy checksum stamped on every chunk.

use vstd::prelude::*;

verus! {

/// The 32-bit cyclic-redundancy checksum of a byte sequence, as
/// computed by the checksum engine. The value is a function of the
/// bytes alone; its definition is not restated here.
pub uninterp spec fn crc32_of(data: Seq<u8>) -> u32;

/// Relies on crc32fast::Hasher (new, update, finalize): feeding the
/// type tag and then the payload yields the CRC-32 of their
/// concatenation, a deterministic function of those bytes alone.
#[verifier::external_body]
pub(crate) fn crc32_over(tag: &Vec<u8>, payload: &Vec<u8>) -> (r: u32)
    ensures
        r == crc32_of(tag@ + payload@),
{
    let mut hasher = crc32fast::Hasher::new();
    hasher.update(tag);
    hasher.update(payload);
    hasher.finalize()
}

} // verus!
