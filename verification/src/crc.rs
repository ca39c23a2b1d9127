//! The running checksum over decoded article bytes, kept by
//! `crc32fast::Hasher`. The hasher value is opaque; its state is modelled
//! as the sequence of bytes it has been fed, and the checksum it yields
//! is named, not computed, here.

use vstd::prelude::*;

verus! {

#[verifier::external_type_specification]
#[verifier::external_body]
pub struct ExHasher(crc32fast::Hasher);

/// The bytes a hasher has been fed since its creation.
pub uninterp spec fn hasher_bytes(h: crc32fast::Hasher) -> Seq<u8>;

/// The CRC-32 checksum of a byte sequence: a function of the bytes alone.
pub uninterp spec fn crc32_of(s: Seq<u8>) -> u32;

/// Relies on `crc32fast::Hasher::new`: a fresh hasher has been fed nothing.
#[verifier::external_body]
pub fn hasher_new() -> (h: crc32fast::Hasher)
    ensures
        hasher_bytes(h) == Seq::<u8>::empty(),
{
    crc32fast::Hasher::new()
}

/// Relies on `crc32fast::Hasher::update`: feeding a chunk appends it to
/// the bytes the hasher has seen.
#[verifier::external_body]
pub fn hasher_update(h: &mut crc32fast::Hasher, data: &[u8])
    ensures
        hasher_bytes(*final(h)) == hasher_bytes(*old(h)) + data@,
{
    h.update(data)
}

/// Relies on `crc32fast::Hasher::clone` and `crc32fast::Hasher::finalize`:
/// the checksum of the bytes fed so far, leaving the hasher as it was.
#[verifier::external_body]
pub fn hasher_crc(h: &crc32fast::Hasher) -> (r: u32)
    ensures
        r == crc32_of(hasher_bytes(*h)),
{
    h.clone().finalize()
}

} // verus!
