//! The CRC-32/IEEE checksum that guards every chunk.
//!
//! The checksum itself is computed by the `crc` crate; this module only
//! gives its result a name that contracts can speak about.

use vstd::prelude::*;

verus! {

/// The CRC-32/IEEE checksum of a byte sequence, as the `crc` crate
/// computes it. The checksum is a pure function of the bytes.
pub uninterp spec fn crc32_of(bytes: Seq<u8>) -> u32;

/// Relies on crc::crc32::checksum_ieee: it folds the fixed IEEE table over
/// the bytes starting from a fixed initial value, so its result depends on
/// the bytes alone.
#[verifier::external_body]
pub(crate) fn crc32_checksum(bytes: &[u8]) -> (r: u32)
    ensures
        r == crc32_of(bytes@),
{
    crc::crc32::checksum_ieee(bytes)
}

} // verus!
