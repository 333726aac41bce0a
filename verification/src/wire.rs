//! Big-endian byte order for the 32-bit fields of the chunk layout.
//!
//! Both the length prefix and the trailing checksum of a chunk are stored
//! as 4 bytes in big-endian order.

use vstd::prelude::*;

verus! {

/// The four bytes of `x` in big-endian order.
pub open spec fn u32_be_bytes(x: u32) -> Seq<u8> {
    seq![
        ((x >> 24) & 0xff) as u8,
        ((x >> 16) & 0xff) as u8,
        ((x >> 8) & 0xff) as u8,
        (x & 0xff) as u8,
    ]
}

/// The 32-bit value that four big-endian bytes denote.
pub open spec fn u32_from_be(s: Seq<u8>) -> u32
    recommends
        s.len() == 4,
{
    (((s[0] as u32) << 24) | ((s[1] as u32) << 16) | ((s[2] as u32) << 8) | (s[3] as u32)) as u32
}

/// Reading back the big-endian bytes of a value yields that value.
pub proof fn lemma_u32_be_round_trip(x: u32)
    ensures
        u32_be_bytes(x).len() == 4,
        u32_from_be(u32_be_bytes(x)) == x,
{
    assert(((x >> 24) & 0xff) < 256 && ((x >> 16) & 0xff) < 256 && ((x >> 8) & 0xff) < 256 && (x
        & 0xff) < 256) by (bit_vector);
    assert((((x >> 24) & 0xff) << 24) | (((x >> 16) & 0xff) << 16) | (((x >> 8) & 0xff) << 8) | (x
        & 0xff) == x) by (bit_vector);
}

/// Writing the value that four bytes denote reproduces those bytes, so the
/// encoding is injective on 4-byte sequences.
pub proof fn lemma_u32_be_bytes_of_value(s: Seq<u8>)
    requires
        s.len() == 4,
    ensures
        u32_be_bytes(u32_from_be(s)) == s,
{
    let x = u32_from_be(s);
    let b0 = s[0] as u32;
    let b1 = s[1] as u32;
    let b2 = s[2] as u32;
    let b3 = s[3] as u32;
    assert((b0 < 256 && b1 < 256 && b2 < 256 && b3 < 256 && x == ((b0 << 24) | (b1 << 16) | (b2
        << 8) | b3)) ==> (b0 == ((x >> 24) & 0xff) && b1 == ((x >> 16) & 0xff) && b2 == ((x >> 8)
        & 0xff) && b3 == (x & 0xff))) by (bit_vector);
    assert(u32_be_bytes(x) =~= s);
}

/// Read the big-endian 32-bit field that starts at `pos`.
pub fn read_u32_be(bytes: &[u8], pos: usize) -> (r: u32)
    requires
        pos + 4 <= bytes@.len(),
    ensures
        r == u32_from_be(bytes@.subrange(pos as int, pos as int + 4)),
{
    let b0 = bytes[pos];
    let b1 = bytes[pos + 1];
    let b2 = bytes[pos + 2];
    let b3 = bytes[pos + 3];
    let r = ((b0 as u32) << 24) | ((b1 as u32) << 16) | ((b2 as u32) << 8) | (b3 as u32);
    proof {
        let s = bytes@.subrange(pos as int, pos as int + 4);
        assert(s[0] == b0 && s[1] == b1 && s[2] == b2 && s[3] == b3);
    }
    r
}

/// Append the big-endian bytes of `x` to `out`.
pub fn push_u32_be(out: &mut Vec<u8>, x: u32)
    ensures
        final(out)@ == old(out)@ + u32_be_bytes(x),
{
    out.push(((x >> 24) & 0xff) as u8);
    out.push(((x >> 16) & 0xff) as u8);
    out.push(((x >> 8) & 0xff) as u8);
    out.push((x & 0xff) as u8);
    proof {
        assert(out@ =~= old(out)@ + u32_be_bytes(x));
    }
}

} // verus!
