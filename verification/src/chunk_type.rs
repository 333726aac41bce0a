//! Validated 4-byte chunk type codes.
//!
//! A chunk type code consists of four ASCII letters (A-Z or a-z, decimal
//! 65-90 and 97-122). Bit 5 of each byte — the bit that distinguishes upper
//! case from lower case — carries a meaning of its own: ancillary, private,
//! reserved and safe-to-copy, read off the four bytes in that order.

use crate::text::string_from_utf8;
use vstd::prelude::*;
use vstd::string::StringSliceAdditionalSpecFns;
use vstd::utf8::decode_utf8;
use vstd::utf8::encode_utf8;
use vstd::utf8::encode_utf8_decode_utf8;
use vstd::utf8::encode_utf8_valid_utf8;
use vstd::utf8::is_ascii_chars;
use vstd::utf8::is_ascii_chars_encode_utf8;
use vstd::utf8::valid_utf8;

verus! {

/// A byte is an ASCII letter: A-Z (65-90) or a-z (97-122).
pub open spec fn spec_is_valid_byte(b: u8) -> bool {
    (65 <= b && b <= 90) || (97 <= b && b <= 122)
}

/// All four bytes of a type code are ASCII letters.
pub open spec fn valid_type_bytes(s: Seq<u8>) -> bool {
    s.len() == 4 && (forall|i: int| 0 <= i < 4 ==> spec_is_valid_byte(#[trigger] s[i]))
}

/// The first byte of a 4-byte code that is not an ASCII letter.
pub open spec fn first_bad_byte(s: Seq<u8>) -> u8
    recommends
        s.len() == 4,
        !valid_type_bytes(s),
{
    if !spec_is_valid_byte(s[0]) {
        s[0]
    } else if !spec_is_valid_byte(s[1]) {
        s[1]
    } else if !spec_is_valid_byte(s[2]) {
        s[2]
    } else {
        s[3]
    }
}

/// The bytes of a type code read as ASCII characters.
pub open spec fn type_chars(s: Seq<u8>) -> Seq<char> {
    Seq::new(s.len(), |i: int| s[i] as char)
}

/// A chunk type could not be decoded.
#[derive(Debug, Clone, Copy, PartialEq, Eq, Structural)]
pub enum ChunkTypeDecodingError {
    /// A byte outside the ASCII letter ranges; holds the first such byte.
    BadByte(u8),
    /// The input was not exactly 4 bytes long; holds the received length.
    BadLength(usize),
}

/// A 4-byte chunk type code whose bytes are all ASCII letters.
#[derive(Debug, Clone, Copy)]
pub struct ChunkType {
    bytes: [u8; 4],
}

impl View for ChunkType {
    type V = Seq<u8>;

    closed spec fn view(&self) -> Seq<u8> {
        self.bytes@
    }
}

impl PartialEq for ChunkType {
    /// Type codes are compared by exact byte equality.
    fn eq(&self, other: &ChunkType) -> (r: bool) {
        let r = self.bytes[0] == other.bytes[0] && self.bytes[1] == other.bytes[1]
            && self.bytes[2] == other.bytes[2] && self.bytes[3] == other.bytes[3];
        proof {
            if r {
                assert(self.bytes@ =~= other.bytes@);
            }
        }
        r
    }
}

impl vstd::std_specs::cmp::PartialEqSpecImpl for ChunkType {
    open spec fn obeys_eq_spec() -> bool {
        true
    }

    open spec fn eq_spec(&self, other: &ChunkType) -> bool {
        self@ == other@
    }
}

impl ChunkType {
    /// Every constructed type code consists of four ASCII letters.
    #[verifier::type_invariant]
    pub open spec fn type_inv(&self) -> bool {
        valid_type_bytes(self@)
    }

    /// Whether `b` is in ASCII A-Z or a-z (decimal 65-90 and 97-122).
    pub fn is_valid_byte(b: u8) -> (r: bool)
        ensures
            r == spec_is_valid_byte(b),
    {
        (65 <= b && b <= 90) || (97 <= b && b <= 122)
    }

    /// Build a type code from its four bytes; rejects the first byte that is
    /// not an ASCII letter.
    pub fn from_bytes(bytes: [u8; 4]) -> (r: Result<ChunkType, ChunkTypeDecodingError>)
        ensures
            valid_type_bytes(bytes@) ==> (r matches Ok(t) && t@ == bytes@),
            !valid_type_bytes(bytes@) ==> r == Err::<ChunkType, _>(
                ChunkTypeDecodingError::BadByte(first_bad_byte(bytes@)),
            ),
    {
        if !Self::is_valid_byte(bytes[0]) {
            return Err(ChunkTypeDecodingError::BadByte(bytes[0]));
        }
        if !Self::is_valid_byte(bytes[1]) {
            return Err(ChunkTypeDecodingError::BadByte(bytes[1]));
        }
        if !Self::is_valid_byte(bytes[2]) {
            return Err(ChunkTypeDecodingError::BadByte(bytes[2]));
        }
        if !Self::is_valid_byte(bytes[3]) {
            return Err(ChunkTypeDecodingError::BadByte(bytes[3]));
        }
        Ok(ChunkType { bytes })
    }

    /// Build a type code from a string, which must be exactly 4 bytes of
    /// ASCII letters; rejects a wrong length before inspecting the bytes.
    pub fn from_str(s: &str) -> (r: Result<ChunkType, ChunkTypeDecodingError>)
        ensures
            s.spec_bytes().len() != 4 ==> r == Err::<ChunkType, _>(
                ChunkTypeDecodingError::BadLength(s.spec_bytes().len() as usize),
            ),
            s.spec_bytes().len() == 4 && valid_type_bytes(s.spec_bytes()) ==> (r matches Ok(t)
                && t@ == s.spec_bytes()),
            s.spec_bytes().len() == 4 && !valid_type_bytes(s.spec_bytes()) ==> r == Err::<
                ChunkType,
                _,
            >(ChunkTypeDecodingError::BadByte(first_bad_byte(s.spec_bytes()))),
    {
        let bytes = s.as_bytes();
        if bytes.len() != 4 {
            return Err(ChunkTypeDecodingError::BadLength(bytes.len()));
        }
        let arr = [bytes[0], bytes[1], bytes[2], bytes[3]];
        proof {
            assert(arr@ =~= s.spec_bytes());
        }
        Self::from_bytes(arr)
    }

    /// All of the bytes that make up this chunk type.
    pub fn bytes(&self) -> (r: [u8; 4])
        ensures
            r@ == self@,
    {
        self.bytes
    }

    /// Whether bit `n` of `b` (counting from the least significant bit,
    /// 0-indexed) is zero.
    pub open spec fn spec_bit_is_zero(b: u8, n: u8) -> bool
        recommends
            n < 8,
    {
        b & (1u8 << n) == 0
    }

    /// Mask off bit `n` of `b` and test whether it is zero.
    #[verifier::when_used_as_spec(spec_bit_is_zero)]
    pub fn bit_is_zero(b: u8, n: u8) -> (r: bool)
        requires
            n < 8,
        ensures
            r == Self::spec_bit_is_zero(b, n),
    {
        b & (1u8 << n) == 0
    }

    /// A chunk is critical if the ancillary bit — bit 5 of the first byte —
    /// is zero.
    pub fn is_critical(&self) -> (r: bool)
        ensures
            r == Self::spec_bit_is_zero(self@[0], 5),
    {
        Self::bit_is_zero(self.bytes[0], 5)
    }

    /// A chunk is public if the private bit — bit 5 of the second byte — is
    /// zero.
    pub fn is_public(&self) -> (r: bool)
        ensures
            r == Self::spec_bit_is_zero(self@[1], 5),
    {
        Self::bit_is_zero(self.bytes[1], 5)
    }

    /// The reserved bit — bit 5 of the third byte — must be zero in
    /// conforming files.
    pub fn is_reserved_bit_valid(&self) -> (r: bool)
        ensures
            r == Self::spec_bit_is_zero(self@[2], 5),
    {
        Self::bit_is_zero(self.bytes[2], 5)
    }

    /// A chunk is safe to copy if the safe-to-copy bit — bit 5 of the fourth
    /// byte — is one.
    pub fn is_safe_to_copy(&self) -> (r: bool)
        ensures
            r == !Self::spec_bit_is_zero(self@[3], 5),
    {
        !Self::bit_is_zero(self.bytes[3], 5)
    }

    /// A type code is valid when its reserved bit is valid.
    pub fn is_valid(&self) -> (r: bool)
        ensures
            r == Self::spec_bit_is_zero(self@[2], 5),
    {
        self.is_reserved_bit_valid()
    }

    /// The four bytes read as a 4-character string.
    pub fn to_string(&self) -> (r: String)
        ensures
            r@ == type_chars(self@),
    {
        proof {
            use_type_invariant(&*self);
            lemma_letters_decode(self@);
        }
        let mut v: Vec<u8> = Vec::new();
        v.push(self.bytes[0]);
        v.push(self.bytes[1]);
        v.push(self.bytes[2]);
        v.push(self.bytes[3]);
        proof {
            assert(v@ =~= self@);
        }
        match string_from_utf8(v) {
            Some(s) => s,
            None => vstd::pervasive::unreached(),
        }
    }
}

/// String round trip: a type code's bytes, read as ASCII characters, are
/// valid UTF-8, decode to exactly those characters, and encode back to the
/// same bytes — so rendering a type code as a string and reading the string
/// back yields the original code.
pub proof fn lemma_letters_decode(s: Seq<u8>)
    requires
        valid_type_bytes(s),
    ensures
        valid_utf8(s),
        decode_utf8(s) == type_chars(s),
        encode_utf8(type_chars(s)) == s,
{
    let chars = type_chars(s);
    assert forall|i: int| 0 <= i < chars.len() implies '\0' <= #[trigger] chars[i]
        <= '\u{7f}' by {
        assert(spec_is_valid_byte(s[i]));
    }
    assert(is_ascii_chars(chars));
    is_ascii_chars_encode_utf8(chars);
    assert forall|i: int| 0 <= i < chars.len() implies encode_utf8(chars)[i] == #[trigger] s[i] by {
        assert(chars[i] as u8 == encode_utf8(chars)[i]);
    }
    assert(encode_utf8(chars) =~= s);
    encode_utf8_valid_utf8(chars);
    encode_utf8_decode_utf8(chars);
}

} // verus!
