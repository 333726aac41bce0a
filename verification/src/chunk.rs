//! A single PNG chunk: one length-prefixed, type-tagged, checksummed record.
//!
//! On the wire a chunk is `length:u32 | type:4 bytes | data:length bytes |
//! crc:u32`, with both 32-bit fields big-endian and the CRC-32/IEEE checksum
//! taken over the type bytes followed by the data bytes — the length field is
//! not covered.

use crate::chunk_type::ChunkType;
use crate::chunk_type::ChunkTypeDecodingError;
use crate::chunk_type::first_bad_byte;
use crate::chunk_type::type_chars;
use crate::chunk_type::valid_type_bytes;
use crate::crc32::crc32_checksum;
use crate::crc32::crc32_of;
use crate::text::string_from_utf8;
use crate::wire;
use vstd::prelude::*;
use vstd::utf8::decode_utf8;
use vstd::utf8::valid_utf8;

verus! {

/// The largest data length a chunk may declare.
pub const MAXIMUM_LENGTH: u32 = 0x7fff_ffff;

/// The mathematical content of a chunk: its four fields as plain values.
pub ghost struct ChunkModel {
    pub length: u32,
    pub ty: Seq<u8>,
    pub data: Seq<u8>,
    pub crc: u32,
}

/// A chunk model is well formed when its type bytes are four letters, its
/// length field counts exactly the data bytes and stays within bound, and
/// its checksum is the CRC-32/IEEE checksum of type bytes followed by data.
pub open spec fn model_wf(m: ChunkModel) -> bool {
    &&& valid_type_bytes(m.ty)
    &&& m.data.len() == m.length
    &&& m.length <= MAXIMUM_LENGTH
    &&& m.crc == crc32_of(m.ty + m.data)
}

/// The exact wire bytes of a chunk model.
pub open spec fn spec_chunk_bytes(m: ChunkModel) -> Seq<u8> {
    wire::u32_be_bytes(m.length) + m.ty + m.data + wire::u32_be_bytes(m.crc)
}

/// The length a chunk starting at the head of `b` declares.
pub open spec fn chunk_declared_len(b: Seq<u8>) -> u32
    recommends
        b.len() >= 4,
{
    wire::u32_from_be(b.subrange(0, 4))
}

/// The number of bytes the chunk at the head of `b` occupies.
pub open spec fn chunk_size_at(b: Seq<u8>) -> int
    recommends
        b.len() >= 4,
{
    12 + chunk_declared_len(b) as int
}

/// The type bytes of the chunk at the head of `b`.
pub open spec fn chunk_ty_at(b: Seq<u8>) -> Seq<u8>
    recommends
        b.len() >= 8,
{
    b.subrange(4, 8)
}

/// The data bytes of the chunk at the head of `b`.
pub open spec fn chunk_data_at(b: Seq<u8>) -> Seq<u8>
    recommends
        b.len() >= chunk_size_at(b),
{
    b.subrange(8, 8 + chunk_declared_len(b) as int)
}

/// The stored checksum of the chunk at the head of `b`.
pub open spec fn chunk_crc_at(b: Seq<u8>) -> u32
    recommends
        b.len() >= chunk_size_at(b),
{
    wire::u32_from_be(
        b.subrange(8 + chunk_declared_len(b) as int, chunk_size_at(b)),
    )
}

/// Whether a whole chunk parses at the head of `b`: the buffer holds the
/// declared size, the declared length is in bound, the type bytes are four
/// letters, and the stored checksum matches the one recomputed over type
/// bytes and data.
pub open spec fn valid_chunk_at(b: Seq<u8>) -> bool {
    &&& b.len() >= 4
    &&& chunk_declared_len(b) <= MAXIMUM_LENGTH
    &&& b.len() >= chunk_size_at(b)
    &&& valid_type_bytes(chunk_ty_at(b))
    &&& chunk_crc_at(b) == crc32_of(chunk_ty_at(b) + chunk_data_at(b))
}

/// The fields of the chunk at the head of `b`.
pub open spec fn chunk_model_at(b: Seq<u8>) -> ChunkModel
    recommends
        valid_chunk_at(b),
{
    ChunkModel {
        length: chunk_declared_len(b),
        ty: chunk_ty_at(b),
        data: chunk_data_at(b),
        crc: chunk_crc_at(b),
    }
}

/// A chunk could not be decoded from bytes.
#[derive(Debug, Clone, Copy, PartialEq, Eq, Structural)]
pub enum ChunkDecodingError {
    /// The declared data length exceeds the bound; holds the declared length.
    LengthTooLarge(u32),
    /// Fewer bytes remain than a field needs.
    Truncated,
    /// A type byte outside the ASCII letter ranges; holds the first such byte.
    BadByte(u8),
    /// The data read does not have the declared length. The decoder reads
    /// exact slices, so this defensive variant is never produced here.
    DataLengthMismatch,
    /// The stored checksum differs from the recomputed one; holds the stored
    /// value, then the recomputed value.
    CrcMismatch(u32, u32),
}

/// The error the chunk decoder reports for a buffer whose head holds no
/// valid chunk, in the order the fields are read: length, type, data, crc.
pub open spec fn spec_chunk_error(b: Seq<u8>) -> ChunkDecodingError
    recommends
        !valid_chunk_at(b),
{
    if b.len() < 4 {
        ChunkDecodingError::Truncated
    } else if chunk_declared_len(b) > MAXIMUM_LENGTH {
        ChunkDecodingError::LengthTooLarge(chunk_declared_len(b))
    } else if b.len() < 8 {
        ChunkDecodingError::Truncated
    } else if !valid_type_bytes(chunk_ty_at(b)) {
        ChunkDecodingError::BadByte(first_bad_byte(chunk_ty_at(b)))
    } else if b.len() < chunk_size_at(b) {
        ChunkDecodingError::Truncated
    } else {
        ChunkDecodingError::CrcMismatch(
            chunk_crc_at(b),
            crc32_of(chunk_ty_at(b) + chunk_data_at(b)),
        )
    }
}

/// Chunk data was not valid UTF-8 when text was requested.
#[derive(Debug, Clone, Copy, PartialEq, Eq, Structural)]
pub struct InvalidUtf8Error;

/// One chunk: its declared length, type code, data bytes and checksum.
#[derive(Debug)]
pub struct Chunk {
    length: u32,
    chunk_type: ChunkType,
    chunk_data: Vec<u8>,
    crc: u32,
}

impl View for Chunk {
    type V = ChunkModel;

    closed spec fn view(&self) -> ChunkModel {
        ChunkModel {
            length: self.length,
            ty: self.chunk_type@,
            data: self.chunk_data@,
            crc: self.crc,
        }
    }
}

impl Chunk {
    /// Every constructed chunk is well formed.
    #[verifier::type_invariant]
    pub open spec fn type_inv(&self) -> bool {
        model_wf(self@)
    }

    /// Build a chunk from a type code and its data, computing the length and
    /// the checksum.
    pub fn new(chunk_type: ChunkType, chunk_data: Vec<u8>) -> (r: Chunk)
        requires
            chunk_data@.len() <= MAXIMUM_LENGTH,
        ensures
            r@ == (ChunkModel {
                length: chunk_data@.len() as u32,
                ty: chunk_type@,
                data: chunk_data@,
                crc: crc32_of(chunk_type@ + chunk_data@),
            }),
    {
        proof {
            use_type_invariant(&chunk_type);
        }
        let crc = compute_crc(&chunk_type, &chunk_data);
        let length = chunk_data.len() as u32;
        Chunk { length, chunk_type, chunk_data, crc }
    }

    /// The length field: the number of data bytes, not the total size.
    pub fn length(&self) -> (r: u32)
        ensures
            r == self@.length,
    {
        self.length
    }

    /// The chunk type.
    pub fn chunk_type(&self) -> (r: &ChunkType)
        ensures
            r@ == self@.ty,
    {
        &self.chunk_type
    }

    /// The chunk data.
    pub fn data(&self) -> (r: &[u8])
        ensures
            r@ == self@.data,
    {
        self.chunk_data.as_slice()
    }

    /// The stored CRC-32/IEEE checksum.
    pub fn crc(&self) -> (r: u32)
        ensures
            r == self@.crc,
    {
        self.crc
    }

    /// The data read as UTF-8 text; fails exactly when the data is not
    /// valid UTF-8.
    pub fn data_as_string(&self) -> (r: Result<String, InvalidUtf8Error>)
        ensures
            r is Ok <==> valid_utf8(self@.data),
            r matches Ok(s) ==> s@ == decode_utf8(self@.data),
    {
        let copy = self.chunk_data.clone();
        match string_from_utf8(copy) {
            Some(s) => Ok(s),
            None => Err(InvalidUtf8Error),
        }
    }

    /// The type code and a best-effort text rendering of the data,
    /// separated by a tab; data that is not UTF-8 renders as a placeholder.
    pub fn to_string(&self) -> (r: String)
        ensures
            r@ == type_chars(self@.ty) + "\t"@ + (if valid_utf8(self@.data) {
                decode_utf8(self@.data)
            } else {
                "[data]"@
            }),
    {
        proof {
            use_type_invariant(&*self);
        }
        let mut s = self.chunk_type.to_string();
        s.append("\t");
        match self.data_as_string() {
            Ok(text) => {
                s.append(text.as_str());
            },
            Err(_) => {
                s.append("[data]");
            },
        }
        s
    }

    /// Every byte of this chunk on the wire: big-endian length, type bytes,
    /// data bytes, big-endian checksum. The result always parses back to a
    /// chunk with exactly this chunk's fields.
    pub fn as_bytes(&self) -> (r: Vec<u8>)
        ensures
            r@ == spec_chunk_bytes(self@),
            valid_chunk_at(r@),
            chunk_model_at(r@) == self@,
    {
        proof {
            use_type_invariant(&*self);
        }
        let mut out: Vec<u8> = Vec::new();
        wire::push_u32_be(&mut out, self.length);
        let tb = self.chunk_type.bytes();
        out.push(tb[0]);
        out.push(tb[1]);
        out.push(tb[2]);
        out.push(tb[3]);
        out.extend_from_slice(self.chunk_data.as_slice());
        wire::push_u32_be(&mut out, self.crc);
        proof {
            assert(out@ =~= spec_chunk_bytes(self@));
            lemma_chunk_bytes_parse(self@);
        }
        out
    }

    /// Decode one chunk from the head of `bytes`; trailing bytes are
    /// ignored. Succeeds exactly when a valid chunk starts there, and
    /// otherwise reports the error for the first field that fails.
    pub fn decode(bytes: &[u8]) -> (r: Result<Chunk, ChunkDecodingError>)
        ensures
            match r {
                Ok(c) => valid_chunk_at(bytes@) && c@ == chunk_model_at(bytes@),
                Err(e) => !valid_chunk_at(bytes@) && e == spec_chunk_error(bytes@),
            },
    {
        let n = bytes.len();
        if n < 4 {
            return Err(ChunkDecodingError::Truncated);
        }
        let length = wire::read_u32_be(bytes, 0);
        if length > MAXIMUM_LENGTH {
            return Err(ChunkDecodingError::LengthTooLarge(length));
        }
        if n < 8 {
            return Err(ChunkDecodingError::Truncated);
        }
        let arr = [bytes[4], bytes[5], bytes[6], bytes[7]];
        proof {
            assert(arr@ =~= chunk_ty_at(bytes@));
        }
        let chunk_type = match ChunkType::from_bytes(arr) {
            Ok(t) => t,
            Err(ChunkTypeDecodingError::BadByte(b)) => {
                return Err(ChunkDecodingError::BadByte(b));
            },
            Err(ChunkTypeDecodingError::BadLength(_)) => {
                proof {
                    assert(false);
                }
                vstd::pervasive::unreached()
            },
        };
        let length_us = length as usize;
        if n - 8 < length_us + 4 {
            return Err(ChunkDecodingError::Truncated);
        }
        let data_slice = &bytes[8..8 + length_us];
        let chunk_data = vstd::slice::slice_to_vec(data_slice);
        proof {
            assert(chunk_data@ =~= chunk_data_at(bytes@));
        }
        if chunk_data.len() != length_us {
            return Err(ChunkDecodingError::DataLengthMismatch);
        }
        let computed = compute_crc(&chunk_type, &chunk_data);
        let stored = wire::read_u32_be(bytes, 8 + length_us);
        if stored != computed {
            return Err(ChunkDecodingError::CrcMismatch(stored, computed));
        }
        Ok(Chunk { length, chunk_type, chunk_data, crc: computed })
    }
}

/// The CRC-32/IEEE checksum over the type bytes followed by the data bytes.
fn compute_crc(chunk_type: &ChunkType, data: &Vec<u8>) -> (r: u32)
    ensures
        r == crc32_of(chunk_type@ + data@),
{
    let tb = chunk_type.bytes();
    let mut joined: Vec<u8> = Vec::new();
    joined.push(tb[0]);
    joined.push(tb[1]);
    joined.push(tb[2]);
    joined.push(tb[3]);
    joined.extend_from_slice(data.as_slice());
    proof {
        assert(joined@ =~= chunk_type@ + data@);
    }
    crc32_checksum(joined.as_slice())
}

/// Serialization inverts parsing: the wire bytes of a well-formed chunk
/// hold a valid chunk whose fields are exactly the serialized ones.
pub proof fn lemma_chunk_bytes_parse(m: ChunkModel)
    requires
        model_wf(m),
    ensures
        spec_chunk_bytes(m).len() == chunk_size_at(spec_chunk_bytes(m)),
        valid_chunk_at(spec_chunk_bytes(m)),
        chunk_model_at(spec_chunk_bytes(m)) == m,
{
    let b = spec_chunk_bytes(m);
    wire::lemma_u32_be_round_trip(m.length);
    wire::lemma_u32_be_round_trip(m.crc);
    assert(b.subrange(0, 4) =~= wire::u32_be_bytes(m.length));
    assert(chunk_declared_len(b) == m.length);
    assert(chunk_ty_at(b) =~= m.ty);
    assert(chunk_data_at(b) =~= m.data);
    assert(b.subrange(8 + m.length as int, 12 + m.length as int) =~= wire::u32_be_bytes(m.crc));
}

/// Tampering with the stored checksum is always caught: changing any bit of
/// the crc field of a serialized chunk that was valid makes the parse fail
/// with a checksum mismatch.
pub proof fn lemma_crc_tamper_detected(b: Seq<u8>, p: int, m: u8)
    requires
        b.len() >= 4,
        8 + chunk_declared_len(b) as int <= p < chunk_size_at(b),
        m != 0,
    ensures
        valid_chunk_at(b) ==> ({
            let t = b.update(p, b[p] ^ m);
            &&& !valid_chunk_at(t)
            &&& spec_chunk_error(t) == ChunkDecodingError::CrcMismatch(
                chunk_crc_at(t),
                crc32_of(chunk_ty_at(b) + chunk_data_at(b)),
            )
            &&& chunk_crc_at(t) != chunk_crc_at(b)
        }),
{
    if valid_chunk_at(b) {
        let t = b.update(p, b[p] ^ m);
        let len = chunk_declared_len(b) as int;
        assert(t.subrange(0, 4) =~= b.subrange(0, 4));
        assert(chunk_declared_len(t) == chunk_declared_len(b));
        assert(chunk_ty_at(t) =~= chunk_ty_at(b));
        assert(chunk_data_at(t) =~= chunk_data_at(b));
        let sb = b.subrange(8 + len, 12 + len);
        let st = t.subrange(8 + len, 12 + len);
        let j = p - (8 + len);
        assert(st =~= sb.update(j, b[p] ^ m));
        let x = b[p];
        assert((x ^ m) != x) by (bit_vector)
            requires
                m != 0,
        ;
        if chunk_crc_at(t) == chunk_crc_at(b) {
            wire::lemma_u32_be_bytes_of_value(sb);
            wire::lemma_u32_be_bytes_of_value(st);
            assert(st == sb);
            assert(st[j] == sb[j]);
            assert(false);
        }
    }
}

} // verus!
