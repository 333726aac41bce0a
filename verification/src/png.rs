//! The whole PNG container: a fixed signature followed by chunks in order.
//!
//! The order of the chunks is significant: it defines the on-disk layout and
//! decides which chunk a lookup by type returns first. Duplicate types may
//! coexist; removal takes out only the first match.

use crate::chunk::Chunk;
use crate::chunk::ChunkDecodingError;
use crate::chunk::ChunkModel;
use crate::chunk::chunk_model_at;
use crate::chunk::chunk_size_at;
use crate::chunk::lemma_chunk_bytes_parse;
use crate::chunk::model_wf;
use crate::chunk::spec_chunk_bytes;
use crate::chunk::spec_chunk_error;
use crate::chunk::valid_chunk_at;
use crate::chunk_type::ChunkType;
use vstd::prelude::*;

verus! {

/// The fixed 8-byte signature that opens every PNG file.
pub open spec fn spec_signature() -> Seq<u8> {
    seq![0x89u8, 0x50u8, 0x4eu8, 0x47u8, 0x0du8, 0x0au8, 0x1au8, 0x0au8]
}

/// The fields of each chunk in a sequence, in order.
pub open spec fn chunk_models(s: Seq<Chunk>) -> Seq<ChunkModel> {
    s.map(|i: int, c: Chunk| c@)
}

/// Every chunk of a sequence is well formed.
pub open spec fn chunks_wf(s: Seq<Chunk>) -> bool {
    forall|i: int| 0 <= i < s.len() ==> model_wf((#[trigger] s[i])@)
}

/// Parse a byte sequence as chunk records laid head to tail until it is
/// exhausted; any malformed record fails the whole parse.
pub open spec fn parse_chunks(b: Seq<u8>) -> Option<Seq<ChunkModel>>
    decreases b.len(),
{
    if b.len() == 0 {
        Some(Seq::empty())
    } else if valid_chunk_at(b) {
        match parse_chunks(b.skip(chunk_size_at(b))) {
            Some(rest) => Some(seq![chunk_model_at(b)] + rest),
            None => None,
        }
    } else {
        None
    }
}

/// The error of the first malformed record of a byte sequence on which
/// [`parse_chunks`] fails.
pub open spec fn spec_chunks_error(b: Seq<u8>) -> ChunkDecodingError
    recommends
        parse_chunks(b) is None,
    decreases b.len(),
{
    if valid_chunk_at(b) {
        spec_chunks_error(b.skip(chunk_size_at(b)))
    } else {
        spec_chunk_error(b)
    }
}

/// The wire bytes of a sequence of chunks, concatenated in order.
pub open spec fn chunks_wire_bytes(s: Seq<Chunk>) -> Seq<u8>
    decreases s.len(),
{
    if s.len() == 0 {
        Seq::empty()
    } else {
        spec_chunk_bytes(s[0]@) + chunks_wire_bytes(s.skip(1))
    }
}

/// The wire bytes of a whole container: the signature, then its chunks.
pub open spec fn spec_png_bytes(s: Seq<Chunk>) -> Seq<u8> {
    spec_signature() + chunks_wire_bytes(s)
}

/// A whole file could not be decoded.
#[derive(Debug, Clone, Copy, PartialEq, Eq, Structural)]
pub enum PngDecodingError {
    /// The first 8 bytes are not the PNG signature, or fewer than 8 bytes
    /// are present.
    BadSignature,
    /// A chunk record is malformed; holds that chunk's error.
    InvalidChunk(ChunkDecodingError),
}

/// The error [`Png::decode`] reports for a malformed file.
pub open spec fn spec_png_error(b: Seq<u8>) -> PngDecodingError {
    if b.len() < 8 || b.subrange(0, 8) != spec_signature() {
        PngDecodingError::BadSignature
    } else {
        PngDecodingError::InvalidChunk(spec_chunks_error(b.skip(8)))
    }
}

/// No chunk of the requested type exists in the container.
#[derive(Debug, Clone, Copy, PartialEq, Eq, Structural)]
pub struct ChunkNotFoundError;

/// Index `i` holds the first chunk of type `ty` in `s`.
pub open spec fn is_first_match(s: Seq<Chunk>, ty: Seq<u8>, i: int) -> bool {
    &&& 0 <= i < s.len()
    &&& s[i]@.ty == ty
    &&& forall|j: int| 0 <= j < i ==> (#[trigger] s[j])@.ty != ty
}

/// A PNG file: the fixed signature followed by its chunks, in order.
pub struct Png {
    chunks: Vec<Chunk>,
}

impl View for Png {
    type V = Seq<Chunk>;

    closed spec fn view(&self) -> Seq<Chunk> {
        self.chunks@
    }
}

impl Png {
    /// Build a container from an explicit chunk list.
    pub fn from_chunks(chunks: Vec<Chunk>) -> (r: Png)
        ensures
            r@ == chunks@,
    {
        Png { chunks }
    }

    /// The ordered chunk sequence, read-only.
    pub fn chunks(&self) -> (r: &Vec<Chunk>)
        ensures
            r@ == self@,
    {
        &self.chunks
    }

    /// Append a chunk at the end of the sequence; never deduplicates.
    pub fn append_chunk(&mut self, chunk: Chunk)
        ensures
            final (self)@ == old(self)@.push(chunk),
    {
        self.chunks.push(chunk);
    }

    /// The first chunk, in stored order, whose type equals `chunk_type`, if
    /// any.
    pub fn chunk_by_type(&self, chunk_type: ChunkType) -> (r: Option<&Chunk>)
        ensures
            match r {
                Some(c) => exists|i: int|
                    #[trigger] is_first_match(self@, chunk_type@, i) && *c == self@[i],
                None => forall|i: int|
                    0 <= i < self@.len() ==> (#[trigger] self@[i])@.ty != chunk_type@,
            },
    {
        let n = self.chunks.len();
        let mut k: usize = 0;
        while k < n
            invariant
                k <= n,
                n == self@.len(),
                forall|j: int| 0 <= j < k ==> (#[trigger] self@[j])@.ty != chunk_type@,
            decreases n - k,
        {
            let c = &self.chunks[k];
            if c.chunk_type() == &chunk_type {
                proof {
                    assert(is_first_match(self@, chunk_type@, k as int));
                }
                return Some(c);
            }
            k = k + 1;
        }
        None
    }

    /// Remove and return the first chunk, in stored order, whose type equals
    /// `chunk_type`; later chunks of the same type are left untouched. Fails
    /// without changing the sequence when no chunk of that type exists.
    pub fn remove_chunk(&mut self, chunk_type: ChunkType) -> (r: Result<Chunk, ChunkNotFoundError>)
        ensures
            match r {
                Ok(c) => exists|i: int|
                    #[trigger] is_first_match(old(self)@, chunk_type@, i) && c == old(self)@[i]
                        && final (self)@ == old(self)@.remove(i),
                Err(_) => final (self)@ == old(self)@ && (forall|i: int|
                    0 <= i < old(self)@.len() ==> (#[trigger] old(self)@[i])@.ty != chunk_type@),
            },
    {
        let n = self.chunks.len();
        let mut k: usize = 0;
        while k < n
            invariant
                k <= n,
                self@ == old(self)@,
                n == self@.len(),
                forall|j: int| 0 <= j < k ==> (#[trigger] self@[j])@.ty != chunk_type@,
            decreases n - k,
        {
            if self.chunks[k].chunk_type() == &chunk_type {
                proof {
                    assert(is_first_match(old(self)@, chunk_type@, k as int));
                }
                let c = self.chunks.remove(k);
                return Ok(c);
            }
            k = k + 1;
        }
        Err(ChunkNotFoundError)
    }

    /// Decode a whole file: check the signature, then decode chunks in order
    /// until the buffer is exhausted. Any chunk failure aborts the parse and
    /// reports that chunk's error; no partial container is returned.
    pub fn decode(bytes: &[u8]) -> (r: Result<Png, PngDecodingError>)
        ensures
            match r {
                Ok(p) => bytes@.len() >= 8 && bytes@.subrange(0, 8) == spec_signature()
                    && parse_chunks(bytes@.skip(8)) == Some(chunk_models(p@)),
                Err(e) => (bytes@.len() < 8 || bytes@.subrange(0, 8) != spec_signature()
                    || parse_chunks(bytes@.skip(8)) is None) && e == spec_png_error(bytes@),
            },
    {
        let n = bytes.len();
        if n < 8 {
            return Err(PngDecodingError::BadSignature);
        }
        if !(bytes[0] == 0x89 && bytes[1] == 0x50 && bytes[2] == 0x4e && bytes[3] == 0x47
            && bytes[4] == 0x0d && bytes[5] == 0x0a && bytes[6] == 0x1a && bytes[7] == 0x0a) {
            proof {
                assert(bytes@.subrange(0, 8) != spec_signature());
            }
            return Err(PngDecodingError::BadSignature);
        }
        proof {
            assert(bytes@.subrange(0, 8) =~= spec_signature());
        }
        let mut chunks: Vec<Chunk> = Vec::new();
        let mut pos: usize = 8;
        while pos < n
            invariant
                8 <= pos <= n,
                n == bytes@.len(),
                bytes@.subrange(0, 8) == spec_signature(),
                forall|rest: Seq<ChunkModel>|
                    parse_chunks(bytes@.skip(pos as int)) == Some(rest) ==> parse_chunks(
                        bytes@.skip(8),
                    ) == Some(chunk_models(chunks@) + rest),
                parse_chunks(bytes@.skip(pos as int)) is None ==> parse_chunks(bytes@.skip(8))
                    is None && spec_chunks_error(bytes@.skip(8)) == spec_chunks_error(
                    bytes@.skip(pos as int),
                ),
            decreases n - pos,
        {
            let rest = &bytes[pos..n];
            proof {
                assert(rest@ =~= bytes@.skip(pos as int));
            }
            match Chunk::decode(rest) {
                Ok(c) => {
                    let size = 12 + (c.length() as usize);
                    let ghost prev = chunks@;
                    let ghost at = pos as int;
                    chunks.push(c);
                    pos = pos + size;
                    proof {
                        assert(bytes@.skip(at).skip(size as int) =~= bytes@.skip(at + size));
                        assert(chunk_models(chunks@) =~= chunk_models(prev) + seq![c@]);
                        assert forall|r2: Seq<ChunkModel>|
                            parse_chunks(bytes@.skip(pos as int)) == Some(r2) implies parse_chunks(
                            bytes@.skip(8),
                        ) == Some(chunk_models(chunks@) + r2) by {
                            assert(parse_chunks(bytes@.skip(at)) == Some(seq![c@] + r2));
                            assert(chunk_models(prev) + (seq![c@] + r2) =~= chunk_models(chunks@)
                                + r2);
                        }
                    }
                },
                Err(e) => {
                    proof {
                        assert(parse_chunks(bytes@.skip(pos as int)) is None);
                        assert(spec_chunks_error(bytes@.skip(pos as int)) == e);
                    }
                    return Err(PngDecodingError::InvalidChunk(e));
                },
            }
        }
        proof {
            assert(bytes@.skip(pos as int).len() == 0);
            assert(chunk_models(chunks@) + Seq::<ChunkModel>::empty() =~= chunk_models(chunks@));
        }
        Ok(Png { chunks })
    }

    /// Every byte of the file on the wire: the signature, then each chunk's
    /// bytes in stored order. The result always decodes back to a container
    /// with exactly these chunks' fields, in the same order.
    #[verifier::rlimit(50)]
    pub fn as_bytes(&self) -> (r: Vec<u8>)
        ensures
            r@ == spec_png_bytes(self@),
            r@.len() >= 8 && r@.subrange(0, 8) == spec_signature(),
            parse_chunks(r@.skip(8)) == Some(chunk_models(self@)),
    {
        let mut out: Vec<u8> = Vec::new();
        out.push(0x89);
        out.push(0x50);
        out.push(0x4e);
        out.push(0x47);
        out.push(0x0d);
        out.push(0x0a);
        out.push(0x1a);
        out.push(0x0a);
        proof {
            assert(out@ =~= spec_signature());
        }
        let n = self.chunks.len();
        let mut k: usize = 0;
        while k < n
            invariant
                k <= n,
                n == self@.len(),
                out@ == spec_signature() + chunks_wire_bytes(self@.take(k as int)),
                chunks_wf(self@.take(k as int)),
            decreases n - k,
        {
            let c = &self.chunks[k];
            proof {
                use_type_invariant(c);
            }
            let cb = c.as_bytes();
            out.extend_from_slice(cb.as_slice());
            proof {
                lemma_chunks_wire_bytes_push(self@.take(k as int), self@[k as int]);
                assert(self@.take(k as int).push(self@[k as int]) =~= self@.take(k as int + 1));
                assert(out@ =~= spec_signature() + chunks_wire_bytes(self@.take(k as int + 1)));
            }
            k = k + 1;
        }
        proof {
            assert(self@.take(n as int) =~= self@);
            lemma_chunks_parse(self@);
            assert(out@.skip(8) =~= chunks_wire_bytes(self@));
        }
        out
    }
}

/// Appending one chunk to the wire bytes appends exactly its bytes.
proof fn lemma_chunks_wire_bytes_push(s: Seq<Chunk>, c: Chunk)
    ensures
        chunks_wire_bytes(s.push(c)) == chunks_wire_bytes(s) + spec_chunk_bytes(c@),
    decreases s.len(),
{
    if s.len() == 0 {
        let e = Seq::<Chunk>::empty();
        assert(chunks_wire_bytes(e) =~= Seq::<u8>::empty());
        assert(s.push(c).skip(1) =~= e);
        assert(s.push(c)[0] == c);
        assert(chunks_wire_bytes(s.push(c)) == spec_chunk_bytes(c@) + chunks_wire_bytes(e));
        assert(chunks_wire_bytes(s.push(c)) =~= chunks_wire_bytes(s) + spec_chunk_bytes(c@));
    } else {
        assert(s.push(c).skip(1) =~= s.skip(1).push(c));
        assert(s.push(c)[0] == s[0]);
        lemma_chunks_wire_bytes_push(s.skip(1), c);
        assert(chunks_wire_bytes(s.push(c)) == spec_chunk_bytes(s[0]@) + (chunks_wire_bytes(
            s.skip(1),
        ) + spec_chunk_bytes(c@)));
        assert(chunks_wire_bytes(s.push(c)) =~= chunks_wire_bytes(s) + spec_chunk_bytes(c@));
    }
}

/// A valid chunk at the head of a buffer stays valid, with the same fields
/// and size, when more bytes follow it.
proof fn lemma_chunk_at_prefix(cb: Seq<u8>, rest: Seq<u8>)
    requires
        valid_chunk_at(cb),
        cb.len() == chunk_size_at(cb),
    ensures
        valid_chunk_at(cb + rest),
        chunk_size_at(cb + rest) == chunk_size_at(cb),
        chunk_model_at(cb + rest) == chunk_model_at(cb),
        (cb + rest).skip(chunk_size_at(cb)) == rest,
{
    let b = cb + rest;
    assert(b.subrange(0, 4) =~= cb.subrange(0, 4));
    assert(b.subrange(4, 8) =~= cb.subrange(4, 8));
    let len = crate::chunk::chunk_declared_len(cb) as int;
    assert(b.subrange(8, 8 + len) =~= cb.subrange(8, 8 + len));
    assert(b.subrange(8 + len, 12 + len) =~= cb.subrange(8 + len, 12 + len));
    assert(b.skip(chunk_size_at(cb)) =~= rest);
}

/// Container round trip: the concatenated wire bytes of well-formed chunks
/// parse back to exactly those chunks' fields, in order.
#[verifier::rlimit(50)]
pub proof fn lemma_chunks_parse(s: Seq<Chunk>)
    requires
        chunks_wf(s),
    ensures
        parse_chunks(chunks_wire_bytes(s)) == Some(chunk_models(s)),
    decreases s.len(),
{
    if s.len() == 0 {
        assert(chunk_models(s) =~= Seq::<ChunkModel>::empty());
    } else {
        let m = s[0]@;
        let cb = spec_chunk_bytes(m);
        let rest = chunks_wire_bytes(s.skip(1));
        let b = cb + rest;
        assert(chunks_wire_bytes(s) == b);
        lemma_chunk_bytes_parse(m);
        lemma_chunk_at_prefix(cb, rest);
        assert(chunks_wf(s.skip(1)));
        lemma_chunks_parse(s.skip(1));
        assert(b.len() > 0);
        assert(valid_chunk_at(b) && chunk_model_at(b) == m);
        assert(b.skip(chunk_size_at(b)) == rest);
        assert(parse_chunks(b) == Some(seq![m] + chunk_models(s.skip(1))));
        assert(seq![m] + chunk_models(s.skip(1)) =~= chunk_models(s));
    }
}

/// After a chunk is appended, a lookup of its type finds a chunk; when no
/// chunk of that type was present before, the appended chunk itself is the
/// first match.
pub proof fn lemma_append_then_find(s: Seq<Chunk>, c: Chunk)
    ensures
        exists|i: int| #[trigger] is_first_match(s.push(c), c@.ty, i),
        (forall|j: int| 0 <= j < s.len() ==> (#[trigger] s[j])@.ty != c@.ty) ==> is_first_match(
            s.push(c),
            c@.ty,
            s.len() as int,
        ) && s.push(c)[s.len() as int] == c,
{
    if forall|j: int| 0 <= j < s.len() ==> (#[trigger] s[j])@.ty != c@.ty {
        assert(is_first_match(s.push(c), c@.ty, s.len() as int));
    } else {
        let w = choose|j: int| 0 <= j < s.len() && (#[trigger] s[j])@.ty == c@.ty;
        assert(s.push(c)[w] == s[w]);
        lemma_first_match_below(s.push(c), c@.ty, w);
    }
}

/// Wherever some index matches a type, a first matching index exists.
proof fn lemma_first_match_below(s: Seq<Chunk>, ty: Seq<u8>, w: int)
    requires
        0 <= w < s.len(),
        s[w]@.ty == ty,
    ensures
        exists|i: int| #[trigger] is_first_match(s, ty, i),
    decreases w,
{
    if forall|j: int| 0 <= j < w ==> (#[trigger] s[j])@.ty != ty {
        assert(is_first_match(s, ty, w));
    } else {
        let v = choose|j: int| 0 <= j < w && (#[trigger] s[j])@.ty == ty;
        lemma_first_match_below(s, ty, v);
    }
}

} // verus!
