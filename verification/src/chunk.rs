//! One structural unit of a PNG body: a length-prefixed, type-tagged,
//! checksummed record.

use vstd::prelude::*;

use crate::big_endian::{
    lemma_u32_be_from_to, lemma_u32_be_to_from, push_u32_be, read_u32_be, u32_from_be, u32_to_be,
};
use crate::chunk_type::{type_well_formed, ChunkType};
use crate::crc32::{crc32_checksum, crc32_of};
use crate::error::PngError;
use crate::text::bytes_to_utf8;

verus! {

/// The mathematical content of a chunk: its type bytes, its payload, and the
/// checksum it was stored with.
#[verifier::ext_equal]
pub struct ChunkModel {
    pub type_bytes: Seq<u8>,
    pub data: Seq<u8>,
    pub crc: u32,
}

impl ChunkModel {
    /// Well-formed: the type is four ASCII letters, the payload length fits
    /// the 32-bit length field, and the checksum is the one recomputed over
    /// type and payload.
    pub open spec fn wf(self) -> bool {
        &&& type_well_formed(self.type_bytes)
        &&& self.data.len() <= u32::MAX
        &&& self.crc == crc32_of(self.type_bytes + self.data)
    }

    /// The serialized form: 4-byte big-endian payload length, 4 type bytes,
    /// the payload, and the 4-byte big-endian checksum.
    pub open spec fn bytes(self) -> Seq<u8> {
        u32_to_be(self.data.len() as u32) + self.type_bytes + self.data + u32_to_be(self.crc)
    }
}

/// Reads one chunk from the front of `b`: the chunk and how many bytes of
/// `b` it occupies. Bytes past the chunk are left untouched.
pub open spec fn spec_parse_chunk(b: Seq<u8>) -> Result<(ChunkModel, int), PngError> {
    if b.len() < 4 {
        Err(PngError::TruncatedLength)
    } else {
        let len = u32_from_be(b.subrange(0, 4)) as int;
        if b.len() < 8 {
            Err(PngError::TruncatedType)
        } else if !type_well_formed(b.subrange(4, 8)) {
            Err(PngError::InvalidEncoding)
        } else if b.len() < 8 + len {
            Err(PngError::TruncatedData)
        } else if b.len() < 12 + len {
            Err(PngError::TruncatedCrc)
        } else {
            let m = ChunkModel {
                type_bytes: b.subrange(4, 8),
                data: b.subrange(8, 8 + len),
                crc: u32_from_be(b.subrange(8 + len, 12 + len)),
            };
            if m.crc == crc32_of(m.type_bytes + m.data) {
                Ok((m, 12 + len))
            } else {
                Err(PngError::ChecksumMismatch)
            }
        }
    }
}

/// A chunk read from one slice occupies at least its twelve field bytes and
/// never more than the slice.
pub proof fn lemma_parse_chunk_bounds(b: Seq<u8>)
    requires
        spec_parse_chunk(b) is Ok,
    ensures
        ({
            let (m, n) = spec_parse_chunk(b)->Ok_0;
            &&& m.wf()
            &&& n == 12 + m.data.len()
            &&& 12 <= n <= b.len()
            &&& m.bytes() =~= b.subrange(0, n)
        }),
{
    let (m, n) = spec_parse_chunk(b)->Ok_0;
    let len = u32_from_be(b.subrange(0, 4)) as int;
    assert(m.data.len() == len);
    lemma_u32_be_from_to(b.subrange(0, 4));
    assert(u32_to_be(m.data.len() as u32) =~= b.subrange(0, 4));
    lemma_u32_be_from_to(b.subrange(8 + len, 12 + len));
    assert(u32_to_be(m.crc) =~= b.subrange(8 + len, 12 + len));
    assert(m.bytes() =~= b.subrange(0, n));
}

/// Parsing starts over again exactly where a serialized chunk ends: one
/// well-formed chunk written at the front of any byte stream reads back as
/// itself, consuming just its own bytes.
pub proof fn lemma_parse_chunk_prefix(m: ChunkModel, rest: Seq<u8>)
    requires
        m.wf(),
    ensures
        spec_parse_chunk(m.bytes() + rest) == Ok::<(ChunkModel, int), PngError>(
            (m, m.bytes().len() as int),
        ),
{
    let b = m.bytes() + rest;
    let len = m.data.len() as int;
    lemma_u32_be_to_from(m.data.len() as u32);
    assert(b.subrange(0, 4) =~= u32_to_be(m.data.len() as u32));
    assert(u32_from_be(b.subrange(0, 4)) as int == len);
    assert(b.subrange(4, 8) =~= m.type_bytes);
    assert(b.subrange(8, 8 + len) =~= m.data);
    lemma_u32_be_to_from(m.crc);
    assert(b.subrange(8 + len, 12 + len) =~= u32_to_be(m.crc));
    let parsed = ChunkModel {
        type_bytes: b.subrange(4, 8),
        data: b.subrange(8, 8 + len),
        crc: u32_from_be(b.subrange(8 + len, 12 + len)),
    };
    assert(parsed =~= m);
}

/// Round trip for one chunk: serializing any well-formed chunk and parsing
/// the result gives the same chunk back, having consumed every byte.
pub proof fn lemma_chunk_round_trip(m: ChunkModel)
    requires
        m.wf(),
    ensures
        spec_parse_chunk(m.bytes()) == Ok::<(ChunkModel, int), PngError>(
            (m, m.bytes().len() as int),
        ),
{
    lemma_parse_chunk_prefix(m, Seq::empty());
    assert(m.bytes() + Seq::<u8>::empty() =~= m.bytes());
}

/// One length-prefixed, type-tagged, checksummed record of a PNG body.
///
/// A chunk always carries the checksum recomputed from its own type and
/// payload: construction from raw bytes rejects a stored checksum that
/// disagrees, so no invalid chunk is ever held.
pub struct Chunk {
    data: Vec<u8>,
    chunk_type: ChunkType,
    length: u32,
    crc: u32,
}

impl View for Chunk {
    type V = ChunkModel;

    closed spec fn view(&self) -> ChunkModel {
        ChunkModel { type_bytes: self.chunk_type@, data: self.data@, crc: self.crc }
    }
}

impl Chunk {
    /// Every chunk holds a well-formed model and caches its payload length.
    #[verifier::type_invariant]
    closed spec fn inv(&self) -> bool {
        self@.wf() && self.length == self.data@.len()
    }

    /// Builds a chunk from a type and a payload; the length and checksum are
    /// computed, never taken on trust.
    pub fn new(chunk_type: ChunkType, data: Vec<u8>) -> (c: Chunk)
        requires
            data@.len() <= u32::MAX,
        ensures
            c@ == (ChunkModel {
                type_bytes: chunk_type@,
                data: data@,
                crc: crc32_of(chunk_type@ + data@),
            }),
            c@.wf(),
    {
        proof {
            use_type_invariant(&chunk_type);
        }
        let length = data.len() as u32;
        let tb = chunk_type.bytes();
        let mut all: Vec<u8> = Vec::new();
        all.push(tb[0]);
        all.push(tb[1]);
        all.push(tb[2]);
        all.push(tb[3]);
        all.extend_from_slice(data.as_slice());
        proof {
            assert(all@ =~= chunk_type@ + data@);
        }
        let crc = crc32_checksum(all.as_slice());
        let c = Chunk { data, chunk_type, length, crc };
        proof {
            assert(c@ =~= (ChunkModel {
                type_bytes: chunk_type@,
                data: c.data@,
                crc: crc32_of(chunk_type@ + c.data@),
            }));
        }
        c
    }

    /// The payload length in bytes, as stored in the length field.
    pub fn length(&self) -> (r: u32)
        ensures
            r == self@.data.len(),
    {
        proof {
            use_type_invariant(self);
        }
        self.length
    }

    /// The chunk's type code.
    pub fn chunk_type(&self) -> (r: &ChunkType)
        ensures
            r@ == self@.type_bytes,
    {
        &self.chunk_type
    }

    /// The raw payload bytes.
    pub fn data(&self) -> (r: &[u8])
        ensures
            r@ == self@.data,
    {
        self.data.as_slice()
    }

    /// The stored checksum, always equal to the one recomputed over type and
    /// payload.
    pub fn crc(&self) -> (r: u32)
        ensures
            r == self@.crc,
    {
        self.crc
    }

    /// The payload decoded as text; a payload that is not valid UTF-8 is
    /// reported as `NotUtf8`, which is the expected outcome for binary
    /// chunks.
    pub fn data_as_string(&self) -> (r: Result<String, PngError>)
        ensures
            match r {
                Ok(s) => vstd::utf8::valid_utf8(self@.data) && s@ == vstd::utf8::decode_utf8(
                    self@.data,
                ),
                Err(e) => e == PngError::NotUtf8 && !vstd::utf8::valid_utf8(self@.data),
            },
    {
        let copy = vstd::slice::slice_to_vec(self.data.as_slice());
        match bytes_to_utf8(copy) {
            Some(s) => Ok(s),
            None => Err(PngError::NotUtf8),
        }
    }

    /// The serialized form of this chunk: big-endian length, type bytes,
    /// payload, big-endian checksum.
    pub fn as_bytes(&self) -> (r: Vec<u8>)
        ensures
            r@ == self@.bytes(),
    {
        proof {
            use_type_invariant(self);
        }
        let mut out: Vec<u8> = Vec::new();
        push_u32_be(&mut out, self.length);
        let tb = self.chunk_type.bytes();
        out.push(tb[0]);
        out.push(tb[1]);
        out.push(tb[2]);
        out.push(tb[3]);
        out.extend_from_slice(self.data.as_slice());
        push_u32_be(&mut out, self.crc);
        proof {
            assert(out@ =~= self@.bytes());
        }
        out
    }

    /// Reads one chunk from the front of `v`, also returning how many bytes
    /// it occupied; bytes past the chunk are left for the caller.
    pub fn parse_prefix(v: &[u8]) -> (r: Result<(Chunk, usize), PngError>)
        ensures
            match (r, spec_parse_chunk(v@)) {
                (Ok((c, n)), Ok(p)) => c@ == p.0 && n == p.1,
                (Err(e), Err(se)) => e == se,
                _ => false,
            },
    {
        if v.len() < 4 {
            return Err(PngError::TruncatedLength);
        }
        let length = read_u32_be(v, 0);
        if v.len() < 8 {
            return Err(PngError::TruncatedType);
        }
        let type_arr: [u8; 4] = [v[4], v[5], v[6], v[7]];
        proof {
            assert(type_arr@ =~= v@.subrange(4, 8));
        }
        let chunk_type = match ChunkType::parse(type_arr) {
            Ok(t) => t,
            Err(e) => {
                return Err(e);
            },
        };
        let len_us = length as usize;
        if v.len() - 8 < len_us {
            return Err(PngError::TruncatedData);
        }
        if v.len() - 8 - len_us < 4 {
            return Err(PngError::TruncatedCrc);
        }
        let data = vstd::slice::slice_to_vec(vstd::slice::slice_subrange(v, 8, 8 + len_us));
        let stored_crc = read_u32_be(v, 8 + len_us);
        let tb = chunk_type.bytes();
        let mut all: Vec<u8> = Vec::new();
        all.push(tb[0]);
        all.push(tb[1]);
        all.push(tb[2]);
        all.push(tb[3]);
        all.extend_from_slice(data.as_slice());
        proof {
            assert(all@ =~= chunk_type@ + data@);
        }
        let computed = crc32_checksum(all.as_slice());
        if stored_crc != computed {
            return Err(PngError::ChecksumMismatch);
        }
        let c = Chunk { data, chunk_type, length, crc: stored_crc };
        proof {
            assert(v@.subrange(8 + len_us as int, 12 + len_us as int) =~= v@.subrange(
                8 + len_us as int,
                8 + len_us as int + 4,
            ));
            assert(c@ =~= spec_parse_chunk(v@)->Ok_0.0);
        }
        Ok((c, 12 + len_us))
    }

    /// Reads one chunk from the front of `v`; bytes past the chunk are
    /// ignored.
    pub fn parse(v: &[u8]) -> (r: Result<Chunk, PngError>)
        ensures
            match (r, spec_parse_chunk(v@)) {
                (Ok(c), Ok(p)) => c@ == p.0,
                (Err(e), Err(se)) => e == se,
                _ => false,
            },
    {
        match Self::parse_prefix(v) {
            Ok((c, _)) => Ok(c),
            Err(e) => Err(e),
        }
    }
}

} // verus!
