//! The whole PNG file model: the fixed 8-byte signature followed by an
//! ordered sequence of chunks.

use vstd::prelude::*;

use crate::chunk::{
    lemma_parse_chunk_bounds, lemma_parse_chunk_prefix, spec_parse_chunk, Chunk, ChunkModel,
};
use crate::chunk_type::{is_ascii_letter, is_ascii_lower, ChunkType};
use crate::error::PngError;

verus! {

/// The canonical 8-byte PNG signature.
pub open spec fn signature() -> Seq<u8> {
    seq![0x89u8, 0x50u8, 0x4eu8, 0x47u8, 0x0du8, 0x0au8, 0x1au8, 0x0au8]
}

/// The serialized form of a chunk sequence: each chunk's bytes, in order.
pub open spec fn chunks_bytes(cs: Seq<ChunkModel>) -> Seq<u8>
    decreases cs.len(),
{
    if cs.len() == 0 {
        Seq::empty()
    } else {
        cs[0].bytes() + chunks_bytes(cs.drop_first())
    }
}

/// The serialized form of a whole file: the signature, then every chunk.
pub open spec fn png_bytes(cs: Seq<ChunkModel>) -> Seq<u8> {
    signature() + chunks_bytes(cs)
}

/// Reads chunks from `b` until it is exhausted; any chunk-level failure
/// aborts the whole parse.
pub open spec fn spec_parse_chunks(b: Seq<u8>) -> Result<Seq<ChunkModel>, PngError>
    decreases b.len(),
    via spec_parse_chunks_decreases
{
    if b.len() == 0 {
        Ok(Seq::empty())
    } else {
        match spec_parse_chunk(b) {
            Err(e) => Err(e),
            Ok((m, n)) => match spec_parse_chunks(b.skip(n)) {
                Err(e) => Err(e),
                Ok(rest) => Ok(seq![m] + rest),
            },
        }
    }
}

#[via_fn]
proof fn spec_parse_chunks_decreases(b: Seq<u8>) {
    if b.len() > 0 && spec_parse_chunk(b) is Ok {
        lemma_parse_chunk_bounds(b);
    }
}

/// Reads a whole file: the signature must be present and exact, and the
/// remaining bytes must parse as a sequence of chunks.
pub open spec fn spec_parse_png(b: Seq<u8>) -> Result<Seq<ChunkModel>, PngError> {
    if b.len() < 8 || b.subrange(0, 8) != signature() {
        Err(PngError::BadSignature)
    } else {
        spec_parse_chunks(b.skip(8))
    }
}

/// The index of the first chunk whose type is `t`, if any.
pub open spec fn first_match(cs: Seq<ChunkModel>, t: Seq<u8>) -> Option<int>
    decreases cs.len(),
{
    if cs.len() == 0 {
        None
    } else if cs[0].type_bytes == t {
        Some(0)
    } else {
        match first_match(cs.drop_first(), t) {
            None => None,
            Some(i) => Some(i + 1),
        }
    }
}

/// What `first_match` finds is a match, and nothing before it matches; when
/// it finds nothing, nothing matches.
pub proof fn lemma_first_match(cs: Seq<ChunkModel>, t: Seq<u8>)
    ensures
        match first_match(cs, t) {
            Some(i) => 0 <= i < cs.len() && cs[i].type_bytes == t && forall|j: int|
                0 <= j < i ==> (#[trigger] cs[j]).type_bytes != t,
            None => forall|j: int| 0 <= j < cs.len() ==> (#[trigger] cs[j]).type_bytes != t,
        },
    decreases cs.len(),
{
    if cs.len() == 0 {
    } else if cs[0].type_bytes == t {
    } else {
        lemma_first_match(cs.drop_first(), t);
        assert(forall|j: int|
            1 <= j < cs.len() ==> (#[trigger] cs[j]) == cs.drop_first()[j - 1]);
    }
}

/// The converse: an index that matches, with no match before it, is the one
/// `first_match` finds. This is the first-match law for lookup and removal.
pub proof fn lemma_first_match_at(cs: Seq<ChunkModel>, t: Seq<u8>, i: int)
    requires
        0 <= i < cs.len(),
        cs[i].type_bytes == t,
        forall|j: int| 0 <= j < i ==> (#[trigger] cs[j]).type_bytes != t,
    ensures
        first_match(cs, t) == Some(i),
{
    lemma_first_match(cs, t);
    match first_match(cs, t) {
        None => {
            assert(cs[i].type_bytes != t);
        },
        Some(k) => {
            if k < i {
                assert(cs[k].type_bytes != t);
            }
            if k > i {
                assert(cs[i].type_bytes != t);
            }
        },
    }
}

/// Lookup is first-match: in a container holding two chunks of the same
/// type, one after the other, the earlier one is the one found, whatever
/// their payloads.
pub proof fn lemma_lookup_first_of_two(c1: ChunkModel, c2: ChunkModel, t: Seq<u8>)
    requires
        c1.type_bytes == t,
        c2.type_bytes == t,
    ensures
        first_match(seq![c1, c2], t) == Some(0int),
{
    assert(seq![c1, c2][0] == c1);
}

/// The full file model: the fixed signature plus an ordered sequence of
/// chunks. The signature is implicit — it is a constant — so the model is
/// the chunk sequence alone.
pub struct PngContainer {
    chunks: Vec<Chunk>,
}

impl View for PngContainer {
    type V = Seq<ChunkModel>;

    closed spec fn view(&self) -> Seq<ChunkModel> {
        self.chunks@.map_values(|c: Chunk| c@)
    }
}

impl PngContainer {
    /// Builds a container from an already-validated chunk sequence.
    pub fn from_chunks(chunks: Vec<Chunk>) -> (p: PngContainer)
        ensures
            p@ == chunks@.map_values(|c: Chunk| c@),
    {
        PngContainer { chunks }
    }

    /// The chunks, in sequence order.
    pub fn chunks(&self) -> (r: &[Chunk])
        ensures
            r@.map_values(|c: Chunk| c@) == self@,
    {
        self.chunks.as_slice()
    }

    /// Reads a whole file from raw bytes. The buffer must begin with the
    /// canonical signature — anything else is `BadSignature` — and every
    /// following byte must belong to a valid chunk: a failure anywhere
    /// aborts the whole parse.
    pub fn parse(bytes: &[u8]) -> (r: Result<PngContainer, PngError>)
        ensures
            match (r, spec_parse_png(bytes@)) {
                (Ok(p), Ok(cs)) => p@ == cs,
                (Err(e), Err(se)) => e == se,
                _ => false,
            },
    {
        if bytes.len() < 8 {
            return Err(PngError::BadSignature);
        }
        if bytes[0] != 0x89 || bytes[1] != 0x50 || bytes[2] != 0x4e || bytes[3] != 0x47 || bytes[4]
            != 0x0d || bytes[5] != 0x0a || bytes[6] != 0x1a || bytes[7] != 0x0a {
            proof {
                assert(bytes@.subrange(0, 8) != signature()) by {
                    let s = bytes@.subrange(0, 8);
                    assert(s[0] == bytes@[0] && s[1] == bytes@[1] && s[2] == bytes@[2] && s[3]
                        == bytes@[3] && s[4] == bytes@[4] && s[5] == bytes@[5] && s[6] == bytes@[6]
                        && s[7] == bytes@[7]);
                }
            }
            return Err(PngError::BadSignature);
        }
        proof {
            assert(bytes@.subrange(0, 8) =~= signature());
        }
        let mut chunks: Vec<Chunk> = Vec::new();
        let mut pos: usize = 8;
        while pos < bytes.len()
            invariant
                8 <= pos <= bytes@.len(),
                bytes@.subrange(0, 8) == signature(),
                prepend_parsed(
                    chunks@.map_values(|c: Chunk| c@),
                    spec_parse_chunks(bytes@.skip(pos as int)),
                ) == spec_parse_chunks(bytes@.skip(8)),
            decreases bytes@.len() - pos,
        {
            let rest = vstd::slice::slice_subrange(bytes, pos, bytes.len());
            proof {
                assert(rest@ =~= bytes@.skip(pos as int));
            }
            match Chunk::parse_prefix(rest) {
                Ok((c, n)) => {
                    proof {
                        lemma_parse_chunk_bounds(rest@);
                        let tail = bytes@.skip(pos as int).skip(n as int);
                        assert(tail =~= bytes@.skip(pos as int + n as int));
                        let models = chunks@.map_values(|cc: Chunk| cc@);
                        assert(models.push(c@) =~= chunks@.push(c).map_values(
                            |cc: Chunk| cc@,
                        ));
                        match spec_parse_chunks(bytes@.skip(pos as int + n as int)) {
                            Ok(restm) => {
                                assert(models + (seq![c@] + restm) =~= models.push(c@) + restm);
                            },
                            Err(_) => {},
                        }
                    }
                    chunks.push(c);
                    pos = pos + n;
                },
                Err(e) => {
                    proof {
                        assert(bytes@.skip(pos as int).len() > 0);
                        assert(spec_parse_chunks(bytes@.skip(pos as int)) == Err::<
                            Seq<ChunkModel>,
                            PngError,
                        >(e));
                        assert(spec_parse_chunks(bytes@.skip(8)) == Err::<
                            Seq<ChunkModel>,
                            PngError,
                        >(e));
                        assert(spec_parse_png(bytes@) == Err::<Seq<ChunkModel>, PngError>(e));
                    }
                    return Err(e);
                },
            }
        }
        proof {
            assert(bytes@.skip(pos as int) =~= Seq::<u8>::empty());
            let models = chunks@.map_values(|c: Chunk| c@);
            assert(models + Seq::<ChunkModel>::empty() =~= models);
        }
        Ok(PngContainer { chunks })
    }

    /// The serialized file: the 8-byte signature, then every chunk's bytes,
    /// in sequence order.
    pub fn serialize(&self) -> (r: Vec<u8>)
        ensures
            r@ == png_bytes(self@),
    {
        let mut out: Vec<u8> = Vec::new();
        out.push(0x89);
        out.push(0x50);
        out.push(0x4e);
        out.push(0x47);
        out.push(0x0d);
        out.push(0x0a);
        out.push(0x1a);
        out.push(0x0a);
        proof {
            assert(out@ =~= signature());
            assert(self@.take(0) =~= Seq::<ChunkModel>::empty());
        }
        let mut i: usize = 0;
        while i < self.chunks.len()
            invariant
                0 <= i <= self.chunks@.len(),
                self@ == self.chunks@.map_values(|c: Chunk| c@),
                out@ == signature() + chunks_bytes(self@.take(i as int)),
            decreases self.chunks@.len() - i,
        {
            let mut piece = self.chunks[i].as_bytes();
            proof {
                lemma_chunks_bytes_snoc(self@.take(i as int), self@[i as int]);
                assert(self@.take(i as int).push(self@[i as int]) =~= self@.take(i as int + 1));
            }
            out.append(&mut piece);
            i = i + 1;
        }
        proof {
            assert(self@.take(self.chunks@.len() as int) =~= self@);
        }
        out
    }

    /// Appends a chunk at the end of the sequence; chunks of the same type
    /// may repeat, so nothing can fail.
    pub fn append_chunk(&mut self, chunk: Chunk)
        ensures
            final(self)@ == old(self)@.push(chunk@),
    {
        self.chunks.push(chunk);
        proof {
            assert(self.chunks@.map_values(|c: Chunk| c@) =~= old(self).chunks@.map_values(
                |c: Chunk| c@,
            ).push(chunk@));
        }
    }

    /// The first chunk whose type matches `t` exactly, in sequence order.
    pub fn find_chunk(&self, t: &ChunkType) -> (r: Option<&Chunk>)
        ensures
            match (r, first_match(self@, t@)) {
                (Some(c), Some(i)) => c@ == self@[i],
                (None, None) => true,
                _ => false,
            },
    {
        let mut i: usize = 0;
        while i < self.chunks.len()
            invariant
                0 <= i <= self.chunks@.len(),
                self@ == self.chunks@.map_values(|c: Chunk| c@),
                forall|j: int| 0 <= j < i ==> (#[trigger] self@[j]).type_bytes != t@,
            decreases self.chunks@.len() - i,
        {
            let ct = self.chunks[i].chunk_type();
            let found = *ct == *t;
            proof {
                crate::chunk_type::lemma_type_eq(*ct, *t);
            }
            if found {
                proof {
                    lemma_first_match_at(self@, t@, i as int);
                }
                return Some(&self.chunks[i]);
            }
            i = i + 1;
        }
        proof {
            lemma_first_match(self@, t@);
        }
        None
    }

    /// Removes and returns the first chunk whose type matches `t`; when no
    /// chunk matches, fails with `ChunkNotFound` and leaves the container
    /// untouched. Removal keeps the order of the remaining chunks.
    pub fn remove_chunk(&mut self, t: &ChunkType) -> (r: Result<Chunk, PngError>)
        ensures
            match (r, first_match(old(self)@, t@)) {
                (Ok(c), Some(i)) => c@ == old(self)@[i] && final(self)@ == old(self)@.remove(i),
                (Err(e), None) => e == PngError::ChunkNotFound && final(self)@ == old(self)@,
                _ => false,
            },
    {
        let mut i: usize = 0;
        while i < self.chunks.len()
            invariant
                0 <= i <= self.chunks@.len(),
                self == old(self),
                forall|j: int| 0 <= j < i ==> (#[trigger] self@[j]).type_bytes != t@,
            decreases self.chunks@.len() - i,
        {
            let ct = self.chunks[i].chunk_type();
            let found = *ct == *t;
            proof {
                crate::chunk_type::lemma_type_eq(*ct, *t);
            }
            if found {
                proof {
                    lemma_first_match_at(self@, t@, i as int);
                }
                let c = self.chunks.remove(i);
                proof {
                    assert(self.chunks@.map_values(|cc: Chunk| cc@) =~= old(self)@.remove(
                        i as int,
                    ));
                }
                return Ok(c);
            }
            i = i + 1;
        }
        proof {
            lemma_first_match(self@, t@);
        }
        Err(PngError::ChunkNotFound)
    }
}

/// The parse of a tail, prefixed by chunks already read; the shape of the
/// invariant that `parse` maintains while walking the buffer.
spec fn prepend_parsed(
    pre: Seq<ChunkModel>,
    r: Result<Seq<ChunkModel>, PngError>,
) -> Result<Seq<ChunkModel>, PngError> {
    match r {
        Ok(cs) => Ok(pre + cs),
        Err(e) => Err(e),
    }
}

/// Serializing one more chunk extends the byte stream by that chunk's bytes.
pub proof fn lemma_chunks_bytes_snoc(cs: Seq<ChunkModel>, m: ChunkModel)
    ensures
        chunks_bytes(cs.push(m)) == chunks_bytes(cs) + m.bytes(),
    decreases cs.len(),
{
    assert(cs.push(m).len() == cs.len() + 1);
    assert(cs.push(m)[0] == if cs.len() == 0 {
        m
    } else {
        cs[0]
    });
    if cs.len() == 0 {
        assert(cs.push(m).drop_first() =~= Seq::<ChunkModel>::empty());
        assert(chunks_bytes(cs.push(m)) == m.bytes() + chunks_bytes(
            Seq::<ChunkModel>::empty(),
        ));
        assert(chunks_bytes(cs.push(m)) =~= chunks_bytes(cs) + m.bytes());
    } else {
        assert(cs.push(m).drop_first() =~= cs.drop_first().push(m));
        lemma_chunks_bytes_snoc(cs.drop_first(), m);
        assert(chunks_bytes(cs.push(m)) == cs[0].bytes() + (chunks_bytes(cs.drop_first())
            + m.bytes()));
        assert(chunks_bytes(cs) == cs[0].bytes() + chunks_bytes(cs.drop_first()));
        assert(chunks_bytes(cs.push(m)) =~= chunks_bytes(cs) + m.bytes());
    }
}

/// Round trip for a chunk sequence: serializing well-formed chunks and
/// parsing the result gives the same sequence back.
#[verifier::rlimit(50)]
pub proof fn lemma_parse_chunks_round_trip(cs: Seq<ChunkModel>)
    requires
        forall|i: int| 0 <= i < cs.len() ==> (#[trigger] cs[i]).wf(),
    ensures
        spec_parse_chunks(chunks_bytes(cs)) == Ok::<Seq<ChunkModel>, PngError>(cs),
    decreases cs.len(),
{
    if cs.len() == 0 {
        assert(cs =~= Seq::<ChunkModel>::empty());
    } else {
        let b = chunks_bytes(cs);
        let head = cs[0];
        let tail_bytes = chunks_bytes(cs.drop_first());
        assert(b == head.bytes() + tail_bytes);
        lemma_parse_chunk_prefix(head, tail_bytes);
        let n = head.bytes().len() as int;
        assert(spec_parse_chunk(b) == Ok::<(ChunkModel, int), PngError>((head, n)));
        assert(b.len() > 0);
        assert(b.skip(n) =~= tail_bytes);
        assert(forall|i: int|
            0 <= i < cs.drop_first().len() ==> (#[trigger] cs.drop_first()[i]) == cs[i + 1]);
        lemma_parse_chunks_round_trip(cs.drop_first());
        assert(spec_parse_chunks(b.skip(n)) == Ok::<Seq<ChunkModel>, PngError>(
            cs.drop_first(),
        ));
        assert(spec_parse_chunks(b) == Ok::<Seq<ChunkModel>, PngError>(
            seq![head] + cs.drop_first(),
        ));
        assert(seq![head] + cs.drop_first() =~= cs);
    }
}

/// Round trip for a whole file: serializing any sequence of well-formed
/// chunks behind the signature and parsing the result gives an identical
/// signature and chunk sequence back.
pub proof fn lemma_container_round_trip(cs: Seq<ChunkModel>)
    requires
        forall|i: int| 0 <= i < cs.len() ==> (#[trigger] cs[i]).wf(),
    ensures
        spec_parse_png(png_bytes(cs)) == Ok::<Seq<ChunkModel>, PngError>(cs),
{
    let b = png_bytes(cs);
    assert(b.subrange(0, 8) =~= signature());
    assert(b.skip(8) =~= chunks_bytes(cs));
    lemma_parse_chunks_round_trip(cs);
}

/// Append then remove is the identity: on a container with no chunk of type
/// `t`, appending a chunk of that type and removing by the type returns the
/// appended chunk and restores the original sequence.
pub proof fn lemma_append_remove_inverse(cs: Seq<ChunkModel>, m: ChunkModel)
    requires
        first_match(cs, m.type_bytes) is None,
    ensures
        first_match(cs.push(m), m.type_bytes) == Some(cs.len() as int),
        cs.push(m)[cs.len() as int] == m,
        cs.push(m).remove(cs.len() as int) == cs,
{
    lemma_first_match(cs, m.type_bytes);
    lemma_first_match_at(cs.push(m), m.type_bytes, cs.len() as int);
    assert(cs.push(m).remove(cs.len() as int) =~= cs);
}

/// A chunk is special when its type is both ancillary and private: the first
/// two bytes are lowercase. These carry the application-defined payloads.
pub open spec fn is_special(m: ChunkModel) -> bool {
    is_ascii_lower(m.type_bytes[0]) && is_ascii_lower(m.type_bytes[1])
}

impl PngContainer {
    /// The indices of the special (ancillary and private) chunks, in
    /// sequence order: exactly the positions whose chunk type has its first
    /// two bytes lowercase.
    pub fn special_chunk_indices(&self) -> (r: Vec<usize>)
        ensures
            forall|k: int| 0 <= k < r@.len() ==> (#[trigger] r@[k]) < self@.len() && is_special(
                self@[r@[k] as int],
            ),
            forall|j: int| 0 <= j < self@.len() && is_special(#[trigger] self@[j]) ==> r@.contains(
                j as usize,
            ),
            forall|k1: int, k2: int| 0 <= k1 < k2 < r@.len() ==> r@[k1] < r@[k2],
    {
        let mut r: Vec<usize> = Vec::new();
        let mut i: usize = 0;
        while i < self.chunks.len()
            invariant
                0 <= i <= self.chunks@.len(),
                self@ == self.chunks@.map_values(|c: Chunk| c@),
                forall|k: int| 0 <= k < r@.len() ==> (#[trigger] r@[k]) < i && is_special(
                    self@[r@[k] as int],
                ),
                forall|j: int| 0 <= j < i && is_special(#[trigger] self@[j]) ==> r@.contains(
                    j as usize,
                ),
                forall|k1: int, k2: int| 0 <= k1 < k2 < r@.len() ==> r@[k1] < r@[k2],
            decreases self.chunks@.len() - i,
        {
            let t = self.chunks[i].chunk_type();
            proof {
                use_type_invariant(t);
                assert(is_ascii_letter(t@[0]) && is_ascii_letter(t@[1]));
            }
            if !t.is_critical() && !t.is_public() {
                let ghost old_r = r@;
                r.push(i);
                proof {
                    assert forall|x: usize| old_r.contains(x) implies r@.contains(x) by {
                        let k = choose|k: int| 0 <= k < old_r.len() && old_r[k] == x;
                        assert(r@[k] == x);
                    }
                    assert(r@.contains(i as usize)) by {
                        assert(r@[old_r.len() as int] == i);
                    }
                }
            }
            i = i + 1;
        }
        r
    }
}

} // verus!
