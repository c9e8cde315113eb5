//! The PNG container: a fixed 8-byte signature followed by an ordered
//! sequence of chunks.
//!
//! Parsing is all-or-nothing: the whole buffer must be a valid
//! signature followed by valid chunks, or the document is rejected.
//! Mutation preserves the order of the remaining chunks; new chunks go
//! at the end.

use crate::chunk::{chunk_bytes, chunk_parse, lemma_chunk_round_trip, Chunk, ChunkError, ChunkModel};
use crate::chunk_type::type_code_valid;
use crate::codec::{be32, be32_val, lemma_be32_roundtrip, u32_from_be_bytes};
use vstd::prelude::*;
use vstd::slice::{slice_index_get, slice_subrange};
use vstd::string::StringSliceAdditionalSpecFns;

verus! {

broadcast use vstd::array::group_array_axioms, vstd::slice::group_slice_axioms;

/// The fixed signature that every container starts with.
pub open spec fn sig_bytes() -> Seq<u8> {
    seq![0x89u8, 0x50u8, 0x4eu8, 0x47u8, 0x0du8, 0x0au8, 0x1au8, 0x0au8]
}

#[derive(Debug, Clone, Copy, PartialEq, Eq, Structural)]
pub enum PngError {
    /// The buffer does not start with the 8-byte signature.
    InvalidSignature,
    /// No chunk carries the requested type.
    NotFound,
    /// A chunk failed to parse; the cause is carried along.
    InvalidChunk(ChunkError),
}

#[derive(Debug)]
pub struct Png {
    chunks: Vec<Chunk>,
}

/// The models of a sequence of chunks, in order.
pub open spec fn chunk_models(cs: Seq<Chunk>) -> Seq<ChunkModel> {
    cs.map_values(|c: Chunk| c@)
}

impl View for Png {
    type V = Seq<ChunkModel>;

    closed spec fn view(&self) -> Seq<ChunkModel> {
        chunk_models(self.chunks@)
    }
}

/// The serialized chunk sequence: each chunk's bytes, concatenated in
/// order.
pub open spec fn chunks_bytes(cs: Seq<ChunkModel>) -> Seq<u8>
    decreases cs.len(),
{
    if cs.len() == 0 {
        Seq::empty()
    } else {
        chunk_bytes(cs[0]) + chunks_bytes(cs.drop_first())
    }
}

/// The serialized container: the signature, then the chunks.
pub open spec fn png_bytes(cs: Seq<ChunkModel>) -> Seq<u8> {
    sig_bytes() + chunks_bytes(cs)
}

/// What parsing a byte sequence as a chunk sequence yields: chunks are
/// read back to back until the bytes are exhausted; a remainder that
/// cannot hold a whole chunk, or any chunk failure, rejects the whole
/// sequence.
pub open spec fn chunks_parse(b: Seq<u8>) -> Result<Seq<ChunkModel>, ChunkError>
    decreases b.len(),
{
    if b.len() == 0 {
        Ok(Seq::empty())
    } else if b.len() < 12 {
        Err(ChunkError::InvalidLength)
    } else {
        let l = be32_val(b.subrange(0, 4)) as int;
        if b.len() < 12 + l {
            Err(ChunkError::InvalidLength)
        } else {
            match chunk_parse(b.subrange(0, 12 + l)) {
                Ok(m) => match chunks_parse(b.skip(12 + l)) {
                    Ok(rest) => Ok(seq![m] + rest),
                    Err(e) => Err(e),
                },
                Err(e) => Err(e),
            }
        }
    }
}

/// What parsing a byte sequence as a whole container yields.
pub open spec fn png_parse(b: Seq<u8>) -> Result<Seq<ChunkModel>, PngError> {
    if b.len() < 8 || b.subrange(0, 8) != sig_bytes() {
        Err(PngError::InvalidSignature)
    } else {
        match chunks_parse(b.skip(8)) {
            Ok(cs) => Ok(cs),
            Err(e) => Err(PngError::InvalidChunk(e)),
        }
    }
}

/// Index `i` holds the first chunk whose type-code bytes are `ty`.
pub open spec fn is_first_match(cs: Seq<ChunkModel>, ty: Seq<u8>, i: int) -> bool {
    &&& 0 <= i < cs.len()
    &&& cs[i].ty == ty
    &&& forall|j: int| 0 <= j < i ==> (#[trigger] cs[j]).ty != ty
}

/// Some chunk carries the type-code bytes `ty`.
pub open spec fn has_match(cs: Seq<ChunkModel>, ty: Seq<u8>) -> bool {
    exists|i: int| 0 <= i < cs.len() && (#[trigger] cs[i]).ty == ty
}

spec fn prepend_result(pre: Seq<ChunkModel>, r: Result<Seq<ChunkModel>, ChunkError>) -> Result<
    Seq<ChunkModel>,
    ChunkError,
> {
    match r {
        Ok(rest) => Ok(pre + rest),
        Err(e) => Err(e),
    }
}

proof fn lemma_prepend_snoc(
    pre: Seq<ChunkModel>,
    m: ChunkModel,
    r: Result<Seq<ChunkModel>, ChunkError>,
)
    ensures
        prepend_result(pre, prepend_result(seq![m], r)) == prepend_result(pre.push(m), r),
{
    match r {
        Ok(rest) => {
            assert(pre + (seq![m] + rest) =~= pre.push(m) + rest);
        },
        Err(_) => {},
    }
}

impl Png {
    /// A container over an already-validated chunk sequence.
    pub fn from_chunks(chunks: Vec<Chunk>) -> (r: Png)
        ensures
            r@ == chunk_models(chunks@),
    {
        Png { chunks }
    }

    /// Parses a whole in-memory buffer: the signature, then chunks
    /// until the buffer is exhausted.  The result is exactly what
    /// [`png_parse`] states.
    pub fn try_from(bytes: &[u8]) -> (r: Result<Png, PngError>)
        ensures
            match r {
                Ok(p) => png_parse(bytes@) == Ok::<Seq<ChunkModel>, PngError>(p@),
                Err(e) => png_parse(bytes@) == Err::<Seq<ChunkModel>, PngError>(e),
            },
    {
        if bytes.len() < 8 {
            return Err(PngError::InvalidSignature);
        }
        let sig: [u8; 8] = [0x89, 0x50, 0x4e, 0x47, 0x0d, 0x0a, 0x1a, 0x0a];
        proof {
            assert(sig@ =~= sig_bytes());
        }
        let mut i: usize = 0;
        while i < 8
            invariant
                i <= 8,
                bytes@.len() >= 8,
                sig@ =~= sig_bytes(),
                forall|j: int| 0 <= j < i ==> bytes@[j] == sig_bytes()[j],
            decreases 8 - i,
        {
            if *slice_index_get(bytes, i) != sig[i] {
                proof {
                    assert(bytes@.subrange(0, 8)[i as int] == bytes@[i as int]);
                }
                return Err(PngError::InvalidSignature);
            }
            i += 1;
        }
        proof {
            assert(bytes@.subrange(0, 8) =~= sig_bytes());
        }
        let mut chunks: Vec<Chunk> = Vec::new();
        let mut pos: usize = 8;
        while pos < bytes.len()
            invariant
                8 <= pos <= bytes@.len(),
                bytes@.subrange(0, 8) == sig_bytes(),
                chunks_parse(bytes@.skip(8)) == prepend_result(
                    chunk_models(chunks@),
                    chunks_parse(bytes@.skip(pos as int)),
                ),
            decreases bytes@.len() - pos,
        {
            let ghost s = bytes@.skip(pos as int);
            let rem = bytes.len() - pos;
            if rem < 12 {
                proof {
                    assert(chunks_parse(s) == Err::<Seq<ChunkModel>, ChunkError>(
                        ChunkError::InvalidLength,
                    ));
                }
                return Err(PngError::InvalidChunk(ChunkError::InvalidLength));
            }
            let l = u32_from_be_bytes(slice_subrange(bytes, pos, pos + 4));
            proof {
                assert(bytes@.subrange(pos as int, pos as int + 4) =~= s.subrange(0, 4));
            }
            let l_us = l as usize;
            if l_us > rem - 12 {
                proof {
                    assert(s.len() < 12 + l);
                    assert(chunks_parse(s) == Err::<Seq<ChunkModel>, ChunkError>(
                        ChunkError::InvalidLength,
                    ));
                }
                return Err(PngError::InvalidChunk(ChunkError::InvalidLength));
            }
            let end = pos + 12 + l_us;
            let sub = slice_subrange(bytes, pos, end);
            proof {
                assert(sub@ =~= s.subrange(0, 12 + l as int));
            }
            match Chunk::try_from(sub) {
                Ok(c) => {
                    proof {
                        assert(bytes@.skip(end as int) =~= s.skip(12 + l as int));
                        assert(chunks_parse(s) == prepend_result(
                            seq![c@],
                            chunks_parse(bytes@.skip(end as int)),
                        ));
                        lemma_prepend_snoc(
                            chunk_models(chunks@),
                            c@,
                            chunks_parse(bytes@.skip(end as int)),
                        );
                        assert(chunk_models(chunks@.push(c)) =~= chunk_models(chunks@).push(c@));
                    }
                    chunks.push(c);
                    pos = end;
                },
                Err(e) => {
                    return Err(PngError::InvalidChunk(e));
                },
            }
        }
        proof {
            assert(bytes@.skip(pos as int).len() == 0);
            assert(chunk_models(chunks@) + Seq::<ChunkModel>::empty() =~= chunk_models(chunks@));
        }
        Ok(Png { chunks })
    }

    /// The chunk sequence, in order, read-only.
    pub fn chunks(&self) -> (r: &Vec<Chunk>)
        ensures
            chunk_models(r@) == self@,
    {
        &self.chunks
    }

    /// Appends the chunk at the end of the sequence; never fails, even
    /// when it duplicates a type code.
    pub fn append_chunk(&mut self, chunk: Chunk)
        ensures
            final(self)@ == old(self)@.push(chunk@),
    {
        let ghost c = chunk@;
        self.chunks.push(chunk);
        proof {
            assert(chunk_models(self.chunks@) =~= chunk_models(old(self).chunks@).push(c));
        }
    }

    /// The first chunk whose type code renders as `ty`, if any;
    /// read-only, absence is not an error.
    pub fn chunk_by_type(&self, ty: &str) -> (r: Option<&Chunk>)
        ensures
            ({
                let nb = ty.spec_bytes();
                match r {
                    Some(c) => exists|i: int| is_first_match(self@, nb, i) && c@ == self@[i],
                    None => !has_match(self@, nb),
                }
            }),
    {
        let nb = ty.as_bytes();
        let mut i: usize = 0;
        while i < self.chunks.len()
            invariant
                i <= self.chunks@.len(),
                nb@ == ty.spec_bytes(),
                forall|j: int| 0 <= j < i ==> (#[trigger] chunk_models(self.chunks@)[j]).ty != nb@,
            decreases self.chunks@.len() - i,
        {
            let c = &self.chunks[i];
            if c.has_type(nb) {
                proof {
                    assert(is_first_match(self@, nb@, i as int));
                }
                return Some(c);
            }
            i += 1;
        }
        None
    }

    /// Removes the first chunk whose type code renders as `ty` and
    /// hands it back; the order of the remaining chunks is preserved.
    /// Fails with `NotFound` when no chunk matches.
    pub fn remove_chunk(&mut self, ty: &str) -> (r: Result<Chunk, PngError>)
        ensures
            ({
                let nb = ty.spec_bytes();
                match r {
                    Ok(c) => exists|i: int|
                        is_first_match(old(self)@, nb, i) && c@ == old(self)@[i] && final(self)@
                            == old(self)@.remove(i),
                    Err(e) => e == PngError::NotFound && !has_match(old(self)@, nb) && final(self)@
                        == old(self)@,
                }
            }),
    {
        let nb = ty.as_bytes();
        let mut i: usize = 0;
        while i < self.chunks.len()
            invariant
                i <= self.chunks@.len(),
                nb@ == ty.spec_bytes(),
                *self == *old(self),
                forall|j: int| 0 <= j < i ==> (#[trigger] chunk_models(self.chunks@)[j]).ty != nb@,
            decreases self.chunks@.len() - i,
        {
            let matches_here = self.chunks[i].has_type(nb);
            if matches_here {
                proof {
                    assert(is_first_match(old(self)@, nb@, i as int));
                }
                let c = self.chunks.remove(i);
                proof {
                    assert(chunk_models(self.chunks@) =~= chunk_models(old(self).chunks@).remove(
                        i as int,
                    ));
                }
                return Ok(c);
            }
            i += 1;
        }
        Err(PngError::NotFound)
    }

    /// The serialized container: signature bytes, then each chunk's
    /// serialization in sequence order.
    pub fn as_bytes(&self) -> (r: Vec<u8>)
        ensures
            r@ == png_bytes(self@),
    {
        let mut out: Vec<u8> = Vec::new();
        let sig: [u8; 8] = [0x89, 0x50, 0x4e, 0x47, 0x0d, 0x0a, 0x1a, 0x0a];
        out.extend_from_slice(sig.as_slice());
        proof {
            assert(out@ =~= sig_bytes() + chunks_bytes(self@.take(0)));
        }
        let mut i: usize = 0;
        while i < self.chunks.len()
            invariant
                i <= self.chunks@.len(),
                out@ == sig_bytes() + chunks_bytes(self@.take(i as int)),
            decreases self.chunks@.len() - i,
        {
            let cb = self.chunks[i].as_bytes();
            out.extend_from_slice(cb.as_slice());
            proof {
                lemma_chunks_bytes_push(self@.take(i as int), self@[i as int]);
                assert(self@.take(i as int).push(self@[i as int]) =~= self@.take(i + 1));
                assert(out@ =~= sig_bytes() + chunks_bytes(self@.take(i + 1)));
            }
            i += 1;
        }
        proof {
            assert(self@.take(self.chunks@.len() as int) =~= self@);
        }
        out
    }
}

/// Serializing one more chunk appends its bytes at the end.
proof fn lemma_chunks_bytes_push(cs: Seq<ChunkModel>, m: ChunkModel)
    ensures
        chunks_bytes(cs.push(m)) == chunks_bytes(cs) + chunk_bytes(m),
    decreases cs.len(),
{
    if cs.len() == 0 {
        assert(cs.push(m)[0] == m);
        assert(cs.push(m).drop_first() =~= Seq::<ChunkModel>::empty());
        assert(chunks_bytes(Seq::<ChunkModel>::empty()) == Seq::<u8>::empty());
        assert(chunks_bytes(cs.push(m)) == chunk_bytes(m) + Seq::<u8>::empty());
        assert(chunks_bytes(cs.push(m)) =~= chunks_bytes(cs) + chunk_bytes(m));
    } else {
        assert(cs.push(m).drop_first() =~= cs.drop_first().push(m));
        lemma_chunks_bytes_push(cs.drop_first(), m);
        assert(chunks_bytes(cs.push(m)) =~= chunks_bytes(cs) + chunk_bytes(m));
    }
}

/// A buffer that does not start with the 8-byte signature is rejected
/// as a container, whatever follows.
pub proof fn lemma_signature_enforced(b: Seq<u8>)
    requires
        b.len() < 8 || b.subrange(0, 8) != sig_bytes(),
    ensures
        png_parse(b) == Err::<Seq<ChunkModel>, PngError>(PngError::InvalidSignature),
{
}

/// Round trip for a chunk sequence: serializing chunks whose type
/// codes are valid and parsing the bytes back yields the same
/// sequence.
#[verifier::rlimit(50)]
pub proof fn lemma_chunks_round_trip(cs: Seq<ChunkModel>)
    requires
        forall|i: int|
            0 <= i < cs.len() ==> type_code_valid((#[trigger] cs[i]).ty) && cs[i].data.len()
                <= u32::MAX,
    ensures
        chunks_parse(chunks_bytes(cs)) == Ok::<Seq<ChunkModel>, ChunkError>(cs),
    decreases cs.len(),
{
    if cs.len() == 0 {
        assert(cs =~= Seq::<ChunkModel>::empty());
    } else {
        let m = cs[0];
        let b = chunks_bytes(cs);
        let cb = chunk_bytes(m);
        let rest = chunks_bytes(cs.drop_first());
        assert(b == cb + rest);
        assert(cb.len() == 12 + m.data.len());
        lemma_be32_roundtrip(m.data.len() as u32);
        assert(b.subrange(0, 4) =~= be32(m.data.len() as u32));
        let l = be32_val(b.subrange(0, 4)) as int;
        assert(l == m.data.len());
        assert(b.len() >= 12 + l);
        assert(b.subrange(0, 12 + l) =~= cb);
        lemma_chunk_round_trip(m);
        assert(b.skip(12 + l) =~= rest);
        assert forall|i: int|
            0 <= i < cs.drop_first().len() implies type_code_valid(
            (#[trigger] cs.drop_first()[i]).ty,
        ) && cs.drop_first()[i].data.len() <= u32::MAX by {
            assert(cs.drop_first()[i] == cs[i + 1]);
        }
        lemma_chunks_round_trip(cs.drop_first());
        assert(chunk_parse(b.subrange(0, 12 + l)) == Ok::<ChunkModel, ChunkError>(m));
        assert(chunks_parse(b.skip(12 + l)) == Ok::<Seq<ChunkModel>, ChunkError>(cs.drop_first()));
        assert(seq![m] + cs.drop_first() =~= cs);
        assert(chunks_parse(b) == Ok::<Seq<ChunkModel>, ChunkError>(cs));
    }
}

/// Round trip for a whole container: serializing any container whose
/// chunks carry valid type codes and parsing the bytes back yields the
/// same chunk sequence.
pub proof fn lemma_png_round_trip(cs: Seq<ChunkModel>)
    requires
        forall|i: int|
            0 <= i < cs.len() ==> type_code_valid((#[trigger] cs[i]).ty) && cs[i].data.len()
                <= u32::MAX,
    ensures
        png_parse(png_bytes(cs)) == Ok::<Seq<ChunkModel>, PngError>(cs),
{
    let b = png_bytes(cs);
    assert(b.subrange(0, 8) =~= sig_bytes());
    assert(b.skip(8) =~= chunks_bytes(cs));
    lemma_chunks_round_trip(cs);
}

} // verus!
