//! A chunk: a length-prefixed, checksummed record of a type code and
//! an opaque payload.
//!
//! Wire layout: 4-byte big-endian payload length, 4 type-code bytes,
//! the payload, then a 4-byte big-endian CRC-32/ISO-HDLC checksum over
//! the type-code bytes followed by the payload.

use crate::chunk_type::{is_alpha_byte, is_ascii_byte, type_code_valid, ChunkType};
use crate::codec::{
    be32, be32_val, crc32, crc32_of, lemma_be32_roundtrip, u32_from_be_bytes, u32_to_be_bytes,
    utf8_to_string, TextDecodeError,
};
use vstd::prelude::*;
use vstd::slice::{slice_index_get, slice_subrange, slice_to_vec};
use vstd::utf8::{decode_utf8, valid_utf8};

verus! {

broadcast use vstd::array::group_array_axioms, vstd::slice::group_slice_axioms;

/// The mathematical content of a chunk: its type-code bytes and its
/// payload bytes.  The checksum and the length field are derived.
#[verifier::ext_equal]
pub struct ChunkModel {
    pub ty: Seq<u8>,
    pub data: Seq<u8>,
}

#[derive(Debug)]
pub struct Chunk {
    chunk_type: ChunkType,
    data: Vec<u8>,
}

#[derive(Debug, Clone, Copy, PartialEq, Eq, Structural)]
pub enum ChunkError {
    /// The type-code bytes are not ASCII letters with the reserved bit
    /// set.
    InvalidChunkType,
    /// The buffer is shorter than the twelve-byte minimum, or shorter
    /// than its own length field promises.
    InvalidLength,
    /// The stored checksum (first value) differs from the recomputed
    /// one (second value).
    InvalidCrc(u32, u32),
}

impl View for Chunk {
    type V = ChunkModel;

    closed spec fn view(&self) -> ChunkModel {
        ChunkModel { ty: self.chunk_type@, data: self.data@ }
    }
}

impl Chunk {
    /// The payload always fits the 4-byte length field.
    #[verifier::type_invariant]
    pub closed spec fn inv(self) -> bool {
        self.data@.len() <= u32::MAX
    }

    /// A chunk from a type code and an owned payload.  Validity of the
    /// code is not demanded here; the container checks it at parse
    /// time.
    pub fn new(chunk_type: ChunkType, data: Vec<u8>) -> (r: Chunk)
        requires
            data@.len() <= u32::MAX,
        ensures
            r@ == (ChunkModel { ty: chunk_type@, data: data@ }),
    {
        Chunk { chunk_type, data }
    }

    /// The value of the serialized length field: the payload byte
    /// count.
    pub fn length(&self) -> (r: u32)
        ensures
            r == self@.data.len(),
    {
        proof {
            use_type_invariant(self);
        }
        self.data.len() as u32
    }

    pub fn chunk_type(&self) -> (r: &ChunkType)
        ensures
            r@ == self@.ty,
    {
        &self.chunk_type
    }

    /// The payload, read-only.
    pub fn data(&self) -> (r: &[u8])
        ensures
            r@ == self@.data,
    {
        self.data.as_slice()
    }

    /// The CRC-32/ISO-HDLC checksum over the type-code bytes followed
    /// by the payload.
    pub fn crc(&self) -> (r: u32)
        ensures
            r == crc32_of(self@.ty + self@.data),
    {
        let mut buf: Vec<u8> = Vec::new();
        let tb = self.chunk_type.bytes();
        buf.extend_from_slice(tb.as_slice());
        buf.extend_from_slice(self.data.as_slice());
        proof {
            assert(buf@ =~= self@.ty + self@.data);
        }
        crc32(buf.as_slice())
    }

    /// The payload decoded as text, when it is valid UTF-8.
    pub fn data_as_string(&self) -> (r: Result<String, TextDecodeError>)
        ensures
            valid_utf8(self@.data) ==> (r matches Ok(s) && s@ == decode_utf8(self@.data)),
            !valid_utf8(self@.data) ==> r == Err::<String, TextDecodeError>(TextDecodeError),
    {
        match utf8_to_string(self.data.as_slice()) {
            Some(s) => Ok(s),
            None => Err(TextDecodeError),
        }
    }

    /// The serialized record.  Its first four bytes are always the
    /// payload length, whatever the payload holds.
    pub fn as_bytes(&self) -> (r: Vec<u8>)
        ensures
            r@ == chunk_bytes(self@),
            r@.subrange(0, 4) == be32(self@.data.len() as u32),
    {
        proof {
            use_type_invariant(self);
        }
        let mut out: Vec<u8> = Vec::new();
        let lb = u32_to_be_bytes(self.data.len() as u32);
        out.extend_from_slice(lb.as_slice());
        let tb = self.chunk_type.bytes();
        out.extend_from_slice(tb.as_slice());
        out.extend_from_slice(self.data.as_slice());
        let cb = u32_to_be_bytes(self.crc());
        out.extend_from_slice(cb.as_slice());
        proof {
            assert(out@ =~= chunk_bytes(self@));
            assert(out@.subrange(0, 4) =~= be32(self@.data.len() as u32));
        }
        out
    }

    /// Whether this chunk's type-code bytes equal the given bytes.
    pub(crate) fn has_type(&self, name: &[u8]) -> (r: bool)
        ensures
            r == (self@.ty == name@),
    {
        let tb = self.chunk_type.bytes();
        if name.len() != 4 {
            proof {
                assert(self@.ty.len() == 4);
            }
            return false;
        }
        let m = tb[0] == *slice_index_get(name, 0) && tb[1] == *slice_index_get(name, 1) && tb[2]
            == *slice_index_get(name, 2) && tb[3] == *slice_index_get(name, 3);
        proof {
            if m {
                assert(self@.ty =~= name@);
            } else {
                if self@.ty == name@ {
                    assert(tb@[0] == name@[0] && tb@[1] == name@[1] && tb@[2] == name@[2] && tb@[3]
                        == name@[3]);
                    assert(false);
                }
            }
        }
        m
    }

    /// Parses one record from the front of a byte slice; bytes past
    /// the record are ignored.  The result is exactly what
    /// [`chunk_parse`] states.
    pub fn try_from(bytes: &[u8]) -> (r: Result<Chunk, ChunkError>)
        ensures
            match r {
                Ok(c) => chunk_parse(bytes@) == Ok::<ChunkModel, ChunkError>(c@),
                Err(e) => chunk_parse(bytes@) == Err::<ChunkModel, ChunkError>(e),
            },
    {
        if bytes.len() < 12 {
            return Err(ChunkError::InvalidLength);
        }
        let l = u32_from_be_bytes(slice_subrange(bytes, 0, 4));
        let tb = slice_subrange(bytes, 4, 8);
        let code: [u8; 4] = [
            *slice_index_get(tb, 0),
            *slice_index_get(tb, 1),
            *slice_index_get(tb, 2),
            *slice_index_get(tb, 3),
        ];
        proof {
            assert(code@ =~= bytes@.subrange(4, 8));
        }
        let ct = match ChunkType::try_from(code) {
            Ok(c) => c,
            Err(_) => {
                proof {
                    let i = choose|i: int| 0 <= i < code@.len() && !is_ascii_byte(code@[i]);
                    assert(!is_alpha_byte(code@[i]));
                    assert(!type_code_valid(code@));
                }
                return Err(ChunkError::InvalidChunkType);
            },
        };
        if !ct.is_valid() {
            return Err(ChunkError::InvalidChunkType);
        }
        let l_us = l as usize;
        if l_us > bytes.len() - 12 {
            return Err(ChunkError::InvalidLength);
        }
        let data = slice_to_vec(slice_subrange(bytes, 8, 8 + l_us));
        let stored = u32_from_be_bytes(slice_subrange(bytes, 8 + l_us, 12 + l_us));
        let chunk = Chunk { chunk_type: ct, data };
        let computed = chunk.crc();
        proof {
            assert(chunk@.ty + chunk@.data =~= bytes@.subrange(4, 8) + bytes@.subrange(
                8,
                8 + l_us as int,
            ));
        }
        if computed != stored {
            return Err(ChunkError::InvalidCrc(stored, computed));
        }
        proof {
            assert(chunk_parse(bytes@) matches Ok(m) && m =~= chunk@);
        }
        Ok(chunk)
    }
}

/// The serialized form of a chunk model: big-endian length, type-code
/// bytes, payload, big-endian checksum.
pub open spec fn chunk_bytes(m: ChunkModel) -> Seq<u8>
    recommends
        m.data.len() <= u32::MAX,
{
    be32(m.data.len() as u32) + m.ty + m.data + be32(crc32_of(m.ty + m.data))
}

/// What parsing a byte sequence as a single chunk yields, in the order
/// the checks are made: minimum size, type-code validity, declared
/// length against the bytes present, then the checksum.
pub open spec fn chunk_parse(b: Seq<u8>) -> Result<ChunkModel, ChunkError> {
    if b.len() < 12 {
        Err(ChunkError::InvalidLength)
    } else {
        let l = be32_val(b.subrange(0, 4)) as int;
        let t = b.subrange(4, 8);
        if !type_code_valid(t) {
            Err(ChunkError::InvalidChunkType)
        } else if b.len() < 12 + l {
            Err(ChunkError::InvalidLength)
        } else {
            let d = b.subrange(8, 8 + l);
            let stored = be32_val(b.subrange(8 + l, 12 + l));
            let computed = crc32_of(t + d);
            if stored != computed {
                Err(ChunkError::InvalidCrc(stored, computed))
            } else {
                Ok(ChunkModel { ty: t, data: d })
            }
        }
    }
}

/// Round trip: serializing any chunk with a valid type code and
/// parsing the result back succeeds and yields the same chunk.
pub proof fn lemma_chunk_round_trip(m: ChunkModel)
    requires
        type_code_valid(m.ty),
        m.data.len() <= u32::MAX,
    ensures
        chunk_parse(chunk_bytes(m)) == Ok::<ChunkModel, ChunkError>(m),
{
    let b = chunk_bytes(m);
    let lb = be32(m.data.len() as u32);
    let cb = be32(crc32_of(m.ty + m.data));
    assert(b.len() == 12 + m.data.len());
    assert(b.subrange(0, 4) =~= lb);
    lemma_be32_roundtrip(m.data.len() as u32);
    let l = be32_val(b.subrange(0, 4)) as int;
    assert(l == m.data.len());
    assert(b.subrange(4, 8) =~= m.ty);
    assert(b.subrange(8, 8 + l) =~= m.data);
    assert(b.subrange(8 + l, 12 + l) =~= cb);
    lemma_be32_roundtrip(crc32_of(m.ty + m.data));
    assert(chunk_parse(b) matches Ok(p) && p =~= m);
}

/// Checksum enforcement: a buffer whose recomputed checksum differs
/// from the stored checksum field never parses as a chunk, and when
/// its type code is valid the failure names both values.  Tampering
/// with the type-code or payload region changes what the checksum is
/// computed over; whether that changes the checksum itself is a
/// property of the checksum algorithm, exercised by tests.
pub proof fn lemma_checksum_enforced(b: Seq<u8>)
    requires
        b.len() >= 12,
        b.len() >= 12 + be32_val(b.subrange(0, 4)),
        ({
            let l = be32_val(b.subrange(0, 4)) as int;
            crc32_of(b.subrange(4, 8) + b.subrange(8, 8 + l)) != be32_val(
                b.subrange(8 + l, 12 + l),
            )
        }),
    ensures
        chunk_parse(b) is Err,
        type_code_valid(b.subrange(4, 8)) ==> chunk_parse(b) == Err::<ChunkModel, ChunkError>(
            ChunkError::InvalidCrc(
                be32_val(b.subrange(8 + be32_val(b.subrange(0, 4)), 12 + be32_val(b.subrange(0, 4)))),
                crc32_of(b.subrange(4, 8) + b.subrange(8, 8 + be32_val(b.subrange(0, 4)))),
            ),
        ),
{
}

/// The length field of a serialized chunk equals the payload byte
/// count, independent of the payload's contents.
pub proof fn lemma_length_field(m: ChunkModel)
    ensures
        chunk_bytes(m).subrange(0, 4) == be32(m.data.len() as u32),
{
    assert(chunk_bytes(m).subrange(0, 4) =~= be32(m.data.len() as u32));
}

} // verus!
