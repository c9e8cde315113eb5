//! The 4-byte chunk type code and its bit-encoded classification.
//!
//! A code is built from any four ASCII bytes; it is *valid* (usable in
//! a well-formed chunk) only when all four bytes are ASCII letters and
//! the third byte is uppercase (the reserved-bit rule).  The case of
//! each byte encodes one classification flag.

use crate::codec::utf8_to_string;
use vstd::prelude::*;
use vstd::string::StringSliceAdditionalSpecFns;
use vstd::utf8::{
    decode_utf8, encode_utf8, encode_utf8_decode_utf8, encode_utf8_valid_utf8, is_ascii_chars,
    is_ascii_chars_encode_utf8, valid_utf8,
};

verus! {

broadcast use vstd::array::group_array_axioms, vstd::slice::group_slice_axioms;

pub open spec fn is_ascii_byte(b: u8) -> bool {
    b < 128
}

pub open spec fn is_upper_byte(b: u8) -> bool {
    65 <= b <= 90
}

pub open spec fn is_lower_byte(b: u8) -> bool {
    97 <= b <= 122
}

pub open spec fn is_alpha_byte(b: u8) -> bool {
    is_upper_byte(b) || is_lower_byte(b)
}

pub open spec fn all_ascii(t: Seq<u8>) -> bool {
    forall|i: int| 0 <= i < t.len() ==> is_ascii_byte(#[trigger] t[i])
}

pub open spec fn all_alpha(t: Seq<u8>) -> bool {
    forall|i: int| 0 <= i < t.len() ==> is_alpha_byte(#[trigger] t[i])
}

/// The reserved-bit rule: a code is valid when its four bytes are
/// ASCII letters and the third byte is uppercase.
pub open spec fn type_code_valid(t: Seq<u8>) -> bool {
    t.len() == 4 && all_alpha(t) && is_upper_byte(t[2])
}

/// ASCII bytes reinterpreted as text, character for character.
pub open spec fn ascii_chars_of(b: Seq<u8>) -> Seq<char> {
    Seq::new(b.len(), |i: int| b[i] as char)
}

/// ASCII bytes are valid UTF-8 and decode to themselves, one character
/// per byte.
pub proof fn lemma_ascii_bytes_utf8(b: Seq<u8>)
    requires
        all_ascii(b),
    ensures
        valid_utf8(b),
        decode_utf8(b) == ascii_chars_of(b),
{
    let cs = ascii_chars_of(b);
    assert forall|i: int| 0 <= i < cs.len() implies '\0' <= #[trigger] cs[i] <= '\u{7f}' by {
        assert(is_ascii_byte(b[i]));
    }
    assert(is_ascii_chars(cs));
    is_ascii_chars_encode_utf8(cs);
    assert(encode_utf8(cs) =~= b);
    encode_utf8_valid_utf8(cs);
    encode_utf8_decode_utf8(cs);
}

#[derive(Debug, Clone, Copy, PartialEq, Eq)]
pub struct ChunkType {
    bytes: [u8; 4],
}

#[derive(Debug, Clone, Copy, PartialEq, Eq, Structural)]
pub enum ChunkTypeError {
    /// A byte outside the ASCII table was offered.
    InvalidASCIIBytes,
    /// A byte that is not an ASCII letter was offered.
    InvalidAlphabeticBytes,
}

impl View for ChunkType {
    type V = Seq<u8>;

    closed spec fn view(&self) -> Seq<u8> {
        self.bytes@
    }
}

impl ChunkType {
    /// Every constructed code holds ASCII bytes only.
    #[verifier::type_invariant]
    pub closed spec fn inv(self) -> bool {
        self@.len() == 4 && all_ascii(self@)
    }

    /// Builds a code from four raw bytes; any ASCII bytes are accepted,
    /// whether or not the resulting code is valid.
    pub fn try_from(value: [u8; 4]) -> (r: Result<ChunkType, ChunkTypeError>)
        ensures
            all_ascii(value@) ==> (r matches Ok(t) && t@ == value@),
            !all_ascii(value@) ==> r == Err::<ChunkType, ChunkTypeError>(
                ChunkTypeError::InvalidASCIIBytes,
            ),
    {
        let mut i: usize = 0;
        while i < 4
            invariant
                i <= 4,
                forall|j: int| 0 <= j < i ==> is_ascii_byte(#[trigger] value@[j]),
            decreases 4 - i,
        {
            if value[i] >= 128 {
                return Err(ChunkTypeError::InvalidASCIIBytes);
            }
            i += 1;
        }
        Ok(ChunkType { bytes: value })
    }

    /// Builds a code from the first four bytes of a text name; all four
    /// must be ASCII letters.
    pub fn from_str(s: &str) -> (r: Result<ChunkType, ChunkTypeError>)
        ensures
            s.spec_bytes().len() < 4 ==> r == Err::<ChunkType, ChunkTypeError>(
                ChunkTypeError::InvalidASCIIBytes,
            ),
            s.spec_bytes().len() >= 4 && !all_alpha(s.spec_bytes().take(4)) ==> r == Err::<
                ChunkType,
                ChunkTypeError,
            >(ChunkTypeError::InvalidAlphabeticBytes),
            s.spec_bytes().len() >= 4 && all_alpha(s.spec_bytes().take(4)) ==> (r matches Ok(t)
                && t@ == s.spec_bytes().take(4)),
    {
        let b = s.as_bytes();
        if b.len() < 4 {
            return Err(ChunkTypeError::InvalidASCIIBytes);
        }
        let code: [u8; 4] = [
            *vstd::slice::slice_index_get(b, 0),
            *vstd::slice::slice_index_get(b, 1),
            *vstd::slice::slice_index_get(b, 2),
            *vstd::slice::slice_index_get(b, 3),
        ];
        proof {
            assert(code@ =~= s.spec_bytes().take(4));
        }
        let mut i: usize = 0;
        while i < 4
            invariant
                i <= 4,
                s.spec_bytes().len() >= 4,
                code@ == s.spec_bytes().take(4),
                forall|j: int| 0 <= j < i ==> is_alpha_byte(#[trigger] code@[j]),
            decreases 4 - i,
        {
            let v = code[i];
            if !((v >= 65 && v <= 90) || (v >= 97 && v <= 122)) {
                proof {
                    assert(!is_alpha_byte(code@[i as int]));
                }
                return Err(ChunkTypeError::InvalidAlphabeticBytes);
            }
            i += 1;
        }
        Ok(ChunkType { bytes: code })
    }

    /// The exact stored bytes.
    pub fn bytes(&self) -> (r: [u8; 4])
        ensures
            r@ == self@,
    {
        self.bytes
    }

    /// True exactly when all four bytes are ASCII letters and the
    /// reserved bit (case of the third byte) is set as the format
    /// demands.
    pub fn is_valid(&self) -> (r: bool)
        ensures
            r == type_code_valid(self@),
    {
        let b = self.bytes;
        let alpha = ((b[0] >= 65 && b[0] <= 90) || (b[0] >= 97 && b[0] <= 122)) && ((b[1] >= 65
            && b[1] <= 90) || (b[1] >= 97 && b[1] <= 122)) && ((b[2] >= 65 && b[2] <= 90) || (b[2]
            >= 97 && b[2] <= 122)) && ((b[3] >= 65 && b[3] <= 90) || (b[3] >= 97 && b[3] <= 122));
        let r = alpha && b[2] >= 65 && b[2] <= 90;
        proof {
            assert(all_alpha(self@) ==> is_alpha_byte(self@[0]) && is_alpha_byte(self@[1])
                && is_alpha_byte(self@[2]) && is_alpha_byte(self@[3]));
            if alpha {
                assert forall|i: int| 0 <= i < self@.len() implies is_alpha_byte(
                    #[trigger] self@[i],
                ) by {
                    assert(self@[i] == b@[i]);
                }
            }
        }
        r
    }

    /// Case of the first byte: uppercase marks a critical chunk.
    pub fn is_critical(&self) -> (r: bool)
        ensures
            r == is_upper_byte(self@[0]),
    {
        let b = self.bytes[0];
        b >= 65 && b <= 90
    }

    /// Case of the second byte: uppercase marks a public chunk.
    pub fn is_public(&self) -> (r: bool)
        ensures
            r == is_upper_byte(self@[1]),
    {
        let b = self.bytes[1];
        b >= 65 && b <= 90
    }

    /// Case of the third byte: it must be uppercase for the code to be
    /// valid at all.
    pub fn is_reserved_bit_valid(&self) -> (r: bool)
        ensures
            r == is_upper_byte(self@[2]),
    {
        let b = self.bytes[2];
        b >= 65 && b <= 90
    }

    /// Case of the fourth byte: lowercase marks a chunk safe to copy.
    pub fn is_safe_to_copy(&self) -> (r: bool)
        ensures
            r == is_lower_byte(self@[3]),
    {
        let b = self.bytes[3];
        b >= 97 && b <= 122
    }

    /// The four bytes rendered as text; total, since every stored byte
    /// is ASCII.
    pub fn to_string(&self) -> (r: String)
        ensures
            r@ == ascii_chars_of(self@),
    {
        proof {
            use_type_invariant(self);
            lemma_ascii_bytes_utf8(self@);
        }
        let r = utf8_to_string(self.bytes.as_slice());
        match r {
            Some(s) => s,
            None => {
                proof {
                    assert(false);
                }
                String::new()
            },
        }
    }
}

} // verus!
