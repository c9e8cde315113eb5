//! Byte-level primitives shared by the chunk and container layers:
//! big-endian 32-bit fields, the chunk checksum, and text decoding.

use vstd::prelude::*;
use vstd::slice::slice_index_get;
use vstd::utf8::{decode_utf8, valid_utf8};

verus! {

/// The four bytes of `n` in big-endian order.
pub open spec fn be32(n: u32) -> Seq<u8> {
    seq![(n >> 24) as u8, (n >> 16) as u8, (n >> 8) as u8, n as u8]
}

/// The unsigned 32-bit value read big-endian from four bytes.
pub open spec fn be32_val(b: Seq<u8>) -> u32
    recommends
        b.len() == 4,
{
    (((b[0] as u32) << 24) | ((b[1] as u32) << 16) | ((b[2] as u32) << 8) | (b[3] as u32))
}

/// Writing a value big-endian and reading it back is the identity.
pub proof fn lemma_be32_roundtrip(n: u32)
    ensures
        be32_val(be32(n)) == n,
{
    assert(((((n >> 24) as u8) as u32) << 24) | ((((n >> 16) as u8) as u32) << 16) | ((((n
        >> 8) as u8) as u32) << 8) | ((n as u8) as u32) == n) by (bit_vector);
}

pub fn u32_to_be_bytes(n: u32) -> (r: [u8; 4])
    ensures
        r@ == be32(n),
{
    let r: [u8; 4] = [
        #[verifier::truncate] ((n >> 24) as u8),
        #[verifier::truncate] ((n >> 16) as u8),
        #[verifier::truncate] ((n >> 8) as u8),
        #[verifier::truncate] (n as u8),
    ];
    proof {
        assert(r@ =~= be32(n));
    }
    r
}

pub fn u32_from_be_bytes(b: &[u8]) -> (r: u32)
    requires
        b@.len() == 4,
    ensures
        r == be32_val(b@),
{
    let b0 = *slice_index_get(b, 0);
    let b1 = *slice_index_get(b, 1);
    let b2 = *slice_index_get(b, 2);
    let b3 = *slice_index_get(b, 3);
    ((b0 as u32) << 24) | ((b1 as u32) << 16) | ((b2 as u32) << 8) | (b3 as u32)
}

/// The CRC-32/ISO-HDLC checksum of a byte sequence, as the PNG format
/// prescribes for its chunks.  The algorithm itself is left abstract;
/// the executable computation is delegated below.
pub uninterp spec fn crc32_of(bytes: Seq<u8>) -> u32;

/// Relies on the crc crate's `Crc::<u32>::checksum` with the
/// `CRC_32_ISO_HDLC` algorithm: the checksum is a function of the input
/// bytes alone.
#[verifier::external_body]
pub(crate) fn crc32(bytes: &[u8]) -> (r: u32)
    ensures
        r == crc32_of(bytes@),
{
    crc::Crc::<u32>::new(&crc::CRC_32_ISO_HDLC).checksum(bytes)
}

/// The payload held no valid text.
#[derive(Debug, Clone, Copy, PartialEq, Eq, Structural)]
pub struct TextDecodeError;

/// Relies on std's `str::from_utf8`: it returns `Ok` exactly on valid
/// UTF-8 input, and the resulting text is that input decoded.
#[verifier::external_body]
pub(crate) fn utf8_to_string(bytes: &[u8]) -> (r: Option<String>)
    ensures
        r is Some <==> valid_utf8(bytes@),
        r matches Some(s) ==> s@ == decode_utf8(bytes@),
{
    match core::str::from_utf8(bytes) {
        Ok(s) => Some(s.to_string()),
        Err(_) => None,
    }
}

} // verus!
