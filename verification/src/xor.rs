//! The obfuscation transform: a stateless byte-wise XOR cipher keyed
//! by the bytes of a caller-supplied text.  Applying it twice with the
//! same key restores the input; an empty key makes it the identity.

use crate::codec::{utf8_to_string, TextDecodeError};
use vstd::prelude::*;
use vstd::slice::{slice_index_get, slice_to_vec};
use vstd::string::StringSliceAdditionalSpecFns;
use vstd::utf8::{decode_utf8, valid_utf8};

verus! {

broadcast use vstd::slice::group_slice_axioms;

/// Each data byte XORed with the key byte at its index modulo the key
/// length; the data unchanged when the key is empty.
pub open spec fn xor_bytes(data: Seq<u8>, key: Seq<u8>) -> Seq<u8> {
    if key.len() == 0 {
        data
    } else {
        Seq::new(data.len(), |i: int| data[i] ^ key[i % (key.len() as int)])
    }
}

/// The transform is its own inverse, and the empty key changes
/// nothing.
pub proof fn lemma_xor_bytes_self_inverse(m: Seq<u8>, k: Seq<u8>)
    ensures
        xor_bytes(xor_bytes(m, k), k) == m,
        xor_bytes(m, Seq::<u8>::empty()) == m,
{
    if k.len() > 0 {
        assert forall|i: int| 0 <= i < m.len() implies xor_bytes(xor_bytes(m, k), k)[i] == m[i] by {
            let b = k[i % (k.len() as int)];
            let a = m[i];
            assert((a ^ b) ^ b == a) by (bit_vector);
        }
        assert(xor_bytes(xor_bytes(m, k), k) =~= m);
    }
}

/// Obfuscates (or de-obfuscates) the data with the key's bytes.
pub fn xor_encode(data: &[u8], key: &str) -> (r: Vec<u8>)
    ensures
        r@ == xor_bytes(data@, key.spec_bytes()),
{
    let kb = key.as_bytes();
    if kb.len() == 0 {
        return slice_to_vec(data);
    }
    let mut out: Vec<u8> = Vec::new();
    let mut i: usize = 0;
    while i < data.len()
        invariant
            i <= data@.len(),
            kb@ == key.spec_bytes(),
            kb@.len() > 0,
            out@.len() == i,
            forall|j: int|
                0 <= j < i ==> #[trigger] out@[j] == (data@[j] ^ kb@[j % (kb@.len() as int)]),
        decreases data@.len() - i,
    {
        let b = *slice_index_get(data, i) ^ *slice_index_get(kb, i % kb.len());
        out.push(b);
        i += 1;
    }
    proof {
        assert(out@ =~= xor_bytes(data@, key.spec_bytes()));
    }
    out
}

/// Undoes the obfuscation and decodes the result as text.
pub fn xor_decode(data: &[u8], key: &str) -> (r: Result<String, TextDecodeError>)
    ensures
        ({
            let m = xor_bytes(data@, key.spec_bytes());
            &&& valid_utf8(m) ==> (r matches Ok(s) && s@ == decode_utf8(m))
            &&& !valid_utf8(m) ==> r == Err::<String, TextDecodeError>(TextDecodeError)
        }),
{
    let plain = xor_encode(data, key);
    match utf8_to_string(plain.as_slice()) {
        Some(s) => Ok(s),
        None => Err(TextDecodeError),
    }
}

} // verus!
