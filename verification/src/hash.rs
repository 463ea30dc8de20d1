use vstd::prelude::*;

use sha3::digest::{ExtendableOutput, Update, XofReader};
use sha3::Digest;

verus! {

/// The SHA3-256 digest of a byte string.  Left without a body: the value is
/// fixed by the hash function alone, and nothing else is assumed of it.
pub uninterp spec fn sha3_256_of(data: Seq<u8>) -> Seq<u8>;

/// The first `n` bytes of SHAKE128 output on a byte string.
pub uninterp spec fn shake128_of(data: Seq<u8>, n: int) -> Seq<u8>;

/// Relies on sha3::Sha3_256: the digest is a function of the input bytes
/// alone and is exactly 32 bytes long (FIPS 202, output size U32).
#[verifier::external_body]
pub fn sha3_256(data: &Vec<u8>) -> (r: Vec<u8>)
    ensures
        r@ == sha3_256_of(data@),
        r@.len() == 32,
{
    let mut h = sha3::Sha3_256::new();
    Digest::update(&mut h, data.as_slice());
    h.finalize().to_vec()
}

/// Relies on sha3::Shake128: the extendable output is a function of the input
/// bytes alone, and reading `n` bytes yields exactly `n` bytes (FIPS 202).
#[verifier::external_body]
pub fn shake128(data: &Vec<u8>, n: usize) -> (r: Vec<u8>)
    ensures
        r@ == shake128_of(data@, n as int),
        r@.len() == n,
{
    let mut h = sha3::Shake128::default();
    h.update(data.as_slice());
    let mut reader = h.finalize_xof();
    let mut out = vec![0u8; n];
    reader.read(&mut out);
    out
}

} // verus!
