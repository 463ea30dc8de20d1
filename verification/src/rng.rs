use vstd::prelude::*;

verus! {

#[verifier::external_type_specification]
#[verifier::external_body]
pub struct ExStdRng(rand::rngs::StdRng);

/// Relies on rand::RngCore::fill_bytes for StdRng: it fills the buffer with
/// bytes from the generator.  Nothing is promised of the values drawn, only
/// of how many there are.
#[verifier::external_body]
pub fn random_bytes(rng: &mut rand::rngs::StdRng, n: usize) -> (r: Vec<u8>)
    ensures
        r@.len() == n,
{
    let mut buf = vec![0u8; n];
    rand::RngCore::fill_bytes(rng, &mut buf);
    buf
}

} // verus!
