use vstd::prelude::*;

verus! {

/// Every failure the library reports.  `HashLenError` carries the expected
/// and the actual digest length.
#[derive(Clone, Copy, Debug, PartialEq, Eq, Structural)]
pub enum Error {
    SerializationError,
    HashLenError(usize, usize),
    VerificationError,
    OutputReconstructionError,
    FiatShamirOutputsMatchingError,
    BitError,
}

} // verus!
