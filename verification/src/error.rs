//! The ways in which decoding can fail.

use vstd::prelude::*;

verus! {

/// Why a value could not be decoded.
#[derive(Clone, Copy, Debug, PartialEq, Eq, Hash, Structural)]
pub enum EncryptionError {
    /// An x-coordinate that belongs to no point of the prime-order subgroup,
    /// whichever sign its y-coordinate is given.
    InvalidEncoding,
    /// The bits in front of the terminator do not make up whole bytes.
    InvalidMessageLength,
    /// No terminator: every data bit of every element is clear.
    MalformedCiphertext,
}

} // verus!
