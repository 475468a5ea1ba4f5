//! Public keys as they travel: a point of the curve, written down as its
//! x-coordinate alone and recovered from it on reading.

use crate::bits::bytes_value;
use crate::curve::{decoded_point, CurvePoint};
use crate::error::EncryptionError;
use crate::field::{base_read_le, base_write_le, holds_element, leading, REPR_BYTES};
use vstd::prelude::*;

verus! {

/// A public key: a point of the curve. It is written down as its x-coordinate
/// alone, in the field's canonical 32 bytes.
#[derive(Clone, Copy, Debug, PartialEq, Eq, Hash)]
pub struct ECIESPoseidonPublicKey(pub CurvePoint);

/// The point that `bytes` decode to: the first 32 bytes must encode a field
/// element, and that element must be the x-coordinate of a point of the
/// prime-order subgroup.
pub open spec fn read_point(bytes: Seq<u8>) -> Option<(nat, nat)> {
    if holds_element(bytes) {
        decoded_point(bytes_value(leading(bytes)))
    } else {
        None
    }
}

impl ECIESPoseidonPublicKey {
    /// The canonical encoding of the key's x-coordinate.
    pub fn write_le(&self) -> (bytes: Vec<u8>)
        ensures
            bytes@.len() == REPR_BYTES,
            bytes_value(bytes@) == self.0@.0,
    {
        let x = self.0.to_x_coordinate();
        proof {
            use_type_invariant(&x);
        }
        base_write_le(&x)
    }

    /// Reads an x-coordinate from the front of `bytes` and recovers the key.
    pub fn read_le(bytes: &[u8]) -> (r: Result<ECIESPoseidonPublicKey, EncryptionError>)
        ensures
            match read_point(bytes@) {
                Some(coordinates) => r matches Ok(key) && key.0@ == coordinates,
                None => r matches Err(e) && e == EncryptionError::InvalidEncoding,
            },
    {
        match base_read_le(bytes) {
            Some(x) => match CurvePoint::from_x_coordinate(x) {
                Ok(point) => Ok(ECIESPoseidonPublicKey(point)),
                Err(e) => Err(e),
            },
            None => Err(EncryptionError::InvalidEncoding),
        }
    }
}

impl Default for ECIESPoseidonPublicKey {
    /// The neutral element of the group.
    fn default() -> (r: ECIESPoseidonPublicKey)
        ensures
            r.0@ == (0nat, 1nat),
    {
        ECIESPoseidonPublicKey(CurvePoint::zero())
    }
}

} // verus!
