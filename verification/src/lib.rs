//! Hybrid encryption over the Edwards-BLS12 curve.
//!
//! An ECDH-style exchange gives sender and recipient one symmetric key; a
//! sponge turns that key into a commitment and into a keystream; byte strings
//! are packed into field elements, which the keystream masks by addition in
//! the field.
//!
//! - [`bits`]: bit strings and the numbers they spell
//! - [`field`]: elements of the base field and of the scalar field
//! - [`curve`]: points of the curve and their one-coordinate codec
//! - [`public_key`]: public keys as bytes
//! - [`message`]: byte strings as field elements
//! - [`cipher`]: adding and subtracting a keystream
//! - [`scheme`]: the scheme itself
//! - [`error`]: why decoding can fail

pub mod bits;
pub mod cipher;
pub mod curve;
pub mod error;
pub mod field;
pub mod message;
pub mod public_key;
pub mod scheme;

pub use crate::public_key::ECIESPoseidonPublicKey;
pub use crate::scheme::ECIESPoseidonEncryption;
