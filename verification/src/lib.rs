//! The Elligator2 map from 32-byte representatives to Montgomery
//! u-coordinates on curve25519, with its contract stated over the integers
//! modulo 2^255 - 19.

pub mod curve;
pub mod field;
pub mod map;
pub mod point;

pub use map::{elligator2_curve25519_u, MapError};
