//! Points of an elliptic curve group `y^2 = x^3 + b` over the quadratic extension
//! `F_p[i]/(i^2 + 1)`, with the group law in Jacobian coordinates and two wire
//! encodings, binary and text. The base field is fixed: `p` is the 32-bit prime
//! `fp2::MODULUS` (2^32 - 5), small enough that a product of two residues fits
//! in a `u64`. It makes a sound model of the group law, not a curve of
//! cryptographic size.
pub mod big;
pub mod ecp2;
pub mod fp2;
pub mod hex;
pub mod laws;
pub mod octet;

pub use big::BIG;
pub use ecp2::ECP2;
pub use fp2::FP2;
pub use hex::Tokens;
pub use octet::Octet;
