//! Deterministic derivation of class-group discriminants.
//!
//! A discriminant here is a large negative prime whose magnitude is
//! congruent to 7 modulo 8, derived reproducibly from a caller-supplied
//! seed and bit length.  The derivation expands the seed through a
//! cryptographic digest, builds a candidate of the requested bit length
//! in a fixed residue class, and searches for the first probable prime
//! along that residue class, skipping candidates that a small-prime
//! sieve rules out.

pub mod model;
pub mod bignum;
pub mod digest;
pub mod expand;
pub mod tables;
pub mod primality;
pub mod sieve;
pub mod discriminant;
pub mod laws;

pub use digest::DigestKind;
pub use discriminant::create_discriminant;
pub use expand::random_bytes_from_seed;
pub use primality::is_probable_prime;
