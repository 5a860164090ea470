//! Deterministic pseudo-random byte generator seeded by structured data.
//!
//! A [`HashRng`] expands a caller-supplied structured [`Seed`] into an
//! unbounded stream of bytes. Block `i` of the stream is the digest of an
//! unambiguous, domain-separated encoding of the pair `(i, seed)`; byte
//! requests of any size are served by slicing successive blocks. The whole
//! stream is a pure function of the seed and the chosen hash function, so
//! equal seeds always yield equal streams, however the requests are chunked.

mod encode;
mod hashes;
mod rng;
mod seed;

pub mod builder;

pub use encode::{
    encode, encoding, field_bounded, fields_bounded, lemma_counter_encoding_injective,
    lemma_encoding_injective, lemma_encoding_tagged, seed_bounded,
};
pub use hashes::{sha256_digest, sha512_digest, BlockDigest, Sha256, Sha512};
pub use rng::{counter_modulus, FillError, HashRng};
pub use seed::{FieldModel, Seed, SeedField};
