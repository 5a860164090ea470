//! The hash-function capability a generator is instantiated with.
//!
//! A [`BlockDigest`] is a stateless, deterministic, fixed-output-size hash
//! function: its whole observable behaviour is a function from the input
//! bytes to the output bytes. The output of each concrete function is known
//! to the specifications only by name ([`sha256_digest`], [`sha512_digest`]);
//! the trusted wrappers below tie each name to the real implementation.

use vstd::prelude::*;

verus! {

/// The bytes that SHA-256 returns for a given message. Known only by name:
/// the wrapper around `sha2::Sha256` returns exactly this value.
pub uninterp spec fn sha256_digest(m: Seq<u8>) -> Seq<u8>;

/// The bytes that SHA-512 returns for a given message. Known only by name:
/// the wrapper around `sha2::Sha512` returns exactly this value.
pub uninterp spec fn sha512_digest(m: Seq<u8>) -> Seq<u8>;

/// Relies on `sha2::Sha256` through `digest::Digest::digest`: the digest is
/// a function of the input bytes alone, and is always 32 bytes long.
#[verifier::external_body]
fn sha256_digest_exec(m: &Vec<u8>) -> (r: Vec<u8>)
    ensures
        r@ == sha256_digest(m@),
        r@.len() == 32,
{
    let d = <sha2::Sha256 as digest::Digest>::digest(m.as_slice());
    d.to_vec()
}

/// Relies on `sha2::Sha512` through `digest::Digest::digest`: the digest is
/// a function of the input bytes alone, and is always 64 bytes long.
#[verifier::external_body]
fn sha512_digest_exec(m: &Vec<u8>) -> (r: Vec<u8>)
    ensures
        r@ == sha512_digest(m@),
        r@.len() == 64,
{
    let d = <sha2::Sha512 as digest::Digest>::digest(m.as_slice());
    d.to_vec()
}

/// A deterministic hash function with a fixed, positive output size.
///
/// A generator is instantiated with an implementation of this trait; the
/// choice is fixed for the generator's lifetime. `digest_spec` names the
/// function's value on every message, and `digest` computes it.
pub trait BlockDigest: Sized {
    /// The output size in bytes.
    spec fn out_len() -> nat;

    /// The digest of `m`, as a mathematical function.
    spec fn digest_spec(m: Seq<u8>) -> Seq<u8>;

    /// The output size is positive: a block always yields at least one byte.
    proof fn out_len_positive()
        ensures
            0 < Self::out_len(),
    ;

    /// Computes the digest of `m`.
    fn digest(m: &Vec<u8>) -> (r: Vec<u8>)
        ensures
            r@ == Self::digest_spec(m@),
            r@.len() == Self::out_len(),
    ;
}

/// The SHA-256 hash function (32-byte output).
pub struct Sha256;

impl BlockDigest for Sha256 {
    open spec fn out_len() -> nat {
        32
    }

    open spec fn digest_spec(m: Seq<u8>) -> Seq<u8> {
        sha256_digest(m)
    }

    proof fn out_len_positive() {
    }

    fn digest(m: &Vec<u8>) -> (r: Vec<u8>) {
        sha256_digest_exec(m)
    }
}

/// The SHA-512 hash function (64-byte output).
pub struct Sha512;

impl BlockDigest for Sha512 {
    open spec fn out_len() -> nat {
        64
    }

    open spec fn digest_spec(m: Seq<u8>) -> Seq<u8> {
        sha512_digest(m)
    }

    proof fn out_len_positive() {
    }

    fn digest(m: &Vec<u8>) -> (r: Vec<u8>) {
        sha512_digest_exec(m)
    }
}

} // verus!
