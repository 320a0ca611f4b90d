//! The Keccak-256 digest of a signature string, taken on trust from the
//! `sha3` crate.

use vstd::prelude::*;
use sha3::{Digest, Keccak256};

verus! {

/// How many bytes a Keccak-256 digest holds.
pub const DIGEST_BYTES: usize = 32;

/// The Keccak-256 digest of the UTF-8 bytes of a string, a function of the
/// characters alone.
pub uninterp spec fn keccak256_of(s: Seq<char>) -> Seq<u8>;

/// Relies on `sha3::Keccak256::digest`: the fixed-size 32-byte Keccak-256
/// digest of the string's UTF-8 bytes, a function of its characters alone.
#[verifier::external_body]
pub(crate) fn keccak256(s: &str) -> (r: Vec<u8>)
    ensures
        r@ == keccak256_of(s@),
        r@.len() == DIGEST_BYTES,
{
    Keccak256::digest(s.as_bytes()).to_vec()
}

} // verus!
