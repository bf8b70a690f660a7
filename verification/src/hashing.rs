//! Content addressing: every persisted entity's id is derived from its
//! identifying bytes, by SHA-256 and a base-58 rendering of the digest.
//!
//! The two outside computations are named, not restated: `sha256_of` and
//! `base58_of` stand for what the `sha2` and `bs58` crates return, and
//! the library's contracts are exact in terms of those names.

use sha2::Digest;
use vstd::prelude::*;

verus! {

use crate::bytes::{spec_hex, hex_bytes};

pub uninterp spec fn sha256_of(data: Seq<u8>) -> Seq<u8>;

pub uninterp spec fn base58_of(data: Seq<u8>) -> Seq<u8>;

/// Relies on sha2's `Sha256::digest`: the digest depends on the input
/// bytes alone and is 32 bytes long.
#[verifier::external_body]
fn sha256(data: &[u8]) -> (r: Vec<u8>)
    ensures
        r@ == sha256_of(data@),
        r@.len() == 32,
{
    sha2::Sha256::digest(data).to_vec()
}

/// Relies on bs58's `encode` with its default (Bitcoin) alphabet: the
/// encoding depends on the input bytes alone, and an empty input gives
/// an empty encoding.
#[verifier::external_body]
fn base58(data: &[u8]) -> (r: Vec<u8>)
    ensures
        r@ == base58_of(data@),
        data@.len() == 0 ==> r@.len() == 0,
{
    bs58::encode(data).into_vec()
}

/// A content id: the base-58 rendering of the SHA-256 digest.
pub open spec fn spec_content_id(data: Seq<u8>) -> Seq<u8> {
    base58_of(sha256_of(data))
}

pub fn content_id(data: &[u8]) -> (r: Vec<u8>)
    ensures
        r@ == spec_content_id(data@),
{
    let digest = sha256(data);
    base58(digest.as_slice())
}

/// A credential string: the base-58 rendering of the lower-case
/// hexadecimal digits of the SHA-256 digest.
pub open spec fn spec_credential(data: Seq<u8>) -> Seq<u8> {
    base58_of(spec_hex(sha256_of(data)))
}

pub fn credential(data: &[u8]) -> (r: Vec<u8>)
    ensures
        r@ == spec_credential(data@),
{
    let digest = sha256(data);
    let hex = hex_bytes(digest.as_slice());
    base58(hex.as_slice())
}

} // verus!
