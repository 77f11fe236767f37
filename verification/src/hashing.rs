//! The hash functions of the protocol, computed by the `bitcoin_hashes` crate.
use vstd::prelude::*;

verus! {

/// SHA-256 applied twice, as `bitcoin_hashes::sha256d` computes it.
pub uninterp spec fn double_sha256(data: Seq<u8>) -> Seq<u8>;

/// RIPEMD-160 of SHA-256, as `bitcoin_hashes::hash160` computes it.
pub uninterp spec fn hash160_of(data: Seq<u8>) -> Seq<u8>;

/// Calls `bitcoin_hashes::sha256d::Hash::hash` and returns the 32 bytes of the
/// digest. Trusted: the contract only names the result; it is a function of
/// the input bytes alone.
#[verifier::external_body]
pub(crate) fn sha256d_hash(data: &[u8]) -> (r: [u8; 32])
    ensures
        r@ == double_sha256(data@),
{
    let digest = <bitcoin_hashes::sha256d::Hash as bitcoin_hashes::Hash>::hash(data);
    <bitcoin_hashes::sha256d::Hash as bitcoin_hashes::Hash>::to_byte_array(digest)
}

/// Calls `bitcoin_hashes::hash160::Hash::hash` and returns the 20 bytes of the
/// digest. Trusted: the contract only names the result; it is a function of
/// the input bytes alone.
#[verifier::external_body]
pub(crate) fn hash160_hash(data: &[u8]) -> (r: [u8; 20])
    ensures
        r@ == hash160_of(data@),
{
    let digest = <bitcoin_hashes::hash160::Hash as bitcoin_hashes::Hash>::hash(data);
    <bitcoin_hashes::hash160::Hash as bitcoin_hashes::Hash>::to_byte_array(digest)
}

} // verus!
