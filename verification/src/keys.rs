//! Keys and signatures of the secp256k1 curve, and Base58, computed by the
//! `secp256k1` and `bs58` crates. Keys are held as bytes: a secret key as
//! its 32 bytes, a public key as its 33-byte compressed encoding.
use vstd::prelude::*;

verus! {

/// The compressed public key of the secret key `secret`, or `None` when the
/// bytes are not a valid secret key.
pub uninterp spec fn secp256k1_public_key(secret: Seq<u8>) -> Option<Seq<u8>>;

/// The DER encoding of the ECDSA signature (RFC 6979 nonce) that `secret`
/// makes of the double SHA-256 of `data`, or `None` when the bytes are not a
/// valid secret key.
pub uninterp spec fn ecdsa_der_signature(secret: Seq<u8>, data: Seq<u8>) -> Option<Seq<u8>>;

/// The compressed encoding of the public key that `bytes` encode
/// (compressed or not), or `None` when they encode none.
pub uninterp spec fn public_key_parse(bytes: Seq<u8>) -> Option<Seq<u8>>;

/// The bytes that the Base58 text `text` (Bitcoin alphabet) stands for, or
/// `None` when it is not Base58.
pub uninterp spec fn base58_decoded(text: Seq<u8>) -> Option<Seq<u8>>;

/// Calls `secp256k1::SecretKey::from_slice` on `secret`, then
/// `PublicKey::from_secret_key_global` and `serialize`. Trusted: the
/// contract names the result and states the length of a compressed key.
#[verifier::external_body]
pub(crate) fn public_key_of_secret(secret: &[u8]) -> (r: Option<[u8; 33]>)
    ensures
        match r {
            Some(k) => secp256k1_public_key(secret@) == Some(k@),
            None => secp256k1_public_key(secret@) is None,
        },
{
    match secp256k1::SecretKey::from_slice(secret) {
        Ok(key) => Some(secp256k1::PublicKey::from_secret_key_global(&key).serialize()),
        Err(_) => None,
    }
}

/// Calls `secp256k1::SecretKey::from_slice` on `secret`, then
/// `Message::from_hashed_data::<sha256d::Hash>` on `data`, `sign_ecdsa` and
/// `serialize_der`. Trusted: the contract names the result, which depends on
/// the key and the data alone (the nonce is derived by RFC 6979).
#[verifier::external_body]
pub(crate) fn sign_der(secret: &[u8; 32], data: &[u8]) -> (r: Option<Vec<u8>>)
    ensures
        match r {
            Some(s) => ecdsa_der_signature(secret@, data@) == Some(s@),
            None => ecdsa_der_signature(secret@, data@) is None,
        },
{
    let message = secp256k1::Message::from_hashed_data::<bitcoin_hashes::sha256d::Hash>(data);
    match secp256k1::SecretKey::from_slice(secret) {
        Ok(key) => Some(key.sign_ecdsa(message).serialize_der().to_vec()),
        Err(_) => None,
    }
}

/// Calls `secp256k1::PublicKey::from_slice` on `bytes`, then `serialize`.
/// Trusted: the contract names the result.
#[verifier::external_body]
pub(crate) fn parse_public_key(bytes: &[u8]) -> (r: Option<[u8; 33]>)
    ensures
        match r {
            Some(k) => public_key_parse(bytes@) == Some(k@),
            None => public_key_parse(bytes@) is None,
        },
{
    match secp256k1::PublicKey::from_slice(bytes) {
        Ok(key) => Some(key.serialize()),
        Err(_) => None,
    }
}

/// Calls `bs58::decode(text).into_vec()`. Trusted: the contract names the
/// result.
#[verifier::external_body]
pub(crate) fn decode_base58(text: &[u8]) -> (r: Option<Vec<u8>>)
    ensures
        match r {
            Some(b) => base58_decoded(text@) == Some(b@),
            None => base58_decoded(text@) is None,
        },
{
    match bs58::decode(text).into_vec() {
        Ok(bytes) => Some(bytes),
        Err(_) => None,
    }
}

} // verus!
