//! Keyed primitives and curve operations, taken from the `bitcoin` crate.
//!
//! Nothing in this module is proved. Each function turns its byte strings into
//! the keys that `bitcoin::secp256k1` works on, where there are any, makes one
//! computation of `bitcoin::hashes` or `bitcoin::secp256k1`, and hands the
//! result back as bytes. Its contract only gives the result a name, so that
//! the rest of the library can speak of it. The results depend on the
//! arguments alone.

use bitcoin::hashes::sha256;
use bitcoin::hashes::{HashEngine, Hmac, HmacEngine};
use bitcoin::secp256k1::ecdh::SharedSecret;
use bitcoin::secp256k1::{PublicKey, Scalar, Secp256k1, SecretKey};
use vstd::prelude::*;

verus! {

/// The SHA-256 digest of `data`.
pub uninterp spec fn sha256_of(data: Seq<u8>) -> [u8; 32];

/// The HMAC-SHA256 tag of `data` under `key`.
pub uninterp spec fn hmac_sha256_of(key: Seq<u8>, data: Seq<u8>) -> [u8; 32];

/// The compressed public key that belongs to the secret key `secret`, if
/// `secret` is a valid secp256k1 secret key.
pub uninterp spec fn public_key_of(secret: Seq<u8>) -> Option<[u8; 33]>;

/// The Diffie-Hellman secret of `secret` and `point` as libsecp256k1 hashes
/// it, if both keys are valid.
pub uninterp spec fn ecdh_of(secret: Seq<u8>, point: Seq<u8>) -> Option<[u8; 32]>;

/// The public key `point` multiplied by the scalar `tweak`, if both are valid
/// and the product is a valid key.
pub uninterp spec fn point_mul_of(point: Seq<u8>, tweak: Seq<u8>) -> Option<[u8; 33]>;

/// The secret key `secret` multiplied by the scalar `tweak` modulo the curve
/// order, if both are valid and the product is a valid key.
pub uninterp spec fn scalar_mul_of(secret: Seq<u8>, tweak: Seq<u8>) -> Option<[u8; 32]>;

/// Calls `bitcoin::hashes::sha256::Hash::hash`. The digest is a function of
/// the input alone; the contract names it and claims nothing else.
#[verifier::external_body]
pub(crate) fn sha256(data: &[u8]) -> (digest: [u8; 32])
    ensures
        digest == sha256_of(data@),
{
    bitcoin::hashes::Hash::into_inner(<sha256::Hash as bitcoin::hashes::Hash>::hash(data))
}

/// Feeds `data` to a `bitcoin::hashes::HmacEngine<sha256::Hash>` keyed with
/// `key` and finishes it with `Hmac::from_engine`. The tag is a function of
/// key and data alone; the contract names it and claims nothing else.
#[verifier::external_body]
pub(crate) fn hmac_sha256(key: &[u8], data: &[u8]) -> (tag: [u8; 32])
    ensures
        tag == hmac_sha256_of(key@, data@),
{
    let mut engine = HmacEngine::<sha256::Hash>::new(key);
    engine.input(data);
    bitcoin::hashes::Hash::into_inner(<Hmac<sha256::Hash> as bitcoin::hashes::Hash>::from_engine(engine))
}

/// Parses `secret` with `SecretKey::from_slice` and derives its public key
/// with `PublicKey::from_secret_key`, serialized in compressed form. `None`
/// when the secret key is rejected.
#[verifier::external_body]
pub(crate) fn public_key_from_secret(secret: &[u8; 32]) -> (key: Option<[u8; 33]>)
    ensures
        key == public_key_of(secret@),
{
    let sk = SecretKey::from_slice(secret).ok()?;
    Some(PublicKey::from_secret_key(&Secp256k1::signing_only(), &sk).serialize())
}

/// Parses both keys and calls `secp256k1::ecdh::SharedSecret::new`. `None`
/// when either key is rejected.
#[verifier::external_body]
pub(crate) fn shared_secret(secret: &[u8; 32], point: &[u8; 33]) -> (shared: Option<[u8; 32]>)
    ensures
        shared == ecdh_of(secret@, point@),
{
    let sk = SecretKey::from_slice(secret).ok()?;
    let pk = PublicKey::from_slice(point).ok()?;
    Some(SharedSecret::new(&pk, &sk).secret_bytes())
}

/// Parses `point` and `tweak` and calls `PublicKey::mul_tweak`. `None` when
/// an input is rejected or the product is not a valid key.
#[verifier::external_body]
pub(crate) fn public_key_mul_tweak(point: &[u8; 33], tweak: &[u8; 32]) -> (key: Option<[u8; 33]>)
    ensures
        key == point_mul_of(point@, tweak@),
{
    let pk = PublicKey::from_slice(point).ok()?;
    let scalar = Scalar::from_be_bytes(*tweak).ok()?;
    Some(pk.mul_tweak(&Secp256k1::verification_only(), &scalar).ok()?.serialize())
}

/// Parses `secret` and `tweak` and calls `SecretKey::mul_tweak`. `None` when
/// an input is rejected or the product is not a valid key.
#[verifier::external_body]
pub(crate) fn secret_key_mul_tweak(secret: &[u8; 32], tweak: &[u8; 32]) -> (key: Option<[u8; 32]>)
    ensures
        key == scalar_mul_of(secret@, tweak@),
{
    let sk = SecretKey::from_slice(secret).ok()?;
    let scalar = Scalar::from_be_bytes(*tweak).ok()?;
    Some(sk.mul_tweak(&scalar).ok()?.secret_bytes())
}

} // verus!
