//! Schnorr signatures over a message digest, as the `secp256k1` crate makes and
//! checks them.

use vstd::prelude::*;
use crate::bytes::{to_array_32, to_array_64};
use crate::error::ProtocolError;
use crate::group::{Scalar, is_scalar};

verus! {

/// The 32-byte digest that `secp256k1::Message::from_hashed_data` makes of `data` with
/// SHA-256.
pub uninterp spec fn message_digest(data: Seq<u8>) -> Seq<u8>;

/// Whether `secp256k1::XOnlyPublicKey::from_slice` accepts `bytes` as an x-only key.
pub uninterp spec fn is_xonly_encoding(bytes: Seq<u8>) -> bool;

/// The x-only public key of the secret `k`, as `secp256k1::Keypair::x_only_public_key`
/// gives it.
pub uninterp spec fn xonly_of_secret(k: Seq<u8>) -> Seq<u8>;

/// The signature that `secp256k1::Secp256k1::sign_schnorr_with_aux_rand` makes of a
/// digest under the secret `k` with the auxiliary randomness `aux`; `None` where no
/// signature comes back.
pub uninterp spec fn schnorr_signature(k: Seq<u8>, digest: Seq<u8>, aux: Seq<u8>) -> Option<
    Seq<u8>,
>;

/// Whether `secp256k1::Secp256k1::verify_schnorr` accepts the signature of the digest
/// under the x-only key.
pub uninterp spec fn schnorr_accepts(signature: Seq<u8>, digest: Seq<u8>, key: Seq<u8>) -> bool;

/// `secp256k1::Message::from_hashed_data` with SHA-256: the digest of `data` that is
/// signed.
#[verifier::external_body]
fn digest_message(data: &[u8]) -> (digest: [u8; 32])
    ensures
        digest@ == message_digest(data@),
{
    let message = secp256k1::Message::from_hashed_data::<secp256k1::hashes::sha256::Hash>(data);
    *message.as_ref()
}

/// `secp256k1::XOnlyPublicKey::from_slice`, asked whether it accepts 32 bytes.
#[verifier::external_body]
fn ec_xonly_valid(bytes: &[u8; 32]) -> (ok: bool)
    ensures
        ok == is_xonly_encoding(bytes@),
{
    secp256k1::XOnlyPublicKey::from_slice(bytes).is_ok()
}

/// `secp256k1::Keypair::x_only_public_key` for the key pair of a scalar. The key that
/// comes back is one that `XOnlyPublicKey::from_slice` accepts.
#[verifier::external_body]
fn ec_xonly_from_secret(k: &[u8; 32]) -> (r: Option<[u8; 32]>)
    requires
        is_scalar(k@),
    ensures
        r is Some,
        r matches Some(x) ==> x@ == xonly_of_secret(k@) && is_xonly_encoding(x@),
{
    let secp = secp256k1::Secp256k1::signing_only();
    let pair = secp256k1::Keypair::from_seckey_slice(&secp, k).ok()?;
    Some(pair.x_only_public_key().0.serialize())
}

/// `secp256k1::Secp256k1::sign_schnorr_with_aux_rand` on a digest. What comes back is
/// what is named above. A signature that comes back is one that `verify_schnorr`
/// accepts for the same digest under the signer's x-only key: that a signature made
/// with a key verifies under it is what the scheme is for, and is taken on trust here.
/// The call aborts only where the nonce that is derived from the three inputs is zero
/// modulo the group order.
#[verifier::external_body]
fn schnorr_sign(k: &[u8; 32], digest: &[u8; 32], aux: &[u8; 32]) -> (r: Option<[u8; 64]>)
    requires
        is_scalar(k@),
    ensures
        match r {
            Some(s) => schnorr_signature(k@, digest@, aux@) == Some(s@) && schnorr_accepts(
                s@,
                digest@,
                xonly_of_secret(k@),
            ),
            None => schnorr_signature(k@, digest@, aux@) is None,
        },
{
    let secp = secp256k1::Secp256k1::signing_only();
    let pair = secp256k1::Keypair::from_seckey_slice(&secp, k).ok()?;
    let message = secp256k1::Message::from_digest(*digest);
    Some(secp.sign_schnorr_with_aux_rand(&message, &pair, aux).serialize())
}

/// `secp256k1::Secp256k1::verify_schnorr` on a signature, a digest and an x-only key.
#[verifier::external_body]
fn schnorr_verify(signature: &[u8; 64], digest: &[u8; 32], key: &[u8; 32]) -> (ok: bool)
    requires
        is_xonly_encoding(key@),
    ensures
        ok == schnorr_accepts(signature@, digest@, key@),
{
    let secp = secp256k1::Secp256k1::verification_only();
    let message = secp256k1::Message::from_digest(*digest);
    match (
        secp256k1::schnorr::Signature::from_slice(signature),
        secp256k1::XOnlyPublicKey::from_slice(key),
    ) {
        (Ok(s), Ok(k)) => secp.verify_schnorr(&s, &message, &k).is_ok(),
        _ => false,
    }
}

/// Whether `signature` is a valid signature of `message` under the x-only key `key`:
/// the key and the signature have their lengths, the key decodes, and the signature of
/// the message's digest is accepted.
pub open spec fn signature_valid(key: Seq<u8>, message: Seq<u8>, signature: Seq<u8>) -> bool {
    &&& key.len() == 32
    &&& signature.len() == 64
    &&& is_xonly_encoding(key)
    &&& schnorr_accepts(signature, message_digest(message), key)
}

/// Whether 32 bytes are an x-only public key.
pub fn is_x_only_key(bytes: &[u8]) -> (ok: bool)
    ensures
        ok == (bytes@.len() == 32 && is_xonly_encoding(bytes@)),
{
    match to_array_32(bytes) {
        Some(raw) => ec_xonly_valid(&raw),
        None => false,
    }
}

/// The x-only public key that belongs to a secret key.
pub fn x_only_public_key(secret: &Scalar) -> (key: [u8; 32])
    ensures
        key@ == xonly_of_secret(secret@),
        is_xonly_encoding(key@),
{
    match ec_xonly_from_secret(secret.as_bytes()) {
        Some(key) => key,
        None => {
            proof {
                assert(false);
            }
            [0u8; 32]
        },
    }
}

/// Signs `message` under `secret`: the message is hashed, and the digest is signed
/// with the auxiliary randomness `aux`. A signature that is made is valid under the
/// signer's key.
pub fn sign_message(secret: &Scalar, message: &[u8], aux: &[u8; 32]) -> (r: Result<
    [u8; 64],
    ProtocolError,
>)
    ensures
        match r {
            Ok(signature) => schnorr_signature(secret@, message_digest(message@), aux@) == Some(
                signature@,
            ) && signature_valid(xonly_of_secret(secret@), message@, signature@),
            Err(e) => e == ProtocolError::SignFailure && schnorr_signature(
                secret@,
                message_digest(message@),
                aux@,
            ) is None,
        },
{
    let digest = digest_message(message);
    // Deriving the signer's key shows that it is one that decodes.
    let _ = x_only_public_key(secret);
    match schnorr_sign(secret.as_bytes(), &digest, aux) {
        Some(signature) => Ok(signature),
        None => Err(ProtocolError::SignFailure),
    }
}

/// Checks a signature of `message` under the x-only key `key`.
pub fn verify_message(key: &[u8], message: &[u8], signature: &[u8]) -> (ok: bool)
    ensures
        ok == signature_valid(key@, message@, signature@),
{
    let raw_key = match to_array_32(key) {
        Some(raw) => raw,
        None => {
            return false;
        },
    };
    let raw_signature = match to_array_64(signature) {
        Some(raw) => raw,
        None => {
            return false;
        },
    };
    if !ec_xonly_valid(&raw_key) {
        return false;
    }
    let digest = digest_message(message);
    schnorr_verify(&raw_signature, &digest, &raw_key)
}

} // verus!
