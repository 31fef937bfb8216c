//! The prover: the response to a challenge, key generation, and the signed
//! transaction.

use vstd::prelude::*;
use crate::challenge::BulletproofChallenge;
use crate::confidential_tx::{
    ConfidentialTransaction,
    Envelope,
    create_confidential_tx_with,
    proof_valid,
    transaction_spec,
};
use crate::envelope::{json_bytes, json_spec};
use crate::error::ProtocolError;
use crate::group::{Point, Scalar, base_product, encodings, is_point_encoding, is_scalar};
use crate::inner_product::{aggregate_spec, compute_inner_product_commitment};
use crate::signature::{
    message_digest,
    schnorr_signature,
    sign_message,
    signature_valid,
    xonly_of_secret,
};
use vstd::slice::slice_to_vec;

verus! {

/// The prover's response: one point.
#[derive(Clone, Copy, Debug, PartialEq, Eq)]
pub struct BulletproofResponse {
    pub response_commitment: Point,
}

/// A transaction together with the sender's signature over its JSON form.
#[derive(Clone, Debug, PartialEq, Eq)]
pub struct SignedTransaction {
    pub tx: ConfidentialTransaction,
    /// The Schnorr signature, 64 bytes.
    pub signature: Vec<u8>,
}

/// What a signed transaction holds.
pub struct SignedEnvelope {
    pub envelope: Envelope,
    pub signature: Seq<u8>,
}

impl View for SignedTransaction {
    type V = SignedEnvelope;

    open spec fn view(&self) -> SignedEnvelope {
        SignedEnvelope { envelope: self.tx@, signature: self.signature@ }
    }
}

/// Whether a signed envelope is accepted: its proof check passes and the signature over
/// its JSON form is valid under the sender's key.
pub open spec fn accepts(s: SignedEnvelope) -> bool {
    proof_valid(s.envelope) && signature_valid(
        s.envelope.sender,
        json_spec(s.envelope),
        s.signature,
    )
}

/// The signed envelope that a sender makes from its inputs and its two draws of
/// randomness.
pub open spec fn prove_spec(
    sender_secret: Seq<u8>,
    receiver: Seq<u8>,
    amount: u64,
    blinding: Seq<u8>,
    aux: Seq<u8>,
) -> Result<SignedEnvelope, ProtocolError> {
    match transaction_spec(sender_secret, receiver, amount, blinding) {
        Err(e) => Err(e),
        Ok(envelope) => match schnorr_signature(
            sender_secret,
            message_digest(json_spec(envelope)),
            aux,
        ) {
            Some(signature) => Ok(SignedEnvelope { envelope, signature }),
            None => Err(ProtocolError::SignFailure),
        },
    }
}

/// The response to a challenge over the commitments: their sum. The challenge binds the
/// transcript and does not enter the sum.
pub fn respond_to_challenge(bit_commitments: &[Point], challenge: &BulletproofChallenge) -> (r:
    Result<BulletproofResponse, ProtocolError>)
    ensures
        match r {
            Ok(response) => aggregate_spec(encodings(bit_commitments@)) == Ok::<
                Seq<u8>,
                ProtocolError,
            >(response.response_commitment@),
            Err(e) => aggregate_spec(encodings(bit_commitments@)) == Err::<Seq<u8>, ProtocolError>(
                e,
            ),
        },
{
    match compute_inner_product_commitment(bit_commitments) {
        Ok(response_commitment) => Ok(BulletproofResponse { response_commitment }),
        Err(e) => Err(e),
    }
}

/// A fresh secret key and the public key that belongs to it.
pub fn generate_keypair() -> (r: Result<(Scalar, Point), ProtocolError>)
    ensures
        match r {
            Ok(pair) => is_scalar(pair.0@) && pair.1@ == base_product(pair.0@)
                && is_point_encoding(pair.1@),
            Err(e) => e == ProtocolError::RngFailure,
        },
{
    match Scalar::random() {
        Ok(sk) => {
            let pk = Point::from_secret(&sk);
            Ok((sk, pk))
        },
        Err(e) => Err(e),
    }
}

/// Signs a transaction under `sender_sk` with the auxiliary randomness `aux`. The
/// signature is over the JSON form of the transaction.
pub fn sign_transaction(tx: ConfidentialTransaction, sender_sk: &Scalar, aux: &[u8; 32]) -> (r:
    Result<SignedTransaction, ProtocolError>)
    ensures
        match r {
            Ok(signed) => signed@.envelope == tx@ && schnorr_signature(
                sender_sk@,
                message_digest(json_spec(tx@)),
                aux@,
            ) == Some(signed@.signature) && signature_valid(
                xonly_of_secret(sender_sk@),
                json_spec(tx@),
                signed@.signature,
            ),
            Err(e) => e == ProtocolError::SignFailure && schnorr_signature(
                sender_sk@,
                message_digest(json_spec(tx@)),
                aux@,
            ) is None,
        },
{
    let message = json_bytes(&tx);
    match sign_message(sender_sk, message.as_slice(), aux) {
        Ok(signature) => Ok(
            SignedTransaction { tx, signature: slice_to_vec(signature.as_slice()) },
        ),
        Err(e) => Err(e),
    }
}

/// Makes and signs the transaction of `amount` from the holder of `sender_sk` to
/// `receiver_pk`, from a given blinding and given auxiliary randomness. What it makes
/// is accepted.
pub fn prove_with(
    sender_sk: &Scalar,
    receiver_pk: &Point,
    amount: u64,
    blinding: &Scalar,
    aux: &[u8; 32],
) -> (r: Result<SignedTransaction, ProtocolError>)
    ensures
        match r {
            Ok(signed) => prove_spec(sender_sk@, receiver_pk@, amount, blinding@, aux@) == Ok::<
                SignedEnvelope,
                ProtocolError,
            >(signed@) && accepts(signed@),
            Err(e) => prove_spec(sender_sk@, receiver_pk@, amount, blinding@, aux@) == Err::<
                SignedEnvelope,
                ProtocolError,
            >(e),
        },
{
    match create_confidential_tx_with(sender_sk, receiver_pk, amount, blinding) {
        Ok(tx) => sign_transaction(tx, sender_sk, aux),
        Err(e) => Err(e),
    }
}

/// Makes and signs the transaction of `amount` from the holder of `sender_sk` to
/// `receiver_pk`, with randomness that is drawn afresh. The outcome is the one that
/// some blinding and some auxiliary randomness give for these inputs, unless the
/// drawing itself fails. What is made is accepted.
pub fn prove(sender_sk: &Scalar, receiver_pk: &Point, amount: u64) -> (r: Result<
    SignedTransaction,
    ProtocolError,
>)
    ensures
        match r {
            Ok(signed) => accepts(signed@) && exists|b: Seq<u8>, aux: Seq<u8>|
                is_scalar(b) && aux.len() == 32 && #[trigger] prove_spec(
                    sender_sk@,
                    receiver_pk@,
                    amount,
                    b,
                    aux,
                ) == Ok::<SignedEnvelope, ProtocolError>(signed@),
            Err(e) => e == ProtocolError::RngFailure || exists|b: Seq<u8>, aux: Seq<u8>|
                is_scalar(b) && aux.len() == 32 && #[trigger] prove_spec(
                    sender_sk@,
                    receiver_pk@,
                    amount,
                    b,
                    aux,
                ) == Err::<SignedEnvelope, ProtocolError>(e),
        },
{
    let blinding = match Scalar::random() {
        Ok(b) => b,
        Err(e) => {
            return Err(e);
        },
    };
    let aux = match Scalar::random() {
        Ok(a) => a,
        Err(e) => {
            return Err(e);
        },
    };
    prove_with(sender_sk, receiver_pk, amount, &blinding, aux.as_bytes())
}

} // verus!
