//! The verifier: the proof check, the signature check, and the verdict on a signed
//! transaction.

use vstd::prelude::*;
use crate::confidential_tx::{
    ConfidentialTransaction,
    commitment_has_challenge,
    has_challenge,
    is_well_formed,
    proof_valid,
    verify_confidential_tx,
    well_formed,
};
use crate::envelope::{json_bytes, json_spec};
use crate::error::ProtocolError;
use crate::group::Point;
use crate::prover::{BulletproofResponse, SignedEnvelope, SignedTransaction, accepts};
use crate::signature::{signature_valid, verify_message};

verus! {

/// What the two checks of a signed transaction found.
#[derive(Clone, Copy, Debug, PartialEq, Eq)]
pub struct Verdict {
    pub proof_valid: bool,
    pub signature_valid: bool,
}

impl Verdict {
    /// Whether both checks passed.
    pub fn accepted(&self) -> (ok: bool)
        ensures
            ok == (self.proof_valid && self.signature_valid),
    {
        self.proof_valid && self.signature_valid
    }
}

/// Whether a signed envelope cannot even be checked: a field does not decode, the
/// signature has not its length, or the transcript has no challenge.
pub open spec fn malformed(s: SignedEnvelope) -> bool {
    ||| !well_formed(s.envelope)
    ||| s.signature.len() != 64
    ||| !has_challenge(s.envelope)
}

/// The range predicate: the response must be the expected commitment, as compressed
/// encodings.
pub fn verify_bulletproof(response: &BulletproofResponse, expected_commitment: &Point) -> (ok: bool)
    ensures
        ok == (response.response_commitment@ == expected_commitment@),
{
    response.response_commitment.same_as(expected_commitment)
}

/// Checks the signature over the JSON form of a transaction under its sender's key.
pub fn verify_signature(tx: &ConfidentialTransaction, signature: &[u8]) -> (ok: bool)
    ensures
        ok == signature_valid(tx@.sender, json_spec(tx@), signature@),
{
    let message = json_bytes(tx);
    verify_message(tx.sender.as_slice(), message.as_slice(), signature)
}

/// Runs both checks on a signed transaction, each to its end.
pub fn verify_signed_tx(signed: &SignedTransaction) -> (verdict: Verdict)
    ensures
        verdict.proof_valid == proof_valid(signed@.envelope),
        verdict.signature_valid == signature_valid(
            signed@.envelope.sender,
            json_spec(signed@.envelope),
            signed@.signature,
        ),
        (verdict.proof_valid && verdict.signature_valid) == accepts(signed@),
{
    let proof_valid = verify_confidential_tx(&signed.tx);
    let signature_valid = verify_signature(&signed.tx, signed.signature.as_slice());
    Verdict { proof_valid, signature_valid }
}

/// Whether a signed transaction is accepted.
pub fn verify(signed: &SignedTransaction) -> (ok: bool)
    ensures
        ok == accepts(signed@),
{
    verify_signed_tx(signed).accepted()
}

/// Accepts a signed transaction or says why not: `MalformedEnvelope` where it cannot
/// be checked, `Invalid` where it can and a check fails.
pub fn check_signed_tx(signed: &SignedTransaction) -> (r: Result<(), ProtocolError>)
    ensures
        match r {
            Ok(_) => accepts(signed@),
            Err(e) => !accepts(signed@) && (if malformed(signed@) {
                e == ProtocolError::MalformedEnvelope
            } else {
                e == ProtocolError::Invalid
            }),
        },
{
    if signed.signature.len() != 64 || !is_well_formed(&signed.tx) || !commitment_has_challenge(
        &signed.tx,
    ) {
        return Err(ProtocolError::MalformedEnvelope);
    }
    if verify(signed) {
        Ok(())
    } else {
        Err(ProtocolError::Invalid)
    }
}

/// A signed envelope whose signature is not valid under its sender is not accepted,
/// whatever its proof check finds; where the proof check passes and the signature has
/// its length, the envelope is not malformed either, so that it is refused as invalid.
pub proof fn lemma_wrong_signature_is_invalid(s: SignedEnvelope)
    requires
        !signature_valid(s.envelope.sender, json_spec(s.envelope), s.signature),
    ensures
        !accepts(s),
        proof_valid(s.envelope) && s.signature.len() == 64 ==> !malformed(s),
{
}

} // verus!
