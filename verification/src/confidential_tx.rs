//! The transaction envelope, the transcript of its public inputs, and the making and
//! checking of a transaction.

use vstd::prelude::*;
use crate::bytes::append_bytes;
use crate::challenge::{challenge_spec, generate_challenge};
use crate::commitment::{commitment_spec, generate_commitment};
use crate::error::ProtocolError;
use crate::group::{Point, Scalar, encodings, is_point_encoding, is_scalar};
use crate::inner_product::{aggregate_spec, lemma_aggregate_single};
use crate::prover::{BulletproofResponse, respond_to_challenge};
use crate::signature::{is_x_only_key, is_xonly_encoding, x_only_public_key, xonly_of_secret};
use crate::verification::verify_bulletproof;
use vstd::slice::slice_to_vec;

verus! {

/// A transaction as it is shipped: four byte strings.
#[derive(Clone, Debug, PartialEq, Eq)]
pub struct ConfidentialTransaction {
    /// The sender's x-only public key, 32 bytes.
    pub sender: Vec<u8>,
    /// The receiver's public key, compressed, 33 bytes.
    pub receiver: Vec<u8>,
    /// The Pedersen commitment to the amount, compressed, 33 bytes.
    pub amount_commitment: Vec<u8>,
    /// The response point, compressed, 33 bytes.
    pub proof: Vec<u8>,
}

/// What a transaction holds, as four byte strings.
pub struct Envelope {
    pub sender: Seq<u8>,
    pub receiver: Seq<u8>,
    pub amount_commitment: Seq<u8>,
    pub proof: Seq<u8>,
}

impl View for ConfidentialTransaction {
    type V = Envelope;

    open spec fn view(&self) -> Envelope {
        Envelope {
            sender: self.sender@,
            receiver: self.receiver@,
            amount_commitment: self.amount_commitment@,
            proof: self.proof@,
        }
    }
}

/// The transcript of a list of points: their compressed encodings one after the other.
pub open spec fn transcript_spec(points: Seq<Seq<u8>>) -> Seq<u8>
    decreases points.len(),
{
    if points.len() == 0 {
        Seq::empty()
    } else {
        transcript_spec(points.drop_last()) + points.last()
    }
}

/// The envelope that a sender makes for a receiver, an amount and a blinding: the
/// commitment, and the response to the challenge of its transcript, which is the
/// commitment again.
pub open spec fn transaction_spec(
    sender_secret: Seq<u8>,
    receiver: Seq<u8>,
    amount: u64,
    blinding: Seq<u8>,
) -> Result<Envelope, ProtocolError> {
    match commitment_spec(amount, blinding) {
        Err(e) => Err(e),
        Ok(c) => match challenge_spec(transcript_spec(seq![c])) {
            None => Err(ProtocolError::BadScalar),
            Some(_) => match aggregate_spec(seq![c]) {
                Err(e) => Err(e),
                Ok(response) => Ok(
                    Envelope {
                        sender: xonly_of_secret(sender_secret),
                        receiver: receiver,
                        amount_commitment: c,
                        proof: response,
                    },
                ),
            },
        },
    }
}

/// Whether every field of the envelope decodes: the sender as an x-only key, the other
/// three as compressed points.
pub open spec fn well_formed(e: Envelope) -> bool {
    &&& e.sender.len() == 32 && is_xonly_encoding(e.sender)
    &&& e.receiver.len() == 33 && is_point_encoding(e.receiver)
    &&& e.amount_commitment.len() == 33 && is_point_encoding(e.amount_commitment)
    &&& e.proof.len() == 33 && is_point_encoding(e.proof)
}

/// Whether the transcript of the envelope's commitment has a challenge.
pub open spec fn has_challenge(e: Envelope) -> bool {
    challenge_spec(transcript_spec(seq![e.amount_commitment])) is Some
}

/// Whether the envelope passes the proof check: it is well formed, its transcript has a
/// challenge, and the response is the commitment.
pub open spec fn proof_valid(e: Envelope) -> bool {
    &&& well_formed(e)
    &&& has_challenge(e)
    &&& e.proof == e.amount_commitment
}

/// The compressed encoding of a point.
pub fn public_key_to_bytes(pk: &Point) -> (r: Vec<u8>)
    ensures
        r@ == pk@,
        r@.len() == 33,
        is_point_encoding(r@),
{
    let raw = pk.as_bytes();
    slice_to_vec(raw.as_slice())
}

/// The point that bytes encode.
pub fn bytes_to_public_key(bytes: &[u8]) -> (r: Result<Point, ProtocolError>)
    ensures
        match r {
            Ok(p) => bytes@.len() == 33 && is_point_encoding(bytes@) && p@ == bytes@,
            Err(e) => e == ProtocolError::BadPoint && !(bytes@.len() == 33 && is_point_encoding(
                bytes@,
            )),
        },
{
    Point::from_bytes(bytes)
}

/// The transcript of the commitments: their compressed encodings, in their order.
pub fn build_transcript(commitments: &[Point]) -> (transcript: Vec<u8>)
    ensures
        transcript@ == transcript_spec(encodings(commitments@)),
{
    let mut transcript: Vec<u8> = Vec::new();
    let ghost all = encodings(commitments@);
    let mut i: usize = 0;
    proof {
        assert(all.subrange(0, 0) =~= Seq::<Seq<u8>>::empty());
    }
    while i < commitments.len()
        invariant
            i <= commitments@.len(),
            all == encodings(commitments@),
            transcript@ == transcript_spec(all.subrange(0, i as int)),
        decreases commitments@.len() - i,
    {
        let raw = commitments[i].serialize();
        append_bytes(&mut transcript, raw.as_slice());
        proof {
            let next = all.subrange(0, i + 1);
            assert(next.drop_last() =~= all.subrange(0, i as int));
            assert(next.last() == commitments@[i as int]@);
        }
        i = i + 1;
    }
    proof {
        assert(all.subrange(0, all.len() as int) =~= all);
    }
    transcript
}

/// Makes the transaction of `amount` from the holder of `sender_sk` to `receiver_pk`,
/// with the commitment blinded by `blinding`. What it makes passes the proof check.
pub fn create_confidential_tx_with(
    sender_sk: &Scalar,
    receiver_pk: &Point,
    amount: u64,
    blinding: &Scalar,
) -> (r: Result<ConfidentialTransaction, ProtocolError>)
    ensures
        match r {
            Ok(tx) => transaction_spec(sender_sk@, receiver_pk@, amount, blinding@) == Ok::<
                Envelope,
                ProtocolError,
            >(tx@) && proof_valid(tx@),
            Err(e) => transaction_spec(sender_sk@, receiver_pk@, amount, blinding@) == Err::<
                Envelope,
                ProtocolError,
            >(e),
        },
{
    let commitment = match generate_commitment(amount, blinding) {
        Ok(c) => c,
        Err(e) => {
            return Err(e);
        },
    };
    let commitments = [commitment];
    proof {
        assert(encodings(commitments@) =~= seq![commitment@]);
    }
    let transcript = build_transcript(commitments.as_slice());
    let challenge = match generate_challenge(transcript.as_slice()) {
        Ok(c) => c,
        Err(e) => {
            return Err(e);
        },
    };
    proof {
        lemma_aggregate_single(commitment@);
    }
    let response = match respond_to_challenge(commitments.as_slice(), &challenge) {
        Ok(r) => r,
        Err(e) => {
            return Err(e);
        },
    };
    let sender = x_only_public_key(sender_sk);
    Ok(
        ConfidentialTransaction {
            sender: slice_to_vec(sender.as_slice()),
            receiver: public_key_to_bytes(receiver_pk),
            amount_commitment: public_key_to_bytes(&commitment),
            proof: public_key_to_bytes(&response.response_commitment),
        },
    )
}

/// Makes the transaction of `amount` from the holder of `sender_sk` to `receiver_pk`,
/// with a blinding that is drawn afresh. The outcome is the one that some blinding
/// gives for these inputs, unless the drawing itself fails. What is made passes the
/// proof check.
pub fn create_confidential_tx(sender_sk: &Scalar, receiver_pk: &Point, amount: u64) -> (r: Result<
    ConfidentialTransaction,
    ProtocolError,
>)
    ensures
        match r {
            Ok(tx) => proof_valid(tx@) && exists|b: Seq<u8>|
                is_scalar(b) && #[trigger] transaction_spec(sender_sk@, receiver_pk@, amount, b)
                    == Ok::<Envelope, ProtocolError>(tx@),
            Err(e) => e == ProtocolError::RngFailure || exists|b: Seq<u8>|
                is_scalar(b) && #[trigger] transaction_spec(sender_sk@, receiver_pk@, amount, b)
                    == Err::<Envelope, ProtocolError>(e),
        },
{
    let blinding = match Scalar::random() {
        Ok(b) => b,
        Err(e) => {
            return Err(e);
        },
    };
    create_confidential_tx_with(sender_sk, receiver_pk, amount, &blinding)
}

/// Whether every field of a transaction decodes.
pub fn is_well_formed(tx: &ConfidentialTransaction) -> (ok: bool)
    ensures
        ok == well_formed(tx@),
{
    is_x_only_key(tx.sender.as_slice()) && bytes_to_public_key(tx.receiver.as_slice()).is_ok()
        && bytes_to_public_key(tx.amount_commitment.as_slice()).is_ok() && bytes_to_public_key(
        tx.proof.as_slice(),
    ).is_ok()
}

/// Checks the proof of a transaction: every field must decode, the challenge of the
/// commitment's transcript is derived again, and the response must be the commitment.
pub fn verify_confidential_tx(tx: &ConfidentialTransaction) -> (ok: bool)
    ensures
        ok == proof_valid(tx@),
{
    if !is_well_formed(tx) {
        return false;
    }
    let proof_commitment = match bytes_to_public_key(tx.proof.as_slice()) {
        Ok(p) => p,
        Err(_) => {
            return false;
        },
    };
    let amount_commitment = match bytes_to_public_key(tx.amount_commitment.as_slice()) {
        Ok(p) => p,
        Err(_) => {
            return false;
        },
    };
    let commitments = [amount_commitment];
    proof {
        assert(encodings(commitments@) =~= seq![amount_commitment@]);
    }
    let transcript = build_transcript(commitments.as_slice());
    let derived = generate_challenge(transcript.as_slice()).is_ok();
    let response = BulletproofResponse { response_commitment: proof_commitment };
    let matches = verify_bulletproof(&response, &amount_commitment);
    derived && matches
}

/// Whether the transcript of a transaction's commitment has a challenge.
pub fn commitment_has_challenge(tx: &ConfidentialTransaction) -> (ok: bool)
    ensures
        ok == (tx@.amount_commitment.len() == 33 && is_point_encoding(tx@.amount_commitment)
            && has_challenge(tx@)),
{
    match bytes_to_public_key(tx.amount_commitment.as_slice()) {
        Ok(amount_commitment) => {
            let commitments = [amount_commitment];
            proof {
                assert(encodings(commitments@) =~= seq![amount_commitment@]);
            }
            let transcript = build_transcript(commitments.as_slice());
            generate_challenge(transcript.as_slice()).is_ok()
        },
        Err(_) => false,
    }
}

/// An envelope that passes the proof check no longer passes it when its commitment
/// alone, or its response alone, is replaced by other bytes.
pub proof fn lemma_tampered_proof_rejected(e: Envelope, tampered: Envelope)
    requires
        proof_valid(e),
        (tampered.amount_commitment != e.amount_commitment && tampered.proof == e.proof) || (
        tampered.proof != e.proof && tampered.amount_commitment == e.amount_commitment),
    ensures
        !proof_valid(tampered),
{
}

/// The transcript of a list of points is a function of the list alone, and so is the
/// challenge that is derived from it.
pub proof fn lemma_transcript_challenge_deterministic(first: Seq<u8>, second: Seq<u8>)
    requires
        first == second,
    ensures
        transcript_spec(seq![first]) == transcript_spec(seq![second]),
        challenge_spec(transcript_spec(seq![first])) == challenge_spec(
            transcript_spec(seq![second]),
        ),
{
}

} // verus!
