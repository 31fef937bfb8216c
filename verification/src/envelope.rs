//! The two byte forms of a transaction envelope: the canonical concatenation of its
//! four fields, and the JSON object that travels on the wire and that is signed.

use vstd::prelude::*;
use crate::bytes::append_bytes;
use crate::confidential_tx::{ConfidentialTransaction, Envelope};
use crate::error::ProtocolError;
use vstd::slice::{slice_subrange, slice_to_vec};

verus! {

/// Whether the four fields have the lengths of their kinds: 32 bytes for the x-only
/// sender key, 33 for each compressed point.
pub open spec fn well_sized(e: Envelope) -> bool {
    &&& e.sender.len() == 32
    &&& e.receiver.len() == 33
    &&& e.amount_commitment.len() == 33
    &&& e.proof.len() == 33
}

/// The canonical form: the four fields one after the other.
pub open spec fn canonical_spec(e: Envelope) -> Seq<u8> {
    e.sender + e.receiver + e.amount_commitment + e.proof
}

/// The envelope that 131 bytes are the canonical form of.
pub open spec fn canonical_decode(bytes: Seq<u8>) -> Option<Envelope> {
    if bytes.len() == 131 {
        Some(
            Envelope {
                sender: bytes.subrange(0, 32),
                receiver: bytes.subrange(32, 65),
                amount_commitment: bytes.subrange(65, 98),
                proof: bytes.subrange(98, 131),
            },
        )
    } else {
        None
    }
}

/// The decimal digits of a byte as ASCII, without leading zeros.
pub open spec fn decimal(b: u8) -> Seq<u8> {
    if b < 10 {
        seq![(48 + b) as u8]
    } else if b < 100 {
        seq![(48 + b / 10) as u8, (48 + b % 10) as u8]
    } else {
        seq![(48 + b / 100) as u8, (48 + (b / 10) % 10) as u8, (48 + b % 10) as u8]
    }
}

/// What follows the first number of a JSON array: each further byte of `s` in decimal
/// after a comma, and then the closing bracket.
pub open spec fn json_tail(s: Seq<u8>) -> Seq<u8>
    decreases s.len(),
{
    if s.len() == 0 {
        seq![0x5du8]
    } else {
        seq![0x2cu8] + decimal(s[0]) + json_tail(s.skip(1))
    }
}

/// The bytes of `s` as a JSON array of numbers, without white space.
pub open spec fn json_array(s: Seq<u8>) -> Seq<u8> {
    if s.len() == 0 {
        seq![0x5bu8, 0x5du8]
    } else {
        seq![0x5bu8] + decimal(s[0]) + json_tail(s.skip(1))
    }
}

/// The bytes of `{"sender":`.
#[verifier::opaque]
pub open spec fn key_sender() -> Seq<u8> {
    seq![
        0x7bu8, 0x22, 0x73, 0x65, 0x6e, 0x64, 0x65, 0x72,
        0x22, 0x3a,
    ]
}

/// The bytes of `,"receiver":`.
#[verifier::opaque]
pub open spec fn key_receiver() -> Seq<u8> {
    seq![
        0x2cu8, 0x22, 0x72, 0x65, 0x63, 0x65, 0x69, 0x76,
        0x65, 0x72, 0x22, 0x3a,
    ]
}

/// The bytes of `,"amount_commitment":`.
#[verifier::opaque]
pub open spec fn key_commitment() -> Seq<u8> {
    seq![
        0x2cu8, 0x22, 0x61, 0x6d, 0x6f, 0x75, 0x6e, 0x74,
        0x5f, 0x63, 0x6f, 0x6d, 0x6d, 0x69, 0x74, 0x6d,
        0x65, 0x6e, 0x74, 0x22, 0x3a,
    ]
}

/// The bytes of `,"proof":`.
#[verifier::opaque]
pub open spec fn key_proof() -> Seq<u8> {
    seq![
        0x2cu8, 0x22, 0x70, 0x72, 0x6f, 0x6f, 0x66, 0x22,
        0x3a,
    ]
}

/// A key and, after it, the bytes of `s` as a JSON array.
pub open spec fn json_field(key: Seq<u8>, s: Seq<u8>) -> Seq<u8> {
    key + json_array(s)
}

/// The JSON object of an envelope: the four fields under their keys, in their order,
/// each a JSON array of numbers, without white space.
pub open spec fn json_spec(e: Envelope) -> Seq<u8> {
    json_field(key_sender(), e.sender) + json_field(key_receiver(), e.receiver) + json_field(
        key_commitment(),
        e.amount_commitment,
    ) + json_field(key_proof(), e.proof) + seq![0x7du8]
}

/// The bytes of the key as an array.
pub(crate) fn key_sender_bytes() -> (r: [u8; 10])
    ensures
        r@ == key_sender(),
{
    let r: [u8; 10] = [
        0x7b, 0x22, 0x73, 0x65, 0x6e, 0x64, 0x65, 0x72,
        0x22, 0x3a,
    ];
    reveal(key_sender);
    assert(r@ =~= key_sender());
    r
}

/// The bytes of the key as an array.
pub(crate) fn key_receiver_bytes() -> (r: [u8; 12])
    ensures
        r@ == key_receiver(),
{
    let r: [u8; 12] = [
        0x2c, 0x22, 0x72, 0x65, 0x63, 0x65, 0x69, 0x76,
        0x65, 0x72, 0x22, 0x3a,
    ];
    reveal(key_receiver);
    assert(r@ =~= key_receiver());
    r
}

/// The bytes of the key as an array.
pub(crate) fn key_commitment_bytes() -> (r: [u8; 21])
    ensures
        r@ == key_commitment(),
{
    let r: [u8; 21] = [
        0x2c, 0x22, 0x61, 0x6d, 0x6f, 0x75, 0x6e, 0x74,
        0x5f, 0x63, 0x6f, 0x6d, 0x6d, 0x69, 0x74, 0x6d,
        0x65, 0x6e, 0x74, 0x22, 0x3a,
    ];
    reveal(key_commitment);
    assert(r@ =~= key_commitment());
    r
}

/// The bytes of the key as an array.
pub(crate) fn key_proof_bytes() -> (r: [u8; 9])
    ensures
        r@ == key_proof(),
{
    let r: [u8; 9] = [
        0x2c, 0x22, 0x70, 0x72, 0x6f, 0x6f, 0x66, 0x22,
        0x3a,
    ];
    reveal(key_proof);
    assert(r@ =~= key_proof());
    r
}

fn push_decimal(out: &mut Vec<u8>, b: u8)
    ensures
        final(out)@ == old(out)@ + decimal(b),
{
    let ghost before = out@;
    if b >= 100 {
        out.push(48 + b / 100);
        out.push(48 + (b / 10) % 10);
        out.push(48 + b % 10);
    } else if b >= 10 {
        out.push(48 + b / 10);
        out.push(48 + b % 10);
    } else {
        out.push(48 + b);
    }
    assert(out@ =~= before + decimal(b));
}

/// Appends the JSON array of `bytes` to `out`.
pub(crate) fn push_json_array(out: &mut Vec<u8>, bytes: &[u8])
    ensures
        final(out)@ == old(out)@ + json_array(bytes@),
{
    let ghost before = out@;
    out.push(0x5b);
    if bytes.len() == 0 {
        out.push(0x5d);
        assert(out@ =~= before + json_array(bytes@));
        return ;
    }
    push_decimal(out, bytes[0]);
    let mut i: usize = 1;
    proof {
        assert(bytes@.skip(1) =~= bytes@.subrange(1, bytes@.len() as int));
        assert(out@ + json_tail(bytes@.skip(1)) =~= before + json_array(bytes@));
    }
    while i < bytes.len()
        invariant
            1 <= i <= bytes@.len(),
            out@ + json_tail(bytes@.subrange(i as int, bytes@.len() as int)) == before + json_array(
                bytes@,
            ),
        decreases bytes@.len() - i,
    {
        let ghost so_far = out@;
        let ghost rest = bytes@.subrange(i as int, bytes@.len() as int);
        out.push(0x2c);
        push_decimal(out, bytes[i]);
        proof {
            assert(rest[0] == bytes@[i as int]);
            assert(rest.skip(1) =~= bytes@.subrange(i + 1, bytes@.len() as int));
            assert(out@ + json_tail(rest.skip(1)) =~= so_far + json_tail(rest));
        }
        i = i + 1;
    }
    out.push(0x5d);
    proof {
        assert(bytes@.subrange(bytes@.len() as int, bytes@.len() as int) =~= Seq::<u8>::empty());
        assert(out@ =~= before + json_array(bytes@));
    }
}

/// The canonical form of a transaction.
pub fn canonical_bytes(tx: &ConfidentialTransaction) -> (r: Vec<u8>)
    ensures
        r@ == canonical_spec(tx@),
{
    let mut out: Vec<u8> = Vec::new();
    append_bytes(&mut out, tx.sender.as_slice());
    append_bytes(&mut out, tx.receiver.as_slice());
    append_bytes(&mut out, tx.amount_commitment.as_slice());
    append_bytes(&mut out, tx.proof.as_slice());
    assert(out@ =~= canonical_spec(tx@));
    out
}

/// The transaction that 131 bytes are the canonical form of.
pub fn from_canonical_bytes(bytes: &[u8]) -> (r: Result<ConfidentialTransaction, ProtocolError>)
    ensures
        match r {
            Ok(tx) => canonical_decode(bytes@) == Some(tx@),
            Err(e) => e == ProtocolError::MalformedEnvelope && canonical_decode(bytes@) is None,
        },
{
    if bytes.len() != 131 {
        return Err(ProtocolError::MalformedEnvelope);
    }
    Ok(
        ConfidentialTransaction {
            sender: slice_to_vec(slice_subrange(bytes, 0, 32)),
            receiver: slice_to_vec(slice_subrange(bytes, 32, 65)),
            amount_commitment: slice_to_vec(slice_subrange(bytes, 65, 98)),
            proof: slice_to_vec(slice_subrange(bytes, 98, 131)),
        },
    )
}

/// The JSON form of a transaction, which is what is signed.
pub fn json_bytes(tx: &ConfidentialTransaction) -> (r: Vec<u8>)
    ensures
        r@ == json_spec(tx@),
{
    let mut out: Vec<u8> = Vec::new();
    let k0 = key_sender_bytes();
    append_bytes(&mut out, k0.as_slice());
    push_json_array(&mut out, tx.sender.as_slice());
    let k1 = key_receiver_bytes();
    append_bytes(&mut out, k1.as_slice());
    push_json_array(&mut out, tx.receiver.as_slice());
    let k2 = key_commitment_bytes();
    append_bytes(&mut out, k2.as_slice());
    push_json_array(&mut out, tx.amount_commitment.as_slice());
    let k3 = key_proof_bytes();
    append_bytes(&mut out, k3.as_slice());
    push_json_array(&mut out, tx.proof.as_slice());
    out.push(0x7d);
    assert(out@ =~= json_spec(tx@));
    out
}

/// Decoding the canonical form of an envelope whose fields have their lengths gives the
/// envelope back.
pub proof fn lemma_canonical_round_trip(e: Envelope)
    requires
        well_sized(e),
    ensures
        canonical_decode(canonical_spec(e)) == Some(e),
{
    let bytes = canonical_spec(e);
    assert(bytes.len() == 131);
    assert(bytes.subrange(0, 32) =~= e.sender);
    assert(bytes.subrange(32, 65) =~= e.receiver);
    assert(bytes.subrange(65, 98) =~= e.amount_commitment);
    assert(bytes.subrange(98, 131) =~= e.proof);
}

/// Encoding what 131 bytes decode to gives the 131 bytes back.
pub proof fn lemma_canonical_decode_encode(bytes: Seq<u8>)
    requires
        bytes.len() == 131,
    ensures
        canonical_decode(bytes) matches Some(e) && well_sized(e) && canonical_spec(e) == bytes,
{
    let e = canonical_decode(bytes)->0;
    assert(canonical_spec(e) =~= bytes);
}

} // verus!
