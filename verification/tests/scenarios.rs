use confidential_transfer::commitment::generate_commitment;
use confidential_transfer::confidential_tx::{
    commitment_has_challenge, create_confidential_tx, create_confidential_tx_with, is_well_formed,
    verify_confidential_tx, ConfidentialTransaction,
};
use confidential_transfer::envelope::json_bytes;
use confidential_transfer::error::ProtocolError;
use confidential_transfer::group::{Point, Scalar};
use confidential_transfer::prover::{prove, prove_with, sign_transaction, SignedTransaction};
use confidential_transfer::signature::{
    is_x_only_key, sign_message, verify_message, x_only_public_key,
};
use confidential_transfer::verification::{
    check_signed_tx, verify, verify_signature, verify_signed_tx, Verdict,
};

fn sender() -> Scalar {
    Scalar::from_bytes(&[1u8; 32]).unwrap()
}

fn blinding() -> Scalar {
    Scalar::from_bytes(&[2u8; 32]).unwrap()
}

fn happy_path() -> SignedTransaction {
    prove_with(&sender(), &Point::generator(), 42, &blinding(), &[3u8; 32]).unwrap()
}

fn curve_library_digest(data: &[u8]) -> secp256k1::Message {
    secp256k1::Message::from_hashed_data::<secp256k1::hashes::sha256::Hash>(data)
}

#[test]
fn happy_path_is_accepted() {
    let signed = happy_path();
    assert_eq!(signed.tx.amount_commitment, signed.tx.proof);
    assert!(verify(&signed));
    assert_eq!(verify_signed_tx(&signed), Verdict { proof_valid: true, signature_valid: true });
    assert_eq!(check_signed_tx(&signed), Ok(()));
}

#[test]
fn happy_path_fields() {
    let signed = happy_path();
    assert_eq!(signed.tx.sender.len(), 32);
    assert_eq!(signed.tx.receiver, Point::generator().serialize().to_vec());
    assert_eq!(signed.tx.amount_commitment.len(), 33);
    assert_eq!(signed.tx.proof.len(), 33);
    assert_eq!(signed.signature.len(), 64);
    assert_eq!(
        signed.tx.amount_commitment,
        generate_commitment(42, &blinding()).unwrap().serialize().to_vec()
    );
    assert_eq!(signed.tx.sender, x_only_public_key(&sender()).to_vec());
}

#[test]
fn happy_path_is_deterministic_in_its_inputs() {
    assert_eq!(happy_path(), happy_path());
    let other_aux = prove_with(&sender(), &Point::generator(), 42, &blinding(), &[4u8; 32]).unwrap();
    assert_eq!(other_aux.tx, happy_path().tx);
    assert_ne!(other_aux.signature, happy_path().signature);
    assert!(verify(&other_aux));
}

#[test]
fn signature_is_one_that_the_curve_library_accepts() {
    let signed = happy_path();
    let secp = secp256k1::Secp256k1::new();
    let key = secp256k1::XOnlyPublicKey::from_slice(&signed.tx.sender).unwrap();
    let signature = secp256k1::schnorr::Signature::from_slice(&signed.signature).unwrap();
    let message = curve_library_digest(&json_bytes(&signed.tx));
    assert!(secp.verify_schnorr(&signature, &message, &key).is_ok());
}

#[test]
fn signature_of_the_curve_library_is_accepted() {
    let secp = secp256k1::Secp256k1::new();
    let pair = secp256k1::Keypair::from_seckey_slice(&secp, &[7u8; 32]).unwrap();
    let message = b"a message that is signed elsewhere";
    let signature = secp.sign_schnorr_with_aux_rand(&curve_library_digest(message), &pair, &[0u8; 32]);
    let key = pair.x_only_public_key().0.serialize();
    assert!(verify_message(&key, message, &signature.serialize()));
    assert!(!verify_message(&key, b"another message", &signature.serialize()));
    assert_eq!(
        sign_message(&Scalar::from_bytes(&[7u8; 32]).unwrap(), message, &[0u8; 32])
            .unwrap()
            .to_vec(),
        signature.serialize().to_vec()
    );
}

#[test]
fn sender_key_is_the_x_only_key_of_the_secret() {
    let secp = secp256k1::Secp256k1::new();
    let pair = secp256k1::Keypair::from_seckey_slice(&secp, &[1u8; 32]).unwrap();
    assert_eq!(x_only_public_key(&sender()), pair.x_only_public_key().0.serialize());
    assert_eq!(
        &x_only_public_key(&sender())[..],
        &Point::from_secret(&sender()).serialize()[1..]
    );
    assert!(is_x_only_key(&x_only_public_key(&sender())));
    assert!(!is_x_only_key(&[0u8; 32]));
    assert!(!is_x_only_key(&[0xffu8; 32]));
    assert!(!is_x_only_key(&x_only_public_key(&sender())[..31]));
}

#[test]
fn tampered_commitment_is_rejected() {
    let mut signed = happy_path();
    let last = signed.tx.amount_commitment.len() - 1;
    signed.tx.amount_commitment[last] ^= 1;
    assert!(!verify(&signed));
    assert!(!verify_confidential_tx(&signed.tx));
}

#[test]
fn tampered_response_is_rejected() {
    let mut signed = happy_path();
    signed.tx.proof[0] ^= 1;
    assert!(!verify(&signed));
    assert!(!verify_confidential_tx(&signed.tx));
}

#[test]
fn any_bit_flip_is_rejected() {
    let signed = happy_path();
    for field in 0..5 {
        let len = match field {
            0 => signed.tx.sender.len(),
            1 => signed.tx.receiver.len(),
            2 => signed.tx.amount_commitment.len(),
            3 => signed.tx.proof.len(),
            _ => signed.signature.len(),
        };
        for index in [0, len / 2, len - 1] {
            for bit in [0u8, 7] {
                let mut flipped = signed.clone();
                match field {
                    0 => flipped.tx.sender[index] ^= 1 << bit,
                    1 => flipped.tx.receiver[index] ^= 1 << bit,
                    2 => flipped.tx.amount_commitment[index] ^= 1 << bit,
                    3 => flipped.tx.proof[index] ^= 1 << bit,
                    _ => flipped.signature[index] ^= 1 << bit,
                }
                assert!(!verify(&flipped));
            }
        }
    }
}

#[test]
fn wrong_signer_is_rejected() {
    let signed = happy_path();
    let other = Scalar::from_bytes(&[5u8; 32]).unwrap();
    let resigned = sign_transaction(signed.tx.clone(), &other, &[3u8; 32]).unwrap();
    assert_eq!(resigned.tx, signed.tx);
    assert!(!verify(&resigned));
    assert_eq!(
        verify_signed_tx(&resigned),
        Verdict { proof_valid: true, signature_valid: false }
    );
    assert_eq!(check_signed_tx(&resigned), Err(ProtocolError::Invalid));
}

#[test]
fn zero_amount_is_accepted() {
    let signed = prove(&sender(), &Point::generator(), 0).unwrap();
    assert!(verify(&signed));
    assert!(Point::from_bytes(&signed.tx.amount_commitment).is_ok());
    let fixed = prove_with(&sender(), &Point::generator(), 0, &blinding(), &[3u8; 32]).unwrap();
    assert!(verify(&fixed));
    assert_eq!(
        fixed.tx.amount_commitment,
        generate_commitment(0, &blinding()).unwrap().serialize().to_vec()
    );
}

#[test]
fn maximum_amount_is_accepted() {
    let signed = prove_with(&sender(), &Point::generator(), u64::MAX, &blinding(), &[3u8; 32])
        .unwrap();
    assert!(verify(&signed));
    assert_eq!(signed.tx.amount_commitment.len(), 33);
    let fresh = prove(&sender(), &Point::generator(), u64::MAX).unwrap();
    assert!(verify(&fresh));
    assert_eq!(fresh.tx.amount_commitment.len(), 33);
}

#[test]
fn every_proved_transaction_is_accepted() {
    for amount in [0u64, 1, 42, 1 << 32, u64::MAX - 1, u64::MAX] {
        let (sk, _) = confidential_transfer::prover::generate_keypair().unwrap();
        let (_, receiver) = confidential_transfer::prover::generate_keypair().unwrap();
        let signed = prove(&sk, &receiver, amount).unwrap();
        assert!(verify(&signed));
        assert_eq!(check_signed_tx(&signed), Ok(()));
        assert_eq!(signed.tx.receiver, receiver.serialize().to_vec());
    }
}

#[test]
fn fresh_transactions_differ_in_their_commitment() {
    let a = create_confidential_tx(&sender(), &Point::generator(), 42).unwrap();
    let b = create_confidential_tx(&sender(), &Point::generator(), 42).unwrap();
    assert!(verify_confidential_tx(&a));
    assert!(verify_confidential_tx(&b));
    assert_ne!(a.amount_commitment, b.amount_commitment);
    assert_eq!(a.sender, b.sender);
}

#[test]
fn transaction_from_a_given_blinding() {
    let tx = create_confidential_tx_with(&sender(), &Point::generator(), 42, &blinding()).unwrap();
    assert_eq!(tx, happy_path().tx);
    assert!(is_well_formed(&tx));
    assert!(commitment_has_challenge(&tx));
    assert!(verify_confidential_tx(&tx));
}

#[test]
fn malformed_fields_are_rejected_without_panic() {
    let good = happy_path();
    let mut short = good.clone();
    short.tx.proof.pop();
    assert!(!verify(&short));
    assert!(!is_well_formed(&short.tx));
    assert_eq!(check_signed_tx(&short), Err(ProtocolError::MalformedEnvelope));

    let mut off_curve = good.clone();
    off_curve.tx.receiver = vec![0u8; 33];
    assert!(!verify(&off_curve));
    assert_eq!(check_signed_tx(&off_curve), Err(ProtocolError::MalformedEnvelope));

    let mut long_sender = good.clone();
    long_sender.tx.sender = Point::from_secret(&sender()).serialize().to_vec();
    assert!(!verify(&long_sender));
    assert_eq!(check_signed_tx(&long_sender), Err(ProtocolError::MalformedEnvelope));

    let mut short_signature = good.clone();
    short_signature.signature.truncate(63);
    assert!(!verify(&short_signature));
    assert_eq!(check_signed_tx(&short_signature), Err(ProtocolError::MalformedEnvelope));

    let empty = SignedTransaction {
        tx: ConfidentialTransaction {
            sender: vec![],
            receiver: vec![],
            amount_commitment: vec![],
            proof: vec![],
        },
        signature: vec![],
    };
    assert!(!verify(&empty));
    assert!(!commitment_has_challenge(&empty.tx));
    assert_eq!(check_signed_tx(&empty), Err(ProtocolError::MalformedEnvelope));
}

#[test]
fn mismatched_response_is_invalid_not_malformed() {
    let mut signed = happy_path();
    signed.tx.proof = Point::generator().serialize().to_vec();
    let resigned = sign_transaction(signed.tx.clone(), &sender(), &[3u8; 32]).unwrap();
    assert_eq!(
        verify_signed_tx(&resigned),
        Verdict { proof_valid: false, signature_valid: true }
    );
    assert!(!Verdict { proof_valid: false, signature_valid: true }.accepted());
    assert!(!verify(&resigned));
    assert_eq!(check_signed_tx(&resigned), Err(ProtocolError::Invalid));
}

#[test]
fn signature_covers_the_json_form() {
    let signed = happy_path();
    assert!(verify_signature(&signed.tx, &signed.signature));
    assert!(verify_message(&signed.tx.sender, &json_bytes(&signed.tx), &signed.signature));
    let mut other = signed.tx.clone();
    other.receiver = Point::from_secret(&blinding()).serialize().to_vec();
    assert!(!verify_signature(&other, &signed.signature));
    assert!(!verify_signature(&signed.tx, &signed.signature[..63]));
}
