use confidential_transfer::challenge::{domain_separator_bytes, generate_challenge};
use confidential_transfer::commitment::{
    generate_commitment, generate_pedersen_commitment, get_generator_h, pedersen_commitment_with,
    scalar_from_u64,
};
use confidential_transfer::confidential_tx::{
    build_transcript, bytes_to_public_key, public_key_to_bytes,
};
use confidential_transfer::error::ProtocolError;
use confidential_transfer::group::{Point, Scalar};
use confidential_transfer::hashing::hash_to_scalar;
use confidential_transfer::inner_product::compute_inner_product_commitment;
use confidential_transfer::prover::{generate_keypair, respond_to_challenge};
use confidential_transfer::verification::verify_bulletproof;
use sha2::Digest;

fn from_hex(s: &str) -> Vec<u8> {
    (0..s.len() / 2).map(|i| u8::from_str_radix(&s[2 * i..2 * i + 2], 16).unwrap()).collect()
}

fn negated(p: &Point) -> Point {
    let mut raw = p.serialize();
    raw[0] ^= 1;
    Point::from_bytes(&raw).unwrap()
}

fn curve_library_h() -> secp256k1::PublicKey {
    let secp = secp256k1::Secp256k1::new();
    let g = secp256k1::PublicKey::from_slice(&Point::generator().serialize()).unwrap();
    let digest: [u8; 32] = sha2::Sha256::digest(g.serialize()).into();
    let h = secp256k1::Scalar::from_be_bytes(digest).unwrap();
    g.mul_tweak(&secp, &h).unwrap()
}

fn curve_library_commitment(value: u64, blinding: &[u8; 32]) -> Vec<u8> {
    let secp = secp256k1::Secp256k1::new();
    let g = secp256k1::PublicKey::from_slice(&Point::generator().serialize()).unwrap();
    let r = secp256k1::Scalar::from_be_bytes(*blinding).unwrap();
    let r_h = curve_library_h().mul_tweak(&secp, &r).unwrap();
    if value == 0 {
        return r_h.serialize().to_vec();
    }
    let mut v = [0u8; 32];
    v[24..].copy_from_slice(&value.to_be_bytes());
    let v_g = g.mul_tweak(&secp, &secp256k1::Scalar::from_be_bytes(v).unwrap()).unwrap();
    v_g.combine(&r_h).unwrap().serialize().to_vec()
}

#[test]
fn hash_to_scalar_is_the_digest_read_as_a_number() {
    let s = hash_to_scalar(b"abc").unwrap();
    assert_eq!(
        s.as_bytes().to_vec(),
        from_hex("ba7816bf8f01cfea414140de5dae2223b00361a396177a9cb410ff61f20015ad")
    );
    let empty = hash_to_scalar(b"").unwrap();
    assert_eq!(
        empty.as_bytes().to_vec(),
        from_hex("e3b0c44298fc1c149afbf4c8996fb92427ae41e4649b934ca495991b7852b855")
    );
}

#[test]
fn domain_separator_is_the_29_ascii_bytes() {
    assert_eq!(&domain_separator_bytes()[..], &b"BulletproofChallengeDomainSep"[..]);
    assert_eq!(domain_separator_bytes().len(), 29);
}

#[test]
fn challenge_hashes_the_separator_before_the_transcript() {
    let transcript = Point::generator().serialize();
    let mut data = b"BulletproofChallengeDomainSep".to_vec();
    data.extend_from_slice(&transcript);
    let expected: [u8; 32] = sha2::Sha256::digest(&data).into();
    let challenge = generate_challenge(&transcript).unwrap();
    assert_eq!(challenge.challenge.as_bytes(), &expected);
}

#[test]
fn challenge_of_the_empty_transcript_is_still_separated() {
    let expected: [u8; 32] = sha2::Sha256::digest(b"BulletproofChallengeDomainSep").into();
    let challenge = generate_challenge(&[]).unwrap();
    assert_eq!(challenge.challenge.as_bytes(), &expected);
    assert_ne!(challenge.challenge, hash_to_scalar(&[]).unwrap());
}

#[test]
fn challenge_is_deterministic() {
    let c = Point::generator().combine(&Point::generator()).unwrap();
    let first = generate_challenge(&build_transcript(&[c])).unwrap();
    let second = generate_challenge(&build_transcript(&[c])).unwrap();
    assert_eq!(first, second);
    let other = generate_challenge(&build_transcript(&[Point::generator()])).unwrap();
    assert_ne!(first, other);
}

#[test]
fn second_generator_is_the_hash_of_the_first_times_it() {
    let h = get_generator_h(&Point::generator()).unwrap();
    assert_eq!(h.serialize(), curve_library_h().serialize());
    assert_eq!(get_generator_h(&Point::generator()).unwrap(), h);
    assert_ne!(h, Point::generator());
}

#[test]
fn amount_scalar_is_big_endian_in_the_low_bytes() {
    let s = scalar_from_u64(42).unwrap();
    let mut expected = [0u8; 32];
    expected[31] = 42;
    assert_eq!(s.as_bytes(), &expected);
    assert_eq!(scalar_from_u64(0), Err(ProtocolError::BadScalar));
    let max = scalar_from_u64(u64::MAX).unwrap();
    assert_eq!(&max.as_bytes()[..24], &[0u8; 24][..]);
    assert_eq!(&max.as_bytes()[24..], &[0xffu8; 8][..]);
}

#[test]
fn commitment_is_value_times_g_plus_blinding_times_h() {
    let blinding = Scalar::from_bytes(&[2u8; 32]).unwrap();
    let c = generate_commitment(42, &blinding).unwrap();
    assert_eq!(c.serialize().to_vec(), curve_library_commitment(42, &[2u8; 32]));
    let d = generate_commitment(u64::MAX, &blinding).unwrap();
    assert_eq!(d.serialize().to_vec(), curve_library_commitment(u64::MAX, &[2u8; 32]));
    assert_ne!(c, d);
}

#[test]
fn commitment_to_zero_is_the_blinding_term() {
    let blinding = Scalar::from_bytes(&[2u8; 32]).unwrap();
    let c = generate_commitment(0, &blinding).unwrap();
    assert_eq!(c.serialize().to_vec(), curve_library_commitment(0, &[2u8; 32]));
    let h = get_generator_h(&Point::generator()).unwrap();
    assert_eq!(c, h.mul_scalar(&blinding));
}

#[test]
fn commitment_is_deterministic_in_value_and_blinding() {
    let blinding = Scalar::from_bytes(&[9u8; 32]).unwrap();
    assert_eq!(generate_commitment(7, &blinding), generate_commitment(7, &blinding));
    let other = Scalar::from_bytes(&[10u8; 32]).unwrap();
    assert_ne!(generate_commitment(7, &blinding), generate_commitment(7, &other));
    assert_ne!(generate_commitment(7, &blinding), generate_commitment(8, &blinding));
}

#[test]
fn commitment_with_opening() {
    let blinding = Scalar::from_bytes(&[3u8; 32]).unwrap();
    let opened = pedersen_commitment_with(5, blinding).unwrap();
    assert_eq!(opened.value, 5);
    assert_eq!(opened.blinding, blinding);
    assert_eq!(opened.commitment.serialize().to_vec(), curve_library_commitment(5, &[3u8; 32]));
}

#[test]
fn fresh_commitments_hide_the_amount() {
    let a = generate_pedersen_commitment(42).unwrap();
    let b = generate_pedersen_commitment(42).unwrap();
    assert_eq!(a.value, 42);
    assert_ne!(a.blinding, b.blinding);
    assert_ne!(a.commitment, b.commitment);
    assert_eq!(generate_commitment(42, &a.blinding).unwrap(), a.commitment);
}

#[test]
fn empty_aggregation_is_an_error() {
    assert_eq!(compute_inner_product_commitment(&[]), Err(ProtocolError::EmptyAggregation));
    let challenge = generate_challenge(&[]).unwrap();
    assert_eq!(respond_to_challenge(&[], &challenge), Err(ProtocolError::EmptyAggregation));
}

#[test]
fn aggregation_of_one_point_is_the_point() {
    let g = Point::generator();
    assert_eq!(compute_inner_product_commitment(&[g]), Ok(g));
}

#[test]
fn aggregation_adds_from_the_left() {
    let g = Point::generator();
    let two = g.combine(&g).unwrap();
    let three = two.combine(&g).unwrap();
    assert_eq!(compute_inner_product_commitment(&[g, g]), Ok(two));
    assert_eq!(compute_inner_product_commitment(&[g, g, g]), Ok(three));
    assert_eq!(compute_inner_product_commitment(&[two, g]), Ok(three));
    assert_eq!(
        compute_inner_product_commitment(&[g, two, three]).unwrap().serialize().to_vec(),
        Point::from_secret(&Scalar::from_u64(6).unwrap()).serialize().to_vec()
    );
}

#[test]
fn aggregation_fails_on_an_identity_partial_sum() {
    let g = Point::generator();
    let minus_g = negated(&g);
    assert_eq!(compute_inner_product_commitment(&[g, minus_g]), Err(ProtocolError::GroupFailure));
    // The partial sum g + (-g) is the identity although the total would be g.
    assert_eq!(
        compute_inner_product_commitment(&[g, minus_g, g]),
        Err(ProtocolError::GroupFailure)
    );
    // Here no partial sum is the identity.
    assert_eq!(compute_inner_product_commitment(&[g, g, minus_g]), Ok(g));
}

#[test]
fn response_is_the_sum_of_the_commitments() {
    let g = Point::generator();
    let challenge = generate_challenge(&build_transcript(&[g])).unwrap();
    let response = respond_to_challenge(&[g], &challenge).unwrap();
    assert_eq!(response.response_commitment, g);
    let two = respond_to_challenge(&[g, g], &challenge).unwrap();
    assert_eq!(two.response_commitment, g.combine(&g).unwrap());
}

#[test]
fn range_predicate_compares_compressed_encodings() {
    let g = Point::generator();
    let challenge = generate_challenge(&[]).unwrap();
    let response = respond_to_challenge(&[g], &challenge).unwrap();
    assert!(verify_bulletproof(&response, &g));
    // The opposite point has the same x coordinate and must still be told apart.
    assert!(!verify_bulletproof(&response, &negated(&g)));
    assert!(!verify_bulletproof(&response, &g.combine(&g).unwrap()));
}

#[test]
fn transcript_of_nothing_is_empty() {
    assert_eq!(build_transcript(&[]), Vec::<u8>::new());
}

#[test]
fn transcript_concatenates_in_order() {
    let g = Point::generator();
    let two = g.combine(&g).unwrap();
    let mut expected = g.serialize().to_vec();
    expected.extend_from_slice(&two.serialize());
    assert_eq!(build_transcript(&[g, two]), expected);
    assert_eq!(build_transcript(&[g, two]).len(), 66);
    let mut swapped = two.serialize().to_vec();
    swapped.extend_from_slice(&g.serialize());
    assert_eq!(build_transcript(&[two, g]), swapped);
    assert_ne!(build_transcript(&[g, two]), build_transcript(&[two, g]));
}

#[test]
fn point_bytes_round_trip() {
    let g = Point::generator();
    let bytes = public_key_to_bytes(&g);
    assert_eq!(bytes.len(), 33);
    assert_eq!(bytes_to_public_key(&bytes), Ok(g));
    assert_eq!(bytes_to_public_key(&bytes[1..]), Err(ProtocolError::BadPoint));
    assert_eq!(bytes_to_public_key(&[0u8; 33]), Err(ProtocolError::BadPoint));
}

#[test]
fn keypair_belongs_together() {
    let (sk, pk) = generate_keypair().unwrap();
    assert_eq!(Point::from_secret(&sk), pk);
    let secp = secp256k1::Secp256k1::new();
    let expected = secp256k1::PublicKey::from_secret_key(
        &secp,
        &secp256k1::SecretKey::from_slice(sk.as_bytes()).unwrap(),
    );
    assert_eq!(pk.serialize(), expected.serialize());
    let (other, _) = generate_keypair().unwrap();
    assert_ne!(sk, other);
}
