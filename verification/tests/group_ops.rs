use confidential_transfer::error::ProtocolError;
use confidential_transfer::group::{Point, Scalar};

fn unhex(s: &str) -> Vec<u8> {
    (0..s.len() / 2).map(|i| u8::from_str_radix(&s[2 * i..2 * i + 2], 16).unwrap()).collect()
}

const G_HEX: &str = "0279be667ef9dcbbac55a06295ce870b07029bfcdb2dce28d959f2815b16f81798";
const TWO_G_HEX: &str = "02c6047f9441ed7d6d3045406e95c07cd85c778e4b8cef3ca7abac09b95c709ee5";
const THREE_G_HEX: &str = "02f9308a019258c31049344f85f89d5229b531c845836f99b08601f113bce036f9";

fn opposite(p: &Point) -> Point {
    let mut raw = p.serialize();
    raw[0] ^= 1;
    Point::from_bytes(&raw).unwrap()
}

#[test]
fn generator_is_the_conventional_base_point() {
    assert_eq!(Point::generator().serialize().to_vec(), unhex(G_HEX));
    let mut expected = vec![0x02u8];
    expected.extend_from_slice(&secp256k1::constants::GENERATOR_X);
    assert_eq!(Point::generator().serialize().to_vec(), expected);
}

#[test]
fn scalar_must_lie_between_one_and_the_order() {
    assert_eq!(Scalar::from_bytes(&[0u8; 32]), Err(ProtocolError::BadScalar));
    let order = unhex("fffffffffffffffffffffffffffffffebaaedce6af48a03bbfd25e8cd0364141");
    assert_eq!(Scalar::from_bytes(&order), Err(ProtocolError::BadScalar));
    assert_eq!(Scalar::from_bytes(&[0xffu8; 32]), Err(ProtocolError::BadScalar));
    let largest = unhex("fffffffffffffffffffffffffffffffebaaedce6af48a03bbfd25e8cd0364140");
    assert_eq!(Scalar::from_bytes(&largest).unwrap().as_bytes().to_vec(), largest);
    let mut one = [0u8; 32];
    one[31] = 1;
    assert_eq!(Scalar::from_bytes(&one).unwrap().as_bytes(), &one);
}

#[test]
fn scalar_must_have_32_bytes() {
    assert_eq!(Scalar::from_bytes(&[1u8; 31]), Err(ProtocolError::BadScalar));
    assert_eq!(Scalar::from_bytes(&[1u8; 33]), Err(ProtocolError::BadScalar));
    assert_eq!(Scalar::from_bytes(&[]), Err(ProtocolError::BadScalar));
}

#[test]
fn scalar_from_amount() {
    assert_eq!(Scalar::from_u64(0), Err(ProtocolError::BadScalar));
    let s = Scalar::from_u64(258).unwrap();
    let mut expected = [0u8; 32];
    expected[30] = 1;
    expected[31] = 2;
    assert_eq!(s.as_bytes(), &expected);
}

#[test]
fn point_must_decode() {
    assert_eq!(Point::from_bytes(&unhex(G_HEX)).unwrap().serialize().to_vec(), unhex(G_HEX));
    assert_eq!(Point::from_bytes(&[0u8; 33]), Err(ProtocolError::BadPoint));
    // A wrong prefix byte.
    let mut bad = unhex(G_HEX);
    bad[0] = 0x05;
    assert_eq!(Point::from_bytes(&bad), Err(ProtocolError::BadPoint));
    // An x coordinate that is not on the curve.
    let mut off = vec![0x02u8];
    off.extend_from_slice(&[0u8; 31]);
    off.push(5);
    assert_eq!(Point::from_bytes(&off), Err(ProtocolError::BadPoint));
}

#[test]
fn point_must_have_33_bytes() {
    assert_eq!(Point::from_bytes(&unhex(G_HEX)[..32]), Err(ProtocolError::BadPoint));
    assert_eq!(Point::from_bytes(&[]), Err(ProtocolError::BadPoint));
    let uncompressed = secp256k1::PublicKey::from_slice(&unhex(G_HEX)).unwrap().serialize_uncompressed();
    assert_eq!(Point::from_bytes(&uncompressed), Err(ProtocolError::BadPoint));
}

#[test]
fn public_key_of_a_secret() {
    let one = Scalar::from_u64(1).unwrap();
    assert_eq!(Point::from_secret(&one), Point::generator());
    let two = Scalar::from_u64(2).unwrap();
    assert_eq!(Point::from_secret(&two).serialize().to_vec(), unhex(TWO_G_HEX));
}

#[test]
fn multiplication_by_a_scalar() {
    let g = Point::generator();
    let two = Scalar::from_u64(2).unwrap();
    let three = Scalar::from_u64(3).unwrap();
    assert_eq!(g.mul_scalar(&two).serialize().to_vec(), unhex(TWO_G_HEX));
    assert_eq!(g.mul_scalar(&three).serialize().to_vec(), unhex(THREE_G_HEX));
    let one = Scalar::from_u64(1).unwrap();
    assert_eq!(g.mul_scalar(&one), g);
}

#[test]
fn sum_of_two_points() {
    let g = Point::generator();
    let two_g = g.combine(&g).unwrap();
    assert_eq!(two_g.serialize().to_vec(), unhex(TWO_G_HEX));
    assert_eq!(two_g.combine(&g).unwrap().serialize().to_vec(), unhex(THREE_G_HEX));
    assert_eq!(g.combine(&two_g).unwrap().serialize().to_vec(), unhex(THREE_G_HEX));
}

#[test]
fn sum_of_opposite_points_is_refused() {
    let g = Point::generator();
    assert_eq!(g.combine(&opposite(&g)), Err(ProtocolError::GroupFailure));
}

#[test]
fn points_compare_by_their_encoding() {
    let g = Point::generator();
    assert!(g.same_as(&Point::generator()));
    assert!(!g.same_as(&opposite(&g)));
    assert!(!g.same_as(&g.combine(&g).unwrap()));
}

#[test]
fn random_scalars_are_valid_and_differ() {
    let a = Scalar::random().unwrap();
    let b = Scalar::random().unwrap();
    assert_ne!(a, b);
    assert!(secp256k1::SecretKey::from_slice(a.as_bytes()).is_ok());
    assert_eq!(Scalar::from_bytes(a.as_bytes()), Ok(a));
}

#[test]
fn error_messages() {
    assert_eq!(ProtocolError::EmptyAggregation.message(), "cannot aggregate an empty list");
    assert_eq!(ProtocolError::MalformedEnvelope.message(), "malformed envelope");
    assert_eq!(ProtocolError::BadScalar.message(), "scalar out of range");
    assert_eq!(ProtocolError::BadPoint.message(), "not a curve point");
    assert_eq!(ProtocolError::GroupFailure.message(), "group operation gave the identity");
    assert_eq!(ProtocolError::RngFailure.message(), "random number generator failed");
    assert_eq!(ProtocolError::SignFailure.message(), "signing failed");
    assert_eq!(ProtocolError::Invalid.message(), "verification rejected");
}
