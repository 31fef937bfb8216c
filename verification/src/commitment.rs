//! Pedersen commitments `C = v*G + r*H` to a 64-bit amount `v` under a blinding `r`.
//!
//! The second generator is `H = h*G`, where the scalar `h` is the hash of the
//! compressed encoding of `G`. Whoever recomputes `h` knows the discrete logarithm
//! of `H`, so a commitment made here binds only against those who do not.

use vstd::prelude::*;
use crate::be_int::be_encode;
use crate::error::ProtocolError;
use crate::group::{Point, Scalar, generator_g, is_scalar, point_product, point_sum};
use crate::hashing::{hash_to_scalar, hash_to_scalar_spec};

verus! {

/// The second generator that belongs to the generator `g`: `g` multiplied by the scalar
/// that its encoding is hashed to.
pub open spec fn generator_h_of(g: Seq<u8>) -> Option<Seq<u8>> {
    match hash_to_scalar_spec(g) {
        Some(h) => Some(point_product(g, h)),
        None => None,
    }
}

/// The second generator `H` of the system.
pub open spec fn generator_h() -> Option<Seq<u8>> {
    generator_h_of(generator_g())
}

/// The scalar that stands for an amount: its value written as 32 big-endian bytes.
pub open spec fn amount_scalar(value: u64) -> Seq<u8> {
    be_encode(value as nat, 32)
}

/// The commitment to `value` under `blinding`: `value*G + blinding*H`, where the first
/// term is left out for the amount zero.
pub open spec fn commitment_spec(value: u64, blinding: Seq<u8>) -> Result<Seq<u8>, ProtocolError> {
    match generator_h() {
        None => Err(ProtocolError::BadScalar),
        Some(h) => {
            let blinded = point_product(h, blinding);
            if value == 0 {
                Ok(blinded)
            } else {
                match point_sum(point_product(generator_g(), amount_scalar(value)), blinded) {
                    Some(c) => Ok(c),
                    None => Err(ProtocolError::GroupFailure),
                }
            }
        },
    }
}

/// A commitment together with what opens it.
#[derive(Clone, Copy, Debug, PartialEq, Eq)]
pub struct PedersenCommitment {
    pub value: u64,
    pub blinding: Scalar,
    pub commitment: Point,
}

impl PedersenCommitment {
    /// Whether the commitment is the one that the value and the blinding give.
    pub open spec fn opens(&self) -> bool {
        commitment_spec(self.value, self.blinding@) == Ok::<Seq<u8>, ProtocolError>(
            self.commitment@,
        )
    }
}

/// Derives the second generator from `generator_g`.
pub fn get_generator_h(generator_g: &Point) -> (r: Result<Point, ProtocolError>)
    ensures
        match r {
            Ok(h) => generator_h_of(generator_g@) == Some(h@),
            Err(e) => e == ProtocolError::BadScalar && generator_h_of(generator_g@) is None,
        },
{
    let encoded = generator_g.serialize();
    match hash_to_scalar(encoded.as_slice()) {
        Ok(h) => Ok(generator_g.mul_scalar(&h)),
        Err(e) => Err(e),
    }
}

/// The scalar that stands for an amount. Zero is no scalar.
pub fn scalar_from_u64(value: u64) -> (r: Result<Scalar, ProtocolError>)
    ensures
        match r {
            Ok(s) => value != 0 && s@ == amount_scalar(value),
            Err(e) => e == ProtocolError::BadScalar && value == 0,
        },
{
    Scalar::from_u64(value)
}

/// The commitment to `value` under `blinding`.
pub fn generate_commitment(value: u64, blinding: &Scalar) -> (r: Result<Point, ProtocolError>)
    ensures
        match r {
            Ok(c) => commitment_spec(value, blinding@) == Ok::<Seq<u8>, ProtocolError>(c@),
            Err(e) => commitment_spec(value, blinding@) == Err::<Seq<u8>, ProtocolError>(e),
        },
{
    let g = Point::generator();
    let h = match get_generator_h(&g) {
        Ok(h) => h,
        Err(e) => {
            return Err(e);
        },
    };
    let blinded = h.mul_scalar(blinding);
    match scalar_from_u64(value) {
        Ok(v) => {
            let valued = g.mul_scalar(&v);
            valued.combine(&blinded)
        },
        Err(_) => Ok(blinded),
    }
}

/// The commitment to `value` under a given blinding, with what opens it.
pub fn pedersen_commitment_with(value: u64, blinding: Scalar) -> (r: Result<
    PedersenCommitment,
    ProtocolError,
>)
    ensures
        match r {
            Ok(c) => c.value == value && c.blinding == blinding && c.opens(),
            Err(e) => commitment_spec(value, blinding@) == Err::<Seq<u8>, ProtocolError>(e),
        },
{
    match generate_commitment(value, &blinding) {
        Ok(commitment) => Ok(PedersenCommitment { value, blinding, commitment }),
        Err(e) => Err(e),
    }
}

/// A commitment to `value` under a blinding that is drawn afresh. The outcome is the
/// one that some blinding gives for this value, unless the drawing itself fails.
pub fn generate_pedersen_commitment(value: u64) -> (r: Result<PedersenCommitment, ProtocolError>)
    ensures
        match r {
            Ok(c) => c.value == value && is_scalar(c.blinding@) && c.opens(),
            Err(e) => e == ProtocolError::RngFailure || exists|b: Seq<u8>|
                is_scalar(b) && #[trigger] commitment_spec(value, b) == Err::<
                    Seq<u8>,
                    ProtocolError,
                >(e),
        },
{
    match Scalar::random() {
        Ok(blinding) => pedersen_commitment_with(value, blinding),
        Err(e) => Err(e),
    }
}

/// The second generator does not change: it is the same function of the same base point
/// whenever it is derived.
pub proof fn lemma_generator_h_fixed(first: Seq<u8>, second: Seq<u8>)
    requires
        first == generator_g(),
        second == generator_g(),
    ensures
        generator_h_of(first) == generator_h_of(second),
        generator_h_of(first) == generator_h(),
{
}

/// A commitment is a function of the amount and the blinding alone.
pub proof fn lemma_commitment_deterministic(value: u64, blinding: Seq<u8>, a: Seq<u8>, b: Seq<u8>)
    requires
        commitment_spec(value, blinding) == Ok::<Seq<u8>, ProtocolError>(a),
        commitment_spec(value, blinding) == Ok::<Seq<u8>, ProtocolError>(b),
    ensures
        a == b,
{
}

} // verus!
