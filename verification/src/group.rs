//! Scalars and points of the secp256k1 group.
//!
//! A scalar is held as its 32-byte big-endian encoding and a point as its
//! 33-byte compressed encoding. Whether bytes are a scalar is decided here. The
//! group law itself is computed by the `secp256k1` crate: each of its results has
//! a name here, and the functions that make the calls say which name their result
//! bears.

use vstd::prelude::*;
use crate::be_int::{
    be_encode,
    be_is_zero,
    be_less,
    be_value,
    group_order,
    group_order_array,
    lemma_group_order_range,
    u64_to_be32,
};
use crate::bytes::{to_array_32, to_array_33};
use crate::error::ProtocolError;

verus! {

/// Whether `bytes` encode a scalar: 32 bytes that denote a number in `[1, n - 1]`.
pub open spec fn is_scalar(bytes: Seq<u8>) -> bool {
    bytes.len() == 32 && 0 < be_value(bytes) < group_order()
}

/// Whether `secp256k1::PublicKey::from_slice` accepts `bytes` as a curve point.
pub uninterp spec fn is_point_encoding(bytes: Seq<u8>) -> bool;

/// The compressed encoding of the sum of two points, as `secp256k1::PublicKey::combine`
/// computes it; `None` where the sum is the identity.
pub uninterp spec fn point_sum(a: Seq<u8>, b: Seq<u8>) -> Option<Seq<u8>>;

/// The compressed encoding of the point `p` multiplied by the scalar `k`, as
/// `secp256k1::PublicKey::mul_tweak` computes it.
pub uninterp spec fn point_product(p: Seq<u8>, k: Seq<u8>) -> Seq<u8>;

/// The compressed encoding of the conventional base point multiplied by the scalar `k`,
/// as `secp256k1::PublicKey::from_secret_key` computes it.
pub uninterp spec fn base_product(k: Seq<u8>) -> Seq<u8>;

/// `secp256k1::PublicKey::from_slice`, asked whether it accepts 33 bytes.
#[verifier::external_body]
fn ec_point_valid(bytes: &[u8; 33]) -> (ok: bool)
    ensures
        ok == is_point_encoding(bytes@),
{
    secp256k1::PublicKey::from_slice(bytes).is_ok()
}

/// `secp256k1::PublicKey::combine` on two encoded points. The sum comes back encoded, and
/// is itself a point; the call fails where the sum is the identity.
#[verifier::external_body]
fn ec_combine(a: &[u8; 33], b: &[u8; 33]) -> (r: Option<[u8; 33]>)
    requires
        is_point_encoding(a@),
        is_point_encoding(b@),
    ensures
        match r {
            Some(c) => point_sum(a@, b@) == Some(c@) && is_point_encoding(c@),
            None => point_sum(a@, b@) is None,
        },
{
    let left = secp256k1::PublicKey::from_slice(a).ok()?;
    let right = secp256k1::PublicKey::from_slice(b).ok()?;
    match left.combine(&right) {
        Ok(sum) => Some(sum.serialize()),
        Err(_) => None,
    }
}

/// `secp256k1::PublicKey::mul_tweak` on an encoded point and a scalar. The library
/// refuses only a zero or out-of-range factor, so with a scalar the call succeeds, and
/// the product is a point.
#[verifier::external_body]
fn ec_mul(p: &[u8; 33], k: &[u8; 32]) -> (r: Option<[u8; 33]>)
    requires
        is_point_encoding(p@),
        is_scalar(k@),
    ensures
        r is Some,
        r matches Some(c) ==> c@ == point_product(p@, k@) && is_point_encoding(c@),
{
    let secp = secp256k1::Secp256k1::verification_only();
    let point = secp256k1::PublicKey::from_slice(p).ok()?;
    let factor = secp256k1::Scalar::from_be_bytes(*k).ok()?;
    match point.mul_tweak(&secp, &factor) {
        Ok(product) => Some(product.serialize()),
        Err(_) => None,
    }
}

/// `secp256k1::PublicKey::from_secret_key` on a scalar: the base point multiplied by
/// it, encoded. The result is a point.
#[verifier::external_body]
fn ec_base_mul(k: &[u8; 32]) -> (r: Option<[u8; 33]>)
    requires
        is_scalar(k@),
    ensures
        r is Some,
        r matches Some(c) ==> c@ == base_product(k@) && is_point_encoding(c@),
{
    let secp = secp256k1::Secp256k1::signing_only();
    let key = secp256k1::SecretKey::from_slice(k).ok()?;
    Some(secp256k1::PublicKey::from_secret_key(&secp, &key).serialize())
}

/// `rand::rngs::OsRng` asked for 32 bytes through `RngCore::try_fill_bytes`. Nothing is
/// known of the bytes; `None` means that the operating system gave none.
#[verifier::external_body]
fn os_random_bytes() -> (r: Option<[u8; 32]>)
{
    let mut buffer = [0u8; 32];
    match rand::RngCore::try_fill_bytes(&mut rand::rngs::OsRng, &mut buffer) {
        Ok(()) => Some(buffer),
        Err(_) => None,
    }
}

/// A scalar of the group: a number in `[1, n - 1]`, held as 32 big-endian bytes.
#[derive(Clone, Copy, Debug, PartialEq, Eq)]
pub struct Scalar {
    bytes: [u8; 32],
}

/// A point of the group other than the identity, held in compressed form.
#[derive(Clone, Copy, Debug, PartialEq, Eq)]
pub struct Point {
    bytes: [u8; 33],
}

impl View for Scalar {
    type V = Seq<u8>;

    closed spec fn view(&self) -> Seq<u8> {
        self.bytes@
    }
}

impl View for Point {
    type V = Seq<u8>;

    closed spec fn view(&self) -> Seq<u8> {
        self.bytes@
    }
}

/// The encodings of a sequence of points.
pub open spec fn encodings(points: Seq<Point>) -> Seq<Seq<u8>> {
    points.map_values(|p: Point| p@)
}

/// How often `Scalar::random` draws before it gives up.
pub const RANDOM_SCALAR_ATTEMPTS: usize = 64;

/// Whether 32 bytes encode a scalar: whether the number they denote is not zero and is
/// below the group order.
pub fn scalar_bytes_valid(bytes: &[u8; 32]) -> (ok: bool)
    ensures
        ok == is_scalar(bytes@),
{
    let order = group_order_array();
    !be_is_zero(bytes) && be_less(bytes, &order)
}

/// What becomes of one draw of 32 random bytes.
#[derive(Clone, Copy, Debug, PartialEq, Eq)]
pub enum DrawOutcome {
    /// The draw is a scalar and is taken.
    Taken(Scalar),
    /// The draw is no scalar; it is thrown away and another is made.
    Again,
    /// The draw is no scalar and it was the last that may be made.
    Exhausted,
}

/// The scalar that a run of draws gives, from the draw at `attempt` on: the first draw
/// that is a scalar, among the draws that may be made.
pub open spec fn select_draw(draws: Seq<[u8; 32]>, attempt: nat) -> Option<Seq<u8>>
    decreases draws.len() - attempt,
{
    if attempt >= draws.len() || attempt >= RANDOM_SCALAR_ATTEMPTS {
        None
    } else if is_scalar(draws[attempt as int]@) {
        Some(draws[attempt as int]@)
    } else {
        select_draw(draws, attempt + 1)
    }
}

/// Judges the draw `raw`, which is the draw number `attempt`, counted from zero: a
/// scalar is taken; a draw of zero or of a number that is not below the group order is
/// thrown away, and another follows unless this was the last.
pub fn judge_draw(raw: &[u8; 32], attempt: usize) -> (o: DrawOutcome)
    ensures
        match o {
            DrawOutcome::Taken(s) => is_scalar(raw@) && s@ == raw@,
            DrawOutcome::Again => !is_scalar(raw@) && attempt + 1 < RANDOM_SCALAR_ATTEMPTS,
            DrawOutcome::Exhausted => !is_scalar(raw@) && attempt + 1 >= RANDOM_SCALAR_ATTEMPTS,
        },
{
    if scalar_bytes_valid(raw) {
        DrawOutcome::Taken(Scalar { bytes: *raw })
    } else if attempt < RANDOM_SCALAR_ATTEMPTS - 1 {
        DrawOutcome::Again
    } else {
        DrawOutcome::Exhausted
    }
}

/// The encoding of the scalar one.
pub open spec fn scalar_one() -> Seq<u8> {
    be_encode(1, 32)
}

/// The encoding of the conventional base point `G`.
pub open spec fn generator_g() -> Seq<u8> {
    base_product(scalar_one())
}

impl Scalar {
    #[verifier::type_invariant]
    spec fn valid(self) -> bool {
        is_scalar(self.bytes@)
    }

    /// The scalar that 32 bytes encode, if they encode one.
    pub fn from_bytes(bytes: &[u8]) -> (r: Result<Scalar, ProtocolError>)
        ensures
            match r {
                Ok(s) => is_scalar(bytes@) && s@ == bytes@,
                Err(e) => e == ProtocolError::BadScalar && !is_scalar(bytes@),
            },
    {
        match to_array_32(bytes) {
            Some(raw) => {
                if scalar_bytes_valid(&raw) {
                    Ok(Scalar { bytes: raw })
                } else {
                    Err(ProtocolError::BadScalar)
                }
            },
            None => Err(ProtocolError::BadScalar),
        }
    }

    /// The scalar that an array holds, where it holds one.
    pub(crate) fn from_array(raw: [u8; 32]) -> (s: Scalar)
        requires
            is_scalar(raw@),
        ensures
            s@ == raw@,
    {
        Scalar { bytes: raw }
    }

    /// The scalar whose value is `value`; zero is no scalar.
    pub fn from_u64(value: u64) -> (r: Result<Scalar, ProtocolError>)
        ensures
            match r {
                Ok(s) => value != 0 && s@ == be_encode(value as nat, 32) && is_scalar(s@),
                Err(e) => e == ProtocolError::BadScalar && value == 0,
            },
    {
        if value == 0 {
            return Err(ProtocolError::BadScalar);
        }
        let raw = u64_to_be32(value);
        proof {
            lemma_group_order_range();
        }
        Ok(Scalar { bytes: raw })
    }

    /// The 32 bytes of the scalar, which always encode one.
    pub fn as_bytes(&self) -> (r: &[u8; 32])
        ensures
            r@ == self@,
            is_scalar(self@),
    {
        proof {
            use_type_invariant(self);
        }
        &self.bytes
    }

    /// The scalar that given draws give: the first of them that is a scalar. Draws
    /// beyond the number that may be made are not looked at.
    pub fn from_draws(draws: &[[u8; 32]]) -> (r: Result<Scalar, ProtocolError>)
        ensures
            match r {
                Ok(s) => select_draw(draws@, 0) == Some(s@) && is_scalar(s@),
                Err(e) => e == ProtocolError::RngFailure && select_draw(draws@, 0) is None,
            },
    {
        let mut attempt: usize = 0;
        while attempt < draws.len()
            invariant
                attempt <= draws@.len(),
                attempt < RANDOM_SCALAR_ATTEMPTS,
                select_draw(draws@, 0) == select_draw(draws@, attempt as nat),
            decreases draws@.len() - attempt,
        {
            match judge_draw(&draws[attempt], attempt) {
                DrawOutcome::Taken(s) => {
                    return Ok(s);
                },
                DrawOutcome::Again => {
                    attempt = attempt + 1;
                },
                DrawOutcome::Exhausted => {
                    assert(select_draw(draws@, (attempt + 1) as nat) is None);
                    return Err(ProtocolError::RngFailure);
                },
            }
        }
        Err(ProtocolError::RngFailure)
    }

    /// A scalar drawn from the operating system's random number generator. Each draw is
    /// judged by `judge_draw`: one that is no scalar is thrown away and made again, a
    /// bounded number of times. A generator that fails ends the drawing.
    pub fn random() -> (r: Result<Scalar, ProtocolError>)
        ensures
            match r {
                Ok(s) => is_scalar(s@),
                Err(e) => e == ProtocolError::RngFailure,
            },
    {
        let mut attempt: usize = 0;
        while attempt < RANDOM_SCALAR_ATTEMPTS
            invariant
                attempt <= RANDOM_SCALAR_ATTEMPTS,
            decreases RANDOM_SCALAR_ATTEMPTS - attempt,
        {
            let raw = match os_random_bytes() {
                Some(raw) => raw,
                None => {
                    return Err(ProtocolError::RngFailure);
                },
            };
            match judge_draw(&raw, attempt) {
                DrawOutcome::Taken(s) => {
                    return Ok(s);
                },
                DrawOutcome::Again => {
                    attempt = attempt + 1;
                },
                DrawOutcome::Exhausted => {
                    return Err(ProtocolError::RngFailure);
                },
            }
        }
        Err(ProtocolError::RngFailure)
    }
}

impl Point {
    #[verifier::type_invariant]
    spec fn valid(self) -> bool {
        is_point_encoding(self.bytes@)
    }

    /// The point that 33 bytes encode in compressed form, if they encode one.
    pub fn from_bytes(bytes: &[u8]) -> (r: Result<Point, ProtocolError>)
        ensures
            match r {
                Ok(p) => bytes@.len() == 33 && is_point_encoding(bytes@) && p@ == bytes@,
                Err(e) => e == ProtocolError::BadPoint && !(bytes@.len() == 33
                    && is_point_encoding(bytes@)),
            },
    {
        match to_array_33(bytes) {
            Some(raw) => {
                if ec_point_valid(&raw) {
                    Ok(Point { bytes: raw })
                } else {
                    Err(ProtocolError::BadPoint)
                }
            },
            None => Err(ProtocolError::BadPoint),
        }
    }

    /// The 33 bytes of the compressed encoding, which always decode.
    pub fn as_bytes(&self) -> (r: &[u8; 33])
        ensures
            r@ == self@,
            r@.len() == 33,
            is_point_encoding(self@),
    {
        proof {
            use_type_invariant(self);
        }
        &self.bytes
    }

    /// The compressed encoding.
    pub fn serialize(&self) -> (r: [u8; 33])
        ensures
            r@ == self@,
    {
        self.bytes
    }

    /// The conventional base point `G`.
    pub fn generator() -> (g: Point)
        ensures
            g@ == generator_g(),
            is_point_encoding(g@),
    {
        let one = u64_to_be32(1);
        proof {
            lemma_group_order_range();
        }
        Point::from_secret_bytes(&one)
    }

    fn from_secret_bytes(k: &[u8; 32]) -> (p: Point)
        requires
            is_scalar(k@),
        ensures
            p@ == base_product(k@),
            is_point_encoding(p@),
    {
        match ec_base_mul(k) {
            Some(raw) => Point { bytes: raw },
            None => {
                proof {
                    assert(false);
                }
                Point { bytes: [0u8; 33] }
            },
        }
    }

    /// The base point multiplied by `k`: the public key that belongs to the secret `k`.
    pub fn from_secret(k: &Scalar) -> (p: Point)
        ensures
            p@ == base_product(k@),
            is_point_encoding(p@),
    {
        Point::from_secret_bytes(k.as_bytes())
    }

    /// This point multiplied by `k`.
    pub fn mul_scalar(&self, k: &Scalar) -> (p: Point)
        ensures
            p@ == point_product(self@, k@),
            is_point_encoding(p@),
    {
        match ec_mul(self.as_bytes(), k.as_bytes()) {
            Some(raw) => Point { bytes: raw },
            None => {
                proof {
                    assert(false);
                }
                *self
            },
        }
    }

    /// The sum of this point and `other`, which fails where they are opposite.
    pub fn combine(&self, other: &Point) -> (r: Result<Point, ProtocolError>)
        ensures
            match r {
                Ok(p) => point_sum(self@, other@) == Some(p@) && is_point_encoding(p@),
                Err(e) => e == ProtocolError::GroupFailure && point_sum(self@, other@) is None,
            },
    {
        match ec_combine(self.as_bytes(), other.as_bytes()) {
            Some(raw) => Ok(Point { bytes: raw }),
            None => Err(ProtocolError::GroupFailure),
        }
    }

    /// Whether two points are the same, which is whether their encodings are.
    pub fn same_as(&self, other: &Point) -> (b: bool)
        ensures
            b == (self@ == other@),
    {
        let mut i: usize = 0;
        while i < 33
            invariant
                i <= 33,
                forall|j: int| 0 <= j < i ==> self.bytes@[j] == other.bytes@[j],
            decreases 33 - i,
        {
            if self.bytes[i] != other.bytes[i] {
                return false;
            }
            i = i + 1;
        }
        assert(self.bytes@ =~= other.bytes@);
        true
    }
}

} // verus!
