//! SHA-256 and the derivation of scalars from bytes.

use vstd::prelude::*;
use vstd::slice::slice_to_vec;
use crate::be_int::{
    be_encode,
    be_is_zero,
    be_value,
    group_order,
    lemma_group_order_range,
    reduce_mod_order,
};
use crate::error::ProtocolError;
use crate::group::Scalar;

verus! {

/// The SHA-256 digest of `data`, as `sha2::Sha256` computes it.
pub uninterp spec fn sha256(data: Seq<u8>) -> Seq<u8>;

/// `sha2::Sha256::digest`: the 32-byte SHA-256 digest of `data`.
#[verifier::external_body]
fn sha256_digest(data: &[u8]) -> (digest: [u8; 32])
    ensures
        digest@ == sha256(data@),
{
    <sha2::Sha256 as sha2::Digest>::digest(data).into()
}

/// What is hashed at the `counter`-th attempt: the input itself at first, and afterwards
/// the input followed by one byte that holds the counter.
pub open spec fn hash_input(input: Seq<u8>, counter: nat) -> Seq<u8> {
    if counter == 0 {
        input
    } else {
        input.push(counter as u8)
    }
}

/// The digest of the `counter`-th attempt, read as a big-endian number, reduced modulo
/// the group order and written as 32 bytes.
pub open spec fn scalar_candidate(input: Seq<u8>, counter: nat) -> Seq<u8> {
    be_encode(be_value(sha256(hash_input(input, counter))) % group_order(), 32)
}

/// The first candidate from attempt `counter` on that is not zero; there are 256 attempts.
pub open spec fn hash_to_scalar_from(input: Seq<u8>, counter: nat) -> Option<Seq<u8>>
    decreases 256 - counter,
{
    if counter > 255 {
        None
    } else if be_value(scalar_candidate(input, counter)) != 0 {
        Some(scalar_candidate(input, counter))
    } else {
        hash_to_scalar_from(input, counter + 1)
    }
}

/// The scalar that `input` is hashed to.
pub open spec fn hash_to_scalar_spec(input: Seq<u8>) -> Option<Seq<u8>> {
    hash_to_scalar_from(input, 0)
}

/// Hashes `input` to a scalar: SHA-256, read big-endian and reduced modulo the group
/// order; a zero is hashed again with a counter byte appended.
pub fn hash_to_scalar(input: &[u8]) -> (r: Result<Scalar, ProtocolError>)
    ensures
        match r {
            Ok(s) => hash_to_scalar_spec(input@) == Some(s@),
            Err(e) => e == ProtocolError::BadScalar && hash_to_scalar_spec(input@) is None,
        },
{
    let mut counter: u16 = 0;
    while counter < 256
        invariant
            counter <= 256,
            hash_to_scalar_spec(input@) == hash_to_scalar_from(input@, counter as nat),
        decreases 256 - counter,
    {
        let mut data = slice_to_vec(input);
        if counter > 0 {
            data.push(counter as u8);
        }
        let digest = sha256_digest(data.as_slice());
        let reduced = reduce_mod_order(&digest);
        if !be_is_zero(&reduced) {
            proof {
                lemma_group_order_range();
                let v = be_value(digest@);
                let n = group_order();
                assert(v % n < n) by (nonlinear_arith)
                    requires
                        n > 0,
                ;
            }
            return Ok(Scalar::from_array(reduced));
        }
        counter = counter + 1;
    }
    Err(ProtocolError::BadScalar)
}

} // verus!
