//! The aggregated response: the sum of a list of commitments.

use vstd::prelude::*;
use crate::error::ProtocolError;
use crate::group::{Point, encodings, point_sum};

verus! {

/// The points of `rest` added onto `acc` one after the other, from the left; `None` as
/// soon as one of the sums is the identity.
pub open spec fn sum_onto(acc: Seq<u8>, rest: Seq<Seq<u8>>) -> Option<Seq<u8>>
    decreases rest.len(),
{
    if rest.len() == 0 {
        Some(acc)
    } else {
        match point_sum(acc, rest[0]) {
            Some(next) => sum_onto(next, rest.subrange(1, rest.len() as int)),
            None => None,
        }
    }
}

/// The sum of a list of points, which fails for the empty list and where a partial sum
/// is the identity.
pub open spec fn aggregate_spec(points: Seq<Seq<u8>>) -> Result<Seq<u8>, ProtocolError> {
    if points.len() == 0 {
        Err(ProtocolError::EmptyAggregation)
    } else {
        match sum_onto(points[0], points.subrange(1, points.len() as int)) {
            Some(total) => Ok(total),
            None => Err(ProtocolError::GroupFailure),
        }
    }
}

/// Adds the commitments up, from the left.
pub fn compute_inner_product_commitment(bit_commitments: &[Point]) -> (r: Result<
    Point,
    ProtocolError,
>)
    ensures
        match r {
            Ok(p) => aggregate_spec(encodings(bit_commitments@)) == Ok::<Seq<u8>, ProtocolError>(
                p@,
            ),
            Err(e) => aggregate_spec(encodings(bit_commitments@)) == Err::<Seq<u8>, ProtocolError>(
                e,
            ),
        },
{
    if bit_commitments.len() == 0 {
        return Err(ProtocolError::EmptyAggregation);
    }
    let ghost all = encodings(bit_commitments@);
    let mut result = bit_commitments[0];
    let mut i: usize = 1;
    proof {
        assert(all.subrange(1, all.len() as int) =~= all.subrange(i as int, all.len() as int));
    }
    while i < bit_commitments.len()
        invariant
            1 <= i <= bit_commitments@.len(),
            all == encodings(bit_commitments@),
            sum_onto(all[0], all.subrange(1, all.len() as int)) == sum_onto(
                result@,
                all.subrange(i as int, all.len() as int),
            ),
        decreases bit_commitments@.len() - i,
    {
        let ghost rest = all.subrange(i as int, all.len() as int);
        proof {
            assert(rest[0] == bit_commitments@[i as int]@);
            assert(rest.subrange(1, rest.len() as int) =~= all.subrange(i + 1, all.len() as int));
        }
        match result.combine(&bit_commitments[i]) {
            Ok(next) => {
                result = next;
            },
            Err(e) => {
                return Err(e);
            },
        }
        i = i + 1;
    }
    Ok(result)
}

/// The sum of a single point is that point.
pub proof fn lemma_aggregate_single(c: Seq<u8>)
    ensures
        aggregate_spec(seq![c]) == Ok::<Seq<u8>, ProtocolError>(c),
{
    let points = seq![c];
    assert(points.subrange(1, points.len() as int).len() == 0);
}

/// Nothing can be aggregated from the empty list.
pub proof fn lemma_aggregate_empty()
    ensures
        aggregate_spec(Seq::<Seq<u8>>::empty()) == Err::<Seq<u8>, ProtocolError>(
            ProtocolError::EmptyAggregation,
        ),
{
}

} // verus!
