//! The error kinds of the protocol.

use vstd::prelude::*;

verus! {

/// The ways in which a protocol operation can fail.
#[derive(Clone, Copy, Debug, PartialEq, Eq, Structural)]
pub enum ProtocolError {
    /// A transaction field has the wrong length or does not decode.
    MalformedEnvelope,
    /// A byte string is not the encoding of a scalar in `[1, n - 1]`.
    BadScalar,
    /// A byte string is not the compressed encoding of a curve point.
    BadPoint,
    /// A group operation produced the identity element.
    GroupFailure,
    /// An aggregation was asked for over no commitments at all.
    EmptyAggregation,
    /// The system's random number generator could not deliver.
    RngFailure,
    /// A signature could not be produced.
    SignFailure,
    /// A transaction was well formed but did not pass verification.
    Invalid,
}

impl ProtocolError {
    /// A short description of the error, for messages to the user.
    pub fn message(&self) -> (s: &'static str)
        ensures
            s@ == (match *self {
                ProtocolError::MalformedEnvelope => "malformed envelope"@,
                ProtocolError::BadScalar => "scalar out of range"@,
                ProtocolError::BadPoint => "not a curve point"@,
                ProtocolError::GroupFailure => "group operation gave the identity"@,
                ProtocolError::EmptyAggregation => "cannot aggregate an empty list"@,
                ProtocolError::RngFailure => "random number generator failed"@,
                ProtocolError::SignFailure => "signing failed"@,
                ProtocolError::Invalid => "verification rejected"@,
            }),
    {
        match self {
            ProtocolError::MalformedEnvelope => "malformed envelope",
            ProtocolError::BadScalar => "scalar out of range",
            ProtocolError::BadPoint => "not a curve point",
            ProtocolError::GroupFailure => "group operation gave the identity",
            ProtocolError::EmptyAggregation => "cannot aggregate an empty list",
            ProtocolError::RngFailure => "random number generator failed",
            ProtocolError::SignFailure => "signing failed",
            ProtocolError::Invalid => "verification rejected",
        }
    }
}

} // verus!
