//! The Fiat-Shamir challenge: a scalar derived from the transcript.

use vstd::prelude::*;
use crate::error::ProtocolError;
use crate::group::Scalar;
use crate::hashing::{hash_to_scalar, hash_to_scalar_spec};

verus! {

/// The domain separator that is hashed before the transcript: the 29 ASCII bytes of
/// `BulletproofChallengeDomainSep`.
pub open spec fn domain_separator() -> Seq<u8> {
    seq![
        0x42u8, 0x75, 0x6c, 0x6c, 0x65, 0x74, 0x70, 0x72,
        0x6f, 0x6f, 0x66, 0x43, 0x68, 0x61, 0x6c, 0x6c,
        0x65, 0x6e, 0x67, 0x65, 0x44, 0x6f, 0x6d, 0x61,
        0x69, 0x6e, 0x53, 0x65, 0x70,
    ]
}

/// The challenge that belongs to a transcript.
pub open spec fn challenge_spec(transcript: Seq<u8>) -> Option<Seq<u8>> {
    hash_to_scalar_spec(domain_separator() + transcript)
}

/// A challenge of the protocol.
#[derive(Clone, Copy, Debug, PartialEq, Eq)]
pub struct BulletproofChallenge {
    pub challenge: Scalar,
}

/// The domain separator as bytes.
pub fn domain_separator_bytes() -> (r: [u8; 29])
    ensures
        r@ == domain_separator(),
{
    let r: [u8; 29] = [
        0x42, 0x75, 0x6c, 0x6c, 0x65, 0x74, 0x70, 0x72,
        0x6f, 0x6f, 0x66, 0x43, 0x68, 0x61, 0x6c, 0x6c,
        0x65, 0x6e, 0x67, 0x65, 0x44, 0x6f, 0x6d, 0x61,
        0x69, 0x6e, 0x53, 0x65, 0x70,
    ];
    assert(r@ =~= domain_separator());
    r
}

/// Derives the challenge from the transcript: the domain separator followed by the
/// transcript, hashed to a scalar.
pub fn generate_challenge(transcript: &[u8]) -> (r: Result<BulletproofChallenge, ProtocolError>)
    ensures
        match r {
            Ok(c) => challenge_spec(transcript@) == Some(c.challenge@),
            Err(e) => e == ProtocolError::BadScalar && challenge_spec(transcript@) is None,
        },
{
    let tag = domain_separator_bytes();
    let mut data: Vec<u8> = Vec::new();
    let mut i: usize = 0;
    while i < 29
        invariant
            i <= 29,
            tag@ == domain_separator(),
            data@ == domain_separator().subrange(0, i as int),
        decreases 29 - i,
    {
        data.push(tag[i]);
        assert(data@ =~= domain_separator().subrange(0, i + 1));
        i = i + 1;
    }
    assert(data@ =~= domain_separator());
    let mut j: usize = 0;
    while j < transcript.len()
        invariant
            j <= transcript@.len(),
            data@ == domain_separator() + transcript@.subrange(0, j as int),
        decreases transcript@.len() - j,
    {
        data.push(transcript[j]);
        assert(data@ =~= domain_separator() + transcript@.subrange(0, j + 1));
        j = j + 1;
    }
    assert(transcript@.subrange(0, transcript@.len() as int) =~= transcript@);
    match hash_to_scalar(data.as_slice()) {
        Ok(s) => Ok(BulletproofChallenge { challenge: s }),
        Err(e) => Err(e),
    }
}

/// The challenge is a function of the transcript alone: equal transcripts give equal
/// challenges.
pub proof fn lemma_challenge_deterministic(first: Seq<u8>, second: Seq<u8>)
    requires
        first == second,
    ensures
        challenge_spec(first) == challenge_spec(second),
{
}

} // verus!
