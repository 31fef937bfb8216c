//! A minimal confidential-value transfer protocol over secp256k1: Pedersen
//! commitments, a Fiat-Shamir challenge, an aggregated response and a Schnorr
//! signature over the transaction envelope.

pub mod be_int;
pub mod bytes;
pub mod error;
pub mod group;
pub mod hashing;
pub mod challenge;
pub mod commitment;
pub mod inner_product;
pub mod signature;
pub mod confidential_tx;
pub mod envelope;
pub mod framing;
pub mod prover;
pub mod verification;
pub mod wire;
