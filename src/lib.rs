//! An inner-product argument over the BLS12-381 G1 group, bound to a
//! Fiat-Shamir transcript, with its prover, verifier and byte codec.
#![allow(non_snake_case)]

pub mod codec;
pub mod errors;
pub mod field;
pub mod inner_product_proof;
pub mod lemmas;
pub mod transcript;
pub mod verification;

pub use crate::errors::ProofError;
pub use crate::inner_product_proof::{inner_product, InnerProductProof};
