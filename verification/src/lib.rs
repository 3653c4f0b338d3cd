//! A grand product argument for multilinear extensions: a prover convinces a
//! verifier that the values of a secret multilinear polynomial multiply, over
//! the whole boolean hypercube, to a claimed scalar, by encoding the product
//! tree into one extra variable and reducing the check to a sum-check over a
//! consistency polynomial bound to a Fiat-Shamir transcript.
pub mod engine;
pub mod field;
pub mod mle;
pub mod prodcheck;
pub mod protocol;
