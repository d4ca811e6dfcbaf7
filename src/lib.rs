//! Batched commit-carrying proofs and compressed linker arguments over BN254,
//! with the scalar field, the curve points and the Fiat-Shamir transcript
//! modelled as plain values.
pub mod slices;
pub mod field;
pub mod group;
pub mod transcript;
pub mod pedersen;
pub mod aggregation;
pub mod cm;
pub mod comp_dl_eq;
pub mod am_com_eq;
pub mod comp_am_com_eq;
pub mod groth16;
pub mod gro;
pub mod solidity;
pub mod pairing;
