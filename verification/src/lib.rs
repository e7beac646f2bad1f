//! A small fully homomorphic encryption library in the TFHE style.
//!
//! Bits are encrypted as lattice samples over the real torus and Boolean
//! circuits are evaluated on ciphertexts through gate bootstrapping.  The
//! torus is represented in 64-bit fixed point, so every operation here is
//! exact integer arithmetic and carries a contract.

pub mod encoding;
pub mod lwe;
pub mod noise;
pub mod operations;
pub mod poly;
pub mod tfhe;
pub mod tgsw;
pub mod tlwe;
pub mod torus;
pub mod trlwe;
