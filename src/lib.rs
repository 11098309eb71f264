//! Field, bit and matrix utilities, backend interfaces and the prover session
//! of the AuthDecode commit-and-prove protocol.

pub mod field;
pub mod utils;
pub mod matrix;
pub mod backend;
pub mod prover;
pub mod tee;
