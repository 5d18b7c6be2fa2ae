//! Structural type inference for JSON samples, and emission of record and
//! enum declarations (with optional round-trip tests) for the inferred type.
pub mod value;
pub mod ty;
pub mod merge;
pub mod laws;
pub mod text;
pub mod emit;
pub mod generate;
pub mod harness;
pub mod lines;
pub mod options;
