//! An educational arithmetic-circuit framework over a fixed prime field:
//! field elements with modular arithmetic, a rank-1 constraint system with a
//! satisfiability check, a gate-to-constraint compiler, and a Merkle tree
//! that produces inclusion paths over the same field.

pub mod digits;
pub mod field;
pub mod hash_functions;
pub mod r1cs;
pub mod circuit;
pub mod merkle_tree;
