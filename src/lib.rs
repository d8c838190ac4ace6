//! Algebraic core for checking MinRoot verifiable-delay-function traces:
//! a folding engine for relaxed instances and a constraint-polynomial builder.

pub mod field;
pub mod fold;
pub mod iop;
pub mod minroot;
pub mod poly;
