//! The front half: types, exhaustiveness of patterns, unification and lowering.
pub mod callconv;
pub mod coverage;
pub mod exhaust;
pub mod irgen;
pub mod meaning;
pub mod types;
pub mod unify;
