//! The calling conventions.
pub mod systemv;
