//! Verified parts of a compiler for the eye language.
pub mod backend;
pub mod compiler;
pub mod ir;
pub mod lsp;
pub mod parser;
pub mod target;
pub mod text;
