//! The syntax of programs.
pub mod ast;
pub mod display;
