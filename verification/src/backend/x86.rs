//! Code generation for x86-64.
pub mod abi;
pub mod codegen;
pub mod decode;
pub mod dialect;
pub mod effects;
pub mod emit;
pub mod encode;
pub mod frames;
pub mod implicit;
pub mod isa;
pub mod isel;
pub mod lower;
pub mod operands;
pub mod pipeline;
pub mod placement;
pub mod prologue_epilogue;
pub mod registers;
pub mod semantics;
