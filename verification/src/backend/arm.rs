//! Machine code for the ARM architecture.
pub mod abi;
pub mod access;
pub mod decode;
pub mod dialect;
pub mod effects;
pub mod emit;
pub mod frames;
pub mod isa;
pub mod isel;
pub mod lower;
pub mod operands;
pub mod pipeline;
pub mod semantics;
pub mod stack;
