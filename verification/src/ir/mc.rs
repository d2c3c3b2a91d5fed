//! Machine code level: registers, operands and copies between registers.
pub mod inst;
pub mod parcopy;
pub mod register;
