//! Object files in the Mach-O format.
pub mod emit;
pub mod linking;
pub mod reader;
pub mod relocation;
pub mod symtab;
pub mod writer;
