//! Object files in the ELF format.
pub mod emit;
pub mod linking;
pub mod reader;
pub mod relocation;
pub mod symtab;
pub mod writer;
