//! Machine code and object files.
use vstd::prelude::*;

pub mod arguments;
pub mod arm;
pub mod bytes;
pub mod elf;
pub mod emit;
pub mod function;
pub mod isel;
pub mod macho;
pub mod module;
pub mod object;
pub mod placement;
pub mod selector;
pub mod size;
pub mod state;
pub mod x86;

verus! {

#[derive(Clone, Copy, Debug, PartialEq, Eq, Structural)]
pub enum Error {
    UnsupportedArch,
}

} // verus!
