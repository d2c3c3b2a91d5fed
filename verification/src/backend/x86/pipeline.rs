//! The steps from a function to machine code.
use vstd::prelude::*;

use crate::backend::module::Dialects;
use crate::backend::x86::abi::systemv::SystemV;
use crate::backend::x86::emit::tmp_register;
use crate::backend::x86::isa::{Reg, RegBits};
use crate::backend::x86::isel::InstructionSelector;
use crate::backend::x86::prologue_epilogue::PrologueEpilogueInsertion;
use crate::ir::ids::ModuleId;

verus! {

/// What is needed to turn functions into machine code: the selection of instructions, the
/// registers that are not handed out to values, and the frames of functions.
#[derive(Clone, Copy, Debug)]
pub struct Codegen {
    pub mc: ModuleId,
    pub x86: ModuleId,
    /// The module of the functions that are compiled.
    pub module_id: ModuleId,
    pub isel: InstructionSelector,
    pub preoccupied: RegBits,
    pub frames: PrologueEpilogueInsertion,
}

/// Prepares the generation of code for the functions of a module.
pub fn init_codegen(dialects: Dialects, x86: ModuleId, module_id: ModuleId) -> (c: Codegen)
    ensures
        c.mc == dialects.mc,
        c.x86 == x86,
        c.module_id == module_id,
        c.isel.arith == dialects.arith,
        c.isel.cf == dialects.cf,
        c.isel.mem == dialects.mem,
        c.isel.tuple == dialects.tuple,
        c.frames.x86 == x86,
        forall|i: u8| #[trigger]
            c.preoccupied.has_index(i) <==> i == Reg::rbp.spec_index() || i
                == Reg::rsp.spec_index() || i == tmp_register().spec_index(),
{
    Codegen {
        mc: dialects.mc,
        x86,
        module_id,
        isel: InstructionSelector {
            arith: dialects.arith,
            cf: dialects.cf,
            mem: dialects.mem,
            tuple: dialects.tuple,
            abi: SystemV,
        },
        preoccupied: Reg::rbp.bit().bitor(Reg::rsp.bit()).bitor(tmp_register().bit()),
        frames: PrologueEpilogueInsertion { x86, abi: SystemV },
    }
}

} // verus!
