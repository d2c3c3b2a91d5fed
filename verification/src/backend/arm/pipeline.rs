//! The steps from a function to machine code.
use vstd::prelude::*;

use crate::backend::arm::abi::{frame_pointer, ArmAbi};
use crate::backend::arm::isa::{tmp_register, Reg, RegBits};
use crate::backend::arm::isel::InstructionSelector;
use crate::backend::arm::stack::StackFrameHandling;
use crate::backend::module::Dialects;
use crate::ir::ids::ModuleId;

verus! {

/// What is needed to turn functions into machine code: the selection of instructions, the
/// registers that are not handed out to values, and the frames of functions.
#[derive(Clone, Copy, Debug)]
pub struct Codegen {
    pub mc: ModuleId,
    pub arm: ModuleId,
    /// The module of the functions that are compiled.
    pub module_id: ModuleId,
    pub isel: InstructionSelector,
    pub preoccupied: RegBits,
    pub frames: StackFrameHandling,
}

/// Prepares the generation of code for the functions of a module.
pub fn init_codegen(dialects: Dialects, arm: ModuleId, module_id: ModuleId, abi: ArmAbi) -> (c:
    Codegen)
    ensures
        c.mc == dialects.mc,
        c.arm == arm,
        c.module_id == module_id,
        c.isel.arith == dialects.arith,
        c.isel.cf == dialects.cf,
        c.isel.mem == dialects.mem,
        c.isel.abi == abi,
        c.frames.arm == arm,
        forall|i: u8| #[trigger]
            c.preoccupied.has_index(i) <==> i == Reg::sp.spec_index() || i
                == frame_pointer().spec_index() || i == tmp_register().spec_index() || (abi
                == ArmAbi::Darwin64 && i == Reg::x18.spec_index()),
{
    Codegen {
        mc: dialects.mc,
        arm,
        module_id,
        isel: InstructionSelector {
            arith: dialects.arith,
            cf: dialects.cf,
            mem: dialects.mem,
            abi,
        },
        preoccupied: abi.preoccupied_regs(),
        frames: StackFrameHandling { arm },
    }
}

} // verus!
