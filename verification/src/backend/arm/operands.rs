//! Writing instructions of functions.
use vstd::prelude::*;

use crate::backend::arm::emit;
use crate::backend::arm::emit::Operands;
use crate::backend::arm::isa;
use crate::backend::arm::isa::{Arm, Reg};
use crate::backend::bytes;
use crate::backend::emit::{EmitState, Emitter};
use crate::backend::function::Emit;
use crate::ir::ids::{BlockId, StackSlot};
use crate::ir::inst;
use crate::ir::inst::{Argument, ArgumentView, MCReg};
use crate::ir::mc::inst as machine;
use crate::ir::mc::register::Register;

verus! {

/// The register that an operand is.
pub open spec fn reg_in(args: Seq<ArgumentView>, i: int) -> Option<Reg> {
    if 0 <= i < args.len() {
        match args[i] {
            ArgumentView::MCReg(_, r) => machine::phys::<Reg>(r),
            _ => None,
        }
    } else {
        None
    }
}

/// The place in memory that an operand is.
pub open spec fn mem_in(args: Seq<ArgumentView>, i: int) -> Option<(Reg, u32)> {
    if 0 <= i < args.len() {
        match args[i] {
            ArgumentView::MCRegOffset(_, _, r, offset) => match machine::phys::<Reg>(r) {
                Some(r) => Some((r, offset)),
                None => None,
            },
            _ => None,
        }
    } else {
        None
    }
}

pub open spec fn int_in(args: Seq<ArgumentView>, i: int) -> Option<u32> {
    if 0 <= i < args.len() {
        match args[i] {
            ArgumentView::Int32(v) => Some(v),
            _ => None,
        }
    } else {
        None
    }
}

fn get_phys(r: MCReg) -> (reg: Option<Reg>)
    ensures
        reg == machine::phys::<Reg>(r),
{
    if let Some(code) = r.phys_code() {
        proof {
            isa::lemma_known_codes(code);
        }
        if code < Reg::COUNT {
            return Some(Reg::decode(code));
        }
    }
    None
}

fn get_reg(args: &Vec<Argument>, i: usize) -> (r: Option<Reg>)
    ensures
        r == reg_in(inst::views(args@), i as int),
{
    if i < args.len() {
        assert(inst::views(args@)[i as int] == args@[i as int]@);
        if let Argument::MCReg(_, r) = args[i] {
            return get_phys(r);
        }
    }
    None
}

fn get_mem(args: &Vec<Argument>, i: usize) -> (r: Option<(Reg, u32)>)
    ensures
        r == mem_in(inst::views(args@), i as int),
{
    if i < args.len() {
        assert(inst::views(args@)[i as int] == args@[i as int]@);
        if let Argument::MCRegOffset(_, _, r, offset) = args[i] {
            return match get_phys(r) {
                Some(r) => Some((r, offset)),
                None => None,
            };
        }
    }
    None
}

fn get_int(args: &Vec<Argument>, i: usize) -> (v: Option<u32>)
    ensures
        v == int_in(inst::views(args@), i as int),
{
    if i < args.len() {
        assert(inst::views(args@)[i as int] == args@[i as int]@);
        if let Argument::Int32(v) = args[i] {
            return Some(v);
        }
    }
    None
}

/// The operands that the arguments of an instruction are.
pub open spec fn operands(args: Seq<ArgumentView>) -> Option<Operands> {
    if args.len() == 1 {
        match args[0] {
            ArgumentView::FunctionId(f) => Some(Operands::Function(f)),
            _ => match reg_in(args, 0) {
                Some(r) => Some(Operands::Reg(r)),
                None => None,
            },
        }
    } else if args.len() == 2 {
        match (reg_in(args, 0), mem_in(args, 1)) {
            (Some(r), Some((ptr, offset))) => Some(Operands::RegMem(r, ptr, offset)),
            _ => None,
        }
    } else if args.len() == 3 {
        match (reg_in(args, 0), reg_in(args, 1)) {
            (Some(a), Some(b)) => match (reg_in(args, 2), mem_in(args, 2), int_in(args, 2)) {
                (Some(c), _, _) => Some(Operands::RegRegReg(a, b, c)),
                (_, Some((ptr, offset)), _) => Some(Operands::RegRegMem(a, b, ptr, offset)),
                (_, _, Some(i)) => Some(Operands::RegRegImm(a, b, i)),
                _ => None,
            },
            (Some(a), None) => match (int_in(args, 1), int_in(args, 2)) {
                (Some(i), Some(j)) => Some(Operands::RegImmImm(a, i, j)),
                _ => None,
            },
            _ => None,
        }
    } else {
        None
    }
}

fn get_operands(args: &Vec<Argument>) -> (o: Option<Operands>)
    ensures
        o == operands(inst::views(args@)),
{
    let n: usize = args.len();
    if n == 1 {
        assert(inst::views(args@)[0] == args@[0]@);
        match args[0] {
            Argument::FunctionId(f) => Some(Operands::Function(f)),
            _ => match get_reg(args, 0) {
                Some(r) => Some(Operands::Reg(r)),
                None => None,
            },
        }
    } else if n == 2 {
        match (get_reg(args, 0), get_mem(args, 1)) {
            (Some(r), Some((ptr, offset))) => Some(Operands::RegMem(r, ptr, offset)),
            _ => None,
        }
    } else if n == 3 {
        match (get_reg(args, 0), get_reg(args, 1)) {
            (Some(a), Some(b)) => match (get_reg(args, 2), get_mem(args, 2), get_int(args, 2)) {
                (Some(c), _, _) => Some(Operands::RegRegReg(a, b, c)),
                (_, Some((ptr, offset)), _) => Some(Operands::RegRegMem(a, b, ptr, offset)),
                (_, _, Some(i)) => Some(Operands::RegRegImm(a, b, i)),
                _ => None,
            },
            (Some(a), None) => match (get_int(args, 1), get_int(args, 2)) {
                (Some(i), Some(j)) => Some(Operands::RegImmImm(a, i, j)),
                _ => None,
            },
            _ => None,
        }
    } else {
        None
    }
}

impl Emit for Arm {
    open spec fn tmp() -> Reg {
        isa::tmp_register()
    }

    open spec fn can_copy(to: Reg, from: Reg) -> bool {
        emit::can_copy(to, from)
    }

    open spec fn copy_code(to: Reg, from: Reg) -> Seq<u8> {
        bytes::le_32(emit::enc_copy(to, from))
    }

    /// Addresses of places in the stack frame are not written yet.
    open spec fn can_address(to: Reg, slot: StackSlot) -> bool {
        false
    }

    open spec fn address_code(to: Reg, slot: StackSlot) -> Seq<u8> {
        Seq::empty()
    }

    open spec fn encodes(self, args: Seq<ArgumentView>, blocks: nat) -> bool {
        operands(args) matches Some(o) && emit::fits(self, o)
    }

    open spec fn target(self, args: Seq<ArgumentView>) -> Option<BlockId> {
        None
    }

    /// No distances within the function are written.
    open spec fn in_reach(self, s: EmitState, args: Seq<ArgumentView>) -> bool {
        true
    }

    open spec fn after(self, s: EmitState, args: Seq<ArgumentView>) -> EmitState {
        emit::emitted(s, self, operands(args)->Some_0)
    }

    fn tmp_register() -> Reg {
        isa::tmp_register()
    }

    fn implement_copy(text: &mut Vec<u8>, to: Reg, from: Reg) {
        emit::implement_copy(text, to, from);
    }

    fn implement_stack_addr(text: &mut Vec<u8>, to: Reg, slot: StackSlot) {
    }

    fn reaches(e: &Emitter<Reg>, op: Arm, args: &Vec<Argument>) -> bool {
        true
    }

    fn emit_op(e: &mut Emitter<Reg>, op: Arm, args: &Vec<Argument>) {
        if let Some(o) = get_operands(args) {
            Arm::emit(e, op, o);
        }
    }

    proof fn code_is_appended(self, s: EmitState, args: Seq<ArgumentView>) {
        let t = self.after(s, args);
        assert(t.text.take(s.text.len() as int) =~= s.text);
        assert(t.missing_block_addrs.take(s.missing_block_addrs.len() as int)
            =~= s.missing_block_addrs);
    }
}

} // verus!
