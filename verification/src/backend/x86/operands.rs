//! Writing instructions of functions.
use vstd::prelude::*;

use crate::backend::bytes;
use crate::backend::emit::{EmitState, Emitter};
use crate::backend::function;
use crate::backend::function::Emit;
use crate::backend::x86::emit;
use crate::backend::x86::emit::{Form, Operands};
use crate::backend::x86::encode;
use crate::backend::x86::encode::Mem;
use crate::backend::x86::isa;
use crate::backend::x86::isa::{Reg, X86};
use crate::ir::ids::{BlockId, StackSlot};
use crate::ir::inst;
use crate::ir::inst::{Argument, ArgumentView};
use crate::ir::mc::inst as machine;
use crate::ir::mc::register::Register;

verus! {

/// The register that an operand is.
pub open spec fn reg_in(args: Seq<ArgumentView>, i: int) -> Option<Reg> {
    if 0 <= i < args.len() && args[i] is MCReg {
        machine::phys_of::<Reg>(args[i])
    } else {
        None
    }
}

pub open spec fn int_in(args: Seq<ArgumentView>, i: int) -> Option<u32> {
    if 0 <= i < args.len() {
        match args[i] {
            ArgumentView::Int32(v) => Some(v),
            _ => None,
        }
    } else {
        None
    }
}

fn get_reg(args: &Vec<Argument>, i: usize) -> (r: Option<Reg>)
    ensures
        r == reg_in(inst::views(args@), i as int),
{
    if i < args.len() {
        assert(inst::views(args@)[i as int] == args@[i as int]@);
        if let Argument::MCReg(_, r) = args[i] {
            if let Some(code) = r.phys_code() {
                proof {
                    isa::lemma_known_codes(code);
                }
                if code < Reg::COUNT {
                    return Some(Reg::decode(code));
                }
            }
        }
    }
    None
}

fn get_int(args: &Vec<Argument>, i: usize) -> (v: Option<u32>)
    ensures
        v == int_in(inst::views(args@), i as int),
{
    if i < args.len() {
        assert(inst::views(args@)[i as int] == args@[i as int]@);
        if let Argument::Int32(v) = args[i] {
            return Some(v);
        }
    }
    None
}

/// The operands that the arguments of an instruction are.
pub open spec fn operands(args: Seq<ArgumentView>) -> Option<Operands> {
    if args.len() == 0 {
        Some(Operands::Empty)
    } else if args.len() == 1 {
        match args[0] {
            ArgumentView::BlockId(b) => Some(Operands::Block(b)),
            ArgumentView::FunctionId(f) => Some(Operands::Function(f)),
            _ => match reg_in(args, 0) {
                Some(r) => Some(Operands::Reg(r)),
                None => None,
            },
        }
    } else if args.len() == 2 {
        match (reg_in(args, 0), args[1]) {
            (Some(r), ArgumentView::FunctionId(f)) => Some(Operands::RegFunction(r, f)),
            (Some(r), ArgumentView::GlobalId(g)) => Some(Operands::RegGlobal(r, g)),
            (Some(r), ArgumentView::Int32(i)) => Some(Operands::RegImm(r, i)),
            (Some(r), _) => match reg_in(args, 1) {
                Some(s) => Some(Operands::RegReg(r, s)),
                None => None,
            },
            _ => None,
        }
    } else if args.len() == 3 {
        match (reg_in(args, 0), reg_in(args, 1), int_in(args, 2)) {
            (Some(a), Some(b), Some(i)) => Some(Operands::RegRegImm(a, b, i)),
            _ => None,
        }
    } else if args.len() == 5 {
        match (
            reg_in(args, 0),
            reg_in(args, 1),
            int_in(args, 2),
            reg_in(args, 3),
            int_in(args, 4),
        ) {
            (Some(r), Some(ptr), Some(offset), Some(index), Some(scale)) => Some(
                Operands::RegMem(r, Mem { ptr, offset, index, scale }),
            ),
            _ => match (
                reg_in(args, 0),
                int_in(args, 1),
                reg_in(args, 2),
                int_in(args, 3),
                reg_in(args, 4),
            ) {
                (Some(ptr), Some(offset), Some(index), Some(scale), Some(r)) => Some(
                    Operands::MemReg(Mem { ptr, offset, index, scale }, r),
                ),
                _ => None,
            },
        }
    } else {
        None
    }
}

fn get_operands(args: &Vec<Argument>) -> (o: Option<Operands>)
    ensures
        o == operands(inst::views(args@)),
{
    let ghost views = inst::views(args@);
    let n: usize = args.len();
    if n == 0 {
        return Some(Operands::Empty);
    }
    assert(views[0] == args@[0]@);
    if n == 1 {
        match args[0] {
            Argument::BlockId(b) => Some(Operands::Block(b)),
            Argument::FunctionId(f) => Some(Operands::Function(f)),
            _ => match get_reg(args, 0) {
                Some(r) => Some(Operands::Reg(r)),
                None => None,
            },
        }
    } else if n == 2 {
        assert(views[1] == args@[1]@);
        match get_reg(args, 0) {
            Some(r) => match args[1] {
                Argument::FunctionId(f) => Some(Operands::RegFunction(r, f)),
                Argument::GlobalId(g) => Some(Operands::RegGlobal(r, g)),
                Argument::Int32(i) => Some(Operands::RegImm(r, i)),
                _ => match get_reg(args, 1) {
                    Some(s) => Some(Operands::RegReg(r, s)),
                    None => None,
                },
            },
            None => None,
        }
    } else if n == 3 {
        match (get_reg(args, 0), get_reg(args, 1), get_int(args, 2)) {
            (Some(a), Some(b), Some(i)) => Some(Operands::RegRegImm(a, b, i)),
            _ => None,
        }
    } else if n == 5 {
        match (
            get_reg(args, 0),
            get_reg(args, 1),
            get_int(args, 2),
            get_reg(args, 3),
            get_int(args, 4),
        ) {
            (Some(r), Some(ptr), Some(offset), Some(index), Some(scale)) => Some(
                Operands::RegMem(r, Mem { ptr, offset, index, scale }),
            ),
            _ => match (
                get_reg(args, 0),
                get_int(args, 1),
                get_reg(args, 2),
                get_int(args, 3),
                get_reg(args, 4),
            ) {
                (Some(ptr), Some(offset), Some(index), Some(scale), Some(r)) => Some(
                    Operands::MemReg(Mem { ptr, offset, index, scale }, r),
                ),
                _ => None,
            },
        }
    } else {
        None
    }
}

/// The operands can be written in a function with so many blocks.
pub open spec fn fits(op: X86, o: Operands, blocks: nat) -> bool {
    match (op.spec_form(), o) {
        (Form::Jmp, Operands::Block(target)) => target.0 < blocks,
        (Form::Jcc(_), Operands::Block(target)) => target.0 < blocks,
        (Form::LeaFunction, Operands::RegFunction(r, _)) => encode::encodable(r),
        (Form::LeaGlobal, Operands::RegGlobal(r, _)) => encode::encodable(r),
        (Form::CallFunction, Operands::Function(_)) => true,
        (form, _) => emit::fits_form(form, o),
    }
}

proof fn lemma_jump(s: EmitState, rel8: Seq<u8>, rel32: Seq<u8>, target: BlockId)
    requires
        emit::can_jump(s, rel8.len() as int, rel32.len() as int, target),
    ensures
        function::appended(s, emit::jump(s, rel8, rel32, target), Some(target)),
{
    let t = emit::jump(s, rel8, rel32, target);
    assert(t.text.take(s.text.len() as int) =~= s.text);
    assert(t.missing_block_addrs.take(s.missing_block_addrs.len() as int)
        =~= s.missing_block_addrs);
    bytes::le_bytes_len(0, 4);
}

impl Emit for X86 {
    open spec fn tmp() -> Reg {
        emit::tmp_register()
    }

    open spec fn can_copy(to: Reg, from: Reg) -> bool {
        emit::can_copy(to, from)
    }

    open spec fn copy_code(to: Reg, from: Reg) -> Seq<u8> {
        emit::enc_copy(to, from)
    }

    /// Places in the stack frame have no addresses of their own here.
    open spec fn can_address(to: Reg, slot: StackSlot) -> bool {
        false
    }

    open spec fn address_code(to: Reg, slot: StackSlot) -> Seq<u8> {
        Seq::empty()
    }

    open spec fn encodes(self, args: Seq<ArgumentView>, blocks: nat) -> bool {
        operands(args) matches Some(o) && fits(self, o, blocks)
    }

    open spec fn target(self, args: Seq<ArgumentView>) -> Option<BlockId> {
        match (self.spec_form(), operands(args)) {
            (Form::Jmp, Some(Operands::Block(target))) => Some(target),
            (Form::Jcc(_), Some(Operands::Block(target))) => Some(target),
            _ => None,
        }
    }

    open spec fn in_reach(self, s: EmitState, args: Seq<ArgumentView>) -> bool {
        match (self.spec_form(), operands(args)) {
            (Form::Jmp, Some(Operands::Block(target))) => s.next_is(target) || emit::can_jump(
                s,
                1,
                1,
                target,
            ),
            (Form::Jcc(_), Some(Operands::Block(target))) => emit::can_jump(s, 2, 2, target),
            _ => true,
        }
    }

    open spec fn after(self, s: EmitState, args: Seq<ArgumentView>) -> EmitState {
        emit::emitted(s, self, operands(args)->Some_0)
    }

    fn tmp_register() -> Reg {
        emit::tmp_register()
    }

    fn implement_copy(text: &mut Vec<u8>, to: Reg, from: Reg) {
        emit::implement_copy(text, to, from);
    }

    fn implement_stack_addr(text: &mut Vec<u8>, to: Reg, slot: StackSlot) {
    }

    fn reaches(e: &Emitter<Reg>, op: X86, args: &Vec<Argument>) -> bool {
        match (op.form(), get_operands(args)) {
            (Form::Jmp, Some(Operands::Block(target))) => e.is_next(target) || emit::jump_fits(
                e,
                1,
                1,
                target,
            ),
            (Form::Jcc(_), Some(Operands::Block(target))) => emit::jump_fits(e, 2, 2, target),
            _ => true,
        }
    }

    fn emit_op(e: &mut Emitter<Reg>, op: X86, args: &Vec<Argument>) {
        if let Some(o) = get_operands(args) {
            X86::emit(e, op, o);
        }
    }

    proof fn code_is_appended(self, s: EmitState, args: Seq<ArgumentView>) {
        let o = operands(args)->Some_0;
        let t = self.after(s, args);
        match (self.spec_form(), o) {
            (Form::Jmp, Operands::Block(target)) => {
                if s.next_is(target) {
                    assert(s.text.take(s.text.len() as int) =~= s.text);
                    assert(s.missing_block_addrs.take(s.missing_block_addrs.len() as int)
                        =~= s.missing_block_addrs);
                } else {
                    lemma_jump(s, seq![0xEBu8], seq![0xE9u8], target);
                }
            },
            (Form::Jcc(cc), Operands::Block(target)) => {
                lemma_jump(
                    s,
                    seq![(0x70 + cc) as u8, 0xCBu8],
                    seq![0x0Fu8, (0x80 + cc) as u8],
                    target,
                );
            },
            _ => {
                assert(t.text.take(s.text.len() as int) =~= s.text);
                assert(t.missing_block_addrs.take(s.missing_block_addrs.len() as int)
                    =~= s.missing_block_addrs);
            },
        }
    }
}

} // verus!
