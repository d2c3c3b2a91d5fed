//! The selection of instructions.
use vstd::prelude::*;

use crate::backend::arguments;
use crate::backend::arguments::{get_int, get_ref};
use crate::backend::isel;
use crate::backend::isel::{
    args_of, arith_class, int_size_of_ref, primitive_of_ref, ArithClass, IselCtx, IselView,
};
use crate::backend::size::Size;
use crate::backend::x86::abi::systemv;
use crate::backend::x86::abi::systemv::{from_phys, SystemV};
use crate::backend::x86::isa::{Reg, X86};
use crate::ir::dialect;
use crate::ir::dialect::{Arith, Dialect, Mc};
use crate::ir::ids::{BlockId, FunctionId, GlobalId, ModuleId, Ref};
use crate::ir::inst;
use crate::ir::inst::{Argument, ArgumentView, MCReg, Parameter, Usage};
use crate::ir::mc::inst as machine;
use crate::ir::mc::inst::{parallel_copy, Context};
use crate::ir::types::Primitive;

verus! {

/// The modules of the instructions that are replaced, and the convention for calls.
#[derive(Clone, Copy, Debug)]
pub struct InstructionSelector {
    pub arith: ModuleId,
    pub cf: ModuleId,
    pub mem: ModuleId,
    pub tuple: ModuleId,
    pub abi: SystemV,
}

/// How an instruction uses the register at this position.
pub open spec fn usage_at(op: X86, i: int) -> Usage {
    if 0 <= i < op.spec_params().len() {
        match op.spec_params()[i] {
            Parameter::MCReg(u) => u,
            _ => Usage::Use,
        }
    } else {
        Usage::Use
    }
}

fn reg_usage(op: X86, i: usize) -> (u: Usage)
    ensures
        u == usage_at(op, i as int),
{
    let params: Vec<Parameter> = op.params();
    if i < params.len() {
        match params[i] {
            Parameter::MCReg(u) => u,
            _ => Usage::Use,
        }
    } else {
        Usage::Use
    }
}

/// A register as the operand at this position.
pub open spec fn operand(op: X86, i: int, r: MCReg) -> ArgumentView {
    ArgumentView::MCReg(usage_at(op, i), r)
}

pub open spec fn one_reg(op: X86, a: MCReg) -> Seq<ArgumentView> {
    seq![operand(op, 0, a)]
}

pub open spec fn two_regs(op: X86, a: MCReg, b: MCReg) -> Seq<ArgumentView> {
    seq![operand(op, 0, a), operand(op, 1, b)]
}

pub open spec fn reg_and_number(op: X86, a: MCReg, imm: u32) -> Seq<ArgumentView> {
    seq![operand(op, 0, a), ArgumentView::Int32(imm)]
}

pub open spec fn regs_and_number(op: X86, a: MCReg, b: MCReg, imm: u32) -> Seq<ArgumentView> {
    seq![operand(op, 0, a), operand(op, 1, b), ArgumentView::Int32(imm)]
}

/// A register and a place in memory at a distance from an address.
pub open spec fn reg_and_memory(op: X86, a: MCReg, ptr: MCReg, offset: u32) -> Seq<ArgumentView> {
    seq![
        operand(op, 0, a),
        operand(op, 1, ptr),
        ArgumentView::Int32(offset),
        operand(op, 3, systemv::phys(Reg::none)),
        ArgumentView::Int32(1),
    ]
}

pub open spec fn memory_and_reg(op: X86, ptr: MCReg, offset: u32, a: MCReg) -> Seq<ArgumentView> {
    seq![
        operand(op, 0, ptr),
        ArgumentView::Int32(offset),
        operand(op, 2, systemv::phys(Reg::none)),
        ArgumentView::Int32(1),
        operand(op, 4, a),
    ]
}

pub open spec fn reg_and_function(op: X86, a: MCReg, f: FunctionId) -> Seq<ArgumentView> {
    seq![operand(op, 0, a), ArgumentView::FunctionId(f)]
}

pub open spec fn reg_and_global(op: X86, a: MCReg, g: GlobalId) -> Seq<ArgumentView> {
    seq![operand(op, 0, a), ArgumentView::GlobalId(g)]
}

pub open spec fn one_block(b: BlockId) -> Seq<ArgumentView> {
    seq![ArgumentView::BlockId(b)]
}

pub open spec fn one_function(f: FunctionId) -> Seq<ArgumentView> {
    seq![ArgumentView::FunctionId(f)]
}

pub(crate) fn write_one_reg(op: X86, a: MCReg) -> (args: Vec<Argument>)
    ensures
        inst::views(args@) == one_reg(op, a),
{
    let args: Vec<Argument> = vec![Argument::MCReg(reg_usage(op, 0), a)];
    assert(inst::views(args@) =~= one_reg(op, a));
    args
}

pub(crate) fn write_two_regs(op: X86, a: MCReg, b: MCReg) -> (args: Vec<Argument>)
    ensures
        inst::views(args@) == two_regs(op, a, b),
{
    let args: Vec<Argument> = vec![
        Argument::MCReg(reg_usage(op, 0), a),
        Argument::MCReg(reg_usage(op, 1), b),
    ];
    assert(inst::views(args@) =~= two_regs(op, a, b));
    args
}

pub(crate) fn write_reg_and_number(op: X86, a: MCReg, imm: u32) -> (args: Vec<Argument>)
    ensures
        inst::views(args@) == reg_and_number(op, a, imm),
{
    let args: Vec<Argument> = vec![Argument::MCReg(reg_usage(op, 0), a), Argument::Int32(imm)];
    assert(inst::views(args@) =~= reg_and_number(op, a, imm));
    args
}

pub(crate) fn write_regs_and_number(op: X86, a: MCReg, b: MCReg, imm: u32) -> (args: Vec<Argument>)
    ensures
        inst::views(args@) == regs_and_number(op, a, b, imm),
{
    let args: Vec<Argument> = vec![
        Argument::MCReg(reg_usage(op, 0), a),
        Argument::MCReg(reg_usage(op, 1), b),
        Argument::Int32(imm),
    ];
    assert(inst::views(args@) =~= regs_and_number(op, a, b, imm));
    args
}

pub(crate) fn write_reg_and_memory(op: X86, a: MCReg, ptr: MCReg, offset: u32) -> (args: Vec<Argument>)
    ensures
        inst::views(args@) == reg_and_memory(op, a, ptr, offset),
{
    let args: Vec<Argument> = vec![
        Argument::MCReg(reg_usage(op, 0), a),
        Argument::MCReg(reg_usage(op, 1), ptr),
        Argument::Int32(offset),
        Argument::MCReg(reg_usage(op, 3), from_phys(Reg::none)),
        Argument::Int32(1),
    ];
    assert(inst::views(args@) =~= reg_and_memory(op, a, ptr, offset));
    args
}

pub(crate) fn write_memory_and_reg(op: X86, ptr: MCReg, offset: u32, a: MCReg) -> (args: Vec<Argument>)
    ensures
        inst::views(args@) == memory_and_reg(op, ptr, offset, a),
{
    let args: Vec<Argument> = vec![
        Argument::MCReg(reg_usage(op, 0), ptr),
        Argument::Int32(offset),
        Argument::MCReg(reg_usage(op, 2), from_phys(Reg::none)),
        Argument::Int32(1),
        Argument::MCReg(reg_usage(op, 4), a),
    ];
    assert(inst::views(args@) =~= memory_and_reg(op, ptr, offset, a));
    args
}

pub(crate) fn write_reg_and_function(op: X86, a: MCReg, f: FunctionId) -> (args: Vec<Argument>)
    ensures
        inst::views(args@) == reg_and_function(op, a, f),
{
    let args: Vec<Argument> = vec![Argument::MCReg(reg_usage(op, 0), a), Argument::FunctionId(f)];
    assert(inst::views(args@) =~= reg_and_function(op, a, f));
    args
}

pub(crate) fn write_reg_and_global(op: X86, a: MCReg, g: GlobalId) -> (args: Vec<Argument>)
    ensures
        inst::views(args@) == reg_and_global(op, a, g),
{
    let args: Vec<Argument> = vec![Argument::MCReg(reg_usage(op, 0), a), Argument::GlobalId(g)];
    assert(inst::views(args@) =~= reg_and_global(op, a, g));
    args
}

pub(crate) fn write_block(b: BlockId) -> (args: Vec<Argument>)
    ensures
        inst::views(args@) == one_block(b),
{
    let args: Vec<Argument> = vec![Argument::BlockId(b)];
    assert(inst::views(args@) =~= one_block(b));
    args
}

pub(crate) fn write_function(f: FunctionId) -> (args: Vec<Argument>)
    ensures
        inst::views(args@) == one_function(f),
{
    let args: Vec<Argument> = vec![Argument::FunctionId(f)];
    assert(inst::views(args@) =~= one_function(f));
    args
}

/// The instruction of the machine.
pub open spec fn machine_op(c: Context, op: X86) -> FunctionId {
    dialect::spec_function(c.isa, op)
}

/// The variants of an operation for each size, with two registers and with a number.
#[derive(Clone, Copy, Debug, PartialEq, Eq, Structural)]
pub struct IntBinOp {
    pub rr8: X86,
    pub ri8: X86,
    pub rr16: X86,
    pub ri16: X86,
    pub rr32: X86,
    pub ri32: X86,
    pub rr64: X86,
    pub ri64: X86,
}

/// Operations that change their first operand by the second.
#[verifier::allow_in_spec]
pub fn int_bin_ops(op: Arith) -> Option<IntBinOp>
    returns
        (match op {
            Arith::Add => Some(
                IntBinOp {
                    rr8: X86::add_rr8,
                    ri8: X86::add_ri8,
                    rr16: X86::add_rr16,
                    ri16: X86::add_ri16,
                    rr32: X86::add_rr32,
                    ri32: X86::add_ri32,
                    rr64: X86::add_rr64,
                    ri64: X86::add_ri64,
                },
            ),
            Arith::Sub => Some(
                IntBinOp {
                    rr8: X86::sub_rr8,
                    ri8: X86::sub_ri8,
                    rr16: X86::sub_rr16,
                    ri16: X86::sub_ri16,
                    rr32: X86::sub_rr32,
                    ri32: X86::sub_ri32,
                    rr64: X86::sub_rr64,
                    ri64: X86::sub_ri64,
                },
            ),
            Arith::Or => Some(
                IntBinOp {
                    rr8: X86::or_rr8,
                    ri8: X86::or_ri8,
                    rr16: X86::or_rr16,
                    ri16: X86::or_ri16,
                    rr32: X86::or_rr32,
                    ri32: X86::or_ri32,
                    rr64: X86::or_rr64,
                    ri64: X86::or_ri64,
                },
            ),
            Arith::And => Some(
                IntBinOp {
                    rr8: X86::and_rr8,
                    ri8: X86::and_ri8,
                    rr16: X86::and_rr16,
                    ri16: X86::and_ri16,
                    rr32: X86::and_rr32,
                    ri32: X86::and_ri32,
                    rr64: X86::and_rr64,
                    ri64: X86::and_ri64,
                },
            ),
            Arith::Xor => Some(
                IntBinOp {
                    rr8: X86::xor_rr8,
                    ri8: X86::xor_ri8,
                    rr16: X86::xor_rr16,
                    ri16: X86::xor_ri16,
                    rr32: X86::xor_rr32,
                    ri32: X86::xor_ri32,
                    rr64: X86::xor_rr64,
                    ri64: X86::xor_ri64,
                },
            ),
            _ => None,
        }),
{
    match op {
        Arith::Add => Some(
            IntBinOp {
                rr8: X86::add_rr8,
                ri8: X86::add_ri8,
                rr16: X86::add_rr16,
                ri16: X86::add_ri16,
                rr32: X86::add_rr32,
                ri32: X86::add_ri32,
                rr64: X86::add_rr64,
                ri64: X86::add_ri64,
            },
        ),
        Arith::Sub => Some(
            IntBinOp {
                rr8: X86::sub_rr8,
                ri8: X86::sub_ri8,
                rr16: X86::sub_rr16,
                ri16: X86::sub_ri16,
                rr32: X86::sub_rr32,
                ri32: X86::sub_ri32,
                rr64: X86::sub_rr64,
                ri64: X86::sub_ri64,
            },
        ),
        Arith::Or => Some(
            IntBinOp {
                rr8: X86::or_rr8,
                ri8: X86::or_ri8,
                rr16: X86::or_rr16,
                ri16: X86::or_ri16,
                rr32: X86::or_rr32,
                ri32: X86::or_ri32,
                rr64: X86::or_rr64,
                ri64: X86::or_ri64,
            },
        ),
        Arith::And => Some(
            IntBinOp {
                rr8: X86::and_rr8,
                ri8: X86::and_ri8,
                rr16: X86::and_rr16,
                ri16: X86::and_ri16,
                rr32: X86::and_rr32,
                ri32: X86::and_ri32,
                rr64: X86::and_rr64,
                ri64: X86::and_ri64,
            },
        ),
        Arith::Xor => Some(
            IntBinOp {
                rr8: X86::xor_rr8,
                ri8: X86::xor_ri8,
                rr16: X86::xor_rr16,
                ri16: X86::xor_ri16,
                rr32: X86::xor_rr32,
                ri32: X86::xor_ri32,
                rr64: X86::xor_rr64,
                ri64: X86::xor_ri64,
            },
        ),
        _ => None,
    }
}

impl IntBinOp {
    /// The variant with two registers and that with a number.
    #[verifier::allow_in_spec]
    pub fn of_size(self, size: Size) -> (X86, X86)
        returns
            (match size {
                Size::S8 => (self.rr8, self.ri8),
                Size::S16 => (self.rr16, self.ri16),
                Size::S32 => (self.rr32, self.ri32),
                _ => (self.rr64, self.ri64),
            }),
    {
        match size {
            Size::S8 => (self.rr8, self.ri8),
            Size::S16 => (self.rr16, self.ri16),
            Size::S32 => (self.rr32, self.ri32),
            _ => (self.rr64, self.ri64),
        }
    }
}

/// What turns the outcome of a comparison into a value.
#[derive(Clone, Copy, Debug, PartialEq, Eq, Structural)]
pub struct Comparison {
    pub signed: X86,
    pub unsigned: X86,
}

#[verifier::allow_in_spec]
pub fn comparison(op: Arith) -> Option<Comparison>
    returns
        (match op {
            Arith::Eq => Some(Comparison { signed: X86::sete, unsigned: X86::sete }),
            Arith::NE => Some(Comparison { signed: X86::setne, unsigned: X86::setne }),
            Arith::LT => Some(Comparison { signed: X86::setl, unsigned: X86::setc }),
            Arith::GT => Some(Comparison { signed: X86::setg, unsigned: X86::seta }),
            Arith::LE => Some(Comparison { signed: X86::setle, unsigned: X86::setbe }),
            Arith::GE => Some(Comparison { signed: X86::setge, unsigned: X86::setnc }),
            _ => None,
        }),
{
    match op {
        Arith::Eq => Some(Comparison { signed: X86::sete, unsigned: X86::sete }),
        Arith::NE => Some(Comparison { signed: X86::setne, unsigned: X86::setne }),
        Arith::LT => Some(Comparison { signed: X86::setl, unsigned: X86::setc }),
        Arith::GT => Some(Comparison { signed: X86::setg, unsigned: X86::seta }),
        Arith::LE => Some(Comparison { signed: X86::setle, unsigned: X86::setbe }),
        Arith::GE => Some(Comparison { signed: X86::setge, unsigned: X86::setnc }),
        _ => None,
    }
}

impl Comparison {
    #[verifier::allow_in_spec]
    pub fn of_class(self, class: ArithClass) -> X86
        returns
            (match class {
                ArithClass::Signed => self.signed,
                _ => self.unsigned,
            }),
    {
        match class {
            ArithClass::Signed => self.signed,
            _ => self.unsigned,
        }
    }
}

/// The jump that is taken where the comparison holds, and that where it does not.
#[verifier::allow_in_spec]
pub fn fused_jumps(op: Arith) -> Option<(X86, X86)>
    returns
        (match op {
            Arith::Eq => Some((X86::je, X86::jne)),
            Arith::LT => Some((X86::jl, X86::jge)),
            Arith::GT => Some((X86::jg, X86::jle)),
            Arith::LE => Some((X86::jle, X86::jg)),
            Arith::GE => Some((X86::jge, X86::jl)),
            _ => None,
        }),
{
    match op {
        Arith::Eq => Some((X86::je, X86::jne)),
        Arith::LT => Some((X86::jl, X86::jge)),
        Arith::GT => Some((X86::jg, X86::jle)),
        Arith::LE => Some((X86::jle, X86::jg)),
        Arith::GE => Some((X86::jge, X86::jl)),
        _ => None,
    }
}

/// Compares two registers.
#[verifier::allow_in_spec]
pub fn compare_op(size: Size) -> X86
    returns
        (match size {
            Size::S8 => X86::cmp_rr8,
            Size::S16 => X86::cmp_rr16,
            Size::S32 => X86::cmp_rr32,
            _ => X86::cmp_rr64,
        }),
{
    match size {
        Size::S8 => X86::cmp_rr8,
        Size::S16 => X86::cmp_rr16,
        Size::S32 => X86::cmp_rr32,
        _ => X86::cmp_rr64,
    }
}

#[verifier::allow_in_spec]
pub fn negate_op(size: Size) -> X86
    returns
        (match size {
            Size::S8 => X86::neg_r8,
            Size::S16 => X86::neg_r16,
            Size::S32 => X86::neg_r32,
            _ => X86::neg_r64,
        }),
{
    match size {
        Size::S8 => X86::neg_r8,
        Size::S16 => X86::neg_r16,
        Size::S32 => X86::neg_r32,
        _ => X86::neg_r64,
    }
}

/// Puts a number in a register.
#[verifier::allow_in_spec]
pub fn number_op(size: Size) -> X86
    returns
        (match size {
            Size::S8 => X86::mov_ri8,
            Size::S16 => X86::mov_ri16,
            Size::S32 => X86::mov_ri32,
            _ => X86::mov_ri64,
        }),
{
    match size {
        Size::S8 => X86::mov_ri8,
        Size::S16 => X86::mov_ri16,
        Size::S32 => X86::mov_ri32,
        _ => X86::mov_ri64,
    }
}

/// The low bits of a number that fit in the size.
pub open spec fn low_bits(x: u64, size: Size) -> u32 {
    match size {
        Size::S8 => (x % 0x100) as u32,
        Size::S16 => (x % 0x1_0000) as u32,
        _ => (x % 0x1_0000_0000) as u32,
    }
}

fn cut(x: u64, size: Size) -> (v: u32)
    ensures
        v == low_bits(x, size),
{
    match size {
        Size::S8 => (x % 0x100) as u32,
        Size::S16 => (x % 0x1_0000) as u32,
        _ => (x % 0x1_0000_0000) as u32,
    }
}

/// Turns a number into one of another size.
#[verifier::allow_in_spec]
pub fn cast_op(class: ArithClass, from: Size, to: Size) -> X86
    returns
        (match (class, from, to) {
            (_, _, Size::S8) => X86::mov_rr8,
            (_, Size::S16, Size::S16) => X86::mov_rr16,
            (_, Size::S32, Size::S16) => X86::mov_rr16,
            (_, Size::S64, Size::S16) => X86::mov_rr16,
            (_, Size::S32, Size::S32) => X86::mov_rr32,
            (_, Size::S64, Size::S32) => X86::mov_rr32,
            (_, Size::S64, _) => X86::mov_rr64,
            (ArithClass::Unsigned, Size::S8, _) => X86::movzx32_rr8,
            (ArithClass::Unsigned, Size::S16, _) => X86::movzx32_rr16,
            (ArithClass::Unsigned, _, _) => X86::mov_rr32,
            (_, Size::S8, Size::S64) => X86::movsx64_rr8,
            (_, Size::S16, Size::S64) => X86::movsx64_rr16,
            (_, Size::S32, Size::S64) => X86::movsx64_rr32,
            _ => X86::movsx32_rr8,
        }),
{
    match (class, from, to) {
        // truncate or keep the same size by just doing a mov in the smaller size.
        (_, _, Size::S8) => X86::mov_rr8,
        (_, Size::S16, Size::S16) => X86::mov_rr16,
        (_, Size::S32, Size::S16) => X86::mov_rr16,
        (_, Size::S64, Size::S16) => X86::mov_rr16,
        (_, Size::S32, Size::S32) => X86::mov_rr32,
        (_, Size::S64, Size::S32) => X86::mov_rr32,
        (_, Size::S64, _) => X86::mov_rr64,
        // zero extension
        (ArithClass::Unsigned, Size::S8, _) => X86::movzx32_rr8,
        (ArithClass::Unsigned, Size::S16, _) => X86::movzx32_rr16,
        (ArithClass::Unsigned, _, _) => X86::mov_rr32,
        // sign extension
        (_, Size::S8, Size::S64) => X86::movsx64_rr8,
        (_, Size::S16, Size::S64) => X86::movsx64_rr16,
        (_, Size::S32, Size::S64) => X86::movsx64_rr32,
        _ => X86::movsx32_rr8,
    }
}

/// Turns a number that is smaller than an address into one.
#[verifier::allow_in_spec]
pub fn extend_op(class: ArithClass, from: Size) -> X86
    returns
        (match (class, from) {
            (ArithClass::Unsigned, Size::S8) => X86::movzx32_rr8,
            (ArithClass::Unsigned, Size::S16) => X86::movzx32_rr16,
            (ArithClass::Unsigned, _) => X86::mov_rr32,
            (_, Size::S8) => X86::movsx64_rr8,
            (_, Size::S16) => X86::movsx64_rr16,
            _ => X86::movsx64_rr32,
        }),
{
    match (class, from) {
        (ArithClass::Unsigned, Size::S8) => X86::movzx32_rr8,
        (ArithClass::Unsigned, Size::S16) => X86::movzx32_rr16,
        (ArithClass::Unsigned, _) => X86::mov_rr32,
        (_, Size::S8) => X86::movsx64_rr8,
        (_, Size::S16) => X86::movsx64_rr16,
        _ => X86::movsx64_rr32,
    }
}

/// Copies the low bits of a register.
#[verifier::allow_in_spec]
pub fn truncate_op(to: Size) -> X86
    returns
        (match to {
            Size::S8 => X86::mov_rr8,
            Size::S16 => X86::mov_rr16,
            _ => X86::mov_rr32,
        }),
{
    match to {
        Size::S8 => X86::mov_rr8,
        Size::S16 => X86::mov_rr16,
        _ => X86::mov_rr32,
    }
}

/// Casting a number to a type of the same size copies it.
pub proof fn casts_to_the_same_size_copy(class: ArithClass, from: Size, to: Size)
    requires
        !(from is S128),
        to == from,
    ensures
        cast_op(class, from, to) == match to {
            Size::S8 => X86::mov_rr8,
            Size::S16 => X86::mov_rr16,
            Size::S32 => X86::mov_rr32,
            _ => X86::mov_rr64,
        },
{
}

/// Every jump has one that is taken exactly where it is not, and each is the opposite of the
/// other where both stand for comparisons.
pub proof fn jumps_are_opposites(op: Arith)
    ensures
        fused_jumps(op) matches Some((jump, inverse)) ==> jump != inverse,
        fused_jumps(Arith::LT)->Some_0 == (
            fused_jumps(Arith::GE)->Some_0.1,
            fused_jumps(Arith::GE)->Some_0.0,
        ),
        fused_jumps(Arith::GT)->Some_0 == (
            fused_jumps(Arith::LE)->Some_0.1,
            fused_jumps(Arith::LE)->Some_0.0,
        ),
{
}

impl InstructionSelector {
    /// The number that a value is.
    pub open spec fn constant(self, c: Context, r: Ref) -> Option<u64> {
        if r.0 < c.ir@.insts.len() && dialect::spec_as_module::<Arith>(
            c.ir@.insts[r.0 as int],
            self.arith,
        ) == Some(Arith::Int) {
            Some(arguments::int_at(c.args(r), 0))
        } else {
            None
        }
    }

    fn get_constant(&self, c: &Context, r: Ref) -> (v: Option<u64>)
        requires
            isel::countable(*c),
        ensures
            v == self.constant(*c, r),
    {
        if r.idx() < c.ir.insts.len() {
            assert(c.has_call(r));
            if let Some(op) = dialect::as_module::<Arith>(&c.ir.insts[r.idx()], self.arith) {
                if op == Arith::Int {
                    return Some(get_int(&args_of(c, r), 0));
                }
            }
        }
        None
    }
}

/// A number is put in a register.
pub open spec fn number_set(s: IselView, c: Context, r: Ref, x: u64) -> IselView {
    let op = number_op(isel::size_in(c, r));
    s.replaced(
        r,
        machine_op(c, op),
        reg_and_number(op, isel::reg(c, r), low_bits(x, isel::size_in(c, r))),
    )
}

fn set_number(ctx: &mut IselCtx, c: &Context, r: Ref, x: u64)
    requires
        isel::is_number(*c, r),
    ensures
        final(ctx)@ == number_set(old(ctx)@, *c, r, x),
{
    let size: Size = int_size_of_ref(c, r);
    let op: X86 = number_op(size);
    let args: Vec<Argument> = write_reg_and_number(op, c.slots.get_one(r), cut(x, size));
    ctx.replace(r, dialect::function(c.isa, op), args);
}

/// A number is negated. Wide numbers are negated in place.
pub open spec fn negated(s: IselView, c: Context, r: Ref, x: Ref) -> IselView {
    let op = negate_op(isel::size_in(c, r));
    let target = if isel::size_in(c, r) is S8 || isel::size_in(c, r) is S16 {
        isel::reg(c, r)
    } else {
        isel::reg(c, x)
    };
    s.copied(c, r, isel::reg(c, r), isel::reg(c, x)).replaced(r, machine_op(c, op), one_reg(op, target))
}

fn negate(ctx: &mut IselCtx, c: &Context, r: Ref, x: Ref)
    requires
        isel::is_number(*c, r),
        isel::has_reg(*c, x),
    ensures
        final(ctx)@ == negated(old(ctx)@, *c, r, x),
{
    let out: MCReg = c.slots.get_one(r);
    let from: MCReg = c.slots.get_one(x);
    let size: Size = int_size_of_ref(c, r);
    let op: X86 = negate_op(size);
    ctx.copy(c, r, out, from);
    let target: MCReg = match size {
        Size::S8 | Size::S16 => out,
        _ => from,
    };
    ctx.replace(r, dialect::function(c.isa, op), write_one_reg(op, target));
}

/// A truth value is inverted.
pub open spec fn inverted(s: IselView, c: Context, r: Ref, x: Ref) -> IselView {
    s.copied(c, r, isel::reg(c, r), isel::reg(c, x)).replaced(
        r,
        machine_op(c, X86::xor_ri8),
        reg_and_number(X86::xor_ri8, isel::reg(c, r), 1),
    )
}

fn invert(ctx: &mut IselCtx, c: &Context, r: Ref, x: Ref)
    requires
        isel::has_reg(*c, r),
        isel::has_reg(*c, x),
    ensures
        final(ctx)@ == inverted(old(ctx)@, *c, r, x),
{
    let out: MCReg = c.slots.get_one(r);
    ctx.copy(c, r, out, c.slots.get_one(x));
    let args: Vec<Argument> = write_reg_and_number(X86::xor_ri8, out, 1);
    ctx.replace(r, dialect::function(c.isa, X86::xor_ri8), args);
}

impl InstructionSelector {
    /// The first operand is copied and changed by the second, which can be a number.
    pub open spec fn calculated(
        self,
        s: IselView,
        c: Context,
        r: Ref,
        a: Ref,
        b: Ref,
        ops: IntBinOp,
    ) -> IselView {
        let (op_rr, op_ri) = ops.of_size(isel::size_in(c, r));
        let t = s.copied(c, r, isel::reg(c, r), isel::reg(c, a));
        match self.constant(c, b) {
            Some(x) => t.without_use(c, b).replaced(
                r,
                machine_op(c, op_ri),
                reg_and_number(op_ri, isel::reg(c, r), x as u32),
            ),
            None => t.replaced(
                r,
                machine_op(c, op_rr),
                two_regs(op_rr, isel::reg(c, r), isel::reg(c, b)),
            ),
        }
    }

    /// Numbers fit in an instruction where they have no more than 32 bits. Truth values are
    /// not calculated with.
    pub open spec fn can_calculate(self, c: Context, r: Ref, a: Ref, b: Ref) -> bool {
        &&& isel::is_number(c, r)
        &&& isel::primitive_in(c, r) != Some(Primitive::I1)
        &&& isel::has_reg(c, a)
        &&& match self.constant(c, b) {
            Some(x) => x <= u32::MAX,
            None => isel::has_reg(c, b),
        }
    }

    fn int_bin_op(&self, ctx: &mut IselCtx, c: &Context, r: Ref, a: Ref, b: Ref, ops: IntBinOp)
        requires
            old(ctx)@.fits(*c),
            self.can_calculate(*c, r, a, b),
        ensures
            final(ctx)@ == self.calculated(old(ctx)@, *c, r, a, b, ops),
            final(ctx)@.fits(*c),
    {
        let (op_rr, op_ri) = ops.of_size(int_size_of_ref(c, r));
        let out: MCReg = c.slots.get_one(r);
        ctx.copy(c, r, out, c.slots.get_one(a));
        match self.get_constant(c, b) {
            Some(x) => {
                ctx.remove_use(c, b);
                let args: Vec<Argument> = write_reg_and_number(op_ri, out, x as u32);
                ctx.replace(r, dialect::function(c.isa, op_ri), args);
            },
            None => {
                let args: Vec<Argument> = write_two_regs(op_rr, out, c.slots.get_one(b));
                ctx.replace(r, dialect::function(c.isa, op_rr), args);
            },
        }
    }

    /// A number is multiplied by a constant.
    pub open spec fn multiplied(self, s: IselView, c: Context, r: Ref, a: Ref, b: Ref) -> IselView {
        let x = (self.constant(c, b)->Some_0 % 0x1_0000_0000) as u32;
        let op = X86::imul_rri16;
        let args = regs_and_number(op, isel::reg(c, r), isel::reg(c, a), x);
        if isel::primitive_in(c, r) == Some(Primitive::I8) {
            s.put(r, machine_op(c, op), args).renamed(r)
        } else {
            s.replaced(r, machine_op(c, op), args)
        }
    }

    /// Only small numbers are multiplied so far.
    pub open spec fn can_multiply(self, c: Context, r: Ref, a: Ref, b: Ref) -> bool {
        &&& isel::has_reg(c, r)
        &&& isel::has_reg(c, a)
        &&& self.constant(c, b) is Some
        &&& isel::primitive_in(c, r) == Some(Primitive::I8) || isel::primitive_in(c, r) == Some(
            Primitive::I16,
        )
    }

    fn multiply(&self, ctx: &mut IselCtx, c: &Context, r: Ref, a: Ref, b: Ref)
        requires
            old(ctx)@.fits(*c),
            self.can_multiply(*c, r, a, b),
        ensures
            final(ctx)@ == self.multiplied(old(ctx)@, *c, r, a, b),
            final(ctx)@.fits(*c),
    {
        let x: u64 = self.get_constant(c, b).unwrap();
        let op: X86 = X86::imul_rri16;
        let args: Vec<Argument> = write_regs_and_number(
            op,
            c.slots.get_one(r),
            c.slots.get_one(a),
            (x % 0x1_0000_0000) as u32,
        );
        if primitive_of_ref(c, r) == Primitive::I8 {
            ctx.put(r, dialect::function(c.isa, op), args);
            ctx.rename(r);
        } else {
            ctx.replace(r, dialect::function(c.isa, op), args);
        }
    }
}

/// Two numbers are compared before an instruction.
pub open spec fn compared(s: IselView, c: Context, before: Ref, a: Ref, b: Ref) -> IselView {
    let op = compare_op(isel::size_in(c, a));
    s.put(before, machine_op(c, op), two_regs(op, isel::reg(c, a), isel::reg(c, b)))
}

pub(crate) fn compare(ctx: &mut IselCtx, c: &Context, before: Ref, a: Ref, b: Ref)
    requires
        isel::is_number(*c, a),
        isel::has_reg(*c, b),
    ensures
        final(ctx)@ == compared(old(ctx)@, *c, before, a, b),
{
    let op: X86 = compare_op(int_size_of_ref(c, a));
    let args: Vec<Argument> = write_two_regs(op, c.slots.get_one(a), c.slots.get_one(b));
    ctx.put(before, dialect::function(c.isa, op), args);
}

/// The outcome of a comparison becomes a value.
pub open spec fn outcome_set(
    s: IselView,
    c: Context,
    r: Ref,
    a: Ref,
    b: Ref,
    ops: Comparison,
) -> IselView {
    let op = ops.of_class(isel::arith_class_in(c, a));
    compared(s, c, r, a, b).replaced(r, machine_op(c, op), one_reg(op, isel::reg(c, r)))
}

fn set_outcome(ctx: &mut IselCtx, c: &Context, r: Ref, a: Ref, b: Ref, ops: Comparison)
    requires
        isel::is_number(*c, a),
        isel::has_reg(*c, b),
        isel::has_reg(*c, r),
    ensures
        final(ctx)@ == outcome_set(old(ctx)@, *c, r, a, b, ops),
{
    let (class, _) = arith_class(c, a);
    compare(ctx, c, r, a, b);
    let op: X86 = ops.of_class(class);
    ctx.replace(r, dialect::function(c.isa, op), write_one_reg(op, c.slots.get_one(r)));
}

/// A register is moved to another by an instruction.
pub open spec fn moved(s: IselView, c: Context, r: Ref, op: X86, x: Ref) -> IselView {
    s.replaced(r, machine_op(c, op), two_regs(op, isel::reg(c, r), isel::reg(c, x)))
}

pub(crate) fn move_by(ctx: &mut IselCtx, c: &Context, r: Ref, op: X86, x: Ref)
    requires
        isel::has_reg(*c, r),
        isel::has_reg(*c, x),
    ensures
        final(ctx)@ == moved(old(ctx)@, *c, r, op, x),
{
    let args: Vec<Argument> = write_two_regs(op, c.slots.get_one(r), c.slots.get_one(x));
    ctx.replace(r, dialect::function(c.isa, op), args);
}

/// The value becomes a copy of another.
pub open spec fn copy_made(s: IselView, c: Context, r: Ref, x: Ref) -> IselView {
    s.replaced(
        r,
        dialect::spec_function(c.mc, Mc::Copy),
        machine::read_regs(seq![isel::reg(c, r), isel::reg(c, x)]),
    )
}

pub(crate) fn make_copy(ctx: &mut IselCtx, c: &Context, r: Ref, x: Ref)
    requires
        isel::has_reg(*c, r),
        isel::has_reg(*c, x),
    ensures
        final(ctx)@ == copy_made(old(ctx)@, *c, r, x),
{
    let regs: Vec<MCReg> = vec![c.slots.get_one(r), c.slots.get_one(x)];
    assert(regs@ =~= seq![isel::reg(*c, r), isel::reg(*c, x)]);
    let (function, args, _) = parallel_copy(c.mc, &regs);
    ctx.replace(r, function, args);
}

impl InstructionSelector {
    /// What becomes of an arithmetic instruction.
    pub open spec fn arith_selected(self, s: IselView, c: Context, r: Ref, op: Arith) -> IselView {
        let args = c.args(r);
        let a = arguments::ref_at(args, 0);
        let b = arguments::ref_at(args, 1);
        match (op, int_bin_ops(op), comparison(op)) {
            (_, Some(ops), _) => self.calculated(s, c, r, a, b, ops),
            (_, _, Some(ops)) => outcome_set(s, c, r, a, b, ops),
            (Arith::Int, _, _) => number_set(s, c, r, arguments::int_at(args, 0)),
            (Arith::Neg, _, _) => negated(s, c, r, a),
            (Arith::Not, _, _) => inverted(s, c, r, a),
            (Arith::Mul, _, _) => self.multiplied(s, c, r, a, b),
            (Arith::CastInt, _, _) => moved(
                s,
                c,
                r,
                cast_op(isel::arith_class_in(c, a), isel::size_in(c, a), isel::size_in(c, r)),
                a,
            ),
            _ => s,
        }
    }

    /// Floating point numbers, divisions and shifts are not selected so far. A comparison by
    /// `LT` has to be used.
    pub open spec fn can_select_arith(self, s: IselView, c: Context, r: Ref, op: Arith) -> bool {
        let args = c.args(r);
        let a = arguments::ref_at(args, 0);
        let b = arguments::ref_at(args, 1);
        match (op, int_bin_ops(op), comparison(op)) {
            (_, Some(_), _) => self.can_calculate(c, r, a, b),
            (_, _, Some(_)) => isel::is_number(c, a) && isel::has_reg(c, b) && isel::has_reg(c, r) && (op is LT
                ==> s.use_count(r) > 0),
            (Arith::Int, _, _) => isel::is_number(c, r) && (isel::size_in(c, r) is S64 ==> arguments::int_at(args, 0)
                <= u32::MAX),
            (Arith::Neg, _, _) => isel::is_number(c, r) && isel::has_reg(c, a),
            (Arith::Not, _, _) => isel::has_reg(c, r) && isel::has_reg(c, a),
            (Arith::Mul, _, _) => self.can_multiply(c, r, a, b),
            (Arith::CastInt, _, _) => isel::is_number(c, a) && isel::is_number(c, r),
            _ => false,
        }
    }

    pub(crate) fn select_arith(&self, ctx: &mut IselCtx, c: &Context, r: Ref, op: Arith)
        requires
            old(ctx)@.fits(*c),
            c.has_call(r),
            self.can_select_arith(old(ctx)@, *c, r, op),
        ensures
            final(ctx)@ == self.arith_selected(old(ctx)@, *c, r, op),
            final(ctx)@.fits(*c),
    {
        let args: Vec<Argument> = args_of(c, r);
        let a: Ref = get_ref(&args, 0);
        let b: Ref = get_ref(&args, 1);
        if let Some(ops) = int_bin_ops(op) {
            self.int_bin_op(ctx, c, r, a, b, ops);
            return;
        }
        if let Some(ops) = comparison(op) {
            set_outcome(ctx, c, r, a, b, ops);
            return;
        }
        match op {
            Arith::Int => {
                set_number(ctx, c, r, get_int(&args, 0));
            },
            Arith::Neg => {
                negate(ctx, c, r, a);
            },
            Arith::Not => {
                invert(ctx, c, r, a);
            },
            Arith::Mul => {
                self.multiply(ctx, c, r, a, b);
            },
            Arith::CastInt => {
                let (class, from) = arith_class(c, a);
                let to: Size = int_size_of_ref(c, r);
                move_by(ctx, c, r, cast_op(class, from, to), a);
            },
            _ => {},
        }
    }
}

} // verus!
