//! Emitting single instructions.
use vstd::prelude::*;

use crate::backend::bytes;
use crate::backend::bytes::{bits_of_i32, push_all, push_u32};
use crate::backend::emit::{EmitState, Emitter, Relocation};
use crate::backend::size::Size;
use crate::backend::x86::encode;
use crate::backend::x86::encode::{
    disp32, encode_reg, inst_mr, inst_opcode_reg, inst_r, inst_ri, inst_ri32, inst_ri_modrm,
    inst_rm, inst_rr_generic_inner, inst_rri, mov_rr, one_byte, EncodedReg, Mem, Opcode, P16,
};
use crate::backend::x86::isa::{Reg, RegClass, X86};
use crate::ir::ids::{BlockId, FunctionId, GlobalId};

verus! {

/// The operands of an instruction.
#[derive(Clone, Copy, Debug, PartialEq, Eq, Structural)]
pub enum Operands {
    Empty,
    Reg(Reg),
    RegReg(Reg, Reg),
    RegImm(Reg, u32),
    RegRegImm(Reg, Reg, u32),
    RegMem(Reg, Mem),
    MemReg(Mem, Reg),
    Block(BlockId),
    RegFunction(Reg, FunctionId),
    RegGlobal(Reg, GlobalId),
    Function(FunctionId),
}

/// The ways in which instructions are written.
#[derive(Clone, Copy, Debug, PartialEq, Eq, Structural)]
pub enum Form {
    OneByte(u8),
    TwoBytes(u8, u8),
    /// Two registers; the first one stands in the place that can also be memory,
    /// unless they are swapped.
    Rr { size: Size, opcode_8: u8, code: Opcode, swap: bool },
    /// Arithmetic with an immediate. The extension tells the operation.
    Ri { size: Size, extension: u8 },
    Shift { size: Size, extension: u8 },
    MovRi(Size),
    R { size: Size, opcode_8: u8, code: Opcode, extension: u8 },
    /// The register is part of the opcode.
    OpcodeReg(u8),
    CallR,
    Rm { size: Size, opcode_8: u8, opcode: u8 },
    Mr { size: Size, opcode_8: u8, opcode: u8 },
    Rri { size: Size, opcode: u8 },
    Jmp,
    /// A jump on a condition.
    Jcc(u8),
    LeaFunction,
    LeaGlobal,
    CallFunction,
}

impl X86 {
    /// How the instruction is written.
    pub open spec fn spec_form(self) -> Form {
        match self {
            X86::or_rr8 => Form::Rr { size: Size::S8, opcode_8: 0x08, code: Opcode { escape: false, byte: 0x09 }, swap: false },
            X86::or_rr16 => Form::Rr { size: Size::S16, opcode_8: 0x08, code: Opcode { escape: false, byte: 0x09 }, swap: false },
            X86::or_rr32 => Form::Rr { size: Size::S32, opcode_8: 0x08, code: Opcode { escape: false, byte: 0x09 }, swap: false },
            X86::or_rr64 => Form::Rr { size: Size::S64, opcode_8: 0x08, code: Opcode { escape: false, byte: 0x09 }, swap: false },
            X86::or_ri8 => Form::Ri { size: Size::S8, extension: 1 },
            X86::or_ri16 => Form::Ri { size: Size::S16, extension: 1 },
            X86::or_ri32 => Form::Ri { size: Size::S32, extension: 1 },
            X86::or_ri64 => Form::Ri { size: Size::S64, extension: 1 },
            X86::and_rr8 => Form::Rr { size: Size::S8, opcode_8: 0x20, code: Opcode { escape: false, byte: 0x21 }, swap: false },
            X86::and_rr16 => Form::Rr { size: Size::S16, opcode_8: 0x20, code: Opcode { escape: false, byte: 0x21 }, swap: false },
            X86::and_rr32 => Form::Rr { size: Size::S32, opcode_8: 0x20, code: Opcode { escape: false, byte: 0x21 }, swap: false },
            X86::and_rr64 => Form::Rr { size: Size::S64, opcode_8: 0x20, code: Opcode { escape: false, byte: 0x21 }, swap: false },
            X86::and_ri8 => Form::Ri { size: Size::S8, extension: 4 },
            X86::and_ri16 => Form::Ri { size: Size::S16, extension: 4 },
            X86::and_ri32 => Form::Ri { size: Size::S32, extension: 4 },
            X86::and_ri64 => Form::Ri { size: Size::S64, extension: 4 },
            X86::push_r64 => Form::OpcodeReg(0x50),
            X86::pop_r64 => Form::OpcodeReg(0x58),
            X86::mov_ri8 => Form::MovRi(Size::S8),
            X86::mov_ri16 => Form::MovRi(Size::S16),
            X86::mov_ri32 => Form::MovRi(Size::S32),
            X86::mov_ri64 => Form::MovRi(Size::S64),
            X86::mov_rr8 => Form::Rr { size: Size::S8, opcode_8: 0x88, code: Opcode { escape: false, byte: 0x89 }, swap: false },
            X86::mov_rr16 => Form::Rr { size: Size::S16, opcode_8: 0x88, code: Opcode { escape: false, byte: 0x89 }, swap: false },
            X86::mov_rr32 => Form::Rr { size: Size::S32, opcode_8: 0x88, code: Opcode { escape: false, byte: 0x89 }, swap: false },
            X86::mov_rr64 => Form::Rr { size: Size::S64, opcode_8: 0x88, code: Opcode { escape: false, byte: 0x89 }, swap: false },
            X86::mov_rm8 => Form::Rm { size: Size::S8, opcode_8: 0x8A, opcode: 0x8B },
            X86::mov_rm16 => Form::Rm { size: Size::S16, opcode_8: 0x8A, opcode: 0x8B },
            X86::mov_rm32 => Form::Rm { size: Size::S32, opcode_8: 0x8A, opcode: 0x8B },
            X86::mov_rm64 => Form::Rm { size: Size::S64, opcode_8: 0x8A, opcode: 0x8B },
            X86::mov_mr8 => Form::Mr { size: Size::S8, opcode_8: 0x88, opcode: 0x89 },
            X86::mov_mr16 => Form::Mr { size: Size::S16, opcode_8: 0x88, opcode: 0x89 },
            X86::mov_mr32 => Form::Mr { size: Size::S32, opcode_8: 0x88, opcode: 0x89 },
            X86::mov_mr64 => Form::Mr { size: Size::S64, opcode_8: 0x88, opcode: 0x89 },
            X86::ret0
            | X86::ret64
            | X86::ret128 => Form::OneByte(0xC3),
            X86::jmp => Form::Jmp,
            X86::je => Form::Jcc(0x04),
            X86::jne => Form::Jcc(0x05),
            X86::jl => Form::Jcc(0x0C),
            X86::jge => Form::Jcc(0x0D),
            X86::jle => Form::Jcc(0x0E),
            X86::jg => Form::Jcc(0x0F),
            X86::seto => Form::R { size: Size::S32, opcode_8: 0x00, code: Opcode { escape: true, byte: 0x90 }, extension: 0 },
            X86::setno => Form::R { size: Size::S32, opcode_8: 0x00, code: Opcode { escape: true, byte: 0x91 }, extension: 0 },
            X86::setc => Form::R { size: Size::S32, opcode_8: 0x00, code: Opcode { escape: true, byte: 0x92 }, extension: 0 },
            X86::setnc => Form::R { size: Size::S32, opcode_8: 0x00, code: Opcode { escape: true, byte: 0x93 }, extension: 0 },
            X86::sete => Form::R { size: Size::S32, opcode_8: 0x00, code: Opcode { escape: true, byte: 0x94 }, extension: 0 },
            X86::setne => Form::R { size: Size::S32, opcode_8: 0x00, code: Opcode { escape: true, byte: 0x95 }, extension: 0 },
            X86::setbe => Form::R { size: Size::S32, opcode_8: 0x00, code: Opcode { escape: true, byte: 0x96 }, extension: 0 },
            X86::seta => Form::R { size: Size::S32, opcode_8: 0x00, code: Opcode { escape: true, byte: 0x97 }, extension: 0 },
            X86::sets => Form::R { size: Size::S32, opcode_8: 0x00, code: Opcode { escape: true, byte: 0x98 }, extension: 0 },
            X86::setns => Form::R { size: Size::S32, opcode_8: 0x00, code: Opcode { escape: true, byte: 0x99 }, extension: 0 },
            X86::setp => Form::R { size: Size::S32, opcode_8: 0x00, code: Opcode { escape: true, byte: 0x9A }, extension: 0 },
            X86::setnp => Form::R { size: Size::S32, opcode_8: 0x00, code: Opcode { escape: true, byte: 0x9B }, extension: 0 },
            X86::setl => Form::R { size: Size::S32, opcode_8: 0x00, code: Opcode { escape: true, byte: 0x9C }, extension: 0 },
            X86::setge => Form::R { size: Size::S32, opcode_8: 0x00, code: Opcode { escape: true, byte: 0x9D }, extension: 0 },
            X86::setle => Form::R { size: Size::S32, opcode_8: 0x00, code: Opcode { escape: true, byte: 0x9E }, extension: 0 },
            X86::setg => Form::R { size: Size::S32, opcode_8: 0x00, code: Opcode { escape: true, byte: 0x9F }, extension: 0 },
            X86::cmp_rr8 => Form::Rr { size: Size::S8, opcode_8: 0x3A, code: Opcode { escape: false, byte: 0x3B }, swap: true },
            X86::cmp_rr16 => Form::Rr { size: Size::S16, opcode_8: 0x3A, code: Opcode { escape: false, byte: 0x3B }, swap: true },
            X86::cmp_rr32 => Form::Rr { size: Size::S32, opcode_8: 0x3A, code: Opcode { escape: false, byte: 0x3B }, swap: true },
            X86::cmp_rr64 => Form::Rr { size: Size::S64, opcode_8: 0x3A, code: Opcode { escape: false, byte: 0x3B }, swap: true },
            X86::test_rr8 => Form::Rr { size: Size::S8, opcode_8: 0x84, code: Opcode { escape: false, byte: 0x84 }, swap: false },
            X86::add_rr8 => Form::Rr { size: Size::S8, opcode_8: 0x00, code: Opcode { escape: false, byte: 0x01 }, swap: false },
            X86::add_rr16 => Form::Rr { size: Size::S16, opcode_8: 0x00, code: Opcode { escape: false, byte: 0x01 }, swap: false },
            X86::add_rr32 => Form::Rr { size: Size::S32, opcode_8: 0x00, code: Opcode { escape: false, byte: 0x01 }, swap: false },
            X86::add_rr64 => Form::Rr { size: Size::S64, opcode_8: 0x00, code: Opcode { escape: false, byte: 0x01 }, swap: false },
            X86::add_ri8 => Form::Ri { size: Size::S8, extension: 0 },
            X86::add_ri16 => Form::Ri { size: Size::S16, extension: 0 },
            X86::add_ri32 => Form::Ri { size: Size::S32, extension: 0 },
            X86::add_ri64 => Form::Ri { size: Size::S64, extension: 0 },
            X86::sub_rr8 => Form::Rr { size: Size::S8, opcode_8: 0x28, code: Opcode { escape: false, byte: 0x29 }, swap: false },
            X86::sub_rr16 => Form::Rr { size: Size::S16, opcode_8: 0x28, code: Opcode { escape: false, byte: 0x29 }, swap: false },
            X86::sub_rr32 => Form::Rr { size: Size::S32, opcode_8: 0x28, code: Opcode { escape: false, byte: 0x29 }, swap: false },
            X86::sub_rr64 => Form::Rr { size: Size::S64, opcode_8: 0x28, code: Opcode { escape: false, byte: 0x29 }, swap: false },
            X86::sub_ri8 => Form::Ri { size: Size::S8, extension: 5 },
            X86::sub_ri16 => Form::Ri { size: Size::S16, extension: 5 },
            X86::sub_ri32 => Form::Ri { size: Size::S32, extension: 5 },
            X86::sub_ri64 => Form::Ri { size: Size::S64, extension: 5 },
            X86::imul_r8 => Form::R { size: Size::S8, opcode_8: 0xF6, code: Opcode { escape: false, byte: 0xF7 }, extension: 5 },
            X86::imul_rr16 => Form::Rr { size: Size::S16, opcode_8: 0xAF, code: Opcode { escape: true, byte: 0xAF }, swap: false },
            X86::imul_rr32 => Form::Rr { size: Size::S32, opcode_8: 0xAF, code: Opcode { escape: true, byte: 0xAF }, swap: false },
            X86::imul_rr64 => Form::Rr { size: Size::S64, opcode_8: 0xAF, code: Opcode { escape: true, byte: 0xAF }, swap: false },
            X86::imul_rri16 => Form::Rri { size: Size::S16, opcode: 0x69 },
            X86::imul_rri32 => Form::Rri { size: Size::S32, opcode: 0x69 },
            X86::imul_rri64 => Form::Rri { size: Size::S64, opcode: 0x69 },
            X86::cbw => Form::OneByte(0x98),
            X86::cwd => Form::TwoBytes(0x66, 0x99),
            X86::cdq => Form::OneByte(0x99),
            X86::cqo => Form::TwoBytes(0x48, 0x99),
            X86::div_r8 => Form::R { size: Size::S8, opcode_8: 0xF6, code: Opcode { escape: false, byte: 0xF7 }, extension: 6 },
            X86::div_r16 => Form::R { size: Size::S16, opcode_8: 0xF6, code: Opcode { escape: false, byte: 0xF7 }, extension: 6 },
            X86::div_r32 => Form::R { size: Size::S32, opcode_8: 0xF6, code: Opcode { escape: false, byte: 0xF7 }, extension: 6 },
            X86::div_r64 => Form::R { size: Size::S64, opcode_8: 0xF6, code: Opcode { escape: false, byte: 0xF7 }, extension: 6 },
            X86::idiv_r8 => Form::R { size: Size::S8, opcode_8: 0xF6, code: Opcode { escape: false, byte: 0xF7 }, extension: 7 },
            X86::idiv_r16 => Form::R { size: Size::S16, opcode_8: 0xF6, code: Opcode { escape: false, byte: 0xF7 }, extension: 7 },
            X86::idiv_r32 => Form::R { size: Size::S32, opcode_8: 0xF6, code: Opcode { escape: false, byte: 0xF7 }, extension: 7 },
            X86::idiv_r64 => Form::R { size: Size::S64, opcode_8: 0xF6, code: Opcode { escape: false, byte: 0xF7 }, extension: 7 },
            X86::shl_ri8 => Form::Shift { size: Size::S8, extension: 4 },
            X86::shl_ri16 => Form::Shift { size: Size::S16, extension: 4 },
            X86::shl_ri32 => Form::Shift { size: Size::S32, extension: 4 },
            X86::shl_ri64 => Form::Shift { size: Size::S64, extension: 4 },
            X86::shr_ri8 => Form::Shift { size: Size::S8, extension: 5 },
            X86::shr_ri16 => Form::Shift { size: Size::S16, extension: 5 },
            X86::shr_ri32 => Form::Shift { size: Size::S32, extension: 5 },
            X86::shr_ri64 => Form::Shift { size: Size::S64, extension: 5 },
            X86::neg_r8 => Form::R { size: Size::S8, opcode_8: 0xF6, code: Opcode { escape: false, byte: 0xF7 }, extension: 3 },
            X86::neg_r16 => Form::R { size: Size::S16, opcode_8: 0xF6, code: Opcode { escape: false, byte: 0xF7 }, extension: 3 },
            X86::neg_r32 => Form::R { size: Size::S32, opcode_8: 0xF6, code: Opcode { escape: false, byte: 0xF7 }, extension: 3 },
            X86::neg_r64 => Form::R { size: Size::S64, opcode_8: 0xF6, code: Opcode { escape: false, byte: 0xF7 }, extension: 3 },
            X86::xor_rr8 => Form::Rr { size: Size::S8, opcode_8: 0x30, code: Opcode { escape: false, byte: 0x31 }, swap: false },
            X86::xor_rr16 => Form::Rr { size: Size::S16, opcode_8: 0x30, code: Opcode { escape: false, byte: 0x31 }, swap: false },
            X86::xor_rr32 => Form::Rr { size: Size::S32, opcode_8: 0x30, code: Opcode { escape: false, byte: 0x31 }, swap: false },
            X86::xor_rr64 => Form::Rr { size: Size::S64, opcode_8: 0x30, code: Opcode { escape: false, byte: 0x31 }, swap: false },
            X86::xor_ri8 => Form::Ri { size: Size::S8, extension: 6 },
            X86::xor_ri16 => Form::Ri { size: Size::S16, extension: 6 },
            X86::xor_ri32 => Form::Ri { size: Size::S32, extension: 6 },
            X86::xor_ri64 => Form::Ri { size: Size::S64, extension: 6 },
            X86::lea_rm32 => Form::Rm { size: Size::S32, opcode_8: 0x00, opcode: 0x8D },
            X86::lea_rm64 => Form::Rm { size: Size::S64, opcode_8: 0x00, opcode: 0x8D },
            X86::lea_function => Form::LeaFunction,
            X86::lea_global => Form::LeaGlobal,
            X86::call_function => Form::CallFunction,
            X86::call_r64 => Form::CallR,
            X86::movsx16_rr8 => Form::Rr { size: Size::S16, opcode_8: 0x00, code: Opcode { escape: true, byte: 0xBE }, swap: true },
            X86::movsx32_rr8 => Form::Rr { size: Size::S32, opcode_8: 0x00, code: Opcode { escape: true, byte: 0xBE }, swap: true },
            X86::movsx64_rr8 => Form::Rr { size: Size::S64, opcode_8: 0x00, code: Opcode { escape: true, byte: 0xBE }, swap: true },
            X86::movsx32_rr16 => Form::Rr { size: Size::S32, opcode_8: 0x00, code: Opcode { escape: true, byte: 0xBF }, swap: true },
            X86::movsx64_rr16 => Form::Rr { size: Size::S64, opcode_8: 0x00, code: Opcode { escape: true, byte: 0xBF }, swap: true },
            X86::movsx64_rr32 => Form::Rr { size: Size::S64, opcode_8: 0x00, code: Opcode { escape: false, byte: 0x63 }, swap: true },
            X86::movzx16_rr8 => Form::Rr { size: Size::S16, opcode_8: 0x00, code: Opcode { escape: true, byte: 0xB6 }, swap: true },
            X86::movzx32_rr8 => Form::Rr { size: Size::S32, opcode_8: 0x00, code: Opcode { escape: true, byte: 0xB6 }, swap: true },
            X86::movzx32_rr16 => Form::Rr { size: Size::S32, opcode_8: 0x00, code: Opcode { escape: true, byte: 0xB7 }, swap: true },
        }
    }

    pub fn form(self) -> (form: Form)
        ensures
            form == self.spec_form(),
    {
        match self {
            X86::or_rr8 => Form::Rr { size: Size::S8, opcode_8: 0x08, code: Opcode { escape: false, byte: 0x09 }, swap: false },
            X86::or_rr16 => Form::Rr { size: Size::S16, opcode_8: 0x08, code: Opcode { escape: false, byte: 0x09 }, swap: false },
            X86::or_rr32 => Form::Rr { size: Size::S32, opcode_8: 0x08, code: Opcode { escape: false, byte: 0x09 }, swap: false },
            X86::or_rr64 => Form::Rr { size: Size::S64, opcode_8: 0x08, code: Opcode { escape: false, byte: 0x09 }, swap: false },
            X86::or_ri8 => Form::Ri { size: Size::S8, extension: 1 },
            X86::or_ri16 => Form::Ri { size: Size::S16, extension: 1 },
            X86::or_ri32 => Form::Ri { size: Size::S32, extension: 1 },
            X86::or_ri64 => Form::Ri { size: Size::S64, extension: 1 },
            X86::and_rr8 => Form::Rr { size: Size::S8, opcode_8: 0x20, code: Opcode { escape: false, byte: 0x21 }, swap: false },
            X86::and_rr16 => Form::Rr { size: Size::S16, opcode_8: 0x20, code: Opcode { escape: false, byte: 0x21 }, swap: false },
            X86::and_rr32 => Form::Rr { size: Size::S32, opcode_8: 0x20, code: Opcode { escape: false, byte: 0x21 }, swap: false },
            X86::and_rr64 => Form::Rr { size: Size::S64, opcode_8: 0x20, code: Opcode { escape: false, byte: 0x21 }, swap: false },
            X86::and_ri8 => Form::Ri { size: Size::S8, extension: 4 },
            X86::and_ri16 => Form::Ri { size: Size::S16, extension: 4 },
            X86::and_ri32 => Form::Ri { size: Size::S32, extension: 4 },
            X86::and_ri64 => Form::Ri { size: Size::S64, extension: 4 },
            X86::push_r64 => Form::OpcodeReg(0x50),
            X86::pop_r64 => Form::OpcodeReg(0x58),
            X86::mov_ri8 => Form::MovRi(Size::S8),
            X86::mov_ri16 => Form::MovRi(Size::S16),
            X86::mov_ri32 => Form::MovRi(Size::S32),
            X86::mov_ri64 => Form::MovRi(Size::S64),
            X86::mov_rr8 => Form::Rr { size: Size::S8, opcode_8: 0x88, code: Opcode { escape: false, byte: 0x89 }, swap: false },
            X86::mov_rr16 => Form::Rr { size: Size::S16, opcode_8: 0x88, code: Opcode { escape: false, byte: 0x89 }, swap: false },
            X86::mov_rr32 => Form::Rr { size: Size::S32, opcode_8: 0x88, code: Opcode { escape: false, byte: 0x89 }, swap: false },
            X86::mov_rr64 => Form::Rr { size: Size::S64, opcode_8: 0x88, code: Opcode { escape: false, byte: 0x89 }, swap: false },
            X86::mov_rm8 => Form::Rm { size: Size::S8, opcode_8: 0x8A, opcode: 0x8B },
            X86::mov_rm16 => Form::Rm { size: Size::S16, opcode_8: 0x8A, opcode: 0x8B },
            X86::mov_rm32 => Form::Rm { size: Size::S32, opcode_8: 0x8A, opcode: 0x8B },
            X86::mov_rm64 => Form::Rm { size: Size::S64, opcode_8: 0x8A, opcode: 0x8B },
            X86::mov_mr8 => Form::Mr { size: Size::S8, opcode_8: 0x88, opcode: 0x89 },
            X86::mov_mr16 => Form::Mr { size: Size::S16, opcode_8: 0x88, opcode: 0x89 },
            X86::mov_mr32 => Form::Mr { size: Size::S32, opcode_8: 0x88, opcode: 0x89 },
            X86::mov_mr64 => Form::Mr { size: Size::S64, opcode_8: 0x88, opcode: 0x89 },
            X86::ret0
            | X86::ret64
            | X86::ret128 => Form::OneByte(0xC3),
            X86::jmp => Form::Jmp,
            X86::je => Form::Jcc(0x04),
            X86::jne => Form::Jcc(0x05),
            X86::jl => Form::Jcc(0x0C),
            X86::jge => Form::Jcc(0x0D),
            X86::jle => Form::Jcc(0x0E),
            X86::jg => Form::Jcc(0x0F),
            X86::seto => Form::R { size: Size::S32, opcode_8: 0x00, code: Opcode { escape: true, byte: 0x90 }, extension: 0 },
            X86::setno => Form::R { size: Size::S32, opcode_8: 0x00, code: Opcode { escape: true, byte: 0x91 }, extension: 0 },
            X86::setc => Form::R { size: Size::S32, opcode_8: 0x00, code: Opcode { escape: true, byte: 0x92 }, extension: 0 },
            X86::setnc => Form::R { size: Size::S32, opcode_8: 0x00, code: Opcode { escape: true, byte: 0x93 }, extension: 0 },
            X86::sete => Form::R { size: Size::S32, opcode_8: 0x00, code: Opcode { escape: true, byte: 0x94 }, extension: 0 },
            X86::setne => Form::R { size: Size::S32, opcode_8: 0x00, code: Opcode { escape: true, byte: 0x95 }, extension: 0 },
            X86::setbe => Form::R { size: Size::S32, opcode_8: 0x00, code: Opcode { escape: true, byte: 0x96 }, extension: 0 },
            X86::seta => Form::R { size: Size::S32, opcode_8: 0x00, code: Opcode { escape: true, byte: 0x97 }, extension: 0 },
            X86::sets => Form::R { size: Size::S32, opcode_8: 0x00, code: Opcode { escape: true, byte: 0x98 }, extension: 0 },
            X86::setns => Form::R { size: Size::S32, opcode_8: 0x00, code: Opcode { escape: true, byte: 0x99 }, extension: 0 },
            X86::setp => Form::R { size: Size::S32, opcode_8: 0x00, code: Opcode { escape: true, byte: 0x9A }, extension: 0 },
            X86::setnp => Form::R { size: Size::S32, opcode_8: 0x00, code: Opcode { escape: true, byte: 0x9B }, extension: 0 },
            X86::setl => Form::R { size: Size::S32, opcode_8: 0x00, code: Opcode { escape: true, byte: 0x9C }, extension: 0 },
            X86::setge => Form::R { size: Size::S32, opcode_8: 0x00, code: Opcode { escape: true, byte: 0x9D }, extension: 0 },
            X86::setle => Form::R { size: Size::S32, opcode_8: 0x00, code: Opcode { escape: true, byte: 0x9E }, extension: 0 },
            X86::setg => Form::R { size: Size::S32, opcode_8: 0x00, code: Opcode { escape: true, byte: 0x9F }, extension: 0 },
            X86::cmp_rr8 => Form::Rr { size: Size::S8, opcode_8: 0x3A, code: Opcode { escape: false, byte: 0x3B }, swap: true },
            X86::cmp_rr16 => Form::Rr { size: Size::S16, opcode_8: 0x3A, code: Opcode { escape: false, byte: 0x3B }, swap: true },
            X86::cmp_rr32 => Form::Rr { size: Size::S32, opcode_8: 0x3A, code: Opcode { escape: false, byte: 0x3B }, swap: true },
            X86::cmp_rr64 => Form::Rr { size: Size::S64, opcode_8: 0x3A, code: Opcode { escape: false, byte: 0x3B }, swap: true },
            X86::test_rr8 => Form::Rr { size: Size::S8, opcode_8: 0x84, code: Opcode { escape: false, byte: 0x84 }, swap: false },
            X86::add_rr8 => Form::Rr { size: Size::S8, opcode_8: 0x00, code: Opcode { escape: false, byte: 0x01 }, swap: false },
            X86::add_rr16 => Form::Rr { size: Size::S16, opcode_8: 0x00, code: Opcode { escape: false, byte: 0x01 }, swap: false },
            X86::add_rr32 => Form::Rr { size: Size::S32, opcode_8: 0x00, code: Opcode { escape: false, byte: 0x01 }, swap: false },
            X86::add_rr64 => Form::Rr { size: Size::S64, opcode_8: 0x00, code: Opcode { escape: false, byte: 0x01 }, swap: false },
            X86::add_ri8 => Form::Ri { size: Size::S8, extension: 0 },
            X86::add_ri16 => Form::Ri { size: Size::S16, extension: 0 },
            X86::add_ri32 => Form::Ri { size: Size::S32, extension: 0 },
            X86::add_ri64 => Form::Ri { size: Size::S64, extension: 0 },
            X86::sub_rr8 => Form::Rr { size: Size::S8, opcode_8: 0x28, code: Opcode { escape: false, byte: 0x29 }, swap: false },
            X86::sub_rr16 => Form::Rr { size: Size::S16, opcode_8: 0x28, code: Opcode { escape: false, byte: 0x29 }, swap: false },
            X86::sub_rr32 => Form::Rr { size: Size::S32, opcode_8: 0x28, code: Opcode { escape: false, byte: 0x29 }, swap: false },
            X86::sub_rr64 => Form::Rr { size: Size::S64, opcode_8: 0x28, code: Opcode { escape: false, byte: 0x29 }, swap: false },
            X86::sub_ri8 => Form::Ri { size: Size::S8, extension: 5 },
            X86::sub_ri16 => Form::Ri { size: Size::S16, extension: 5 },
            X86::sub_ri32 => Form::Ri { size: Size::S32, extension: 5 },
            X86::sub_ri64 => Form::Ri { size: Size::S64, extension: 5 },
            X86::imul_r8 => Form::R { size: Size::S8, opcode_8: 0xF6, code: Opcode { escape: false, byte: 0xF7 }, extension: 5 },
            X86::imul_rr16 => Form::Rr { size: Size::S16, opcode_8: 0xAF, code: Opcode { escape: true, byte: 0xAF }, swap: false },
            X86::imul_rr32 => Form::Rr { size: Size::S32, opcode_8: 0xAF, code: Opcode { escape: true, byte: 0xAF }, swap: false },
            X86::imul_rr64 => Form::Rr { size: Size::S64, opcode_8: 0xAF, code: Opcode { escape: true, byte: 0xAF }, swap: false },
            X86::imul_rri16 => Form::Rri { size: Size::S16, opcode: 0x69 },
            X86::imul_rri32 => Form::Rri { size: Size::S32, opcode: 0x69 },
            X86::imul_rri64 => Form::Rri { size: Size::S64, opcode: 0x69 },
            X86::cbw => Form::OneByte(0x98),
            X86::cwd => Form::TwoBytes(0x66, 0x99),
            X86::cdq => Form::OneByte(0x99),
            X86::cqo => Form::TwoBytes(0x48, 0x99),
            X86::div_r8 => Form::R { size: Size::S8, opcode_8: 0xF6, code: Opcode { escape: false, byte: 0xF7 }, extension: 6 },
            X86::div_r16 => Form::R { size: Size::S16, opcode_8: 0xF6, code: Opcode { escape: false, byte: 0xF7 }, extension: 6 },
            X86::div_r32 => Form::R { size: Size::S32, opcode_8: 0xF6, code: Opcode { escape: false, byte: 0xF7 }, extension: 6 },
            X86::div_r64 => Form::R { size: Size::S64, opcode_8: 0xF6, code: Opcode { escape: false, byte: 0xF7 }, extension: 6 },
            X86::idiv_r8 => Form::R { size: Size::S8, opcode_8: 0xF6, code: Opcode { escape: false, byte: 0xF7 }, extension: 7 },
            X86::idiv_r16 => Form::R { size: Size::S16, opcode_8: 0xF6, code: Opcode { escape: false, byte: 0xF7 }, extension: 7 },
            X86::idiv_r32 => Form::R { size: Size::S32, opcode_8: 0xF6, code: Opcode { escape: false, byte: 0xF7 }, extension: 7 },
            X86::idiv_r64 => Form::R { size: Size::S64, opcode_8: 0xF6, code: Opcode { escape: false, byte: 0xF7 }, extension: 7 },
            X86::shl_ri8 => Form::Shift { size: Size::S8, extension: 4 },
            X86::shl_ri16 => Form::Shift { size: Size::S16, extension: 4 },
            X86::shl_ri32 => Form::Shift { size: Size::S32, extension: 4 },
            X86::shl_ri64 => Form::Shift { size: Size::S64, extension: 4 },
            X86::shr_ri8 => Form::Shift { size: Size::S8, extension: 5 },
            X86::shr_ri16 => Form::Shift { size: Size::S16, extension: 5 },
            X86::shr_ri32 => Form::Shift { size: Size::S32, extension: 5 },
            X86::shr_ri64 => Form::Shift { size: Size::S64, extension: 5 },
            X86::neg_r8 => Form::R { size: Size::S8, opcode_8: 0xF6, code: Opcode { escape: false, byte: 0xF7 }, extension: 3 },
            X86::neg_r16 => Form::R { size: Size::S16, opcode_8: 0xF6, code: Opcode { escape: false, byte: 0xF7 }, extension: 3 },
            X86::neg_r32 => Form::R { size: Size::S32, opcode_8: 0xF6, code: Opcode { escape: false, byte: 0xF7 }, extension: 3 },
            X86::neg_r64 => Form::R { size: Size::S64, opcode_8: 0xF6, code: Opcode { escape: false, byte: 0xF7 }, extension: 3 },
            X86::xor_rr8 => Form::Rr { size: Size::S8, opcode_8: 0x30, code: Opcode { escape: false, byte: 0x31 }, swap: false },
            X86::xor_rr16 => Form::Rr { size: Size::S16, opcode_8: 0x30, code: Opcode { escape: false, byte: 0x31 }, swap: false },
            X86::xor_rr32 => Form::Rr { size: Size::S32, opcode_8: 0x30, code: Opcode { escape: false, byte: 0x31 }, swap: false },
            X86::xor_rr64 => Form::Rr { size: Size::S64, opcode_8: 0x30, code: Opcode { escape: false, byte: 0x31 }, swap: false },
            X86::xor_ri8 => Form::Ri { size: Size::S8, extension: 6 },
            X86::xor_ri16 => Form::Ri { size: Size::S16, extension: 6 },
            X86::xor_ri32 => Form::Ri { size: Size::S32, extension: 6 },
            X86::xor_ri64 => Form::Ri { size: Size::S64, extension: 6 },
            X86::lea_rm32 => Form::Rm { size: Size::S32, opcode_8: 0x00, opcode: 0x8D },
            X86::lea_rm64 => Form::Rm { size: Size::S64, opcode_8: 0x00, opcode: 0x8D },
            X86::lea_function => Form::LeaFunction,
            X86::lea_global => Form::LeaGlobal,
            X86::call_function => Form::CallFunction,
            X86::call_r64 => Form::CallR,
            X86::movsx16_rr8 => Form::Rr { size: Size::S16, opcode_8: 0x00, code: Opcode { escape: true, byte: 0xBE }, swap: true },
            X86::movsx32_rr8 => Form::Rr { size: Size::S32, opcode_8: 0x00, code: Opcode { escape: true, byte: 0xBE }, swap: true },
            X86::movsx64_rr8 => Form::Rr { size: Size::S64, opcode_8: 0x00, code: Opcode { escape: true, byte: 0xBE }, swap: true },
            X86::movsx32_rr16 => Form::Rr { size: Size::S32, opcode_8: 0x00, code: Opcode { escape: true, byte: 0xBF }, swap: true },
            X86::movsx64_rr16 => Form::Rr { size: Size::S64, opcode_8: 0x00, code: Opcode { escape: true, byte: 0xBF }, swap: true },
            X86::movsx64_rr32 => Form::Rr { size: Size::S64, opcode_8: 0x00, code: Opcode { escape: false, byte: 0x63 }, swap: true },
            X86::movzx16_rr8 => Form::Rr { size: Size::S16, opcode_8: 0x00, code: Opcode { escape: true, byte: 0xB6 }, swap: true },
            X86::movzx32_rr8 => Form::Rr { size: Size::S32, opcode_8: 0x00, code: Opcode { escape: true, byte: 0xB6 }, swap: true },
            X86::movzx32_rr16 => Form::Rr { size: Size::S32, opcode_8: 0x00, code: Opcode { escape: true, byte: 0xB7 }, swap: true },
        }
    }
}

/// An instruction with a fixed width is written in that width.
pub proof fn forms_have_the_size_of_the_instruction(op: X86)
    ensures
        match op.spec_form() {
            Form::Ri { size, .. } | Form::Shift { size, .. } | Form::Rm { size, .. } | Form::Mr {
                size,
                ..
            } | Form::Rri { size, .. } => op.spec_size() == Some(size),
            Form::MovRi(size) => op.spec_size() == Some(size),
            Form::Rr { size, swap, code, .. } => !swap || !code.escape && code.byte == 0x3B
                ==> op.spec_size() == Some(size),
            Form::R { size, code, .. } => !code.escape ==> op.spec_size() == Some(size),
            Form::OneByte(b) => b == 0xC3 <==> op.spec_size() is None,
            Form::Jmp | Form::Jcc(_) | Form::CallFunction => op.spec_size() is None,
            _ => true,
        },
{
}

/// The scratch register for copies.
#[verifier::allow_in_spec]
pub fn tmp_register() -> Reg
    returns
        Reg::r15,
{
    Reg::r15
}

/// The width of a copy: that of the destination, or of the source where the
/// destination is the scratch register.
pub open spec fn copy_size(to: Reg, from: Reg) -> Option<Size> {
    let checked = if to == tmp_register() {
        from
    } else {
        to
    };
    match checked.spec_class() {
        RegClass::GP8 | RegClass::GP8I => Some(Size::S8),
        RegClass::GP16 | RegClass::GP16I => Some(Size::S16),
        RegClass::GP32 | RegClass::GP32I => Some(Size::S32),
        RegClass::GP64 | RegClass::GP64I => Some(Size::S64),
        _ => None,
    }
}

/// The code of a copy. A copy between registers that are written in the same way
/// needs none.
pub open spec fn enc_copy(to: Reg, from: Reg) -> Seq<u8> {
    if encode::spec_encode_reg(to) == encode::spec_encode_reg(from) {
        Seq::empty()
    } else {
        encode::enc_mov_rr(copy_size(to, from)->Some_0, to, from)
    }
}

pub open spec fn can_copy(to: Reg, from: Reg) -> bool {
    copy_size(to, from) matches Some(size) && encode::fits_rr(from, to, size == Size::S64)
}

pub fn implement_copy(text: &mut Vec<u8>, to: Reg, from: Reg)
    requires
        can_copy(to, from),
    ensures
        final(text)@ == old(text)@ + enc_copy(to, from),
{
    let checked_reg: Reg = if to == tmp_register() {
        from
    } else {
        to
    };
    let size: Size = match checked_reg.class() {
        RegClass::GP8 | RegClass::GP8I => Size::S8,
        RegClass::GP16 | RegClass::GP16I => Size::S16,
        RegClass::GP32 | RegClass::GP32I => Size::S32,
        _ => Size::S64,
    };
    let ra: EncodedReg = encode_reg(to);
    let rb: EncodedReg = encode_reg(from);
    // the encoded registers are compared: where two names of one register differ in size, the
    // register is not copied to itself
    if ra != rb {
        mov_rr(text, size, to, from);
    } else {
        assert(text@ =~= old(text)@ + enc_copy(to, from));
    }
}

/// A jump to a block. The distance is known if the block was emitted before, else
/// it is filled in later.
pub open spec fn jump(s: EmitState, rel8: Seq<u8>, rel32: Seq<u8>, target: BlockId) -> EmitState {
    match s.block_offsets[target.0 as int] {
        Some(known) => {
            let short = known - (s.offset() + rel8.len() - 1);
            if -0x80 <= short < 0x80 {
                s.with_bytes(rel8 + seq![(short % 0x100) as u8])
            } else {
                s.with_bytes(
                    rel32 + bytes::le_32(bytes::twos_32(known - (s.offset() + rel32.len() + 4))),
                )
            }
        },
        None => EmitState {
            missing_block_addrs: s.missing_block_addrs.push(
                ((s.offset() + rel32.len()) as u32, target),
            ),
            ..s.with_bytes(rel32 + bytes::le_32(0))
        },
    }
}

/// The distance of a jump whose forms have so many bytes before it can be written.
pub open spec fn can_jump(s: EmitState, rel8: int, rel32: int, target: BlockId) -> bool {
    &&& target.0 < s.block_offsets.len()
    &&& 0 <= s.offset()
    &&& s.offset() + rel8 - 1 <= u32::MAX
    &&& match s.block_offsets[target.0 as int] {
        Some(known) => {
            let short = known - (s.offset() + rel8 - 1);
            ||| -0x80 <= short < 0x80
            ||| bytes::fits_i32(short) && s.offset() + rel32 + 4 <= u32::MAX && bytes::fits_i32(
                known - (s.offset() + rel32 + 4),
            )
        },
        None => s.offset() + rel32 <= u32::MAX,
    }
}

/// Decides whether the distance of a jump can be written.
pub fn jump_fits(e: &Emitter<Reg>, rel8: u8, rel32: u8, target: BlockId) -> (fits: bool)
    requires
        target.0 < e@.block_offsets.len(),
        0 <= e@.offset(),
        rel8 > 0,
    ensures
        fits == can_jump(e@, rel8 as int, rel32 as int, target),
{
    let offset: usize = e.text.len() - e.start;
    if offset > u32::MAX as usize {
        return false;
    }
    let offset: i64 = offset as i64;
    let limit: i64 = u32::MAX as i64;
    let my_rel8_offset: i64 = offset + rel8 as i64 - 1;
    let my_rel32_offset: i64 = offset + rel32 as i64;
    if my_rel8_offset > limit {
        return false;
    }
    match e.block_offset(target) {
        Some(known) => {
            let short: i64 = known as i64 - my_rel8_offset;
            if -0x80 <= short && short < 0x80 {
                return true;
            }
            bytes::is_i32(short) && my_rel32_offset + 4 <= limit && bytes::is_i32(
                known as i64 - (my_rel32_offset + 4),
            )
        },
        None => my_rel32_offset <= limit,
    }
}

/// The signed byte as it is written.
fn byte_of_i64(v: i64) -> (b: u8)
    requires
        -0x80 <= v < 0x80,
    ensures
        b == (v as int % 0x100) as u8,
{
    if v >= 0 {
        v as u8
    } else {
        (0x100 + v) as u8
    }
}

pub fn emit_jmp(e: &mut Emitter<Reg>, rel8_op: &[u8], rel32_op: &[u8], target: BlockId)
    requires
        can_jump(old(e)@, rel8_op@.len() as int, rel32_op@.len() as int, target),
        1 <= rel8_op@.len() <= 2,
        1 <= rel32_op@.len() <= 2,
    ensures
        final(e)@ == jump(old(e)@, rel8_op@, rel32_op@, target),
{
    let my_rel8_offset: u32 = e.offset_in_function() + (rel8_op.len() as u32 - 1);
    match e.block_offset(target) {
        Some(known) => {
            let offset: i64 = known as i64 - my_rel8_offset as i64;
            if -0x80 <= offset && offset < 0x80 {
                push_all(&mut e.text, rel8_op);
                e.text.push(byte_of_i64(offset));
            } else {
                push_all(&mut e.text, rel32_op);
                let offset: i32 = (known as i64 - (e.offset_in_function() as i64 + 4)) as i32;
                push_u32(&mut e.text, bits_of_i32(offset));
            }
        },
        None => {
            push_all(&mut e.text, rel32_op);
            let offset: u32 = e.offset_in_function();
            e.missing_block_addrs.push((offset, target));
            push_u32(&mut e.text, 0);
        },
    }
    assert(e@ =~= jump(old(e)@, rel8_op@, rel32_op@, target));
}

/// The immediate lies between `-limit` and `limit - 1`.
pub open spec fn fits_signed(imm: u32, limit: int) -> bool {
    -limit <= bytes::signed_32(imm) < limit
}

/// A shift by an immediate, of which only the low byte is kept.
pub open spec fn enc_shift(size: Size, r: Reg, imm: u32, extension: u8) -> Seq<u8> {
    encode::prefix_16(size) + encode::enc_ri_modrm(
        encode::opcode_of(size, one_byte(0xC0), one_byte(0xC1)),
        r,
        size == Size::S64,
        extension,
    ) + encode::imm_bytes(Size::S8, imm)
}

fn inst_shift(text: &mut Vec<u8>, size: Size, r: Reg, imm: u32, extension: u8)
    requires
        extension < 8,
        encode::fits_ri(r, size == Size::S64),
    ensures
        final(text)@ == old(text)@ + enc_shift(size, r, imm, extension),
{
    encode::push_prefix_16(text, size);
    inst_ri_modrm(
        text,
        encode::opcode_of(size, one_byte(0xC0), one_byte(0xC1)),
        r,
        size == Size::S64,
        extension,
    );
    // just truncating upper bits of the shift here is fine
    encode::push_imm(text, Size::S8, imm);
    proof {
        bytes::lemma_concat(
            old(text)@,
            encode::prefix_16(size),
            encode::enc_ri_modrm(
                encode::opcode_of(size, one_byte(0xC0), one_byte(0xC1)),
                r,
                size == Size::S64,
                extension,
            ),
            encode::imm_bytes(Size::S8, imm),
            Seq::empty(),
        );
    }
}

/// An immediate that is loaded into a register. Only the 64-bit form extends the
/// sign of a 32-bit immediate.
pub open spec fn enc_mov_ri(size: Size, r: Reg, imm: u32) -> Seq<u8> {
    let force = encode::spec_encode_reg(r).spec_force();
    match size {
        Size::S8 => encode::enc_opcode_reg(0xB0, r, force) + encode::imm_bytes(Size::S8, imm),
        Size::S16 => seq![P16] + encode::enc_opcode_reg(
            0xB8,
            r,
            encode::spec_encode_reg(r).spec_ext(),
        ) + encode::imm_bytes(Size::S16, imm),
        Size::S32 => encode::enc_opcode_reg(0xB8, r, force) + encode::imm_bytes(Size::S32, imm),
        _ => encode::enc_ri32(one_byte(0xC7), r, imm, true, 0),
    }
}

/// The immediate is a signed number of the width of the register.
pub open spec fn fits_mov_ri(size: Size, r: Reg, imm: u32) -> bool {
    match size {
        Size::S8 => encode::encodable(r) && fits_signed(imm, 0x80),
        Size::S16 => encode::encodable(r) && fits_signed(imm, 0x8000),
        Size::S32 => encode::encodable(r),
        _ => encode::fits_ri(r, true),
    }
}

fn inst_mov_ri(text: &mut Vec<u8>, size: Size, r: Reg, imm: u32)
    requires
        fits_mov_ri(size, r, imm),
    ensures
        final(text)@ == old(text)@ + enc_mov_ri(size, r, imm),
{
    let ghost before = text@;
    match size {
        Size::S8 => {
            inst_opcode_reg(text, 0xB0, r, encode_reg(r).force());
            encode::push_imm(text, Size::S8, imm);
            assert(text@ =~= before + enc_mov_ri(size, r, imm));
        },
        Size::S16 => {
            text.push(P16);
            inst_opcode_reg(text, 0xB8, r, encode_reg(r).ext());
            encode::push_imm(text, Size::S16, imm);
            assert(text@ =~= before + enc_mov_ri(size, r, imm));
        },
        Size::S32 => {
            inst_opcode_reg(text, 0xB8, r, encode_reg(r).force());
            encode::push_imm(text, Size::S32, imm);
            assert(text@ =~= before + enc_mov_ri(size, r, imm));
        },
        _ => inst_ri32(text, one_byte(0xC7), r, imm, true, 0),
    }
}

/// A call of the function whose address is in a register.
pub open spec fn enc_call_r(r: Reg) -> Seq<u8> {
    encode::enc_ri_modrm(one_byte(0xFF), r, false, 2)
}

pub open spec fn fits_call_r(r: Reg) -> bool {
    let ra = encode::spec_encode_reg(r);
    encode::encodable(r) && encode::rex_allowed(
        ra.spec_prevents_rex(),
        encode::rex(false, false, false, ra.spec_ext(), ra.spec_force()),
    )
}

/// The bytes of an instruction of the given form that refers to no other place.
pub open spec fn enc_form(form: Form, args: Operands) -> Seq<u8> {
    match (form, args) {
        (Form::OneByte(b), Operands::Empty) => seq![b],
        (Form::TwoBytes(a, b), Operands::Empty) => seq![a, b],
        (Form::Rr { size, opcode_8, code, swap }, Operands::RegReg(a, b)) => if swap {
            encode::enc_rr_sized(size, one_byte(opcode_8), code, b, a)
        } else {
            encode::enc_rr_sized(size, one_byte(opcode_8), code, a, b)
        },
        (Form::Ri { size, extension }, Operands::RegImm(r, imm)) => encode::enc_ri(
            size,
            one_byte(0x80),
            one_byte(0x81),
            r,
            imm,
            extension,
        ),
        (Form::Shift { size, extension }, Operands::RegImm(r, imm)) => enc_shift(
            size,
            r,
            imm,
            extension,
        ),
        (Form::MovRi(size), Operands::RegImm(r, imm)) => enc_mov_ri(size, r, imm),
        (Form::R { size, opcode_8, code, extension }, Operands::Reg(r)) => encode::enc_r_sized(
            size,
            one_byte(opcode_8),
            code,
            r,
            extension,
        ),
        (Form::OpcodeReg(opcode), Operands::Reg(r)) => encode::enc_opcode_reg(
            opcode,
            r,
            encode::spec_encode_reg(r).spec_force(),
        ),
        (Form::CallR, Operands::Reg(r)) => enc_call_r(r),
        (Form::Rm { size, opcode_8, opcode }, Operands::RegMem(r, mem)) => encode::enc_rm(
            size,
            one_byte(opcode_8),
            one_byte(opcode),
            r,
            mem,
        ),
        (Form::Mr { size, opcode_8, opcode }, Operands::MemReg(mem, r)) => encode::enc_rm(
            size,
            one_byte(opcode_8),
            one_byte(opcode),
            r,
            mem,
        ),
        (Form::Rri { size, opcode }, Operands::RegRegImm(a, b, imm)) => encode::enc_rri(
            size,
            one_byte(opcode),
            one_byte(opcode),
            a,
            b,
            imm,
        ),
        _ => Seq::empty(),
    }
}

/// The operands are of the kind that the form takes and can be written.
pub open spec fn fits_form(form: Form, args: Operands) -> bool {
    match (form, args) {
        (Form::OneByte(_), Operands::Empty) => true,
        (Form::TwoBytes(_, _), Operands::Empty) => true,
        (Form::Rr { size, swap, .. }, Operands::RegReg(a, b)) => if swap {
            encode::fits_rr(a, b, size == Size::S64)
        } else {
            encode::fits_rr(b, a, size == Size::S64)
        },
        (Form::Ri { size, extension }, Operands::RegImm(r, _)) => extension < 8 && encode::fits_ri(
            r,
            size == Size::S64,
        ),
        (Form::Shift { size, extension }, Operands::RegImm(r, _)) => extension < 8
            && encode::fits_ri(r, size == Size::S64),
        (Form::MovRi(size), Operands::RegImm(r, imm)) => fits_mov_ri(size, r, imm),
        (Form::R { size, extension, .. }, Operands::Reg(r)) => extension < 8 && encode::fits_r(
            r,
            size == Size::S64,
        ),
        (Form::OpcodeReg(opcode), Operands::Reg(r)) => opcode <= 0xF8 && encode::encodable(r),
        (Form::CallR, Operands::Reg(r)) => fits_call_r(r),
        (Form::Rm { size, .. }, Operands::RegMem(r, mem)) => encode::fits_rm(size, r, mem),
        (Form::Mr { size, .. }, Operands::MemReg(mem, r)) => encode::fits_rm(size, r, mem),
        (Form::Rri { size, .. }, Operands::RegRegImm(a, b, _)) => encode::fits_rr(
            a,
            b,
            size == Size::S64,
        ),
        _ => false,
    }
}

fn emit_form(text: &mut Vec<u8>, form: Form, args: Operands)
    requires
        fits_form(form, args),
    ensures
        final(text)@ == old(text)@ + enc_form(form, args),
{
    let ghost before = text@;
    match (form, args) {
        (Form::OneByte(b), Operands::Empty) => {
            text.push(b);
            assert(text@ =~= before + seq![b]);
        },
        (Form::TwoBytes(a, b), Operands::Empty) => {
            text.push(a);
            text.push(b);
            assert(text@ =~= before + seq![a, b]);
        },
        (Form::Rr { size, opcode_8, code, swap }, Operands::RegReg(a, b)) => {
            if swap {
                inst_rr_generic_inner(text, size, one_byte(opcode_8), code, b, a);
            } else {
                inst_rr_generic_inner(text, size, one_byte(opcode_8), code, a, b);
            }
        },
        (Form::Ri { size, extension }, Operands::RegImm(r, imm)) => {
            inst_ri(text, size, one_byte(0x80), one_byte(0x81), r, imm, extension);
        },
        (Form::Shift { size, extension }, Operands::RegImm(r, imm)) => {
            inst_shift(text, size, r, imm, extension);
        },
        (Form::MovRi(size), Operands::RegImm(r, imm)) => {
            inst_mov_ri(text, size, r, imm);
        },
        (Form::R { size, opcode_8, code, extension }, Operands::Reg(r)) => {
            inst_r(text, size, one_byte(opcode_8), code, r, extension);
        },
        (Form::OpcodeReg(opcode), Operands::Reg(r)) => {
            inst_opcode_reg(text, opcode, r, encode_reg(r).force());
        },
        (Form::CallR, Operands::Reg(r)) => {
            inst_ri_modrm(text, one_byte(0xFF), r, false, 2);
        },
        (Form::Rm { size, opcode_8, opcode }, Operands::RegMem(r, mem)) => {
            inst_rm(text, size, one_byte(opcode_8), one_byte(opcode), r, mem);
        },
        (Form::Mr { size, opcode_8, opcode }, Operands::MemReg(mem, r)) => {
            inst_mr(text, size, one_byte(opcode_8), one_byte(opcode), mem, r);
        },
        (Form::Rri { size, opcode }, Operands::RegRegImm(a, b, imm)) => {
            inst_rri(text, size, one_byte(opcode), one_byte(opcode), a, b, imm);
        },
        _ => {},
    }
}

/// The instruction can be emitted in this state.
pub open spec fn can_emit(s: EmitState, op: X86, args: Operands) -> bool {
    match (op.spec_form(), args) {
        (Form::Jmp, Operands::Block(target)) => s.next_is(target) || can_jump(s, 1, 1, target),
        (Form::Jcc(_), Operands::Block(target)) => can_jump(s, 2, 2, target),
        (Form::LeaFunction, Operands::RegFunction(r, _)) => encode::encodable(r),
        (Form::LeaGlobal, Operands::RegGlobal(r, _)) => encode::encodable(r),
        (Form::CallFunction, Operands::Function(_)) => true,
        (form, _) => fits_form(form, args),
    }
}

/// The state after an instruction. A jump to the block that follows is left out.
/// Addresses of functions and globals are left to the linker.
pub open spec fn emitted(s: EmitState, op: X86, args: Operands) -> EmitState {
    match (op.spec_form(), args) {
        (Form::Jmp, Operands::Block(target)) => if s.next_is(target) {
            s
        } else {
            jump(s, seq![0xEBu8], seq![0xE9u8], target)
        },
        (Form::Jcc(cc), Operands::Block(target)) => jump(
            s,
            seq![(0x70 + cc) as u8, 0xCBu8],
            seq![0x0Fu8, (0x80 + cc) as u8],
            target,
        ),
        (Form::LeaFunction, Operands::RegFunction(r, f)) => {
            let code = encode::enc_disp32(one_byte(0x8D), r);
            EmitState {
                relocations: s.relocations.push(
                    Relocation::FunctionAddr(f.function, (s.text.len() + code.len() - 4) as u64),
                ),
                ..s.with_bytes(code)
            }
        },
        (Form::LeaGlobal, Operands::RegGlobal(r, g)) => {
            let code = encode::enc_disp32(one_byte(0x8D), r);
            EmitState {
                relocations: s.relocations.push(
                    Relocation::GlobalAddr(g.idx, (s.text.len() + code.len() - 4) as u64),
                ),
                ..s.with_bytes(code)
            }
        },
        (Form::CallFunction, Operands::Function(f)) => EmitState {
            relocations: s.relocations.push(
                Relocation::FunctionCall(f.function, (s.text.len() + 1) as u64),
            ),
            ..s.with_bytes(seq![0xE8u8, 0, 0, 0, 0])
        },
        (form, _) => s.with_bytes(enc_form(form, args)),
    }
}

impl X86 {
    /// Emits one instruction.
    pub fn emit(e: &mut Emitter<Reg>, op: X86, args: Operands)
        requires
            can_emit(old(e)@, op, args),
        ensures
            final(e)@ == emitted(old(e)@, op, args),
    {
        let ghost before = e@;
        let form: Form = op.form();
        match (form, args) {
            (Form::Jmp, Operands::Block(target)) => {
                if !e.is_next(target) {
                    emit_jmp(e, &[0xEB], &[0xE9], target);
                    assert([0xEBu8]@ =~= seq![0xEBu8]);
                    assert([0xE9u8]@ =~= seq![0xE9u8]);
                }
            },
            (Form::Jcc(cc), Operands::Block(target)) => {
                proof {
                    assert(cc < 0x10);
                }
                emit_jmp(e, &[0x70 + cc, 0xCB], &[0x0F, 0x80 + cc], target);
                assert([(0x70 + cc) as u8, 0xCBu8]@ =~= seq![(0x70 + cc) as u8, 0xCBu8]);
                assert([0x0Fu8, (0x80 + cc) as u8]@ =~= seq![0x0Fu8, (0x80 + cc) as u8]);
            },
            (Form::LeaFunction, Operands::RegFunction(dst, function)) => {
                // lea dst [rip + offset]
                let relocation_offset: u64 = disp32(&mut e.text, one_byte(0x8D), dst);
                e.relocations.push(Relocation::FunctionAddr(function.function, relocation_offset));
            },
            (Form::LeaGlobal, Operands::RegGlobal(dst, global)) => {
                // lea dst [rip + offset]
                let relocation_offset: u64 = disp32(&mut e.text, one_byte(0x8D), dst);
                e.relocations.push(Relocation::GlobalAddr(global.idx, relocation_offset));
            },
            (Form::CallFunction, Operands::Function(function)) => {
                push_all(&mut e.text, &[0xE8, 0, 0, 0, 0]);
                let end: u64 = e.text.len() as u64;
                e.relocations.push(Relocation::FunctionCall(function.function, end - 4));
                assert([0xE8u8, 0, 0, 0, 0]@ =~= seq![0xE8u8, 0, 0, 0, 0]);
            },
            _ => {
                emit_form(&mut e.text, form, args);
            },
        }
        assert(e@ =~= emitted(before, op, args));
    }
}

} // verus!
