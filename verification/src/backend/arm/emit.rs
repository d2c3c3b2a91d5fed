//! Emitting single instructions.
use vstd::prelude::*;

use crate::backend::arm::isa;
use crate::backend::arm::isa::{Arm, Reg, RegClass};
use crate::backend::bytes;
use crate::backend::bytes::push_u32;
use crate::backend::emit::{EmitState, Emitter, Relocation};
use crate::ir::ids::FunctionId;

verus! {

/// The operands of an instruction.
#[derive(Clone, Copy, Debug, PartialEq, Eq, Structural)]
pub enum Operands {
    Reg(Reg),
    RegRegReg(Reg, Reg, Reg),
    /// A register and two numbers.
    RegImmImm(Reg, u32, u32),
    RegRegImm(Reg, Reg, u32),
    /// A register, and one that holds an address, with a distance.
    RegMem(Reg, Reg, u32),
    RegRegMem(Reg, Reg, Reg, u32),
    Function(FunctionId),
}

#[derive(Clone, Copy, Debug, PartialEq, Eq, Structural)]
pub enum Size {
    S1,
    S2,
    S4,
    S8,
}

impl Size {
    #[verifier::allow_in_spec]
    pub fn bits(self) -> u32
        returns
            (match self {
                Size::S1 => 0u32,
                Size::S2 => 1u32,
                Size::S4 => 2u32,
                Size::S8 => 3u32,
            }),
    {
        match self {
            Size::S1 => 0,
            Size::S2 => 1,
            Size::S4 => 2,
            Size::S8 => 3,
        }
    }

    #[verifier::allow_in_spec]
    pub fn bytes(self) -> u32
        returns
            (match self {
                Size::S1 => 1u32,
                Size::S2 => 2u32,
                Size::S4 => 4u32,
                Size::S8 => 8u32,
            }),
    {
        match self {
            Size::S1 => 1,
            Size::S2 => 2,
            Size::S4 => 4,
            Size::S8 => 8,
        }
    }
}

#[verifier::allow_in_spec]
pub fn bit(b: bool) -> u32
    returns
        (if b {
            1u32
        } else {
            0u32
        }),
{
    if b {
        1
    } else {
        0
    }
}

/// The register can be written in five bits.
pub open spec fn encodable(r: Reg) -> bool {
    r.spec_index() < 32
}

/// A logical operation on two registers.
pub open spec fn enc_logical(sf: bool, opc: u32, n: bool, rm: Reg, imm6: u32, rn: Reg, rd: Reg) -> int {
    bit_of(sf) * 0x8000_0000 + opc * 0x2000_0000 + 0b01010 * 0x100_0000 + bit_of(n) * 0x20_0000
        + rm.spec_index() * 0x1_0000 + imm6 * 0x400 + rn.spec_index() * 0x20 + rd.spec_index()
}

pub open spec fn bit_of(b: bool) -> int {
    if b {
        1
    } else {
        0
    }
}

/// A load or a store at a distance that is counted in units of the size.
pub open spec fn enc_load_store(load: bool, size: Size, imm12: u32, rn: Reg, rt: Reg) -> int {
    size.bits() * 0x4000_0000 + 0b111001 * 0x100_0000 + bit_of(load) * 0x40_0000 + imm12 * 0x400
        + rn.spec_index() * 0x20 + rt.spec_index()
}

/// A load or a store of two registers.
pub open spec fn enc_load_store_pair(
    opc: u32,
    load: bool,
    imm7: u32,
    rt2: Reg,
    rn: Reg,
    rt: Reg,
) -> int {
    opc * 0x4000_0000 + 0b1010010 * 0x80_0000 + bit_of(load) * 0x40_0000 + imm7 * 0x8000
        + rt2.spec_index() * 0x400 + rn.spec_index() * 0x20 + rt.spec_index()
}

/// Sixteen bits are moved into a register.
pub open spec fn enc_mov_imm(opc: u32, rd: Reg, hw: u32, imm16: u32, sf: bool) -> int {
    bit_of(sf) * 0x8000_0000 + opc * 0x2000_0000 + 0b100101 * 0x80_0000 + hw * 0x20_0000 + imm16
        * 0x20 + rd.spec_index()
}

pub open spec fn enc_ret(rn: Reg) -> int {
    0b1101011001011111000000 * 0x400 + rn.spec_index() * 0x20
}

pub open spec fn enc_add_sub(
    sf: bool,
    sub: bool,
    set_flags: bool,
    shift: bool,
    rd: Reg,
    rn: Reg,
    imm12: u32,
) -> int {
    bit_of(sf) * 0x8000_0000 + bit_of(sub) * 0x4000_0000 + bit_of(set_flags) * 0x2000_0000
        + 0b100010 * 0x80_0000 + bit_of(shift) * 0x40_0000 + imm12 * 0x400 + rn.spec_index() * 0x20
        + rd.spec_index()
}

/// A field between lower and higher ones can be read.
pub(crate) proof fn lemma_field(word: int, high: int, field: int, low: int, lo: int, width: int)
    requires
        word == (high * width + field) * lo + low,
        0 <= low < lo,
        0 <= field < width,
    ensures
        (word / lo) % width == field,
{
    vstd::arithmetic::div_mod::lemma_fundamental_div_mod_converse(
        word,
        lo,
        high * width + field,
        low,
    );
    vstd::arithmetic::div_mod::lemma_fundamental_div_mod_converse(
        high * width + field,
        width,
        high,
        field,
    );
}

/// The fields of a word can be read back.
pub proof fn logical_fields_read_back(
    sf: bool,
    opc: u32,
    n: bool,
    rm: Reg,
    imm6: u32,
    rn: Reg,
    rd: Reg,
)
    requires
        opc < 4,
        imm6 < 64,
        encodable(rm),
        encodable(rn),
        encodable(rd),
    ensures
        ({
            let word = enc_logical(sf, opc, n, rm, imm6, rn, rd);
            &&& 0 <= word < 0x1_0000_0000
            &&& (word / 0x8000_0000) % 2 == bit_of(sf)
            &&& (word / 0x2000_0000) % 4 == opc
            &&& (word / 0x20_0000) % 2 == bit_of(n)
            &&& (word / 0x1_0000) % 32 == rm.spec_index()
            &&& (word / 0x400) % 64 == imm6
            &&& (word / 0x20) % 32 == rn.spec_index()
            &&& word % 32 == rd.spec_index()
        }),
{
    let word = enc_logical(sf, opc, n, rm, imm6, rn, rd);
    lemma_field(word, 0, bit_of(sf), opc as int * 0x20000000 + 10 * 0x1000000 + 0 * 0x400000 + bit_of(n) * 0x200000 + rm.spec_index() as int * 0x10000 + imm6 as int * 0x400 + rn.spec_index() as int * 0x20 + rd.spec_index() as int, 0x80000000, 0x2);
    lemma_field(word, bit_of(sf), opc as int, 10 * 0x1000000 + 0 * 0x400000 + bit_of(n) * 0x200000 + rm.spec_index() as int * 0x10000 + imm6 as int * 0x400 + rn.spec_index() as int * 0x20 + rd.spec_index() as int, 0x20000000, 0x4);
    lemma_field(word, bit_of(sf) * 0x200 + opc as int * 0x80 + 10 * 0x4 + 0, bit_of(n), rm.spec_index() as int * 0x10000 + imm6 as int * 0x400 + rn.spec_index() as int * 0x20 + rd.spec_index() as int, 0x200000, 0x2);
    lemma_field(word, bit_of(sf) * 0x400 + opc as int * 0x100 + 10 * 0x8 + 0 * 0x2 + bit_of(n), rm.spec_index() as int, imm6 as int * 0x400 + rn.spec_index() as int * 0x20 + rd.spec_index() as int, 0x10000, 0x20);
    lemma_field(word, bit_of(sf) * 0x8000 + opc as int * 0x2000 + 10 * 0x100 + 0 * 0x40 + bit_of(n) * 0x20 + rm.spec_index() as int, imm6 as int, rn.spec_index() as int * 0x20 + rd.spec_index() as int, 0x400, 0x40);
    lemma_field(word, bit_of(sf) * 0x200000 + opc as int * 0x80000 + 10 * 0x4000 + 0 * 0x1000 + bit_of(n) * 0x800 + rm.spec_index() as int * 0x40 + imm6 as int, rn.spec_index() as int, rd.spec_index() as int, 0x20, 0x20);
    lemma_field(word, bit_of(sf) * 0x4000000 + opc as int * 0x1000000 + 10 * 0x80000 + 0 * 0x20000 + bit_of(n) * 0x10000 + rm.spec_index() as int * 0x800 + imm6 as int * 0x20 + rn.spec_index() as int, rd.spec_index() as int, 0, 1, 0x20);
}

/// The fields of a word can be read back.
pub proof fn load_store_fields_read_back(load: bool, size: Size, imm12: u32, rn: Reg, rt: Reg)
    requires
        imm12 < 4096,
        encodable(rn),
        encodable(rt),
    ensures
        ({
            let word = enc_load_store(load, size, imm12, rn, rt);
            &&& 0 <= word < 0x1_0000_0000
            &&& (word / 0x4000_0000) % 4 == size.bits()
            &&& (word / 0x40_0000) % 2 == bit_of(load)
            &&& (word / 0x400) % 4096 == imm12
            &&& (word / 0x20) % 32 == rn.spec_index()
            &&& word % 32 == rt.spec_index()
        }),
{
    let word = enc_load_store(load, size, imm12, rn, rt);
    lemma_field(word, 0, size.bits() as int, 57 * 0x1000000 + 0 * 0x800000 + bit_of(load) * 0x400000 + imm12 as int * 0x400 + rn.spec_index() as int * 0x20 + rt.spec_index() as int, 0x40000000, 0x4);
    lemma_field(word, size.bits() as int * 0x80 + 57 * 0x2 + 0, bit_of(load), imm12 as int * 0x400 + rn.spec_index() as int * 0x20 + rt.spec_index() as int, 0x400000, 0x2);
    lemma_field(word, size.bits() as int * 0x100 + 57 * 0x4 + 0 * 0x2 + bit_of(load), imm12 as int, rn.spec_index() as int * 0x20 + rt.spec_index() as int, 0x400, 0x1000);
    lemma_field(word, size.bits() as int * 0x100000 + 57 * 0x4000 + 0 * 0x2000 + bit_of(load) * 0x1000 + imm12 as int, rn.spec_index() as int, rt.spec_index() as int, 0x20, 0x20);
    lemma_field(word, size.bits() as int * 0x2000000 + 57 * 0x80000 + 0 * 0x40000 + bit_of(load) * 0x20000 + imm12 as int * 0x20 + rn.spec_index() as int, rt.spec_index() as int, 0, 1, 0x20);
}

/// The fields of a word can be read back.
pub proof fn pair_fields_read_back(opc: u32, load: bool, imm7: u32, rt2: Reg, rn: Reg, rt: Reg)
    requires
        opc < 4,
        imm7 < 128,
        encodable(rt2),
        encodable(rn),
        encodable(rt),
    ensures
        ({
            let word = enc_load_store_pair(opc, load, imm7, rt2, rn, rt);
            &&& 0 <= word < 0x1_0000_0000
            &&& (word / 0x4000_0000) % 4 == opc
            &&& (word / 0x40_0000) % 2 == bit_of(load)
            &&& (word / 0x8000) % 128 == imm7
            &&& (word / 0x400) % 32 == rt2.spec_index()
            &&& (word / 0x20) % 32 == rn.spec_index()
            &&& word % 32 == rt.spec_index()
        }),
{
    let word = enc_load_store_pair(opc, load, imm7, rt2, rn, rt);
    lemma_field(word, 0, opc as int, 82 * 0x800000 + bit_of(load) * 0x400000 + imm7 as int * 0x8000 + rt2.spec_index() as int * 0x400 + rn.spec_index() as int * 0x20 + rt.spec_index() as int, 0x40000000, 0x4);
    lemma_field(word, opc as int * 0x80 + 82, bit_of(load), imm7 as int * 0x8000 + rt2.spec_index() as int * 0x400 + rn.spec_index() as int * 0x20 + rt.spec_index() as int, 0x400000, 0x2);
    lemma_field(word, opc as int * 0x100 + 82 * 0x2 + bit_of(load), imm7 as int, rt2.spec_index() as int * 0x400 + rn.spec_index() as int * 0x20 + rt.spec_index() as int, 0x8000, 0x80);
    lemma_field(word, opc as int * 0x8000 + 82 * 0x100 + bit_of(load) * 0x80 + imm7 as int, rt2.spec_index() as int, rn.spec_index() as int * 0x20 + rt.spec_index() as int, 0x400, 0x20);
    lemma_field(word, opc as int * 0x100000 + 82 * 0x2000 + bit_of(load) * 0x1000 + imm7 as int * 0x20 + rt2.spec_index() as int, rn.spec_index() as int, rt.spec_index() as int, 0x20, 0x20);
    lemma_field(word, opc as int * 0x2000000 + 82 * 0x40000 + bit_of(load) * 0x20000 + imm7 as int * 0x400 + rt2.spec_index() as int * 0x20 + rn.spec_index() as int, rt.spec_index() as int, 0, 1, 0x20);
}

/// The fields of a word can be read back.
pub proof fn mov_imm_fields_read_back(opc: u32, rd: Reg, hw: u32, imm16: u32, sf: bool)
    requires
        opc < 4,
        hw < 4,
        imm16 < 0x1_0000,
        encodable(rd),
    ensures
        ({
            let word = enc_mov_imm(opc, rd, hw, imm16, sf);
            &&& 0 <= word < 0x1_0000_0000
            &&& (word / 0x8000_0000) % 2 == bit_of(sf)
            &&& (word / 0x2000_0000) % 4 == opc
            &&& (word / 0x20_0000) % 4 == hw
            &&& (word / 0x20) % 0x1_0000 == imm16
            &&& word % 32 == rd.spec_index()
        }),
{
    let word = enc_mov_imm(opc, rd, hw, imm16, sf);
    lemma_field(word, 0, bit_of(sf), opc as int * 0x20000000 + 37 * 0x800000 + hw as int * 0x200000 + imm16 as int * 0x20 + rd.spec_index() as int, 0x80000000, 0x2);
    lemma_field(word, bit_of(sf), opc as int, 37 * 0x800000 + hw as int * 0x200000 + imm16 as int * 0x20 + rd.spec_index() as int, 0x20000000, 0x4);
    lemma_field(word, bit_of(sf) * 0x100 + opc as int * 0x40 + 37, hw as int, imm16 as int * 0x20 + rd.spec_index() as int, 0x200000, 0x4);
    lemma_field(word, bit_of(sf) * 0x400 + opc as int * 0x100 + 37 * 0x4 + hw as int, imm16 as int, rd.spec_index() as int, 0x20, 0x10000);
    lemma_field(word, bit_of(sf) * 0x4000000 + opc as int * 0x1000000 + 37 * 0x40000 + hw as int * 0x10000 + imm16 as int, rd.spec_index() as int, 0, 1, 0x20);
}

/// The fields of a word can be read back.
pub proof fn add_sub_fields_read_back(
    sf: bool,
    sub: bool,
    set_flags: bool,
    shift: bool,
    rd: Reg,
    rn: Reg,
    imm12: u32,
)
    requires
        imm12 < 4096,
        encodable(rd),
        encodable(rn),
    ensures
        ({
            let word = enc_add_sub(sf, sub, set_flags, shift, rd, rn, imm12);
            &&& 0 <= word < 0x1_0000_0000
            &&& (word / 0x8000_0000) % 2 == bit_of(sf)
            &&& (word / 0x4000_0000) % 2 == bit_of(sub)
            &&& (word / 0x2000_0000) % 2 == bit_of(set_flags)
            &&& (word / 0x40_0000) % 2 == bit_of(shift)
            &&& (word / 0x400) % 4096 == imm12
            &&& (word / 0x20) % 32 == rn.spec_index()
            &&& word % 32 == rd.spec_index()
        }),
{
    let word = enc_add_sub(sf, sub, set_flags, shift, rd, rn, imm12);
    lemma_field(word, 0, bit_of(sf), bit_of(sub) * 0x40000000 + bit_of(set_flags) * 0x20000000 + 34 * 0x800000 + bit_of(shift) * 0x400000 + imm12 as int * 0x400 + rn.spec_index() as int * 0x20 + rd.spec_index() as int, 0x80000000, 0x2);
    lemma_field(word, bit_of(sf), bit_of(sub), bit_of(set_flags) * 0x20000000 + 34 * 0x800000 + bit_of(shift) * 0x400000 + imm12 as int * 0x400 + rn.spec_index() as int * 0x20 + rd.spec_index() as int, 0x40000000, 0x2);
    lemma_field(word, bit_of(sf) * 0x2 + bit_of(sub), bit_of(set_flags), 34 * 0x800000 + bit_of(shift) * 0x400000 + imm12 as int * 0x400 + rn.spec_index() as int * 0x20 + rd.spec_index() as int, 0x20000000, 0x2);
    lemma_field(word, bit_of(sf) * 0x100 + bit_of(sub) * 0x80 + bit_of(set_flags) * 0x40 + 34, bit_of(shift), imm12 as int * 0x400 + rn.spec_index() as int * 0x20 + rd.spec_index() as int, 0x400000, 0x2);
    lemma_field(word, bit_of(sf) * 0x200 + bit_of(sub) * 0x100 + bit_of(set_flags) * 0x80 + 34 * 0x2 + bit_of(shift), imm12 as int, rn.spec_index() as int * 0x20 + rd.spec_index() as int, 0x400, 0x1000);
    lemma_field(word, bit_of(sf) * 0x200000 + bit_of(sub) * 0x100000 + bit_of(set_flags) * 0x80000 + 34 * 0x2000 + bit_of(shift) * 0x1000 + imm12 as int, rn.spec_index() as int, rd.spec_index() as int, 0x20, 0x20);
    lemma_field(word, bit_of(sf) * 0x4000000 + bit_of(sub) * 0x2000000 + bit_of(set_flags) * 0x1000000 + 34 * 0x40000 + bit_of(shift) * 0x20000 + imm12 as int * 0x20 + rn.spec_index() as int, rd.spec_index() as int, 0, 1, 0x20);
}

fn logical_shifted_reg(sf: bool, opc: u32, n: bool, rm: Reg, imm6: u32, rn: Reg, rd: Reg) -> (word:
    u32)
    requires
        opc < 4,
        imm6 < 64,
        encodable(rm),
        encodable(rn),
        encodable(rd),
    ensures
        word == enc_logical(sf, opc, n, rm, imm6, rn, rd),
{
    proof {
        logical_fields_read_back(sf, opc, n, rm, imm6, rn, rd);
    }
    bit(sf) * 0x8000_0000 + opc * 0x2000_0000 + 0b01010 * 0x100_0000 + bit(n) * 0x20_0000
        + rm.index() as u32 * 0x1_0000 + imm6 * 0x400 + rn.index() as u32 * 0x20
        + rd.index() as u32
}

fn orr(rd: Reg, rn: Reg, rm: Reg, sf: bool) -> (word: u32)
    requires
        encodable(rm),
        encodable(rn),
        encodable(rd),
    ensures
        word == enc_logical(sf, 1, false, rm, 0, rn, rd),
{
    logical_shifted_reg(sf, 0b01, false, rm, 0, rn, rd)
}

/// A copy between floating point registers.
pub open spec fn enc_fmov(rd: Reg, rn: Reg, sf: bool) -> u32 {
    (bit(sf) << 22u32) | (0b11110u32 << 24u32) | (0b100000u32 << 10u32) | (
    rn.spec_index() as u32) << 5u32 | rd.spec_index() as u32
}

fn fmov_reg(rd: Reg, rn: Reg, sf: bool) -> (word: u32)
    ensures
        word == enc_fmov(rd, rn, sf),
{
    (bit(sf) << 22u32) | (0b11110u32 << 24u32) | (0b100000u32 << 10u32) | (rn.index() as u32)
        << 5u32 | rd.index() as u32
}

fn load_store_unsigned_imm(load: bool, size: Size, imm12: u32, rn: Reg, rt: Reg) -> (word: u32)
    requires
        imm12 < 4096,
        encodable(rn),
        encodable(rt),
    ensures
        word == enc_load_store(load, size, imm12, rn, rt),
{
    proof {
        load_store_fields_read_back(load, size, imm12, rn, rt);
    }
    size.bits() * 0x4000_0000 + 0b111001 * 0x100_0000 + bit(load) * 0x40_0000 + imm12 * 0x400
        + rn.index() as u32 * 0x20 + rt.index() as u32
}

fn load_store_pair_signed_imm(opc: u32, load: bool, imm7: u32, rt2: Reg, rn: Reg, rt: Reg) -> (word:
    u32)
    requires
        opc < 4,
        imm7 < 128,
        encodable(rt2),
        encodable(rn),
        encodable(rt),
    ensures
        word == enc_load_store_pair(opc, load, imm7, rt2, rn, rt),
{
    proof {
        pair_fields_read_back(opc, load, imm7, rt2, rn, rt);
    }
    opc * 0x4000_0000 + 0b1010010 * 0x80_0000 + bit(load) * 0x40_0000 + imm7 * 0x8000 + rt2.index() as u32
        * 0x400 + rn.index() as u32 * 0x20 + rt.index() as u32
}

fn mov_imm(opc: u32, rd: Reg, hw: u32, imm16: u32, sf: bool) -> (word: u32)
    requires
        opc < 4,
        hw < 4,
        imm16 < 0x1_0000,
        encodable(rd),
    ensures
        word == enc_mov_imm(opc, rd, hw, imm16, sf),
{
    proof {
        mov_imm_fields_read_back(opc, rd, hw, imm16, sf);
    }
    bit(sf) * 0x8000_0000 + opc * 0x2000_0000 + 0b100101 * 0x80_0000 + hw * 0x20_0000 + imm16 * 0x20
        + rd.index() as u32
}

fn ret(rn: Reg) -> (word: u32)
    requires
        encodable(rn),
    ensures
        word == enc_ret(rn),
{
    0b1101011001011111000000 * 0x400 + rn.index() as u32 * 0x20
}

fn add_sub_imm(
    sf: bool,
    sub: bool,
    set_flags: bool,
    shift: bool,
    rd: Reg,
    rn: Reg,
    imm12: u32,
) -> (word: u32)
    requires
        imm12 < 4096,
        encodable(rd),
        encodable(rn),
    ensures
        word == enc_add_sub(sf, sub, set_flags, shift, rd, rn, imm12),
{
    proof {
        add_sub_fields_read_back(sf, sub, set_flags, shift, rd, rn, imm12);
    }
    bit(sf) * 0x8000_0000 + bit(sub) * 0x4000_0000 + bit(set_flags) * 0x2000_0000 + 0b100010
        * 0x80_0000 + bit(shift) * 0x40_0000 + imm12 * 0x400 + rn.index() as u32 * 0x20
        + rd.index() as u32
}

/// The register that decides how wide a copy is: the destination, or the source where the
/// destination is the scratch register.
pub open spec fn checked_reg(to: Reg, from: Reg) -> Reg {
    if to == isa::tmp_register() {
        from
    } else {
        to
    }
}

/// The code of a copy.
pub open spec fn enc_copy(to: Reg, from: Reg) -> u32 {
    match checked_reg(to, from).spec_class() {
        RegClass::GP32 => enc_logical(false, 1, false, from, 0, Reg::wzr, to) as u32,
        RegClass::FP32 => enc_fmov(to, from, false),
        RegClass::FP64 => enc_fmov(to, from, true),
        _ => enc_logical(true, 1, false, from, 0, Reg::xzr, to) as u32,
    }
}

pub open spec fn can_copy(to: Reg, from: Reg) -> bool {
    match checked_reg(to, from).spec_class() {
        RegClass::GP32 | RegClass::GP64 => encodable(to) && encodable(from),
        RegClass::FP32 | RegClass::FP64 => true,
        RegClass::ZR => false,
    }
}

pub fn implement_copy(text: &mut Vec<u8>, to: Reg, from: Reg)
    requires
        can_copy(to, from),
    ensures
        final(text)@ == old(text)@ + bytes::le_32(enc_copy(to, from)),
{
    let checked: Reg = if to == isa::tmp_register() {
        from
    } else {
        to
    };
    let word: u32 = match checked.class() {
        RegClass::GP32 => orr(to, Reg::wzr, from, false),
        RegClass::FP32 => fmov_reg(to, from, false),
        RegClass::FP64 => fmov_reg(to, from, true),
        _ => orr(to, Reg::xzr, from, true),
    };
    push_u32(text, word);
}

/// The number of bytes that a load or a store moves.
pub open spec fn access_size(op: Arm) -> Option<Size> {
    match op {
        Arm::ldrb32 | Arm::strb32 => Some(Size::S1),
        Arm::ldrh32 | Arm::strh32 => Some(Size::S2),
        Arm::ldr32 | Arm::str32 => Some(Size::S4),
        Arm::ldr64 | Arm::str64 => Some(Size::S8),
        _ => None,
    }
}

pub open spec fn is_load(op: Arm) -> bool {
    op is ldrb32 || op is ldrh32 || op is ldr32 || op is ldr64 || op is ldp32 || op is ldp64
}

/// The word of an instruction.
pub open spec fn enc(op: Arm, args: Operands) -> int {
    match (op, args) {
        (Arm::orr32, Operands::RegRegReg(x, a, b)) => enc_logical(false, 1, false, b, 0, a, x),
        (Arm::orr64, Operands::RegRegReg(x, a, b)) => enc_logical(true, 1, false, b, 0, a, x),
        (Arm::movz32, Operands::RegImmImm(dst, hw, imm)) => enc_mov_imm(2, dst, hw, imm, false),
        (Arm::movz64, Operands::RegImmImm(dst, hw, imm)) => enc_mov_imm(2, dst, hw, imm, true),
        (Arm::movk32, Operands::RegImmImm(dst, hw, imm)) => enc_mov_imm(3, dst, hw, imm, false),
        (Arm::movk64, Operands::RegImmImm(dst, hw, imm)) => enc_mov_imm(3, dst, hw, imm, true),
        (
            Arm::ldrb32
            | Arm::ldrh32
            | Arm::ldr32
            | Arm::ldr64
            | Arm::strb32
            | Arm::strh32
            | Arm::str32
            | Arm::str64,
            Operands::RegMem(r, ptr, offset),
        ) => {
            let size = access_size(op)->Some_0;
            enc_load_store(is_load(op), size, offset / size.bytes(), ptr, r)
        },
        (Arm::ldp32 | Arm::stp32, Operands::RegRegMem(a, b, ptr, offset)) => enc_load_store_pair(
            0,
            is_load(op),
            offset % 0x100,
            b,
            ptr,
            a,
        ),
        (Arm::ldp64 | Arm::stp64, Operands::RegRegMem(a, b, ptr, offset)) => enc_load_store_pair(
            2,
            is_load(op),
            offset % 0x100,
            b,
            ptr,
            a,
        ),
        (Arm::add_i32, Operands::RegRegImm(d, n, i)) => enc_add_sub(
            false,
            false,
            false,
            false,
            d,
            n,
            i,
        ),
        (Arm::add_i64, Operands::RegRegImm(d, n, i)) => enc_add_sub(
            true,
            false,
            false,
            false,
            d,
            n,
            i,
        ),
        (Arm::sub_i32, Operands::RegRegImm(d, n, i)) => enc_add_sub(
            false,
            true,
            false,
            false,
            d,
            n,
            i,
        ),
        (Arm::sub_i64, Operands::RegRegImm(d, n, i)) => enc_add_sub(
            true,
            true,
            false,
            false,
            d,
            n,
            i,
        ),
        (Arm::bl_function, Operands::Function(_)) => 0x9400_0000,
        (Arm::ret0 | Arm::ret64 | Arm::ret128, Operands::Reg(r)) => enc_ret(r),
        _ => 0,
    }
}

/// The operands are of the kind that the instruction takes and can be written.
pub open spec fn fits(op: Arm, args: Operands) -> bool {
    match (op, args) {
        (Arm::orr32 | Arm::orr64, Operands::RegRegReg(x, a, b)) => encodable(x) && encodable(a)
            && encodable(b),
        (
            Arm::movz32 | Arm::movz64 | Arm::movk32 | Arm::movk64,
            Operands::RegImmImm(dst, hw, imm),
        ) => encodable(dst) && hw < 4 && imm < 0x1_0000,
        (
            Arm::ldrb32
            | Arm::ldrh32
            | Arm::ldr32
            | Arm::ldr64
            | Arm::strb32
            | Arm::strh32
            | Arm::str32
            | Arm::str64,
            Operands::RegMem(r, ptr, offset),
        ) => encodable(r) && encodable(ptr) && offset <= 4096 && offset / access_size(
            op,
        )->Some_0.bytes() < 4096,
        (
            Arm::ldp32 | Arm::ldp64 | Arm::stp32 | Arm::stp64,
            Operands::RegRegMem(a, b, ptr, offset),
        ) => encodable(a) && encodable(b) && encodable(ptr) && offset % 0x100 < 128,
        (
            Arm::add_i32 | Arm::add_i64 | Arm::sub_i32 | Arm::sub_i64,
            Operands::RegRegImm(d, n, i),
        ) => encodable(d) && encodable(n) && i < 4096,
        (Arm::bl_function, Operands::Function(_)) => true,
        (Arm::ret0 | Arm::ret64 | Arm::ret128, Operands::Reg(r)) => encodable(r),
        _ => false,
    }
}

/// The state after an instruction. The address of a function is left to the linker.
pub open spec fn emitted(s: EmitState, op: Arm, args: Operands) -> EmitState {
    let word = bytes::le_32(enc(op, args) as u32);
    match (op, args) {
        (Arm::bl_function, Operands::Function(f)) => EmitState {
            relocations: s.relocations.push(
                Relocation::FunctionCall(f.function, s.text.len() as u64),
            ),
            ..s.with_bytes(word)
        },
        _ => s.with_bytes(word),
    }
}

/// Every instruction takes four bytes.
pub proof fn instructions_take_four_bytes(s: EmitState, op: Arm, args: Operands)
    ensures
        emitted(s, op, args).text.len() == s.text.len() + 4,
        emitted(s, op, args).text.take(s.text.len() as int) == s.text,
{
    bytes::le_bytes_len(enc(op, args) as u32 as int, 4);
    assert(emitted(s, op, args).text.take(s.text.len() as int) =~= s.text);
}

impl Arm {
    /// The word of one instruction.
    fn word(op: Arm, args: Operands) -> (word: u32)
        requires
            fits(op, args),
        ensures
            word == enc(op, args),
    {
        match (op, args) {
            (Arm::orr32, Operands::RegRegReg(x, a, b)) => orr(x, a, b, false),
            (Arm::orr64, Operands::RegRegReg(x, a, b)) => orr(x, a, b, true),
            (Arm::movz32, Operands::RegImmImm(dst, hw, imm)) => mov_imm(0b10, dst, hw, imm, false),
            (Arm::movz64, Operands::RegImmImm(dst, hw, imm)) => mov_imm(0b10, dst, hw, imm, true),
            (Arm::movk32, Operands::RegImmImm(dst, hw, imm)) => mov_imm(0b11, dst, hw, imm, false),
            (Arm::movk64, Operands::RegImmImm(dst, hw, imm)) => mov_imm(0b11, dst, hw, imm, true),
            (_, Operands::RegMem(r, ptr, offset)) => {
                let size: Size = match op {
                    Arm::ldrb32 | Arm::strb32 => Size::S1,
                    Arm::ldrh32 | Arm::strh32 => Size::S2,
                    Arm::ldr32 | Arm::str32 => Size::S4,
                    _ => Size::S8,
                };
                let load: bool = match op {
                    Arm::ldrb32 | Arm::ldrh32 | Arm::ldr32 | Arm::ldr64 => true,
                    _ => false,
                };
                load_store_unsigned_imm(load, size, offset / size.bytes(), ptr, r)
            },
            (_, Operands::RegRegMem(a, b, ptr, offset)) => {
                let load: bool = match op {
                    Arm::ldp32 | Arm::ldp64 => true,
                    _ => false,
                };
                let opc: u32 = match op {
                    Arm::ldp64 | Arm::stp64 => 0b10,
                    _ => 0b00,
                };
                load_store_pair_signed_imm(opc, load, offset % 0x100, b, ptr, a)
            },
            (Arm::add_i32, Operands::RegRegImm(d, n, i)) => add_sub_imm(
                false,
                false,
                false,
                false,
                d,
                n,
                i,
            ),
            (Arm::add_i64, Operands::RegRegImm(d, n, i)) => add_sub_imm(
                true,
                false,
                false,
                false,
                d,
                n,
                i,
            ),
            (Arm::sub_i32, Operands::RegRegImm(d, n, i)) => add_sub_imm(
                false,
                true,
                false,
                false,
                d,
                n,
                i,
            ),
            (Arm::sub_i64, Operands::RegRegImm(d, n, i)) => add_sub_imm(
                true,
                true,
                false,
                false,
                d,
                n,
                i,
            ),
            (Arm::bl_function, Operands::Function(_)) => 0x9400_0000,
            (_, Operands::Reg(r)) => ret(r),
            _ => 0,
        }
    }

    /// Emits one instruction.
    pub fn emit(e: &mut Emitter<Reg>, op: Arm, args: Operands)
        requires
            fits(op, args),
        ensures
            final(e)@ == emitted(old(e)@, op, args),
    {
        let ghost before = e@;
        if let Operands::Function(f) = args {
            let at: u64 = e.text.len() as u64;
            e.relocations.push(Relocation::FunctionCall(f.function, at));
        }
        let word: u32 = Self::word(op, args);
        push_u32(&mut e.text, word);
        assert(e@ =~= emitted(before, op, args));
    }
}

} // verus!
