//! The bytes of instructions.
use vstd::prelude::*;

use crate::backend::bytes;
use crate::backend::bytes::{bits_of_i32, i32_of_bits, push_all, push_u16, push_u32};
use crate::backend::size::Size;
use crate::backend::x86::isa::Reg;

verus! {

/// 16-bit instruction prefix
pub const P16: u8 = 0x66;

pub const MODRM_RR: u8 = 0xC0;

#[derive(Clone, Copy, Debug, PartialEq, Eq, Structural)]
pub enum RegKind {
    Normal,
    High,
    ForceRex,
    Extended,
}

/// How a register is written in an instruction.
#[derive(Clone, Copy, Debug, PartialEq, Eq, Structural)]
pub struct EncodedReg {
    /// three-bit register encoding
    pub bits: u8,
    pub kind: RegKind,
}

impl EncodedReg {
    pub open spec fn spec_ext(self) -> bool {
        self.kind == RegKind::Extended
    }

    pub open spec fn spec_force(self) -> bool {
        self.kind == RegKind::ForceRex
    }

    pub open spec fn spec_prevents_rex(self) -> bool {
        self.kind == RegKind::High
    }

    /// if the encoding requires an extension bit somewhere
    pub fn ext(self) -> (b: bool)
        ensures
            b == self.spec_ext(),
    {
        matches!(self.kind, RegKind::Extended)
    }

    /// if the encoding forces a rex prefix
    pub fn force(self) -> (b: bool)
        ensures
            b == self.spec_force(),
    {
        matches!(self.kind, RegKind::ForceRex)
    }

    /// if the encoding forbids emitting a rex prefix
    pub fn prevents_rex(self) -> (b: bool)
        ensures
            b == self.spec_prevents_rex(),
    {
        matches!(self.kind, RegKind::High)
    }
}

/// The encoding of a register. The flags and the instruction pointer have none.
#[verifier::opaque]
pub open spec fn spec_encode_reg(r: Reg) -> EncodedReg {
    match r {
        Reg::none => EncodedReg { bits: 0, kind: RegKind::Normal },
        Reg::al | Reg::ax | Reg::rax | Reg::eax => EncodedReg { bits: 0, kind: RegKind::Normal },
        Reg::cl | Reg::cx | Reg::rcx | Reg::ecx => EncodedReg { bits: 1, kind: RegKind::Normal },
        Reg::dl | Reg::dx | Reg::rdx | Reg::edx => EncodedReg { bits: 2, kind: RegKind::Normal },
        Reg::bl | Reg::bx | Reg::rbx | Reg::ebx => EncodedReg { bits: 3, kind: RegKind::Normal },
        Reg::ah => EncodedReg { bits: 4, kind: RegKind::High },
        Reg::ch => EncodedReg { bits: 5, kind: RegKind::High },
        Reg::dh => EncodedReg { bits: 6, kind: RegKind::High },
        Reg::bh => EncodedReg { bits: 7, kind: RegKind::High },
        Reg::spl => EncodedReg { bits: 4, kind: RegKind::ForceRex },
        Reg::bpl => EncodedReg { bits: 5, kind: RegKind::ForceRex },
        Reg::sil => EncodedReg { bits: 6, kind: RegKind::ForceRex },
        Reg::dil => EncodedReg { bits: 7, kind: RegKind::ForceRex },
        Reg::sp | Reg::rsp | Reg::esp => EncodedReg { bits: 4, kind: RegKind::Normal },
        Reg::bp | Reg::rbp | Reg::ebp => EncodedReg { bits: 5, kind: RegKind::Normal },
        Reg::si | Reg::rsi | Reg::esi => EncodedReg { bits: 6, kind: RegKind::Normal },
        Reg::di | Reg::rdi | Reg::edi => EncodedReg { bits: 7, kind: RegKind::Normal },
        Reg::r8b | Reg::r8w | Reg::r8 | Reg::r8d => EncodedReg { bits: 0, kind: RegKind::Extended },
        Reg::r9b | Reg::r9w | Reg::r9 | Reg::r9d => EncodedReg { bits: 1, kind: RegKind::Extended },
        Reg::r10b | Reg::r10w | Reg::r10 | Reg::r10d => EncodedReg { bits: 2, kind: RegKind::Extended },
        Reg::r11b | Reg::r11w | Reg::r11 | Reg::r11d => EncodedReg { bits: 3, kind: RegKind::Extended },
        Reg::r12b | Reg::r12w | Reg::r12 | Reg::r12d => EncodedReg { bits: 4, kind: RegKind::Extended },
        Reg::r13b | Reg::r13w | Reg::r13 | Reg::r13d => EncodedReg { bits: 5, kind: RegKind::Extended },
        Reg::r14b | Reg::r14w | Reg::r14 | Reg::r14d => EncodedReg { bits: 6, kind: RegKind::Extended },
        Reg::r15b | Reg::r15w | Reg::r15 | Reg::r15d => EncodedReg { bits: 7, kind: RegKind::Extended },
        Reg::eflags | Reg::rip => EncodedReg { bits: 0, kind: RegKind::Normal },
    }
}

pub fn encode_reg(r: Reg) -> (e: EncodedReg)
    requires
        encodable(r),
    ensures
        e == spec_encode_reg(r),
        e.bits < 8,
{
    reveal(spec_encode_reg);
    match r {
        Reg::none => EncodedReg { bits: 0, kind: RegKind::Normal },
        Reg::al | Reg::ax | Reg::rax | Reg::eax => EncodedReg { bits: 0, kind: RegKind::Normal },
        Reg::cl | Reg::cx | Reg::rcx | Reg::ecx => EncodedReg { bits: 1, kind: RegKind::Normal },
        Reg::dl | Reg::dx | Reg::rdx | Reg::edx => EncodedReg { bits: 2, kind: RegKind::Normal },
        Reg::bl | Reg::bx | Reg::rbx | Reg::ebx => EncodedReg { bits: 3, kind: RegKind::Normal },
        Reg::ah => EncodedReg { bits: 4, kind: RegKind::High },
        Reg::ch => EncodedReg { bits: 5, kind: RegKind::High },
        Reg::dh => EncodedReg { bits: 6, kind: RegKind::High },
        Reg::bh => EncodedReg { bits: 7, kind: RegKind::High },
        Reg::spl => EncodedReg { bits: 4, kind: RegKind::ForceRex },
        Reg::bpl => EncodedReg { bits: 5, kind: RegKind::ForceRex },
        Reg::sil => EncodedReg { bits: 6, kind: RegKind::ForceRex },
        Reg::dil => EncodedReg { bits: 7, kind: RegKind::ForceRex },
        Reg::sp | Reg::rsp | Reg::esp => EncodedReg { bits: 4, kind: RegKind::Normal },
        Reg::bp | Reg::rbp | Reg::ebp => EncodedReg { bits: 5, kind: RegKind::Normal },
        Reg::si | Reg::rsi | Reg::esi => EncodedReg { bits: 6, kind: RegKind::Normal },
        Reg::di | Reg::rdi | Reg::edi => EncodedReg { bits: 7, kind: RegKind::Normal },
        Reg::r8b | Reg::r8w | Reg::r8 | Reg::r8d => EncodedReg { bits: 0, kind: RegKind::Extended },
        Reg::r9b | Reg::r9w | Reg::r9 | Reg::r9d => EncodedReg { bits: 1, kind: RegKind::Extended },
        Reg::r10b | Reg::r10w | Reg::r10 | Reg::r10d => EncodedReg { bits: 2, kind: RegKind::Extended },
        Reg::r11b | Reg::r11w | Reg::r11 | Reg::r11d => EncodedReg { bits: 3, kind: RegKind::Extended },
        Reg::r12b | Reg::r12w | Reg::r12 | Reg::r12d => EncodedReg { bits: 4, kind: RegKind::Extended },
        Reg::r13b | Reg::r13w | Reg::r13 | Reg::r13d => EncodedReg { bits: 5, kind: RegKind::Extended },
        Reg::r14b | Reg::r14w | Reg::r14 | Reg::r14d => EncodedReg { bits: 6, kind: RegKind::Extended },
        Reg::r15b | Reg::r15w | Reg::r15 | Reg::r15d => EncodedReg { bits: 7, kind: RegKind::Extended },
        Reg::eflags | Reg::rip => EncodedReg { bits: 0, kind: RegKind::Normal },
    }
}

/// The register can stand in an instruction.
pub open spec fn encodable(r: Reg) -> bool {
    r != Reg::eflags && r != Reg::rip
}

/// The byte that extends register numbers and widens the operation, where one is
/// needed.
pub open spec fn rex(w: bool, r: bool, x: bool, b: bool, force: bool) -> Seq<u8> {
    if w || r || x || b || force {
        seq![rex_byte(w, r, x, b)]
    } else {
        Seq::empty()
    }
}

pub open spec fn bit(b: bool) -> int {
    if b {
        1
    } else {
        0
    }
}

pub open spec fn rex_byte(w: bool, r: bool, x: bool, b: bool) -> u8 {
    (0x40 + 8 * bit(w) + 4 * bit(r) + 2 * bit(x) + bit(b)) as u8
}

/// 0 stands for no prefix.
pub fn encode_rex(w: bool, r: bool, x: bool, b: bool, force: bool) -> (byte: u8)
    ensures
        byte == 0 <==> !(w || r || x || b || force),
        byte != 0 ==> byte == rex_byte(w, r, x, b),
{
    if w || r || x || b || force {
        let w_bit: u8 = if w { 8 } else { 0 };
        let r_bit: u8 = if r { 4 } else { 0 };
        let x_bit: u8 = if x { 2 } else { 0 };
        let b_bit: u8 = if b { 1 } else { 0 };
        0x40 + w_bit + r_bit + x_bit + b_bit
    } else {
        0
    }
}

fn push_rex(text: &mut Vec<u8>, w: bool, r: bool, x: bool, b: bool, force: bool)
    ensures
        final(text)@ == old(text)@ + rex(w, r, x, b, force),
{
    let byte: u8 = encode_rex(w, r, x, b, force);
    if byte != 0 {
        text.push(byte);
    }
    assert(text@ =~= old(text)@ + rex(w, r, x, b, force));
}

/// The byte that names two registers as operands.
pub open spec fn modrm_rr(reg: u8, rm: u8) -> u8 {
    (MODRM_RR + 8 * reg + rm) as u8
}

pub open spec fn prefix_16(size: Size) -> Seq<u8> {
    if size == Size::S16 {
        seq![P16]
    } else {
        Seq::empty()
    }
}

pub fn push_prefix_16(text: &mut Vec<u8>, size: Size)
    ensures
        final(text)@ == old(text)@ + prefix_16(size),
{
    if size == Size::S16 {
        text.push(P16);
    }
    assert(text@ =~= old(text)@ + prefix_16(size));
}

/// An opcode of one byte, or of two where the first is the escape byte.
#[derive(Clone, Copy, Debug, PartialEq, Eq, Structural)]
pub struct Opcode {
    pub escape: bool,
    pub byte: u8,
}

impl Opcode {
    pub open spec fn bytes(self) -> Seq<u8> {
        if self.escape {
            seq![0x0Fu8, self.byte]
        } else {
            seq![self.byte]
        }
    }

    fn push(self, text: &mut Vec<u8>)
        ensures
            final(text)@ == old(text)@ + self.bytes(),
    {
        if self.escape {
            text.push(0x0F);
        }
        text.push(self.byte);
        assert(text@ =~= old(text)@ + self.bytes());
    }
}

#[verifier::allow_in_spec]
pub fn one_byte(byte: u8) -> Opcode
    returns
        (Opcode { escape: false, byte }),
{
    Opcode { escape: false, byte }
}

#[verifier::allow_in_spec]
pub fn two_byte(byte: u8) -> Opcode
    returns
        (Opcode { escape: true, byte }),
{
    Opcode { escape: true, byte }
}

/// The opcode for 8-bit operands or that for all others.
#[verifier::allow_in_spec]
pub fn opcode_of(size: Size, opcode_8: Opcode, opcode: Opcode) -> Opcode
    returns
        (if size == Size::S8 {
            opcode_8
        } else {
            opcode
        }),
{
    if size == Size::S8 {
        opcode_8
    } else {
        opcode
    }
}

/// An immediate of the width of the operation; 64-bit operations extend 32 bits.
pub open spec fn imm_bytes(size: Size, imm: u32) -> Seq<u8> {
    match size {
        Size::S8 => seq![(imm % 0x100) as u8],
        Size::S16 => bytes::le_16((imm % 0x1_0000) as u16),
        _ => bytes::le_32(imm),
    }
}

pub fn push_imm(text: &mut Vec<u8>, size: Size, imm: u32)
    ensures
        final(text)@ == old(text)@ + imm_bytes(size, imm),
{
    match size {
        Size::S8 => {
            text.push((imm % 0x100) as u8);
            assert(text@ =~= old(text)@ + imm_bytes(size, imm));
        },
        Size::S16 => push_u16(text, (imm % 0x1_0000) as u16),
        _ => push_u32(text, imm),
    }
}

/// A prefix would change the meaning of a high byte register.
pub open spec fn rex_allowed(prevented: bool, rex: Seq<u8>) -> bool {
    prevented ==> rex.len() == 0
}

/// One register operand, with an extension of the opcode in the other place.
pub open spec fn enc_r(opcode: Opcode, a: Reg, extension: u8, wide: bool) -> Seq<u8> {
    let ra = spec_encode_reg(a);
    rex(wide, ra.spec_ext(), false, false, ra.spec_force()) + opcode.bytes() + seq![
        modrm_rr(extension, ra.bits),
    ]
}

pub open spec fn fits_r(a: Reg, wide: bool) -> bool {
    let ra = spec_encode_reg(a);
    encodable(a) && rex_allowed(
        ra.spec_prevents_rex(),
        rex(wide, ra.spec_ext(), false, false, ra.spec_force()),
    )
}

pub fn inst_r_legacy(text: &mut Vec<u8>, opcode: Opcode, a: Reg, extension: u8, wide: bool)
    requires
        extension < 8,
        fits_r(a, wide),
    ensures
        final(text)@ == old(text)@ + enc_r(opcode, a, extension, wide),
{
    let ra: EncodedReg = encode_reg(a);
    push_rex(text, wide, ra.ext(), false, false, ra.force());
    opcode.push(text);
    text.push(MODRM_RR + 8 * extension + ra.bits);
    assert(text@ =~= old(text)@ + enc_r(opcode, a, extension, wide));
}

/// One register operand of the given width.
pub open spec fn enc_r_sized(
    size: Size,
    opcode_8: Opcode,
    opcode: Opcode,
    a: Reg,
    extension: u8,
) -> Seq<u8> {
    prefix_16(size) + enc_r(opcode_of(size, opcode_8, opcode), a, extension, size == Size::S64)
}

pub fn inst_r(
    text: &mut Vec<u8>,
    size: Size,
    opcode_8: Opcode,
    opcode: Opcode,
    a: Reg,
    extension: u8,
)
    requires
        extension < 8,
        fits_r(a, size == Size::S64),
    ensures
        final(text)@ == old(text)@ + enc_r_sized(size, opcode_8, opcode, a, extension),
{
    push_prefix_16(text, size);
    inst_r_legacy(
        text,
        opcode_of(size, opcode_8, opcode),
        a,
        extension,
        size == Size::S64,
    );
    assert(text@ =~= old(text)@ + enc_r_sized(size, opcode_8, opcode, a, extension));
}

/// Two register operands.
pub open spec fn enc_rr(opcode: Opcode, reg: Reg, rm: Reg, wide: bool) -> Seq<u8> {
    let a = spec_encode_reg(reg);
    let b = spec_encode_reg(rm);
    rex(wide, a.spec_ext(), false, b.spec_ext(), a.spec_force() || b.spec_force()) + opcode.bytes() + seq![
        modrm_rr(a.bits, b.bits),
    ]
}

pub open spec fn fits_rr(reg: Reg, rm: Reg, wide: bool) -> bool {
    let a = spec_encode_reg(reg);
    let b = spec_encode_reg(rm);
    encodable(reg) && encodable(rm) && rex_allowed(
        a.spec_prevents_rex() || b.spec_prevents_rex(),
        rex(wide, a.spec_ext(), false, b.spec_ext(), a.spec_force() || b.spec_force()),
    )
}

pub fn inst_rr_legacy(text: &mut Vec<u8>, opcode: Opcode, reg: Reg, rm: Reg, wide: bool)
    requires
        fits_rr(reg, rm, wide),
    ensures
        final(text)@ == old(text)@ + enc_rr(opcode, reg, rm, wide),
{
    let a: EncodedReg = encode_reg(reg);
    let b: EncodedReg = encode_reg(rm);
    push_rex(text, wide, a.ext(), false, b.ext(), a.force() || b.force());
    opcode.push(text);
    text.push(MODRM_RR + 8 * a.bits + b.bits);
    assert(text@ =~= old(text)@ + enc_rr(opcode, reg, rm, wide));
}

/// Two register operands of the given width; `rm` is the first operand.
pub open spec fn enc_rr_sized(
    size: Size,
    opcode_8: Opcode,
    opcode: Opcode,
    rm: Reg,
    reg: Reg,
) -> Seq<u8> {
    prefix_16(size) + enc_rr(opcode_of(size, opcode_8, opcode), reg, rm, size == Size::S64)
}

pub fn inst_rr_generic_inner(
    text: &mut Vec<u8>,
    size: Size,
    opcode_8: Opcode,
    opcode: Opcode,
    rm: Reg,
    reg: Reg,
)
    requires
        fits_rr(reg, rm, size == Size::S64),
    ensures
        final(text)@ == old(text)@ + enc_rr_sized(size, opcode_8, opcode, rm, reg),
{
    push_prefix_16(text, size);
    inst_rr_legacy(
        text,
        opcode_of(size, opcode_8, opcode),
        reg,
        rm,
        size == Size::S64,
    );
    assert(text@ =~= old(text)@ + enc_rr_sized(size, opcode_8, opcode, rm, reg));
}

/// A copy between registers of the given width.
pub open spec fn enc_mov_rr(size: Size, to: Reg, from: Reg) -> Seq<u8> {
    enc_rr_sized(size, one_byte(0x88), one_byte(0x89), to, from)
}

pub fn mov_rr(text: &mut Vec<u8>, size: Size, to: Reg, from: Reg)
    requires
        fits_rr(from, to, size == Size::S64),
    ensures
        final(text)@ == old(text)@ + enc_mov_rr(size, to, from),
{
    inst_rr_generic_inner(text, size, one_byte(0x88), one_byte(0x89), to, from);
}

/// A register operand that is also written in the opcode extension's place by `i`.
pub open spec fn enc_ri_modrm(opcode: Opcode, rm: Reg, wide: bool, i: u8) -> Seq<u8> {
    let b = spec_encode_reg(rm);
    rex(wide, false, false, b.spec_ext(), b.spec_force()) + opcode.bytes() + seq![modrm_rr(i, b.bits)]
}

pub open spec fn fits_ri(rm: Reg, wide: bool) -> bool {
    encodable(rm) && !(spec_encode_reg(rm).spec_prevents_rex() && wide)
}

pub fn inst_ri_modrm(text: &mut Vec<u8>, opcode: Opcode, rm: Reg, wide: bool, i: u8)
    requires
        i < 8,
        fits_ri(rm, wide),
    ensures
        final(text)@ == old(text)@ + enc_ri_modrm(opcode, rm, wide, i),
{
    let b: EncodedReg = encode_reg(rm);
    push_rex(text, wide, false, false, b.ext(), b.force());
    opcode.push(text);
    text.push(MODRM_RR + 8 * i + b.bits);
    assert(text@ =~= old(text)@ + enc_ri_modrm(opcode, rm, wide, i));
}

/// A register and an immediate operand of the given width.
pub open spec fn enc_ri(
    size: Size,
    opcode_8: Opcode,
    opcode: Opcode,
    r: Reg,
    imm: u32,
    i: u8,
) -> Seq<u8> {
    prefix_16(size) + enc_ri_modrm(opcode_of(size, opcode_8, opcode), r, size == Size::S64, i)
        + imm_bytes(size, imm)
}

pub fn inst_ri(
    text: &mut Vec<u8>,
    size: Size,
    opcode_8: Opcode,
    opcode: Opcode,
    r: Reg,
    imm: u32,
    i: u8,
)
    requires
        i < 8,
        fits_ri(r, size == Size::S64),
    ensures
        final(text)@ == old(text)@ + enc_ri(size, opcode_8, opcode, r, imm, i),
{
    push_prefix_16(text, size);
    inst_ri_modrm(
        text,
        opcode_of(size, opcode_8, opcode),
        r,
        size == Size::S64,
        i,
    );
    push_imm(text, size, imm);
    proof {
        bytes::lemma_concat(
            old(text)@,
            prefix_16(size),
            enc_ri_modrm(opcode_of(size, opcode_8, opcode), r, size == Size::S64, i),
            imm_bytes(size, imm),
            Seq::empty(),
        );
    }
}

/// A register and a 32-bit immediate operand.
pub open spec fn enc_ri32(opcode: Opcode, r: Reg, imm: u32, wide: bool, i: u8) -> Seq<u8> {
    enc_ri_modrm(opcode, r, wide, i) + bytes::le_32(imm)
}

pub fn inst_ri32(text: &mut Vec<u8>, opcode: Opcode, r: Reg, imm: u32, wide: bool, i: u8)
    requires
        i < 8,
        fits_ri(r, wide),
    ensures
        final(text)@ == old(text)@ + enc_ri32(opcode, r, imm, wide, i),
{
    inst_ri_modrm(text, opcode, r, wide, i);
    push_u32(text, imm);
    assert(text@ =~= old(text)@ + enc_ri32(opcode, r, imm, wide, i));
}

/// Two registers and an immediate.
pub open spec fn enc_rri(
    size: Size,
    opcode_8: Opcode,
    opcode: Opcode,
    reg: Reg,
    rm: Reg,
    imm: u32,
) -> Seq<u8> {
    prefix_16(size) + enc_rr(opcode_of(size, opcode_8, opcode), reg, rm, size == Size::S64)
        + imm_bytes(size, imm)
}

pub fn inst_rri(
    text: &mut Vec<u8>,
    size: Size,
    opcode_8: Opcode,
    opcode: Opcode,
    reg: Reg,
    rm: Reg,
    imm: u32,
)
    requires
        fits_rr(reg, rm, size == Size::S64),
    ensures
        final(text)@ == old(text)@ + enc_rri(size, opcode_8, opcode, reg, rm, imm),
{
    push_prefix_16(text, size);
    inst_rr_legacy(
        text,
        opcode_of(size, opcode_8, opcode),
        reg,
        rm,
        size == Size::S64,
    );
    push_imm(text, size, imm);
    proof {
        bytes::lemma_concat(
            old(text)@,
            prefix_16(size),
            enc_rr(opcode_of(size, opcode_8, opcode), reg, rm, size == Size::S64),
            imm_bytes(size, imm),
            Seq::empty(),
        );
    }
}

/// How many bytes the offset of an address takes.
#[derive(Clone, Copy, Debug, PartialEq, Eq, Structural)]
pub enum OffsetClass {
    Zero,
    Byte(i8),
    DWord(i32),
}

impl OffsetClass {
    pub open spec fn spec_from_imm(value: u32) -> OffsetClass {
        let v = bytes::signed_32(value);
        if v == 0 {
            OffsetClass::Zero
        } else if -0x80 <= v < 0x80 {
            OffsetClass::Byte(v as i8)
        } else {
            OffsetClass::DWord(v as i32)
        }
    }

    pub fn from_imm(value: u32) -> (c: OffsetClass)
        ensures
            c == Self::spec_from_imm(value),
    {
        let v: i32 = i32_of_bits(value);
        if v == 0 {
            OffsetClass::Zero
        } else if -0x80 <= v && v < 0x80 {
            OffsetClass::Byte(v as i8)
        } else {
            OffsetClass::DWord(v)
        }
    }

    pub open spec fn spec_modrm_bits(self) -> u8 {
        match self {
            OffsetClass::Zero => 0x00,
            OffsetClass::Byte(_) => 0x40,
            OffsetClass::DWord(_) => 0x80,
        }
    }

    pub fn modrm_bits(self) -> (bits: u8)
        ensures
            bits == self.spec_modrm_bits(),
    {
        match self {
            OffsetClass::Zero => 0x00,
            OffsetClass::Byte(_) => 0x40,
            OffsetClass::DWord(_) => 0x80,
        }
    }

    pub open spec fn bytes(self) -> Seq<u8> {
        match self {
            OffsetClass::Zero => Seq::empty(),
            OffsetClass::Byte(b) => seq![(b as int % 0x100) as u8],
            OffsetClass::DWord(dw) => bytes::le_32(bytes::twos_32(dw as int)),
        }
    }

    pub fn write(self, text: &mut Vec<u8>)
        ensures
            final(text)@ == old(text)@ + self.bytes(),
    {
        match self {
            OffsetClass::Zero => {},
            OffsetClass::Byte(b) => {
                if b >= 0 {
                    text.push(b as u8);
                } else {
                    text.push((0x100i16 + b as i16) as u8);
                }
            },
            OffsetClass::DWord(dw) => push_u32(text, bits_of_i32(dw)),
        }
        assert(text@ =~= old(text)@ + self.bytes());
    }
}

/// The address `[ptr + scale * index + offset]`; `none` stands for an absent
/// register.
#[derive(Clone, Copy, Debug, PartialEq, Eq, Structural)]
pub struct Mem {
    pub ptr: Reg,
    pub offset: u32,
    pub index: Reg,
    pub scale: u32,
}

impl Mem {
    /// An extra byte describes the address.
    pub open spec fn needs_sib(self) -> bool {
        self.index != Reg::none || spec_encode_reg(self.ptr).bits == 4 || self.ptr == Reg::none
    }

    /// The offset as it is written. With the encoding of the frame pointer an
    /// absent offset would have another meaning.
    pub open spec fn offset_class(self) -> OffsetClass {
        let off = OffsetClass::spec_from_imm(self.offset);
        if spec_encode_reg(self.ptr).bits == 5 && off is Zero {
            OffsetClass::Byte(0)
        } else {
            off
        }
    }
}

pub open spec fn valid_scale(scale: u32) -> bool {
    scale == 1 || scale == 2 || scale == 4 || scale == 8
}

pub open spec fn spec_sib(scale: u32, index: Option<EncodedReg>, base: EncodedReg) -> u8 {
    let scale_bits: int = if scale == 1 {
        0
    } else if scale == 2 {
        1
    } else if scale == 4 {
        2
    } else {
        3
    };
    let index_bits: int = match index {
        Some(i) => i.bits as int,
        None => 4,
    };
    (0x40 * scale_bits + 8 * index_bits + base.bits) as u8
}

pub fn sib(scale: u32, index: Option<EncodedReg>, base: EncodedReg) -> (byte: u8)
    requires
        valid_scale(scale),
        base.bits < 8,
        index matches Some(i) ==> i.bits < 8,
    ensures
        byte == spec_sib(scale, index, base),
{
    let scale_bits: u8 = match scale {
        1 => 0,
        2 => 1,
        4 => 2,
        _ => 3,
    };
    let index_bits: u8 = match index {
        Some(i) => i.bits,
        None => 4,
    };
    0x40 * scale_bits + 8 * index_bits + base.bits
}

/// The bytes that describe a memory operand next to a register with the given bits.
pub open spec fn enc_address(reg_bits: u8, mem: Mem) -> Seq<u8> {
    let b = spec_encode_reg(mem.ptr);
    let index = spec_encode_reg(mem.index);
    let off = mem.offset_class();
    if mem.needs_sib() {
        seq![
            (off.spec_modrm_bits() + 8 * reg_bits + 4) as u8,
            spec_sib(
                mem.scale,
                if mem.index != Reg::none {
                    Some(index)
                } else {
                    None
                },
                b,
            ),
        ] + off.bytes()
    } else {
        seq![(off.spec_modrm_bits() + 8 * reg_bits + b.bits) as u8] + off.bytes()
    }
}

/// A register and a memory operand.
pub open spec fn enc_rm(
    size: Size,
    opcode_8: Opcode,
    opcode: Opcode,
    val: Reg,
    mem: Mem,
) -> Seq<u8> {
    let a = spec_encode_reg(val);
    let b = spec_encode_reg(mem.ptr);
    let index = spec_encode_reg(mem.index);
    prefix_16(size) + rex(
        size == Size::S64,
        a.spec_ext(),
        index.spec_ext(),
        b.spec_ext(),
        a.spec_force() || b.spec_force() || index.spec_force(),
    ) + opcode_of(size, opcode_8, opcode).bytes() + enc_address(a.bits, mem)
}

pub open spec fn fits_rm(size: Size, val: Reg, mem: Mem) -> bool {
    let a = spec_encode_reg(val);
    let b = spec_encode_reg(mem.ptr);
    let index = spec_encode_reg(mem.index);
    &&& encodable(val) && encodable(mem.ptr) && encodable(mem.index)
    &&& index.bits != 4
    &&& mem.needs_sib() ==> valid_scale(mem.scale)
    &&& rex_allowed(
        a.spec_prevents_rex() || b.spec_prevents_rex() || index.spec_prevents_rex(),
        rex(
            size == Size::S64,
            a.spec_ext(),
            index.spec_ext(),
            b.spec_ext(),
            a.spec_force() || b.spec_force() || index.spec_force(),
        ),
    )
}

pub fn inst_rm(
    text: &mut Vec<u8>,
    size: Size,
    opcode_8: Opcode,
    opcode: Opcode,
    val: Reg,
    mem: Mem,
)
    requires
        fits_rm(size, val, mem),
    ensures
        final(text)@ == old(text)@ + enc_rm(size, opcode_8, opcode, val, mem),
{
    push_prefix_16(text, size);
    let a: EncodedReg = encode_reg(val);
    let b: EncodedReg = encode_reg(mem.ptr);
    let index: EncodedReg = encode_reg(mem.index);
    push_rex(
        text,
        size == Size::S64,
        a.ext(),
        index.ext(),
        b.ext(),
        a.force() || b.force() || index.force(),
    );
    opcode_of(size, opcode_8, opcode).push(text);
    push_address(text, a.bits, mem);
    proof {
        bytes::lemma_concat(
            old(text)@,
            prefix_16(size),
            rex(
                size == Size::S64,
                a.spec_ext(),
                index.spec_ext(),
                b.spec_ext(),
                a.spec_force() || b.spec_force() || index.spec_force(),
            ),
            opcode_of(size, opcode_8, opcode).bytes(),
            enc_address(a.bits, mem),
        );
    }
}

fn push_address(text: &mut Vec<u8>, reg_bits: u8, mem: Mem)
    requires
        reg_bits < 8,
        encodable(mem.ptr),
        encodable(mem.index),
        mem.needs_sib() ==> valid_scale(mem.scale),
    ensures
        final(text)@ == old(text)@ + enc_address(reg_bits, mem),
{
    let b: EncodedReg = encode_reg(mem.ptr);
    let index: EncodedReg = encode_reg(mem.index);
    let mut off: OffsetClass = OffsetClass::from_imm(mem.offset);
    if b.bits == 5 && matches!(off, OffsetClass::Zero) {
        // becomes [disp32] otherwise
        off = OffsetClass::Byte(0);
    }
    let need_sib = mem.index != Reg::none || b.bits == 4 || mem.ptr == Reg::none;
    if need_sib {
        text.push(off.modrm_bits() + 8 * reg_bits + 4);
        let index_operand: Option<EncodedReg> = if mem.index != Reg::none {
            Some(index)
        } else {
            None
        };
        text.push(sib(mem.scale, index_operand, b));
    } else {
        text.push(off.modrm_bits() + 8 * reg_bits + b.bits);
    }
    off.write(text);
    assert(text@ =~= old(text)@ + enc_address(reg_bits, mem));
}

pub fn inst_mr(
    text: &mut Vec<u8>,
    size: Size,
    opcode_8: Opcode,
    opcode: Opcode,
    mem: Mem,
    val: Reg,
)
    requires
        fits_rm(size, val, mem),
    ensures
        final(text)@ == old(text)@ + enc_rm(size, opcode_8, opcode, val, mem),
{
    // encoded exactly the same way, just swap the arguments around correctly
    inst_rm(text, size, opcode_8, opcode, val, mem);
}

/// A short form with the register in the low bits of the opcode.
pub open spec fn enc_opcode_reg(opcode: u8, r: Reg, force: bool) -> Seq<u8> {
    let ra = spec_encode_reg(r);
    rex(false, false, false, ra.spec_ext(), force) + seq![(opcode + ra.bits) as u8]
}

pub fn inst_opcode_reg(text: &mut Vec<u8>, opcode: u8, r: Reg, force: bool)
    requires
        encodable(r),
        opcode <= 0xF8,
    ensures
        final(text)@ == old(text)@ + enc_opcode_reg(opcode, r, force),
{
    let ra: EncodedReg = encode_reg(r);
    push_rex(text, false, false, false, ra.ext(), force);
    text.push(opcode + ra.bits);
    assert(text@ =~= old(text)@ + enc_opcode_reg(opcode, r, force));
}

/// An address relative to the instruction, to be filled in.
pub open spec fn enc_disp32(opcode: Opcode, reg: Reg) -> Seq<u8> {
    let r = spec_encode_reg(reg);
    rex(true, r.spec_ext(), false, false, r.spec_force()) + opcode.bytes() + seq![(8 * r.bits + 5) as u8]
        + seq![0u8, 0u8, 0u8, 0u8]
}

/// emits an instruction with a placeholder disp32 (rip-relative address) and returns the offset
/// of that offset placeholder to be used for emitting a relocation
pub fn disp32(text: &mut Vec<u8>, opcode: Opcode, reg: Reg) -> (relocation_offset: u64)
    requires
        encodable(reg),
    ensures
        final(text)@ == old(text)@ + enc_disp32(opcode, reg),
        relocation_offset == final(text)@.len() - 4,
{
    let r: EncodedReg = encode_reg(reg);
    push_rex(text, true, r.ext(), false, false, r.force());
    opcode.push(text);
    text.push(8 * r.bits + 5);
    let relocation_offset: u64 = text.len() as u64;
    push_all(text, &[0, 0, 0, 0]);
    proof {
        assert([0u8, 0u8, 0u8, 0u8]@ =~= seq![0u8, 0u8, 0u8, 0u8]);
        assert(text@ =~= old(text)@ + enc_disp32(opcode, reg));
    }
    relocation_offset
}

/// The register named by an encoded number, extended by the prefix.
pub open spec fn register_number(r: EncodedReg) -> int {
    if r.spec_ext() {
        8 + r.bits
    } else {
        r.bits as int
    }
}

/// Registers of one width that are not written with a high byte are told apart by
/// their encoding.
pub proof fn encoding_tells_registers_apart(a: Reg, b: Reg)
    requires
        encodable(a),
        encodable(b),
        a != Reg::none,
        b != Reg::none,
        !spec_encode_reg(a).spec_prevents_rex(),
        !spec_encode_reg(b).spec_prevents_rex(),
    ensures
        register_number(spec_encode_reg(a)) == register_number(spec_encode_reg(b))
            <==> a.spec_index() == b.spec_index(),
{
    reveal(spec_encode_reg);
}

} // verus!
