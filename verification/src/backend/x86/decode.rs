//! How a processor reads instructions, and that it reads what was meant.
use vstd::prelude::*;

use crate::backend::bytes;
use crate::backend::emit::{EmitState, Relocation};
use crate::backend::size::Size;
use crate::backend::x86::emit;
use crate::backend::x86::emit::{Form, Operands};
use crate::backend::x86::encode;
use crate::backend::x86::encode::{Mem, Opcode};
use crate::backend::x86::isa::{Reg, RegClass, X86};
use crate::ir::ids::{BlockId, FunctionId, GlobalId};

verus! {

/// What conditional instructions ask of the flags.
#[derive(Clone, Copy, Debug, PartialEq, Eq, Structural)]
pub enum Condition {
    Overflow,
    NoOverflow,
    Carry,
    NoCarry,
    Equal,
    NotEqual,
    BelowOrEqual,
    Above,
    Sign,
    NoSign,
    Parity,
    NoParity,
    Less,
    GreaterOrEqual,
    LessOrEqual,
    Greater,
}

/// What an instruction does.
#[derive(Clone, Copy, Debug, PartialEq, Eq, Structural)]
pub enum Operation {
    Add,
    Or,
    Adc,
    Sbb,
    And,
    Sub,
    Xor,
    Cmp,
    Test,
    Mov,
    Lea,
    Push,
    Pop,
    Shl,
    Shr,
    Sar,
    Not,
    Neg,
    Mul,
    Imul,
    Div,
    Idiv,
    Call,
    Return,
    Jump,
    JumpIf(Condition),
    SetIf(Condition),
    Movsx,
    Movzx,
    /// Extends the accumulator into its wider part.
    ExtendAccumulator,
    /// Extends the sign of the accumulator into the data register.
    ExtendIntoData,
}

/// An address, read from its bytes.
#[verifier::ext_equal]
pub struct Address {
    pub base: Reg,
    /// The index and its factor.
    pub index: Option<(Reg, int)>,
    pub offset: int,
}

#[verifier::ext_equal]
pub enum Operand {
    Reg(Reg),
    Mem(Address),
    /// A place that no register leads to.
    Fixed,
    /// A number in the given number of bytes.
    Imm(int, int),
}

/// An instruction as it is read. The destination is the first operand.
#[verifier::ext_equal]
pub struct Decoded {
    pub operation: Operation,
    pub size: Size,
    pub operands: Seq<Operand>,
}

/// The condition with a number.
pub open spec fn condition(n: int) -> Condition {
    if n == 0 {
        Condition::Overflow
    } else if n == 1 {
        Condition::NoOverflow
    } else if n == 2 {
        Condition::Carry
    } else if n == 3 {
        Condition::NoCarry
    } else if n == 4 {
        Condition::Equal
    } else if n == 5 {
        Condition::NotEqual
    } else if n == 6 {
        Condition::BelowOrEqual
    } else if n == 7 {
        Condition::Above
    } else if n == 8 {
        Condition::Sign
    } else if n == 9 {
        Condition::NoSign
    } else if n == 10 {
        Condition::Parity
    } else if n == 11 {
        Condition::NoParity
    } else if n == 12 {
        Condition::Less
    } else if n == 13 {
        Condition::GreaterOrEqual
    } else if n == 14 {
        Condition::LessOrEqual
    } else {
        Condition::Greater
    }
}

/// The arithmetic operations in the order of their numbers.
pub open spec fn arithmetic(n: int) -> Operation {
    if n == 0 {
        Operation::Add
    } else if n == 1 {
        Operation::Or
    } else if n == 2 {
        Operation::Adc
    } else if n == 3 {
        Operation::Sbb
    } else if n == 4 {
        Operation::And
    } else if n == 5 {
        Operation::Sub
    } else if n == 6 {
        Operation::Xor
    } else {
        Operation::Cmp
    }
}

/// The operations with one operand in the order of their numbers.
pub open spec fn unary(n: int) -> Operation {
    if n == 0 || n == 1 {
        Operation::Test
    } else if n == 2 {
        Operation::Not
    } else if n == 3 {
        Operation::Neg
    } else if n == 4 {
        Operation::Mul
    } else if n == 5 {
        Operation::Imul
    } else if n == 6 {
        Operation::Div
    } else {
        Operation::Idiv
    }
}

/// Which operands follow an opcode. `Rm` is the register or the memory that the byte
/// behind the opcode names, `Reg` the register in the middle of that byte.
#[derive(Clone, Copy, Debug, PartialEq, Eq, Structural)]
pub enum Layout {
    RmReg,
    RegRm,
    RegRmImm,
    RmImm,
    RmByte,
    Rm,
    /// The register is in the low bits of the opcode.
    Low,
    LowImm,
    Nothing,
}

/// The width of an operand: that of the operation or a fixed one.
#[derive(Clone, Copy, Debug, PartialEq, Eq, Structural)]
pub enum Width {
    Operation,
    Fixed(Size),
}

/// What an opcode stands for.
pub struct Meaning {
    pub operation: Operation,
    pub layout: Layout,
    /// The width of the first operand and that of the others.
    pub first: Width,
    pub other: Width,
}

/// The width of an operation whose opcodes differ in the lowest bit: bytes where that
/// is 0.
pub open spec fn width_bit(opcode: int) -> Width {
    if opcode % 2 == 0 {
        Width::Fixed(Size::S8)
    } else {
        Width::Operation
    }
}

pub open spec fn meaning_in(operation: Operation, layout: Layout, width: Width) -> Option<Meaning> {
    Some(Meaning { operation, layout, first: width, other: width })
}

/// The opcodes of one byte. `extension` is the number in the middle of the next byte.
pub open spec fn meaning_of_one(opcode: int, extension: int) -> Option<Meaning> {
    let width = width_bit(opcode);
    if opcode < 0x40 && opcode % 8 < 2 {
        meaning_in(arithmetic(opcode / 8), Layout::RmReg, width)
    } else if opcode < 0x40 && opcode % 8 < 4 {
        meaning_in(arithmetic(opcode / 8), Layout::RegRm, width)
    } else if 0x50 <= opcode < 0x58 {
        meaning_in(Operation::Push, Layout::Low, Width::Fixed(Size::S64))
    } else if 0x58 <= opcode < 0x60 {
        meaning_in(Operation::Pop, Layout::Low, Width::Fixed(Size::S64))
    } else if opcode == 0x63 {
        Some(
            Meaning {
                operation: Operation::Movsx,
                layout: Layout::RegRm,
                first: Width::Operation,
                other: Width::Fixed(Size::S32),
            },
        )
    } else if opcode == 0x69 {
        meaning_in(Operation::Imul, Layout::RegRmImm, Width::Operation)
    } else if opcode == 0x80 || opcode == 0x81 {
        meaning_in(arithmetic(extension), Layout::RmImm, width)
    } else if opcode == 0x84 || opcode == 0x85 {
        meaning_in(Operation::Test, Layout::RmReg, width)
    } else if opcode == 0x88 || opcode == 0x89 {
        meaning_in(Operation::Mov, Layout::RmReg, width)
    } else if opcode == 0x8A || opcode == 0x8B {
        meaning_in(Operation::Mov, Layout::RegRm, width)
    } else if opcode == 0x8D {
        meaning_in(Operation::Lea, Layout::RegRm, Width::Operation)
    } else if opcode == 0x98 {
        meaning_in(Operation::ExtendAccumulator, Layout::Nothing, Width::Operation)
    } else if opcode == 0x99 {
        meaning_in(Operation::ExtendIntoData, Layout::Nothing, Width::Operation)
    } else if 0xB0 <= opcode < 0xB8 {
        meaning_in(Operation::Mov, Layout::LowImm, Width::Fixed(Size::S8))
    } else if 0xB8 <= opcode < 0xC0 {
        meaning_in(Operation::Mov, Layout::LowImm, Width::Operation)
    } else if (opcode == 0xC0 || opcode == 0xC1) && extension == 4 {
        meaning_in(Operation::Shl, Layout::RmByte, width)
    } else if (opcode == 0xC0 || opcode == 0xC1) && extension == 5 {
        meaning_in(Operation::Shr, Layout::RmByte, width)
    } else if (opcode == 0xC0 || opcode == 0xC1) && extension == 7 {
        meaning_in(Operation::Sar, Layout::RmByte, width)
    } else if opcode == 0xC3 {
        meaning_in(Operation::Return, Layout::Nothing, Width::Fixed(Size::S64))
    } else if (opcode == 0xC6 || opcode == 0xC7) && extension == 0 {
        meaning_in(Operation::Mov, Layout::RmImm, width)
    } else if (opcode == 0xF6 || opcode == 0xF7) && extension >= 2 {
        meaning_in(unary(extension), Layout::Rm, width)
    } else if opcode == 0xFF && extension == 2 {
        meaning_in(Operation::Call, Layout::Rm, Width::Fixed(Size::S64))
    } else {
        None
    }
}

/// The opcodes behind the escape byte.
pub open spec fn meaning_of_two(opcode: int) -> Option<Meaning> {
    if 0x90 <= opcode < 0xA0 {
        meaning_in(
            Operation::SetIf(condition(opcode - 0x90)),
            Layout::Rm,
            Width::Fixed(Size::S8),
        )
    } else if opcode == 0xAF {
        meaning_in(Operation::Imul, Layout::RegRm, Width::Operation)
    } else if opcode == 0xB6 || opcode == 0xB7 || opcode == 0xBE || opcode == 0xBF {
        Some(
            Meaning {
                operation: if opcode < 0xB8 {
                    Operation::Movzx
                } else {
                    Operation::Movsx
                },
                layout: Layout::RegRm,
                first: Width::Operation,
                other: Width::Fixed(
                    if opcode % 2 == 0 {
                        Size::S8
                    } else {
                        Size::S16
                    },
                ),
            },
        )
    } else {
        None
    }
}

/// The register with a number. With a prefix that extends numbers the low bytes of four
/// registers take the place of the high bytes of others.
#[verifier::opaque]
pub open spec fn register(n: int, size: Size, prefixed: bool) -> Reg {
    match size {
        Size::S8 => if n == 0 {
            Reg::al
        } else if n == 1 {
            Reg::cl
        } else if n == 2 {
            Reg::dl
        } else if n == 3 {
            Reg::bl
        } else if n == 4 {
            if prefixed {
                Reg::spl
            } else {
                Reg::ah
            }
        } else if n == 5 {
            if prefixed {
                Reg::bpl
            } else {
                Reg::ch
            }
        } else if n == 6 {
            if prefixed {
                Reg::sil
            } else {
                Reg::dh
            }
        } else if n == 7 {
            if prefixed {
                Reg::dil
            } else {
                Reg::bh
            }
        } else if n == 8 {
            Reg::r8b
        } else if n == 9 {
            Reg::r9b
        } else if n == 10 {
            Reg::r10b
        } else if n == 11 {
            Reg::r11b
        } else if n == 12 {
            Reg::r12b
        } else if n == 13 {
            Reg::r13b
        } else if n == 14 {
            Reg::r14b
        } else {
            Reg::r15b
        },
        Size::S16 => if n == 0 {
            Reg::ax
        } else if n == 1 {
            Reg::cx
        } else if n == 2 {
            Reg::dx
        } else if n == 3 {
            Reg::bx
        } else if n == 4 {
            Reg::sp
        } else if n == 5 {
            Reg::bp
        } else if n == 6 {
            Reg::si
        } else if n == 7 {
            Reg::di
        } else if n == 8 {
            Reg::r8w
        } else if n == 9 {
            Reg::r9w
        } else if n == 10 {
            Reg::r10w
        } else if n == 11 {
            Reg::r11w
        } else if n == 12 {
            Reg::r12w
        } else if n == 13 {
            Reg::r13w
        } else if n == 14 {
            Reg::r14w
        } else {
            Reg::r15w
        },
        Size::S32 => if n == 0 {
            Reg::eax
        } else if n == 1 {
            Reg::ecx
        } else if n == 2 {
            Reg::edx
        } else if n == 3 {
            Reg::ebx
        } else if n == 4 {
            Reg::esp
        } else if n == 5 {
            Reg::ebp
        } else if n == 6 {
            Reg::esi
        } else if n == 7 {
            Reg::edi
        } else if n == 8 {
            Reg::r8d
        } else if n == 9 {
            Reg::r9d
        } else if n == 10 {
            Reg::r10d
        } else if n == 11 {
            Reg::r11d
        } else if n == 12 {
            Reg::r12d
        } else if n == 13 {
            Reg::r13d
        } else if n == 14 {
            Reg::r14d
        } else {
            Reg::r15d
        },
        _ => if n == 0 {
            Reg::rax
        } else if n == 1 {
            Reg::rcx
        } else if n == 2 {
            Reg::rdx
        } else if n == 3 {
            Reg::rbx
        } else if n == 4 {
            Reg::rsp
        } else if n == 5 {
            Reg::rbp
        } else if n == 6 {
            Reg::rsi
        } else if n == 7 {
            Reg::rdi
        } else if n == 8 {
            Reg::r8
        } else if n == 9 {
            Reg::r9
        } else if n == 10 {
            Reg::r10
        } else if n == 11 {
            Reg::r11
        } else if n == 12 {
            Reg::r12
        } else if n == 13 {
            Reg::r13
        } else if n == 14 {
            Reg::r14
        } else {
            Reg::r15
        },
    }
}

/// The parts of an instruction: the prefix for 16 bits, the prefix that extends, the
/// escape byte, the opcode and what follows.
#[verifier::ext_equal]
pub struct Parts {
    pub short: bool,
    pub rex: Option<int>,
    pub escape: bool,
    pub opcode: int,
    pub rest: Seq<u8>,
}

pub open spec fn parts(b: Seq<u8>) -> Parts {
    let short = b[0] == 0x66;
    let b1 = if short {
        b.skip(1)
    } else {
        b
    };
    let rex = if 0x40 <= b1[0] < 0x50 {
        Some(b1[0] as int)
    } else {
        None
    };
    let b2 = if rex is Some {
        b1.skip(1)
    } else {
        b1
    };
    let escape = b2[0] == 0x0F;
    let b3 = if escape {
        b2.skip(1)
    } else {
        b2
    };
    Parts { short, rex, escape, opcode: b3[0] as int, rest: b3.skip(1) }
}

/// The index and its factor in the byte that names them. The number of the stack
/// pointer stands for no index.
#[verifier::opaque]
pub open spec fn scaled_index(sib: int, x: int) -> Option<(Reg, int)> {
    let number = sib / 8 % 8 + 8 * x;
    let factor = if sib / 64 == 0 {
        1int
    } else if sib / 64 == 1 {
        2
    } else if sib / 64 == 2 {
        4
    } else {
        8
    };
    if number == 4 {
        None
    } else {
        Some((register(number, Size::S64, true), factor))
    }
}

/// The offset at `start`, and how many bytes it takes.
#[verifier::opaque]
pub open spec fn offset_at(rest: Seq<u8>, start: int, mode: int) -> (int, int) {
    if mode == 0 {
        (0int, 0int)
    } else if mode == 1 {
        let n = rest[start] as int;
        (
            if n < 0x80 {
                n
            } else {
                n - 0x100
            },
            1,
        )
    } else {
        (bytes::signed_32(bytes::field(rest, start, 4) as u32), 4)
    }
}

impl Parts {
    /// The bits of the extending prefix: the width, and one more bit for the register,
    /// the index and the base.
    pub open spec fn w(self) -> int {
        match self.rex {
            Some(n) => n / 8 % 2,
            None => 0,
        }
    }

    pub open spec fn r(self) -> int {
        match self.rex {
            Some(n) => n / 4 % 2,
            None => 0,
        }
    }

    pub open spec fn x(self) -> int {
        match self.rex {
            Some(n) => n / 2 % 2,
            None => 0,
        }
    }

    pub open spec fn b(self) -> int {
        match self.rex {
            Some(n) => n % 2,
            None => 0,
        }
    }

    pub open spec fn size(self) -> Size {
        if self.w() == 1 {
            Size::S64
        } else if self.short {
            Size::S16
        } else {
            Size::S32
        }
    }

    pub open spec fn width(self, w: Width) -> Size {
        match w {
            Width::Operation => self.size(),
            Width::Fixed(s) => s,
        }
    }

    pub open spec fn extension(self) -> int {
        self.rest[0] as int / 8 % 8
    }

    pub open spec fn meaning(self) -> Option<Meaning> {
        if self.escape {
            meaning_of_two(self.opcode)
        } else {
            meaning_of_one(self.opcode, self.extension())
        }
    }

    pub open spec fn reg(self, size: Size) -> Operand {
        Operand::Reg(register(self.extension() + 8 * self.r(), size, self.rex is Some))
    }

    /// The register in the low bits of the opcode.
    pub open spec fn low(self, size: Size) -> Operand {
        Operand::Reg(register(self.opcode % 8 + 8 * self.b(), size, self.rex is Some))
    }

    /// The register or memory operand, and how many bytes it takes.
    #[verifier::opaque]
    pub open spec fn rm(self, size: Size) -> (Operand, int) {
        let mode = self.rest[0] as int / 64;
        let low = self.rest[0] as int % 8;
        if mode == 3 {
            (Operand::Reg(register(low + 8 * self.b(), size, self.rex is Some)), 1)
        } else {
            let with_sib = low == 4;
            let start = if with_sib {
                2int
            } else {
                1
            };
            let sib = self.rest[1] as int;
            let base = register(
                (if with_sib {
                    sib % 8
                } else {
                    low
                }) + 8 * self.b(),
                Size::S64,
                true,
            );
            let index = if with_sib {
                scaled_index(sib, self.x())
            } else {
                None
            };
            let (offset, bytes) = offset_at(self.rest, start, mode);
            // without an offset the number of the frame pointer stands for no base
            if mode == 0 && (if with_sib {
                sib % 8
            } else {
                low
            }) == 5 {
                (Operand::Fixed, start + 4)
            } else {
                (Operand::Mem(Address { base, index, offset }), start + bytes)
            }
        }
    }

    /// The number of `size` at `at`. Operations on 64 bits have numbers of 32 bits.
    pub open spec fn imm(self, size: Size, at: int) -> Operand {
        let n = match size {
            Size::S8 => 1int,
            Size::S16 => 2,
            _ => 4,
        };
        Operand::Imm(n, bytes::field(self.rest, at, n))
    }

    pub open spec fn decoded(self) -> Option<Decoded> {
        match self.meaning() {
            Some(m) => {
                let first = self.width(m.first);
                let other = self.width(m.other);
                let operands = match m.layout {
                    Layout::RmReg => seq![self.rm(first).0, self.reg(other)],
                    Layout::RegRm => seq![self.reg(first), self.rm(other).0],
                    Layout::RegRmImm => seq![
                        self.reg(first),
                        self.rm(other).0,
                        self.imm(other, self.rm(other).1),
                    ],
                    Layout::RmImm => seq![self.rm(first).0, self.imm(first, self.rm(first).1)],
                    Layout::RmByte => seq![
                        self.rm(first).0,
                        self.imm(Size::S8, self.rm(first).1),
                    ],
                    Layout::Rm => seq![self.rm(first).0],
                    Layout::Low => seq![self.low(first)],
                    Layout::LowImm => seq![self.low(first), self.imm(first, 0)],
                    Layout::Nothing => Seq::empty(),
                };
                Some(Decoded { operation: m.operation, size: first, operands })
            },
            None => None,
        }
    }
}

/// The instruction that the bytes stand for.
pub open spec fn decode(b: Seq<u8>) -> Option<Decoded> {
    parts(b).decoded()
}

/// The operation that the name of an instruction stands for.
pub open spec fn operation_named(op: X86) -> Option<Operation> {
    match op {
        X86::or_rr8
        | X86::or_rr16
        | X86::or_rr32
        | X86::or_rr64
        | X86::or_ri8
        | X86::or_ri16
        | X86::or_ri32
        | X86::or_ri64 => Some(Operation::Or),
        X86::and_rr8
        | X86::and_rr16
        | X86::and_rr32
        | X86::and_rr64
        | X86::and_ri8
        | X86::and_ri16
        | X86::and_ri32
        | X86::and_ri64 => Some(Operation::And),
        X86::push_r64 => Some(Operation::Push),
        X86::pop_r64 => Some(Operation::Pop),
        X86::mov_ri8
        | X86::mov_ri16
        | X86::mov_ri32
        | X86::mov_ri64
        | X86::mov_rr8
        | X86::mov_rr16
        | X86::mov_rr32
        | X86::mov_rr64
        | X86::mov_rm8
        | X86::mov_rm16
        | X86::mov_rm32
        | X86::mov_rm64
        | X86::mov_mr8
        | X86::mov_mr16
        | X86::mov_mr32
        | X86::mov_mr64 => Some(Operation::Mov),
        X86::ret0
        | X86::ret64
        | X86::ret128 => Some(Operation::Return),
        X86::seto => Some(Operation::SetIf(Condition::Overflow)),
        X86::setno => Some(Operation::SetIf(Condition::NoOverflow)),
        X86::setc => Some(Operation::SetIf(Condition::Carry)),
        X86::setnc => Some(Operation::SetIf(Condition::NoCarry)),
        X86::sete => Some(Operation::SetIf(Condition::Equal)),
        X86::setne => Some(Operation::SetIf(Condition::NotEqual)),
        X86::setbe => Some(Operation::SetIf(Condition::BelowOrEqual)),
        X86::seta => Some(Operation::SetIf(Condition::Above)),
        X86::sets => Some(Operation::SetIf(Condition::Sign)),
        X86::setns => Some(Operation::SetIf(Condition::NoSign)),
        X86::setp => Some(Operation::SetIf(Condition::Parity)),
        X86::setnp => Some(Operation::SetIf(Condition::NoParity)),
        X86::setl => Some(Operation::SetIf(Condition::Less)),
        X86::setge => Some(Operation::SetIf(Condition::GreaterOrEqual)),
        X86::setle => Some(Operation::SetIf(Condition::LessOrEqual)),
        X86::setg => Some(Operation::SetIf(Condition::Greater)),
        X86::cmp_rr8
        | X86::cmp_rr16
        | X86::cmp_rr32
        | X86::cmp_rr64 => Some(Operation::Cmp),
        X86::test_rr8 => Some(Operation::Test),
        X86::add_rr8
        | X86::add_rr16
        | X86::add_rr32
        | X86::add_rr64
        | X86::add_ri8
        | X86::add_ri16
        | X86::add_ri32
        | X86::add_ri64 => Some(Operation::Add),
        X86::sub_rr8
        | X86::sub_rr16
        | X86::sub_rr32
        | X86::sub_rr64
        | X86::sub_ri8
        | X86::sub_ri16
        | X86::sub_ri32
        | X86::sub_ri64 => Some(Operation::Sub),
        X86::imul_r8
        | X86::imul_rr16
        | X86::imul_rr32
        | X86::imul_rr64
        | X86::imul_rri16
        | X86::imul_rri32
        | X86::imul_rri64 => Some(Operation::Imul),
        X86::cbw => Some(Operation::ExtendAccumulator),
        X86::cwd
        | X86::cdq
        | X86::cqo => Some(Operation::ExtendIntoData),
        X86::div_r8
        | X86::div_r16
        | X86::div_r32
        | X86::div_r64 => Some(Operation::Div),
        X86::idiv_r8
        | X86::idiv_r16
        | X86::idiv_r32
        | X86::idiv_r64 => Some(Operation::Idiv),
        X86::shl_ri8
        | X86::shl_ri16
        | X86::shl_ri32
        | X86::shl_ri64 => Some(Operation::Shl),
        X86::shr_ri8
        | X86::shr_ri16
        | X86::shr_ri32
        | X86::shr_ri64 => Some(Operation::Shr),
        X86::neg_r8
        | X86::neg_r16
        | X86::neg_r32
        | X86::neg_r64 => Some(Operation::Neg),
        X86::xor_rr8
        | X86::xor_rr16
        | X86::xor_rr32
        | X86::xor_rr64
        | X86::xor_ri8
        | X86::xor_ri16
        | X86::xor_ri32
        | X86::xor_ri64 => Some(Operation::Xor),
        X86::lea_rm32
        | X86::lea_rm64 => Some(Operation::Lea),
        X86::call_r64 => Some(Operation::Call),
        X86::movsx16_rr8
        | X86::movsx32_rr8
        | X86::movsx64_rr8
        | X86::movsx32_rr16
        | X86::movsx64_rr16
        | X86::movsx64_rr32 => Some(Operation::Movsx),
        X86::movzx16_rr8
        | X86::movzx32_rr8
        | X86::movzx32_rr16 => Some(Operation::Movzx),
        _ => None,
    }
}

/// The width in the name of an instruction, or the one of what it changes. `cbw` is
/// written without the prefix for 16 bits and extends to 32.
pub open spec fn size_named(op: X86) -> Size {
    match op {
        X86::or_rr8
        | X86::or_ri8
        | X86::and_rr8
        | X86::and_ri8
        | X86::mov_ri8
        | X86::mov_rr8
        | X86::mov_rm8
        | X86::mov_mr8
        | X86::seto
        | X86::setno
        | X86::setc
        | X86::setnc
        | X86::sete
        | X86::setne
        | X86::setbe
        | X86::seta
        | X86::sets
        | X86::setns
        | X86::setp
        | X86::setnp
        | X86::setl
        | X86::setge
        | X86::setle
        | X86::setg
        | X86::cmp_rr8
        | X86::test_rr8
        | X86::add_rr8
        | X86::add_ri8
        | X86::sub_rr8
        | X86::sub_ri8
        | X86::imul_r8
        | X86::div_r8
        | X86::idiv_r8
        | X86::shl_ri8
        | X86::shr_ri8
        | X86::neg_r8
        | X86::xor_rr8
        | X86::xor_ri8 => Size::S8,
        X86::or_rr16
        | X86::or_ri16
        | X86::and_rr16
        | X86::and_ri16
        | X86::mov_ri16
        | X86::mov_rr16
        | X86::mov_rm16
        | X86::mov_mr16
        | X86::cmp_rr16
        | X86::add_rr16
        | X86::add_ri16
        | X86::sub_rr16
        | X86::sub_ri16
        | X86::imul_rr16
        | X86::imul_rri16
        | X86::cwd
        | X86::div_r16
        | X86::idiv_r16
        | X86::shl_ri16
        | X86::shr_ri16
        | X86::neg_r16
        | X86::xor_rr16
        | X86::xor_ri16
        | X86::movsx16_rr8
        | X86::movzx16_rr8 => Size::S16,
        X86::or_rr32
        | X86::or_ri32
        | X86::and_rr32
        | X86::and_ri32
        | X86::mov_ri32
        | X86::mov_rr32
        | X86::mov_rm32
        | X86::mov_mr32
        | X86::cmp_rr32
        | X86::add_rr32
        | X86::add_ri32
        | X86::sub_rr32
        | X86::sub_ri32
        | X86::imul_rr32
        | X86::imul_rri32
        | X86::cbw
        | X86::cdq
        | X86::div_r32
        | X86::idiv_r32
        | X86::shl_ri32
        | X86::shr_ri32
        | X86::neg_r32
        | X86::xor_rr32
        | X86::xor_ri32
        | X86::lea_rm32
        | X86::movsx32_rr8
        | X86::movsx32_rr16
        | X86::movzx32_rr8
        | X86::movzx32_rr16 => Size::S32,
        _ => Size::S64,
    }
}

/// The width of the value that is extended.
pub open spec fn source_size(op: X86) -> Size {
    match op {
        X86::movsx16_rr8 | X86::movsx32_rr8 | X86::movsx64_rr8 | X86::movzx16_rr8
        | X86::movzx32_rr8 => Size::S8,
        X86::movsx32_rr16 | X86::movsx64_rr16 | X86::movzx32_rr16 => Size::S16,
        X86::movsx64_rr32 => Size::S32,
        _ => size_named(op),
    }
}

/// The address that is meant.
pub open spec fn address(m: Mem) -> Address {
    Address {
        base: m.ptr,
        index: if m.index == Reg::none {
            None
        } else {
            Some((m.index, m.scale as int))
        },
        offset: bytes::signed_32(m.offset),
    }
}

/// The low bytes of a number, as many as an operation of the size has.
pub open spec fn number(size: Size, imm: u32) -> Operand {
    match size {
        Size::S8 => Operand::Imm(1, imm as int % 0x100),
        Size::S16 => Operand::Imm(2, imm as int % 0x1_0000),
        _ => Operand::Imm(4, imm as int),
    }
}

/// The instruction that is meant. The product of two registers goes to the second.
pub open spec fn intended(op: X86, args: Operands) -> Option<Decoded> {
    match operation_named(op) {
        Some(operation) => {
            let size = size_named(op);
            let operands = match args {
                Operands::Empty => Seq::empty(),
                Operands::Reg(r) => seq![Operand::Reg(r)],
                Operands::RegReg(a, b) => if operation == Operation::Imul {
                    seq![Operand::Reg(b), Operand::Reg(a)]
                } else {
                    seq![Operand::Reg(a), Operand::Reg(b)]
                },
                Operands::RegImm(r, imm) => seq![
                    Operand::Reg(r),
                    if operation == Operation::Shl || operation == Operation::Shr {
                        number(Size::S8, imm)
                    } else {
                        number(size, imm)
                    },
                ],
                Operands::RegRegImm(a, b, imm) => seq![
                    Operand::Reg(a),
                    Operand::Reg(b),
                    number(size, imm),
                ],
                Operands::RegMem(r, m) => seq![Operand::Reg(r), Operand::Mem(address(m))],
                Operands::MemReg(m, r) => seq![Operand::Mem(address(m)), Operand::Reg(r)],
                _ => Seq::empty(),
            };
            Some(Decoded { operation, size, operands })
        },
        None => None,
    }
}

/// The register has the width.
pub open spec fn has_width(r: Reg, size: Size) -> bool {
    &&& r != Reg::none && r != Reg::rip && r != Reg::eflags
    &&& match size {
        Size::S8 => r.spec_class() == RegClass::GP8,
        Size::S16 => r.spec_class() == RegClass::GP16,
        Size::S32 => r.spec_class() == RegClass::GP32,
        Size::S64 => r.spec_class() == RegClass::GP64,
        Size::S128 => false,
    }
}

/// The operands have the widths of the instruction. Where an instruction has no other
/// operand than a register, the register is none of those from `r8` on; only the
/// stack instructions and calls can have them.
pub open spec fn has_operands(op: X86, args: Operands) -> bool {
    let size = size_named(op);
    match args {
        Operands::Empty => true,
        Operands::Reg(r) => has_width(r, size) && (op == X86::push_r64 || op == X86::pop_r64 || op
            == X86::call_r64 || !encode::spec_encode_reg(r).spec_ext()),
        Operands::RegReg(a, b) => has_width(a, size) && has_width(b, source_size(op)),
        Operands::RegImm(r, _) => has_width(r, size),
        Operands::RegRegImm(a, b, _) => has_width(a, size) && has_width(b, size),
        Operands::RegMem(r, m) | Operands::MemReg(m, r) => has_width(r, size) && has_width(
            m.ptr,
            Size::S64,
        ) && (m.index == Reg::none || has_width(m.index, Size::S64)),
        _ => false,
    }
}

#[verifier::spinoff_prover]
#[verifier::rlimit(60)]
proof fn lemma_register(r: Reg, size: Size, prefixed: bool)
    requires
        has_width(r, size),
        encode::spec_encode_reg(r).spec_prevents_rex() ==> !prefixed,
        encode::spec_encode_reg(r).spec_force() ==> prefixed,
    ensures
        register(
            encode::spec_encode_reg(r).bits + 8 * encode::bit(
                encode::spec_encode_reg(r).spec_ext(),
            ),
            size,
            prefixed,
        ) == r,
        encode::spec_encode_reg(r).bits < 8,
        encode::spec_encode_reg(Reg::none).bits == 0,
        encode::spec_encode_reg(Reg::none).kind == encode::RegKind::Normal,
{
    reveal(encode::spec_encode_reg);
    reveal(register);
}

/// The opcode cannot be taken for a prefix.
pub open spec fn is_plain(opcode: Opcode) -> bool {
    opcode.escape || (opcode.byte != 0x66 && opcode.byte != 0x0F && !(0x40 <= opcode.byte < 0x50))
}

#[verifier::spinoff_prover]
#[verifier::rlimit(60)]
proof fn lemma_parts(
    short: Size,
    w: bool,
    r: bool,
    x: bool,
    b: bool,
    force: bool,
    opcode: Opcode,
    rest: Seq<u8>,
)
    requires
        is_plain(opcode),
    ensures
        ({
            let p = parts(
                encode::prefix_16(short) + encode::rex(w, r, x, b, force) + opcode.bytes() + rest,
            );
            &&& p.short == (short == Size::S16)
            &&& p.rex is Some == (w || r || x || b || force)
            &&& p.escape == opcode.escape
            &&& p.opcode == opcode.byte
            &&& p.rest =~= rest
            &&& p.w() == encode::bit(w)
            &&& p.r() == encode::bit(r)
            &&& p.x() == encode::bit(x)
            &&& p.b() == encode::bit(b)
        }),
{
    let all = encode::prefix_16(short) + encode::rex(w, r, x, b, force) + opcode.bytes() + rest;
    let b1 = encode::rex(w, r, x, b, force) + opcode.bytes() + rest;
    let b2 = opcode.bytes() + rest;
    if short == Size::S16 {
        assert(all.skip(1) =~= b1);
    } else {
        assert(all =~= b1);
    }
    if w || r || x || b || force {
        assert(b1.skip(1) =~= b2);
        assert(b1[0] == encode::rex_byte(w, r, x, b));
    } else {
        assert(b1 =~= b2);
    }
    if opcode.escape {
        assert(b2.skip(1) =~= seq![opcode.byte] + rest);
        assert(b2.skip(1).skip(1) =~= rest);
    } else {
        assert(b2.skip(1) =~= rest);
    }
}

/// What is read of the byte that names two registers, or a register and an extension.
proof fn lemma_modrm(p: Parts, x: u8, y: u8, size: Size)
    requires
        x < 8,
        y < 8,
        p.rest[0] == encode::modrm_rr(x, y),
    ensures
        p.extension() == x,
        p.rm(size) == (Operand::Reg(register(y + 8 * p.b(), size, p.rex is Some)), 1int),
{
    reveal(Parts::rm);
}

/// What is read of two registers.
#[verifier::spinoff_prover]
#[verifier::rlimit(60)]
proof fn lemma_rr(
    size: Size,
    opcode: Opcode,
    reg: Reg,
    reg_size: Size,
    rm: Reg,
    rm_size: Size,
    tail: Seq<u8>,
)
    requires
        is_plain(opcode),
        has_width(reg, reg_size),
        has_width(rm, rm_size),
        encode::fits_rr(reg, rm, size == Size::S64),
    ensures
        ({
            let p = parts(
                encode::prefix_16(size) + encode::enc_rr(opcode, reg, rm, size == Size::S64) + tail,
            );
            &&& p.escape == opcode.escape
            &&& p.opcode == opcode.byte
            &&& p.reg(reg_size) == Operand::Reg(reg)
            &&& p.rm(rm_size) == (Operand::Reg(rm), 1int)
            &&& size != Size::S8 && size != Size::S128 ==> p.size() == size
            &&& p.rest.len() == 1 + tail.len()
            &&& p.rest.skip(1) =~= tail
        }),
{
    let a = encode::spec_encode_reg(reg);
    let b = encode::spec_encode_reg(rm);
    let wide = size == Size::S64;
    let force = a.spec_force() || b.spec_force();
    let rest = seq![encode::modrm_rr(a.bits, b.bits)] + tail;
    let all = encode::prefix_16(size) + encode::enc_rr(opcode, reg, rm, wide) + tail;
    assert(all =~= encode::prefix_16(size) + encode::rex(
        wide,
        a.spec_ext(),
        false,
        b.spec_ext(),
        force,
    ) + opcode.bytes() + rest);
    lemma_parts(size, wide, a.spec_ext(), false, b.spec_ext(), force, opcode, rest);
    let p = parts(all);
    lemma_register(reg, reg_size, p.rex is Some);
    lemma_register(rm, rm_size, p.rex is Some);
    assert(p.rest[0] == encode::modrm_rr(a.bits, b.bits));
    lemma_modrm(p, a.bits, b.bits, rm_size);
}

/// What is read of one register with an extension of the opcode.
#[verifier::spinoff_prover]
#[verifier::rlimit(60)]
proof fn lemma_ri(size: Size, short: Size, opcode: Opcode, rm: Reg, rm_size: Size, i: u8, tail: Seq<u8>)
    requires
        is_plain(opcode),
        has_width(rm, rm_size),
        i < 8,
        size == Size::S64 ==> !encode::spec_encode_reg(rm).spec_prevents_rex(),
    ensures
        ({
            let p = parts(
                encode::prefix_16(short) + encode::enc_ri_modrm(opcode, rm, size == Size::S64, i)
                    + tail,
            );
            &&& p.escape == opcode.escape
            &&& p.opcode == opcode.byte
            &&& p.extension() == i
            &&& p.rm(rm_size) == (Operand::Reg(rm), 1int)
            &&& size == Size::S64 ==> p.size() == Size::S64
            &&& size != Size::S64 ==> p.size() == if short == Size::S16 {
                Size::S16
            } else {
                Size::S32
            }
            &&& p.rest.len() == 1 + tail.len()
            &&& p.rest.skip(1) =~= tail
        }),
{
    let b = encode::spec_encode_reg(rm);
    let wide = size == Size::S64;
    let rest = seq![encode::modrm_rr(i, b.bits)] + tail;
    let all = encode::prefix_16(short) + encode::enc_ri_modrm(opcode, rm, wide, i) + tail;
    assert(all =~= encode::prefix_16(short) + encode::rex(
        wide,
        false,
        false,
        b.spec_ext(),
        b.spec_force(),
    ) + opcode.bytes() + rest);
    lemma_parts(short, wide, false, false, b.spec_ext(), b.spec_force(), opcode, rest);
    let p = parts(all);
    lemma_register(rm, rm_size, p.rex is Some);
    assert(p.rest[0] == encode::modrm_rr(i, b.bits));
    lemma_modrm(p, i, b.bits, rm_size);
}

/// What is read of a register in the low bits of the opcode.
#[verifier::spinoff_prover]
#[verifier::rlimit(60)]
proof fn lemma_low(short: Size, opcode: u8, r: Reg, size: Size, force: bool, tail: Seq<u8>)
    requires
        opcode % 8 == 0,
        opcode >= 0x50,
        opcode <= 0xF8,
        opcode != 0x60,
        has_width(r, size),
        encode::spec_encode_reg(r).spec_force() ==> force,
        encode::spec_encode_reg(r).spec_prevents_rex() ==> !force,
    ensures
        ({
            let p = parts(
                encode::prefix_16(short) + encode::enc_opcode_reg(opcode, r, force) + tail,
            );
            &&& !p.escape
            &&& opcode <= p.opcode < opcode + 8
            &&& p.low(size) == Operand::Reg(r)
            &&& p.size() == if short == Size::S16 {
                Size::S16
            } else {
                Size::S32
            }
            &&& p.rest =~= tail
        }),
{
    let ra = encode::spec_encode_reg(r);
    lemma_register(
        r,
        size,
        force || ra.spec_ext(),
    );
    let code = encode::one_byte((opcode + ra.bits) as u8);
    let all = encode::prefix_16(short) + encode::enc_opcode_reg(opcode, r, force) + tail;
    assert(all =~= encode::prefix_16(short) + encode::rex(
        false,
        false,
        false,
        ra.spec_ext(),
        force,
    ) + code.bytes() + tail);
    lemma_parts(short, false, false, false, ra.spec_ext(), force, code, tail);
}

/// A number behind one byte.
proof fn lemma_number(first: Seq<u8>, size: Size, imm: u32)
    ensures
        ({
            let rest = first + encode::imm_bytes(size, imm);
            let n = match size {
                Size::S8 => 1int,
                Size::S16 => 2,
                _ => 4,
            };
            Operand::Imm(n, bytes::field(rest, first.len() as int, n)) == number(size, imm)
        }),
{
    let none = Seq::<u8>::empty();
    let rest = first + encode::imm_bytes(size, imm);
    assert(rest =~= first + encode::imm_bytes(size, imm) + none);
    match size {
        Size::S8 => {
            let v = imm as int % 0x100;
            bytes::fields_read_back(first, v, 1, none);
            reveal_with_fuel(bytes::le_bytes, 2);
            assert(bytes::le_bytes(v, 1) =~= seq![v as u8]);
        },
        Size::S16 => {
            bytes::fields_read_back(first, imm as int % 0x1_0000, 2, none);
        },
        _ => {
            bytes::fields_read_back(first, imm as int, 4, none);
        },
    }
}

/// What the opcode of a form stands for is what the instruction is named for.
spec fn is_named(op: X86, opcode: Opcode, extension: int, layout: Layout) -> bool {
    let m = if opcode.escape {
        meaning_of_two(opcode.byte as int)
    } else {
        meaning_of_one(opcode.byte as int, extension)
    };
    &&& is_plain(opcode)
    &&& m matches Some(m) && operation_named(op) == Some(m.operation) && m.layout == layout
    &&& match m->Some_0.first {
        Width::Fixed(s) => s == size_named(op),
        Width::Operation => true,
    }
    &&& match m->Some_0.other {
        Width::Fixed(s) => s == source_size(op),
        Width::Operation => source_size(op) == size_named(op),
    }
}

/// The width of an operation that the processor takes from the prefixes.
spec fn from_prefixes(op: X86, opcode: Opcode, extension: int) -> bool {
    let m = if opcode.escape {
        meaning_of_two(opcode.byte as int)
    } else {
        meaning_of_one(opcode.byte as int, extension)
    };
    m->Some_0.first == Width::Operation
}

#[verifier::spinoff_prover]
#[verifier::rlimit(50)]
proof fn lemma_rr_table(op: X86, extension: int)
    ensures
        op.spec_form() matches Form::Rr { size, opcode_8, code, swap } ==> {
            let opcode = encode::opcode_of(size, encode::one_byte(opcode_8), code);
            &&& is_named(
                op,
                opcode,
                extension,
                if swap || code.escape {
                    Layout::RegRm
                } else {
                    Layout::RmReg
                },
            )
            &&& from_prefixes(op, opcode, extension) ==> size == size_named(op) && size != Size::S8
                && size != Size::S128
            &&& !from_prefixes(op, opcode, extension) ==> size == Size::S8
            &&& code.escape && !swap <==> operation_named(op) == Some(Operation::Imul)
        },
{
}

/// Instructions with two registers are read as they are meant.
#[verifier::spinoff_prover]
#[verifier::rlimit(50)]
proof fn lemma_two_registers(op: X86, a: Reg, b: Reg)
    requires
        op.spec_form() is Rr,
        emit::fits_form(op.spec_form(), Operands::RegReg(a, b)),
        has_operands(op, Operands::RegReg(a, b)),
    ensures
        decode(emit::enc_form(op.spec_form(), Operands::RegReg(a, b))) == intended(
            op,
            Operands::RegReg(a, b),
        ),
{
    if let Form::Rr { size, opcode_8, code, swap } = op.spec_form() {
        let opcode = encode::opcode_of(size, encode::one_byte(opcode_8), code);
        lemma_rr_table(op, parts(emit::enc_form(op.spec_form(), Operands::RegReg(a, b))).extension());
        let none = Seq::<u8>::empty();
        let (first, other) = (size_named(op), source_size(op));
        if swap {
            lemma_rr(size, opcode, a, first, b, other, none);
            assert(encode::prefix_16(size) + encode::enc_rr(opcode, a, b, size == Size::S64) + none
                =~= emit::enc_form(op.spec_form(), Operands::RegReg(a, b)));
        } else {
            assert(other == first);
            lemma_rr(size, opcode, b, other, a, first, none);
            assert(encode::prefix_16(size) + encode::enc_rr(opcode, b, a, size == Size::S64) + none
                =~= emit::enc_form(op.spec_form(), Operands::RegReg(a, b)));
        }
        let d = decode(emit::enc_form(op.spec_form(), Operands::RegReg(a, b)))->Some_0;
        assert(d.operands =~= intended(op, Operands::RegReg(a, b))->Some_0.operands);
    }
}

#[verifier::spinoff_prover]
#[verifier::rlimit(50)]
proof fn lemma_immediate_table(op: X86)
    ensures
        op.spec_form() matches Form::Ri { size, extension } ==> {
            let opcode = if size == Size::S8 {
                encode::one_byte(0x80)
            } else {
                encode::one_byte(0x81)
            };
            &&& is_named(op, opcode, extension as int, Layout::RmImm)
            &&& size == size_named(op)
            &&& size != Size::S128
            &&& from_prefixes(op, opcode, extension as int) <==> size != Size::S8
            &&& operation_named(op) != Some(Operation::Shl)
            &&& operation_named(op) != Some(Operation::Shr)
        },
        op.spec_form() matches Form::Shift { size, extension } ==> {
            let opcode = if size == Size::S8 {
                encode::one_byte(0xC0)
            } else {
                encode::one_byte(0xC1)
            };
            &&& is_named(op, opcode, extension as int, Layout::RmByte)
            &&& size == size_named(op)
            &&& size != Size::S128
            &&& from_prefixes(op, opcode, extension as int) <==> size != Size::S8
            &&& operation_named(op) == Some(Operation::Shl) || operation_named(op) == Some(
                Operation::Shr,
            )
        },
        op.spec_form() matches Form::MovRi(size) ==> size == size_named(op) && size != Size::S128
            && operation_named(op) == Some(Operation::Mov),
{
}

/// Instructions with a register and a number are read as they are meant.
#[verifier::spinoff_prover]
#[verifier::rlimit(50)]
proof fn lemma_immediate(op: X86, r: Reg, imm: u32)
    requires
        emit::fits_form(op.spec_form(), Operands::RegImm(r, imm)),
        has_operands(op, Operands::RegImm(r, imm)),
    ensures
        decode(emit::enc_form(op.spec_form(), Operands::RegImm(r, imm))) == intended(
            op,
            Operands::RegImm(r, imm),
        ),
{
    let args = Operands::RegImm(r, imm);
    let b = emit::enc_form(op.spec_form(), args);
    let p = parts(b);
    lemma_immediate_table(op);
    match op.spec_form() {
        Form::Ri { size, extension } => {
            let opcode = encode::opcode_of(size, encode::one_byte(0x80), encode::one_byte(0x81));
            let tail = encode::imm_bytes(size, imm);
            lemma_ri(size, size, opcode, r, size, extension, tail);
            assert(p.rest =~= seq![p.rest[0]] + tail);
            lemma_number(seq![p.rest[0]], size, imm);
        },
        Form::Shift { size, extension } => {
            let opcode = encode::opcode_of(size, encode::one_byte(0xC0), encode::one_byte(0xC1));
            let tail = encode::imm_bytes(Size::S8, imm);
            lemma_ri(size, size, opcode, r, size, extension, tail);
            assert(p.rest =~= seq![p.rest[0]] + tail);
            lemma_number(seq![p.rest[0]], Size::S8, imm);
        },
        Form::MovRi(size) => {
            let none = Seq::<u8>::empty();
            let force = encode::spec_encode_reg(r).spec_force();
            match size {
                Size::S8 | Size::S32 => {
                    let opcode: u8 = if size == Size::S8 {
                        0xB0
                    } else {
                        0xB8
                    };
                    let tail = encode::imm_bytes(size, imm);
                    lemma_low(size, opcode, r, size, force, tail);
                    assert(b =~= encode::prefix_16(size) + encode::enc_opcode_reg(opcode, r, force)
                        + tail);
                    lemma_number(none, size, imm);
                    assert(p.rest =~= none + tail);
                },
                Size::S16 => {
                    let tail = encode::imm_bytes(size, imm);
                    let ext = encode::spec_encode_reg(r).spec_ext();
                    lemma_word_register(r);
                    lemma_low(size, 0xB8, r, size, ext, tail);
                    assert(b =~= encode::prefix_16(size) + encode::enc_opcode_reg(0xB8, r, ext)
                        + tail);
                    lemma_number(none, size, imm);
                    assert(p.rest =~= none + tail);
                },
                _ => {
                    let tail = bytes::le_32(imm);
                    let code = encode::one_byte(0xC7);
                    lemma_ri(size, Size::S64, code, r, size, 0, tail);
                    assert(b =~= encode::prefix_16(Size::S64) + encode::enc_ri_modrm(
                        code,
                        r,
                        true,
                        0,
                    ) + tail);
                    assert(p.rest =~= seq![p.rest[0]] + tail);
                    lemma_number(seq![p.rest[0]], size, imm);
                },
            }
        },
        _ => {},
    }
    assert(decode(b)->Some_0.operands =~= intended(op, args)->Some_0.operands);
}

proof fn lemma_word_register(r: Reg)
    requires
        has_width(r, Size::S16),
    ensures
        !encode::spec_encode_reg(r).spec_force(),
        !encode::spec_encode_reg(r).spec_prevents_rex(),
{
    reveal(encode::spec_encode_reg);
}

#[verifier::spinoff_prover]
#[verifier::rlimit(50)]
proof fn lemma_one_table(op: X86)
    ensures
        op.spec_form() matches Form::R { size, opcode_8, code, extension } ==> {
            let opcode = encode::opcode_of(size, encode::one_byte(opcode_8), code);
            &&& is_named(op, opcode, extension as int, Layout::Rm)
            &&& size != Size::S128
            &&& from_prefixes(op, opcode, extension as int) ==> size == size_named(op) && size
                != Size::S8
            &&& extension < 8
        },
        op.spec_form() matches Form::OpcodeReg(opcode) ==> {
            &&& opcode == 0x50 ==> operation_named(op) == Some(Operation::Push)
            &&& opcode == 0x58 ==> operation_named(op) == Some(Operation::Pop)
            &&& opcode == 0x50 || opcode == 0x58
            &&& size_named(op) == Size::S64
        },
        op.spec_form() is CallR ==> operation_named(op) == Some(Operation::Call) && size_named(op)
            == Size::S64,
        op.spec_form() is R ==> op != X86::push_r64 && op != X86::pop_r64 && op != X86::call_r64,
{
}

/// Instructions with one register are read as they are meant.
#[verifier::spinoff_prover]
#[verifier::rlimit(50)]
proof fn lemma_one_register(op: X86, r: Reg)
    requires
        emit::fits_form(op.spec_form(), Operands::Reg(r)),
        has_operands(op, Operands::Reg(r)),
    ensures
        decode(emit::enc_form(op.spec_form(), Operands::Reg(r))) == intended(op, Operands::Reg(r)),
{
    let args = Operands::Reg(r);
    let b = emit::enc_form(op.spec_form(), args);
    let none = Seq::<u8>::empty();
    let ra = encode::spec_encode_reg(r);
    lemma_one_table(op);
    match op.spec_form() {
        Form::R { size, opcode_8, code, extension } => {
            let opcode = encode::opcode_of(size, encode::one_byte(opcode_8), code);
            let wide = size == Size::S64;
            lemma_ri(size, size, opcode, r, size_named(op), extension, none);
            assert(b =~= encode::prefix_16(size) + encode::enc_ri_modrm(opcode, r, wide, extension)
                + none);
        },
        Form::OpcodeReg(opcode) => {
            lemma_low(Size::S32, opcode, r, Size::S64, ra.spec_force(), none);
            assert(b =~= encode::prefix_16(Size::S32) + encode::enc_opcode_reg(
                opcode,
                r,
                ra.spec_force(),
            ) + none);
        },
        Form::CallR => {
            let code = encode::one_byte(0xFF);
            lemma_ri(Size::S32, Size::S32, code, r, Size::S64, 2, none);
            assert(b =~= encode::prefix_16(Size::S32) + encode::enc_ri_modrm(code, r, false, 2)
                + none);
        },
        _ => {},
    }
    assert(decode(b)->Some_0.operands =~= intended(op, args)->Some_0.operands);
}

/// Instructions without operands are read as they are meant.
#[verifier::spinoff_prover]
#[verifier::rlimit(50)]
proof fn lemma_no_operands(op: X86)
    requires
        emit::fits_form(op.spec_form(), Operands::Empty),
    ensures
        decode(emit::enc_form(op.spec_form(), Operands::Empty)) == intended(op, Operands::Empty),
{
    let b = emit::enc_form(op.spec_form(), Operands::Empty);
    let p = parts(b);
    if let Form::TwoBytes(x, y) = op.spec_form() {
        assert(b.skip(1) =~= seq![y]);
    }
    assert(decode(b)->Some_0.operands =~= intended(op, Operands::Empty)->Some_0.operands);
}

/// Instructions with two registers and a number are read as they are meant.
#[verifier::spinoff_prover]
#[verifier::rlimit(50)]
proof fn lemma_two_registers_and_number(op: X86, x: Reg, y: Reg, imm: u32)
    requires
        emit::fits_form(op.spec_form(), Operands::RegRegImm(x, y, imm)),
        has_operands(op, Operands::RegRegImm(x, y, imm)),
    ensures
        decode(emit::enc_form(op.spec_form(), Operands::RegRegImm(x, y, imm))) == intended(
            op,
            Operands::RegRegImm(x, y, imm),
        ),
{
    let args = Operands::RegRegImm(x, y, imm);
    let b = emit::enc_form(op.spec_form(), args);
    let p = parts(b);
    if let Form::Rri { size, opcode } = op.spec_form() {
        assert(op == X86::imul_rri16 || op == X86::imul_rri32 || op == X86::imul_rri64);
        let tail = encode::imm_bytes(size, imm);
        lemma_rr(size, encode::one_byte(opcode), x, size, y, size, tail);
        assert(p.rest =~= seq![p.rest[0]] + tail);
        lemma_number(seq![p.rest[0]], size, imm);
    }
    assert(decode(b)->Some_0.operands =~= intended(op, args)->Some_0.operands);
}

/// What is read of the offset of an address.
proof fn lemma_offset(mem: Mem, head: Seq<u8>)
    ensures
        ({
            let off = mem.offset_class();
            let mode = off.spec_modrm_bits() as int / 64;
            &&& off.spec_modrm_bits() == 64 * mode
            &&& mode == 0 || mode == 1 || mode == 2
            &&& offset_at(head + off.bytes(), head.len() as int, mode).0 == bytes::signed_32(
                mem.offset,
            )
            &&& mode == 0 ==> encode::spec_encode_reg(mem.ptr).bits != 5
        }),
{
    reveal(offset_at);
    let off = mem.offset_class();
    let none = Seq::<u8>::empty();
    let rest = head + off.bytes();
    match off {
        encode::OffsetClass::Zero => {},
        encode::OffsetClass::Byte(n) => {
            assert(rest[head.len() as int] == (n as int % 0x100) as u8);
        },
        encode::OffsetClass::DWord(n) => {
            assert(rest =~= head + off.bytes() + none);
            bytes::fields_read_back(head, bytes::twos_32(n as int) as int, 4, none);
            bytes::signed_round_trip(n, mem.offset);
        },
    }
}

/// What is read of the byte with the index.
proof fn lemma_sib(mem: Mem)
    requires
        has_width(mem.ptr, Size::S64),
        mem.index == Reg::none || has_width(mem.index, Size::S64),
        encode::spec_encode_reg(mem.index).bits != 4,
        encode::valid_scale(mem.scale),
    ensures
        ({
            let b = encode::spec_encode_reg(mem.ptr);
            let index = encode::spec_encode_reg(mem.index);
            let sib = encode::spec_sib(
                mem.scale,
                if mem.index != Reg::none {
                    Some(index)
                } else {
                    None
                },
                b,
            );
            &&& sib as int % 8 == b.bits
            &&& scaled_index(sib as int, encode::bit(index.spec_ext())) == address(mem).index
        }),
{
    reveal(scaled_index);
    lemma_wide_register(mem.ptr);
    if mem.index != Reg::none {
        lemma_wide_register(mem.index);
    } else {
        lemma_register(mem.ptr, Size::S64, true);
    }
}

proof fn lemma_fields(mode: int, reg: int, low: int)
    requires
        0 <= mode < 3,
        0 <= reg < 8,
        0 <= low < 8,
    ensures
        ({
            let m = (64 * mode + 8 * reg + low) as u8 as int;
            &&& m / 64 == mode
            &&& m / 8 % 8 == reg
            &&& m % 8 == low
        }),
{
}

/// What is read of an address.
#[verifier::spinoff_prover]
#[verifier::rlimit(50)]
proof fn lemma_address(p: Parts, reg_bits: u8, mem: Mem, size: Size)
    requires
        reg_bits < 8,
        p.rest =~= encode::enc_address(reg_bits, mem),
        has_width(mem.ptr, Size::S64),
        mem.index == Reg::none || has_width(mem.index, Size::S64),
        encode::spec_encode_reg(mem.index).bits != 4,
        mem.needs_sib() ==> encode::valid_scale(mem.scale),
        p.b() == encode::bit(encode::spec_encode_reg(mem.ptr).spec_ext()),
        p.x() == encode::bit(encode::spec_encode_reg(mem.index).spec_ext()),
    ensures
        p.extension() == reg_bits,
        p.rm(size).0 == Operand::Mem(address(mem)),
{
    reveal(Parts::rm);
    let b = encode::spec_encode_reg(mem.ptr);
    let off = mem.offset_class();
    let modbits = off.spec_modrm_bits();
    let mode = modbits as int / 64;
    lemma_wide_register(mem.ptr);
    if mem.needs_sib() {
        let head = p.rest.take(2);
        assert(p.rest =~= head + off.bytes());
        lemma_offset(mem, head);
        lemma_sib(mem);
        lemma_fields(mode, reg_bits as int, 4);
        assert(p.rest[0] == (modbits + 8 * reg_bits + 4) as u8);
    } else {
        let head = p.rest.take(1);
        assert(p.rest =~= head + off.bytes());
        lemma_offset(mem, head);
        lemma_fields(mode, reg_bits as int, b.bits as int);
        assert(p.rest[0] == (modbits + 8 * reg_bits + b.bits) as u8);
        assert(b.bits != 4);
        assert(mem.index == Reg::none);
    }
}

proof fn lemma_wide_register(r: Reg)
    requires
        has_width(r, Size::S64),
    ensures
        ({
            let e = encode::spec_encode_reg(r);
            &&& e.bits < 8
            &&& !e.spec_force()
            &&& !e.spec_prevents_rex()
            &&& register(e.bits + 8 * encode::bit(e.spec_ext()), Size::S64, true) == r
        }),
{
    reveal(encode::spec_encode_reg);
    lemma_register(r, Size::S64, true);
}

/// What is read of a register and a memory operand.
#[verifier::spinoff_prover]
#[verifier::rlimit(50)]
proof fn lemma_rm(size: Size, opcode_8: Opcode, opcode: Opcode, val: Reg, mem: Mem)
    requires
        is_plain(opcode_8),
        is_plain(opcode),
        has_width(val, size),
        has_width(mem.ptr, Size::S64),
        mem.index == Reg::none || has_width(mem.index, Size::S64),
        encode::fits_rm(size, val, mem),
    ensures
        ({
            let p = parts(encode::enc_rm(size, opcode_8, opcode, val, mem));
            let code = encode::opcode_of(size, opcode_8, opcode);
            &&& p.escape == code.escape
            &&& p.opcode == code.byte
            &&& p.reg(size) == Operand::Reg(val)
            &&& p.rm(size).0 == Operand::Mem(address(mem))
            &&& size != Size::S8 && size != Size::S128 ==> p.size() == size
        }),
{
    let a = encode::spec_encode_reg(val);
    let b = encode::spec_encode_reg(mem.ptr);
    let index = encode::spec_encode_reg(mem.index);
    let code = encode::opcode_of(size, opcode_8, opcode);
    let rest = encode::enc_address(a.bits, mem);
    let force = a.spec_force() || b.spec_force() || index.spec_force();
    let all = encode::enc_rm(size, opcode_8, opcode, val, mem);
    lemma_parts(
        size,
        size == Size::S64,
        a.spec_ext(),
        index.spec_ext(),
        b.spec_ext(),
        force,
        code,
        rest,
    );
    let p = parts(all);
    lemma_wide_register(mem.ptr);
    if mem.index != Reg::none {
        lemma_wide_register(mem.index);
    }
    lemma_register(val, size, p.rex is Some);
    lemma_address(p, a.bits, mem, size);
}

/// Instructions with a register and a memory operand are read as they are meant.
#[verifier::spinoff_prover]
#[verifier::rlimit(50)]
proof fn lemma_memory(op: X86, args: Operands)
    requires
        args is RegMem || args is MemReg,
        emit::fits_form(op.spec_form(), args),
        has_operands(op, args),
    ensures
        decode(emit::enc_form(op.spec_form(), args)) == intended(op, args),
{
    let b = emit::enc_form(op.spec_form(), args);
    match (op.spec_form(), args) {
        (Form::Rm { size, opcode_8, opcode }, Operands::RegMem(r, mem)) => {
            assert(size == size_named(op) && is_plain(encode::one_byte(opcode_8)) && is_plain(
                encode::one_byte(opcode),
            ));
            lemma_rm(size, encode::one_byte(opcode_8), encode::one_byte(opcode), r, mem);
        },
        (Form::Mr { size, opcode_8, opcode }, Operands::MemReg(mem, r)) => {
            assert(size == size_named(op) && is_plain(encode::one_byte(opcode_8)) && is_plain(
                encode::one_byte(opcode),
            ));
            lemma_rm(size, encode::one_byte(opcode_8), encode::one_byte(opcode), r, mem);
        },
        _ => {},
    }
    assert(decode(b)->Some_0.operands =~= intended(op, args)->Some_0.operands);
}

/// The bytes of an instruction are read as the operation that the instruction is named
/// for, with its width and its operands in their places.
pub proof fn instructions_are_read_as_meant(op: X86, args: Operands)
    requires
        emit::fits_form(op.spec_form(), args),
        has_operands(op, args),
    ensures
        decode(emit::enc_form(op.spec_form(), args)) == intended(op, args),
        intended(op, args) is Some,
{
    match args {
        Operands::Empty => {
            lemma_no_operands(op);
        },
        Operands::Reg(r) => {
            lemma_one_register(op, r);
        },
        Operands::RegReg(a, b) => {
            lemma_two_registers(op, a, b);
        },
        Operands::RegImm(r, imm) => {
            lemma_immediate(op, r, imm);
        },
        Operands::RegRegImm(a, b, imm) => {
            lemma_two_registers_and_number(op, a, b, imm);
        },
        Operands::RegMem(_, _) | Operands::MemReg(_, _) => {
            lemma_memory(op, args);
        },
        _ => {},
    }
}

/// Two instructions that are read alike are the same operation on operands of the same
/// width: what is written for one cannot be taken for another.
pub proof fn instructions_are_told_apart(op: X86, other: X86, args: Operands)
    requires
        emit::fits_form(op.spec_form(), args),
        emit::fits_form(other.spec_form(), args),
        has_operands(op, args),
        has_operands(other, args),
        emit::enc_form(op.spec_form(), args) == emit::enc_form(other.spec_form(), args),
    ensures
        operation_named(op) == operation_named(other),
        size_named(op) == size_named(other),
{
    instructions_are_read_as_meant(op, args);
    instructions_are_read_as_meant(other, args);
}

/// A copy between registers of one width is read as a move of the source into the
/// destination, unless both are the same register.
pub proof fn copies_move_the_source(to: Reg, from: Reg, size: Size)
    requires
        emit::can_copy(to, from),
        has_width(to, size),
        has_width(from, size),
    ensures
        to == from ==> emit::enc_copy(to, from) =~= Seq::<u8>::empty(),
        to != from ==> decode(emit::enc_copy(to, from)) == Some(
            Decoded {
                operation: Operation::Mov,
                size,
                operands: seq![Operand::Reg(to), Operand::Reg(from)],
            },
        ),
{
    if to != from {
        lemma_same_encoding(to, from, size);
        let code = encode::opcode_of(size, encode::one_byte(0x88), encode::one_byte(0x89));
        let none = Seq::<u8>::empty();
        lemma_rr(size, code, from, size, to, size, none);
        assert(emit::enc_copy(to, from) =~= encode::prefix_16(size) + encode::enc_rr(
            code,
            from,
            to,
            size == Size::S64,
        ) + none);
        let d = decode(emit::enc_copy(to, from))->Some_0;
        assert(d.operands =~= seq![Operand::Reg(to), Operand::Reg(from)]);
    }
}

proof fn lemma_same_encoding(a: Reg, b: Reg, size: Size)
    requires
        has_width(a, size),
        has_width(b, size),
    ensures
        encode::spec_encode_reg(a) == encode::spec_encode_reg(b) ==> a == b,
{
    let e = encode::spec_encode_reg(a);
    let prefixed = e.spec_force();
    if encode::spec_encode_reg(a) == encode::spec_encode_reg(b) {
        lemma_register(a, size, prefixed);
        lemma_register(b, size, prefixed);
    }
}

/// A jump or a call as it is read: the operation, how many bytes the opcode takes, and
/// how many the distance.
pub open spec fn branch(b: Seq<u8>) -> Option<(Operation, int, int)> {
    if b[0] == 0xEB {
        Some((Operation::Jump, 1, 1))
    } else if b[0] == 0xE9 {
        Some((Operation::Jump, 1, 4))
    } else if b[0] == 0xE8 {
        Some((Operation::Call, 1, 4))
    } else if 0x70 <= b[0] < 0x80 {
        Some((Operation::JumpIf(condition(b[0] - 0x70)), 1, 1))
    } else if b[0] == 0x0F && 0x80 <= b[1] < 0x90 {
        Some((Operation::JumpIf(condition(b[1] - 0x80)), 2, 4))
    } else {
        None
    }
}

/// The operation that the name of a jump stands for.
pub open spec fn jump_named(op: X86) -> Option<Operation> {
    match op {
        X86::jmp => Some(Operation::Jump),
        X86::je => Some(Operation::JumpIf(Condition::Equal)),
        X86::jne => Some(Operation::JumpIf(Condition::NotEqual)),
        X86::jl => Some(Operation::JumpIf(Condition::Less)),
        X86::jge => Some(Operation::JumpIf(Condition::GreaterOrEqual)),
        X86::jle => Some(Operation::JumpIf(Condition::LessOrEqual)),
        X86::jg => Some(Operation::JumpIf(Condition::Greater)),
        _ => None,
    }
}

/// What was emitted is only appended to.
pub open spec fn appends(s: EmitState, after: EmitState) -> bool {
    &&& s.text.len() <= after.text.len()
    &&& after.text.take(s.text.len() as int) =~= s.text
    &&& after.start == s.start
    &&& after.block_offsets == s.block_offsets
    &&& after.block_queue == s.block_queue
}

/// A jump to a block that does not follow is read as the jump that it is named for. A
/// distance of four bytes leads from the end of the jump to the block, or is noted as
/// missing where it stands. A distance of one byte is counted from the byte before it.
#[verifier::spinoff_prover]
#[verifier::rlimit(50)]
pub proof fn jumps_lead_to_their_block(s: EmitState, op: X86, target: BlockId)
    requires
        jump_named(op) is Some,
        emit::can_emit(s, op, Operands::Block(target)),
        op == X86::jmp ==> !s.next_is(target),
    ensures
        ({
            let after = emit::emitted(s, op, Operands::Block(target));
            let code = after.text.skip(s.text.len() as int);
            let known = s.block_offsets[target.0 as int];
            &&& appends(s, after)
            &&& after.relocations == s.relocations
            &&& branch(code) matches Some((operation, opcode, distance)) && jump_named(op) == Some(
                operation,
            ) && match known {
                Some(offset) => {
                    let at = code.len() - distance;
                    let d = bytes::field(code, at, distance);
                    &&& after.missing_block_addrs == s.missing_block_addrs
                    &&& distance == 4 ==> at == opcode && after.offset() + bytes::signed_32(
                        d as u32,
                    ) == offset
                    &&& distance == 1 ==> s.offset() + at - 1 + (if d < 0x80 {
                        d
                    } else {
                        d - 0x100
                    }) == offset
                },
                None => {
                    &&& distance == 4
                    &&& code.len() == opcode + 4
                    &&& after.missing_block_addrs == s.missing_block_addrs.push(
                        ((s.offset() + opcode) as u32, target),
                    )
                },
            }
        }),
{
    let after = emit::emitted(s, op, Operands::Block(target));
    let code = after.text.skip(s.text.len() as int);
    let (rel8, rel32) = match op.spec_form() {
        Form::Jcc(cc) => (seq![(0x70 + cc) as u8, 0xCBu8], seq![0x0Fu8, (0x80 + cc) as u8]),
        _ => (seq![0xEBu8], seq![0xE9u8]),
    };
    let none = Seq::<u8>::empty();
    assert(after == emit::jump(s, rel8, rel32, target));
    match s.block_offsets[target.0 as int] {
        Some(known) => {
            let short = known - (s.offset() + rel8.len() - 1);
            if -0x80 <= short < 0x80 {
                let d = short % 0x100;
                assert(code =~= rel8 + seq![d as u8]);
                reveal_with_fuel(bytes::le_bytes, 2);
                assert(bytes::le_bytes(d, 1) =~= seq![d as u8]);
                assert(code =~= rel8 + bytes::le_bytes(d, 1) + none);
                bytes::fields_read_back(rel8, d, 1, none);
            } else {
                let long = known - (s.offset() + rel32.len() + 4);
                let d = bytes::twos_32(long);
                bytes::le_bytes_len(d as int, 4);
                assert(code =~= rel32 + bytes::le_32(d) + none);
                bytes::fields_read_back(rel32, d as int, 4, none);
                bytes::signed_round_trip(long as i32, d);
            }
        },
        None => {
            bytes::le_bytes_len(0, 4);
            assert(code =~= rel32 + bytes::le_32(0));
        },
    }
}

/// A jump to the block that follows is left out.
pub proof fn jumps_to_the_next_block_are_left_out(s: EmitState, target: BlockId)
    requires
        s.next_is(target),
    ensures
        emit::emitted(s, X86::jmp, Operands::Block(target)) == s,
{
}

/// A call of a function is read as a call, and its distance is where the linker is told
/// to write the distance to that function.
pub proof fn calls_are_left_to_the_linker(s: EmitState, f: FunctionId)
    requires
        s.text.len() + 5 <= u64::MAX,
    ensures
        ({
            let after = emit::emitted(s, X86::call_function, Operands::Function(f));
            let code = after.text.skip(s.text.len() as int);
            &&& appends(s, after)
            &&& after.missing_block_addrs == s.missing_block_addrs
            &&& branch(code) == Some((Operation::Call, 1int, 4int))
            &&& code.len() == 5
            &&& after.relocations.len() == s.relocations.len() + 1
            &&& after.relocations.drop_last() =~= s.relocations
            &&& after.relocations.last() matches Relocation::FunctionCall(g, at) && g == f.function
                && at == after.text.len() - 4
        }),
{
    let after = emit::emitted(s, X86::call_function, Operands::Function(f));
    assert(after.text.skip(s.text.len() as int) =~= seq![0xE8u8, 0, 0, 0, 0]);
}

/// The code is read as an instruction that puts an address relative to itself in the
/// register, with the distance in its last four bytes.
pub open spec fn loads_address(code: Seq<u8>, r: Reg) -> bool {
    &&& decode(code) == Some(
        Decoded {
            operation: Operation::Lea,
            size: Size::S64,
            operands: seq![Operand::Reg(r), Operand::Fixed],
        },
    )
    &&& parts(code).rest.len() == 5
}

#[verifier::spinoff_prover]
#[verifier::rlimit(60)]
proof fn lemma_loads_address(r: Reg)
    requires
        has_width(r, Size::S64),
    ensures
        loads_address(encode::enc_disp32(encode::one_byte(0x8D), r), r),
        encode::enc_disp32(encode::one_byte(0x8D), r).len() == 7,
{
    reveal(Parts::rm);
    let e = encode::spec_encode_reg(r);
    let code = encode::enc_disp32(encode::one_byte(0x8D), r);
    let rest = seq![(8 * e.bits + 5) as u8] + seq![0u8, 0u8, 0u8, 0u8];
    lemma_wide_register(r);
    assert(code =~= encode::prefix_16(Size::S64) + encode::rex(
        true,
        e.spec_ext(),
        false,
        false,
        e.spec_force(),
    ) + encode::one_byte(0x8D).bytes() + rest);
    lemma_parts(
        Size::S64,
        true,
        e.spec_ext(),
        false,
        false,
        e.spec_force(),
        encode::one_byte(0x8D),
        rest,
    );
    lemma_fields(0, e.bits as int, 5);
    let p = parts(code);
    assert(p.rest[0] == (8 * e.bits + 5) as u8);
    lemma_register(r, Size::S64, true);
    assert(decode(code)->Some_0.operands =~= seq![Operand::Reg(r), Operand::Fixed]);
}

/// The address of a function is read as such, and the linker is told where to write the
/// distance to that function.
pub proof fn function_addresses_are_left_to_the_linker(s: EmitState, r: Reg, f: FunctionId)
    requires
        has_width(r, Size::S64),
        s.text.len() + 7 <= u64::MAX,
    ensures
        ({
            let after = emit::emitted(s, X86::lea_function, Operands::RegFunction(r, f));
            &&& appends(s, after)
            &&& after.missing_block_addrs == s.missing_block_addrs
            &&& loads_address(after.text.skip(s.text.len() as int), r)
            &&& after.relocations.len() == s.relocations.len() + 1
            &&& after.relocations.drop_last() =~= s.relocations
            &&& after.relocations.last() matches Relocation::FunctionAddr(g, at) && g == f.function
                && at == after.text.len() - 4
        }),
{
    let after = emit::emitted(s, X86::lea_function, Operands::RegFunction(r, f));
    lemma_loads_address(r);
    assert(after.text.skip(s.text.len() as int) =~= encode::enc_disp32(encode::one_byte(0x8D), r));
}

/// The address of a global is read as such, and the linker is told where to write the
/// distance to that global.
pub proof fn global_addresses_are_left_to_the_linker(s: EmitState, r: Reg, g: GlobalId)
    requires
        has_width(r, Size::S64),
        s.text.len() + 7 <= u64::MAX,
    ensures
        ({
            let after = emit::emitted(s, X86::lea_global, Operands::RegGlobal(r, g));
            &&& appends(s, after)
            &&& after.missing_block_addrs == s.missing_block_addrs
            &&& loads_address(after.text.skip(s.text.len() as int), r)
            &&& after.relocations.len() == s.relocations.len() + 1
            &&& after.relocations.drop_last() =~= s.relocations
            &&& after.relocations.last() matches Relocation::GlobalAddr(i, at) && i == g.idx && at
                == after.text.len() - 4
        }),
{
    let after = emit::emitted(s, X86::lea_global, Operands::RegGlobal(r, g));
    lemma_loads_address(r);
    assert(after.text.skip(s.text.len() as int) =~= encode::enc_disp32(encode::one_byte(0x8D), r));
}

/// All other instructions only append the bytes that are read as they are meant.
pub proof fn emitted_instructions_are_read_as_meant(s: EmitState, op: X86, args: Operands)
    requires
        emit::fits_form(op.spec_form(), args),
        has_operands(op, args),
    ensures
        ({
            let after = emit::emitted(s, op, args);
            &&& appends(s, after)
            &&& after.relocations == s.relocations
            &&& after.missing_block_addrs == s.missing_block_addrs
            &&& decode(after.text.skip(s.text.len() as int)) == intended(op, args)
        }),
{
    instructions_are_read_as_meant(op, args);
    let after = emit::emitted(s, op, args);
    assert(after.text.skip(s.text.len() as int) =~= emit::enc_form(op.spec_form(), args));
}

} // verus!
