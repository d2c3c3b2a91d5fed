//! How a processor reads instructions, and that it reads what was meant.
use vstd::prelude::*;

use crate::backend::arm::emit;
use crate::backend::arm::emit::Operands;
use crate::backend::arm::isa::{Arm, Reg, RegClass};
use crate::backend::bytes;
use crate::backend::emit::{EmitState, Relocation};

verus! {

/// What an instruction does.
#[derive(Clone, Copy, Debug, PartialEq, Eq, Structural)]
pub enum Operation {
    And,
    Or,
    Xor,
    AndSettingFlags,
    /// Sets a register to a number of sixteen bits at a position, inverted or not.
    SetInverted,
    SetNumber,
    /// Changes sixteen bits of a register.
    ChangeNumber,
    Load,
    Store,
    LoadPair,
    StorePair,
    Add,
    Sub,
    AddSettingFlags,
    SubSettingFlags,
    Call,
    Return,
}

/// An instruction as it is read.
#[verifier::ext_equal]
pub struct Decoded {
    pub operation: Operation,
    /// How many bytes each register operand has, or how many go to memory.
    pub size: int,
    /// The destination comes first; an address comes last.
    pub regs: Seq<Reg>,
    /// A number, or the distance from an address.
    pub number: int,
    /// Where the number is put, in units of sixteen bits.
    pub position: int,
}

/// The register with a number. 31 stands for zero in some places and for the stack pointer in
/// others.
#[verifier::opaque]
pub open spec fn register(n: int, wide: bool, zero: bool) -> Reg {
    if wide {
        if n == 0 {
            Reg::x0
        } else if n == 1 {
            Reg::x1
        } else if n == 2 {
            Reg::x2
        } else if n == 3 {
            Reg::x3
        } else if n == 4 {
            Reg::x4
        } else if n == 5 {
            Reg::x5
        } else if n == 6 {
            Reg::x6
        } else if n == 7 {
            Reg::x7
        } else if n == 8 {
            Reg::x8
        } else if n == 9 {
            Reg::x9
        } else if n == 10 {
            Reg::x10
        } else if n == 11 {
            Reg::x11
        } else if n == 12 {
            Reg::x12
        } else if n == 13 {
            Reg::x13
        } else if n == 14 {
            Reg::x14
        } else if n == 15 {
            Reg::x15
        } else if n == 16 {
            Reg::x16
        } else if n == 17 {
            Reg::x17
        } else if n == 18 {
            Reg::x18
        } else if n == 19 {
            Reg::x19
        } else if n == 20 {
            Reg::x20
        } else if n == 21 {
            Reg::x21
        } else if n == 22 {
            Reg::x22
        } else if n == 23 {
            Reg::x23
        } else if n == 24 {
            Reg::x24
        } else if n == 25 {
            Reg::x25
        } else if n == 26 {
            Reg::x26
        } else if n == 27 {
            Reg::x27
        } else if n == 28 {
            Reg::x28
        } else if n == 29 {
            Reg::x29
        } else if n == 30 {
            Reg::x30
        } else {
            if zero { Reg::xzr } else { Reg::sp }
        }
    } else {
        if n == 0 {
            Reg::w0
        } else if n == 1 {
            Reg::w1
        } else if n == 2 {
            Reg::w2
        } else if n == 3 {
            Reg::w3
        } else if n == 4 {
            Reg::w4
        } else if n == 5 {
            Reg::w5
        } else if n == 6 {
            Reg::w6
        } else if n == 7 {
            Reg::w7
        } else if n == 8 {
            Reg::w8
        } else if n == 9 {
            Reg::w9
        } else if n == 10 {
            Reg::w10
        } else if n == 11 {
            Reg::w11
        } else if n == 12 {
            Reg::w12
        } else if n == 13 {
            Reg::w13
        } else if n == 14 {
            Reg::w14
        } else if n == 15 {
            Reg::w15
        } else if n == 16 {
            Reg::w16
        } else if n == 17 {
            Reg::w17
        } else if n == 18 {
            Reg::w18
        } else if n == 19 {
            Reg::w19
        } else if n == 20 {
            Reg::w20
        } else if n == 21 {
            Reg::w21
        } else if n == 22 {
            Reg::w22
        } else if n == 23 {
            Reg::w23
        } else if n == 24 {
            Reg::w24
        } else if n == 25 {
            Reg::w25
        } else if n == 26 {
            Reg::w26
        } else if n == 27 {
            Reg::w27
        } else if n == 28 {
            Reg::w28
        } else if n == 29 {
            Reg::w29
        } else if n == 30 {
            Reg::w30
        } else {
            if zero { Reg::wzr } else { Reg::wsp }
        }
    }
}

/// `width` values of a word from the place with the value `unit` on.
pub open spec fn field(word: int, unit: int, width: int) -> int {
    (word / unit) % width
}

/// The instruction that the word stands for.
#[verifier::opaque]
pub open spec fn decode(word: int) -> Option<Decoded> {
    let wide = field(word, 0x8000_0000, 2) == 1;
    let n0 = word % 32;
    let n1 = field(word, 0x20, 32);
    let n2 = field(word, 0x400, 32);
    let n3 = field(word, 0x1_0000, 32);
    if field(word, 0x100_0000, 32) == 0b01010 {
        let opc = field(word, 0x2000_0000, 4);
        if field(word, 0x20_0000, 8) == 0 && field(word, 0x400, 64) == 0 {
            Some(
                Decoded {
                    operation: if opc == 0 {
                        Operation::And
                    } else if opc == 1 {
                        Operation::Or
                    } else if opc == 2 {
                        Operation::Xor
                    } else {
                        Operation::AndSettingFlags
                    },
                    size: if wide {
                        8
                    } else {
                        4
                    },
                    regs: seq![
                        register(n0, wide, true),
                        register(n1, wide, true),
                        register(n3, wide, true),
                    ],
                    number: 0,
                    position: 0,
                },
            )
        } else {
            None
        }
    } else if field(word, 0x100_0000, 64) == 0b111001 && field(word, 0x80_0000, 2) == 0 {
        let log = field(word, 0x4000_0000, 4);
        let size = if log == 0 {
            1int
        } else if log == 1 {
            2
        } else if log == 2 {
            4
        } else {
            8
        };
        Some(
            Decoded {
                operation: if field(word, 0x40_0000, 2) == 1 {
                    Operation::Load
                } else {
                    Operation::Store
                },
                size,
                regs: seq![register(n0, size == 8, true), register(n1, true, false)],
                number: field(word, 0x400, 4096) * size,
                position: 0,
            },
        )
    } else if field(word, 0x80_0000, 128) == 0b1010010 {
        let opc = field(word, 0x4000_0000, 4);
        let imm = field(word, 0x8000, 128);
        let size = if opc == 2 {
            8int
        } else {
            4
        };
        if opc == 0 || opc == 2 {
            Some(
                Decoded {
                    operation: if field(word, 0x40_0000, 2) == 1 {
                        Operation::LoadPair
                    } else {
                        Operation::StorePair
                    },
                    size,
                    regs: seq![
                        register(n0, size == 8, true),
                        register(n2, size == 8, true),
                        register(n1, true, false),
                    ],
                    number: (if imm < 64 {
                        imm
                    } else {
                        imm - 128
                    }) * size,
                    position: 0,
                },
            )
        } else {
            None
        }
    } else if field(word, 0x80_0000, 64) == 0b100101 {
        let opc = field(word, 0x2000_0000, 4);
        if opc == 1 {
            None
        } else {
            Some(
                Decoded {
                    operation: if opc == 0 {
                        Operation::SetInverted
                    } else if opc == 2 {
                        Operation::SetNumber
                    } else {
                        Operation::ChangeNumber
                    },
                    size: if wide {
                        8
                    } else {
                        4
                    },
                    regs: seq![register(n0, wide, true)],
                    number: field(word, 0x20, 0x1_0000),
                    position: field(word, 0x20_0000, 4),
                },
            )
        }
    } else if field(word, 0x80_0000, 64) == 0b100010 {
        let subtracts = field(word, 0x4000_0000, 2) == 1;
        let sets_flags = field(word, 0x2000_0000, 2) == 1;
        Some(
            Decoded {
                operation: if subtracts {
                    if sets_flags {
                        Operation::SubSettingFlags
                    } else {
                        Operation::Sub
                    }
                } else if sets_flags {
                    Operation::AddSettingFlags
                } else {
                    Operation::Add
                },
                size: if wide {
                    8
                } else {
                    4
                },
                regs: seq![register(n0, wide, false), register(n1, wide, false)],
                number: field(word, 0x400, 4096) * (if field(word, 0x40_0000, 2) == 1 {
                    4096int
                } else {
                    1
                }),
                position: 0,
            },
        )
    } else if word / 0x400_0000 == 0b100101 {
        Some(
            Decoded {
                operation: Operation::Call,
                size: 8,
                regs: Seq::empty(),
                number: word % 0x400_0000,
                position: 0,
            },
        )
    } else if word / 0x400 == 0b1101011001011111000000 && n0 == 0 {
        Some(
            Decoded {
                operation: Operation::Return,
                size: 8,
                regs: seq![register(n1, true, true)],
                number: 0,
                position: 0,
            },
        )
    } else {
        None
    }
}

/// The operation that the name of an instruction stands for, and its width in bytes.
pub open spec fn named(op: Arm) -> (Operation, int) {
    match op {
        Arm::orr32 => (Operation::Or, 4),
        Arm::orr64 => (Operation::Or, 8),
        Arm::movz32 => (Operation::SetNumber, 4),
        Arm::movz64 => (Operation::SetNumber, 8),
        Arm::movk32 => (Operation::ChangeNumber, 4),
        Arm::movk64 => (Operation::ChangeNumber, 8),
        Arm::ldrb32 => (Operation::Load, 1),
        Arm::ldrh32 => (Operation::Load, 2),
        Arm::ldr32 => (Operation::Load, 4),
        Arm::ldr64 => (Operation::Load, 8),
        Arm::strb32 => (Operation::Store, 1),
        Arm::strh32 => (Operation::Store, 2),
        Arm::str32 => (Operation::Store, 4),
        Arm::str64 => (Operation::Store, 8),
        Arm::ldp32 => (Operation::LoadPair, 4),
        Arm::ldp64 => (Operation::LoadPair, 8),
        Arm::stp32 => (Operation::StorePair, 4),
        Arm::stp64 => (Operation::StorePair, 8),
        Arm::add_i32 => (Operation::Add, 4),
        Arm::add_i64 => (Operation::Add, 8),
        Arm::sub_i32 => (Operation::Sub, 4),
        Arm::sub_i64 => (Operation::Sub, 8),
        Arm::bl_function => (Operation::Call, 8),
        Arm::ret0 | Arm::ret64 | Arm::ret128 => (Operation::Return, 8),
    }
}

/// The register is one that can be named in the place.
pub open spec fn is_register(r: Reg, wide: bool, zero: bool) -> bool {
    exists|n: int| 0 <= n < 32 && #[trigger] register(n, wide, zero) == r
}

/// The operands have the widths of the instruction. Distances of single values are multiples of
/// their size; distances of pairs are counted in units of it and not negative.
pub open spec fn has_operands(op: Arm, args: Operands) -> bool {
    let (operation, size) = named(op);
    let wide = size == 8;
    match args {
        Operands::Reg(r) => is_register(r, true, true),
        Operands::RegRegReg(a, b, c) => is_register(a, wide, true) && is_register(b, wide, true)
            && is_register(c, wide, true),
        Operands::RegImmImm(r, _, _) => is_register(r, wide, true),
        Operands::RegRegImm(a, b, _) => is_register(a, wide, false) && is_register(b, wide, false),
        Operands::RegMem(r, ptr, offset) => is_register(r, wide, true) && is_register(
            ptr,
            true,
            false,
        ) && offset as int % size == 0,
        Operands::RegRegMem(a, b, ptr, offset) => is_register(a, wide, true) && is_register(
            b,
            wide,
            true,
        ) && is_register(ptr, true, false) && offset < 64,
        Operands::Function(_) => true,
    }
}

/// The instruction that is meant.
pub open spec fn intended(op: Arm, args: Operands) -> Decoded {
    let (operation, size) = named(op);
    match args {
        Operands::Reg(r) => Decoded { operation, size, regs: seq![r], number: 0, position: 0 },
        Operands::RegRegReg(a, b, c) => Decoded {
            operation,
            size,
            regs: seq![a, b, c],
            number: 0,
            position: 0,
        },
        Operands::RegImmImm(r, position, number) => Decoded {
            operation,
            size,
            regs: seq![r],
            number: number as int,
            position: position as int,
        },
        Operands::RegRegImm(a, b, number) => Decoded {
            operation,
            size,
            regs: seq![a, b],
            number: number as int,
            position: 0,
        },
        Operands::RegMem(r, ptr, offset) => Decoded {
            operation,
            size,
            regs: seq![r, ptr],
            number: offset as int,
            position: 0,
        },
        Operands::RegRegMem(a, b, ptr, offset) => Decoded {
            operation,
            size,
            regs: seq![a, b, ptr],
            number: offset * size,
            position: 0,
        },
        Operands::Function(_) => Decoded {
            operation,
            size,
            regs: Seq::empty(),
            number: 0,
            position: 0,
        },
    }
}

#[verifier::spinoff_prover]
#[verifier::rlimit(50)]
proof fn lemma_register(r: Reg, wide: bool, zero: bool)
    requires
        is_register(r, wide, zero),
    ensures
        register(r.spec_index() as int, wide, zero) == r,
        r.spec_index() < 32,
{
    reveal(register);
}

#[verifier::spinoff_prover]
#[verifier::rlimit(50)]
proof fn lemma_logical(sf: bool, x: Reg, a: Reg, b: Reg)
    requires
        is_register(x, sf, true),
        is_register(a, sf, true),
        is_register(b, sf, true),
    ensures
        decode(emit::enc_logical(sf, 1, false, b, 0, a, x)) == Some(
            Decoded {
                operation: Operation::Or,
                size: if sf {
                    8
                } else {
                    4
                },
                regs: seq![x, a, b],
                number: 0,
                position: 0,
            },
        ),
{
    reveal(decode);
    lemma_register(x, sf, true);
    lemma_register(a, sf, true);
    lemma_register(b, sf, true);
    let word = emit::enc_logical(sf, 1, false, b, 0, a, x);
    emit::logical_fields_read_back(sf, 1, false, b, 0, a, x);
    let s = emit::bit_of(sf);
    let (rm, rn, rd) = (b.spec_index() as int, a.spec_index() as int, x.spec_index() as int);
    emit::lemma_field(
        word,
        s * 4 + 1,
        0b01010,
        rm * 0x1_0000 + rn * 0x20 + rd,
        0x100_0000,
        32,
    );
    emit::lemma_field(
        word,
        s * 0x80 + 0x20 + 0b01010,
        0,
        rm * 0x1_0000 + rn * 0x20 + rd,
        0x20_0000,
        8,
    );
    assert(decode(word)->Some_0.regs =~= seq![x, a, b]);
}

#[verifier::spinoff_prover]
#[verifier::rlimit(50)]
proof fn lemma_load_store(load: bool, size: emit::Size, imm: u32, ptr: Reg, r: Reg)
    requires
        imm < 4096,
        is_register(r, size is S8, true),
        is_register(ptr, true, false),
    ensures
        decode(emit::enc_load_store(load, size, imm, ptr, r)) == Some(
            Decoded {
                operation: if load {
                    Operation::Load
                } else {
                    Operation::Store
                },
                size: match size {
                    emit::Size::S1 => 1,
                    emit::Size::S2 => 2,
                    emit::Size::S4 => 4,
                    emit::Size::S8 => 8,
                },
                regs: seq![r, ptr],
                number: imm * match size {
                    emit::Size::S1 => 1int,
                    emit::Size::S2 => 2,
                    emit::Size::S4 => 4,
                    emit::Size::S8 => 8,
                },
                position: 0,
            },
        ),
{
    reveal(decode);
    lemma_register(r, size is S8, true);
    lemma_register(ptr, true, false);
    let word = emit::enc_load_store(load, size, imm, ptr, r);
    emit::load_store_fields_read_back(load, size, imm, ptr, r);
    let (rn, rt) = (ptr.spec_index() as int, r.spec_index() as int);
    let l = emit::bit_of(load);
    let low = imm * 0x400 + rn * 0x20 + rt;
    let bits = size.bits() as int;
    emit::lemma_field(word, bits * 2 + 1, 0b11001, l * 0x40_0000 + low, 0x100_0000, 32);
    emit::lemma_field(word, bits, 0b111001, l * 0x40_0000 + low, 0x100_0000, 64);
    emit::lemma_field(word, bits * 64 + 0b111001, 0, l * 0x40_0000 + low, 0x80_0000, 2);
    assert(decode(word)->Some_0.regs =~= seq![r, ptr]);
}

#[verifier::spinoff_prover]
#[verifier::rlimit(50)]
proof fn lemma_pair(opc: u32, load: bool, imm: u32, b: Reg, ptr: Reg, a: Reg)
    requires
        opc == 0 || opc == 2,
        imm < 64,
        is_register(a, opc == 2, true),
        is_register(b, opc == 2, true),
        is_register(ptr, true, false),
    ensures
        decode(emit::enc_load_store_pair(opc, load, imm, b, ptr, a)) == Some(
            Decoded {
                operation: if load {
                    Operation::LoadPair
                } else {
                    Operation::StorePair
                },
                size: if opc == 2 {
                    8
                } else {
                    4
                },
                regs: seq![a, b, ptr],
                number: imm * if opc == 2 {
                    8int
                } else {
                    4
                },
                position: 0,
            },
        ),
{
    reveal(decode);
    lemma_register(a, opc == 2, true);
    lemma_register(b, opc == 2, true);
    lemma_register(ptr, true, false);
    let word = emit::enc_load_store_pair(opc, load, imm, b, ptr, a);
    emit::pair_fields_read_back(opc, load, imm, b, ptr, a);
    let l = emit::bit_of(load);
    let low = imm * 0x8000 + b.spec_index() as int * 0x400 + ptr.spec_index() as int * 0x20
        + a.spec_index() as int;
    emit::lemma_field(word, opc * 2 + 1, 0b01001, l * 0x40_0000 + low, 0x100_0000, 32);
    emit::lemma_field(word, opc as int, 0b101001, l * 0x40_0000 + low, 0x100_0000, 64);
    emit::lemma_field(word, opc as int, 0b1010010, l * 0x40_0000 + low, 0x80_0000, 128);
    assert(decode(word)->Some_0.regs =~= seq![a, b, ptr]);
}

#[verifier::spinoff_prover]
#[verifier::rlimit(50)]
proof fn lemma_mov(opc: u32, r: Reg, hw: u32, imm: u32, sf: bool)
    requires
        opc == 2 || opc == 3,
        hw < 4,
        imm < 0x1_0000,
        is_register(r, sf, true),
    ensures
        decode(emit::enc_mov_imm(opc, r, hw, imm, sf)) == Some(
            Decoded {
                operation: if opc == 2 {
                    Operation::SetNumber
                } else {
                    Operation::ChangeNumber
                },
                size: if sf {
                    8
                } else {
                    4
                },
                regs: seq![r],
                number: imm as int,
                position: hw as int,
            },
        ),
{
    reveal(decode);
    lemma_register(r, sf, true);
    let word = emit::enc_mov_imm(opc, r, hw, imm, sf);
    emit::mov_imm_fields_read_back(opc, r, hw, imm, sf);
    let s = emit::bit_of(sf);
    let low = hw * 0x20_0000 + imm * 0x20 + r.spec_index() as int;
    emit::lemma_field(word, s * 4 + opc, 0b10010, 0x80_0000 + low, 0x100_0000, 32);
    emit::lemma_field(
        word,
        s * 2 + opc / 2,
        (opc % 2) * 0x20 + 0b10010,
        0x80_0000 + low,
        0x100_0000,
        64,
    );
    emit::lemma_field(
        word,
        s * 2 + opc / 2,
        (opc % 2) * 0x40 + 0b100101,
        low,
        0x80_0000,
        128,
    );
    emit::lemma_field(word, s * 4 + opc, 0b100101, low, 0x80_0000, 64);
    assert(decode(word)->Some_0.regs =~= seq![r]);
}

#[verifier::spinoff_prover]
#[verifier::rlimit(50)]
proof fn lemma_add_sub(sf: bool, sub: bool, d: Reg, n: Reg, imm: u32)
    requires
        imm < 4096,
        is_register(d, sf, false),
        is_register(n, sf, false),
    ensures
        decode(emit::enc_add_sub(sf, sub, false, false, d, n, imm)) == Some(
            Decoded {
                operation: if sub {
                    Operation::Sub
                } else {
                    Operation::Add
                },
                size: if sf {
                    8
                } else {
                    4
                },
                regs: seq![d, n],
                number: imm as int,
                position: 0,
            },
        ),
{
    reveal(decode);
    lemma_register(d, sf, false);
    lemma_register(n, sf, false);
    let word = emit::enc_add_sub(sf, sub, false, false, d, n, imm);
    emit::add_sub_fields_read_back(sf, sub, false, false, d, n, imm);
    let (s, u) = (emit::bit_of(sf), emit::bit_of(sub));
    let low = imm * 0x400 + n.spec_index() as int * 0x20 + d.spec_index() as int;
    emit::lemma_field(word, s * 4 + u * 2, 0b10001, low, 0x100_0000, 32);
    emit::lemma_field(word, s * 2 + u, 0b10001, low, 0x100_0000, 64);
    emit::lemma_field(word, s * 2 + u, 0b100010, low, 0x80_0000, 128);
    emit::lemma_field(word, s * 4 + u * 2, 0b100010, low, 0x80_0000, 64);
    assert(decode(word)->Some_0.regs =~= seq![d, n]);
}

#[verifier::spinoff_prover]
#[verifier::rlimit(50)]
proof fn lemma_ret(r: Reg)
    requires
        is_register(r, true, true),
    ensures
        decode(emit::enc_ret(r)) == Some(
            Decoded {
                operation: Operation::Return,
                size: 8,
                regs: seq![r],
                number: 0,
                position: 0,
            },
        ),
        0 <= emit::enc_ret(r) < 0x1_0000_0000,
{
    reveal(decode);
    lemma_register(r, true, true);
    let word = emit::enc_ret(r);
    assert(decode(word)->Some_0.regs =~= seq![r]);
}

/// The word of an instruction is read as the operation that the instruction is named for, with
/// its width and its operands in their places.
#[verifier::spinoff_prover]
#[verifier::rlimit(50)]
pub proof fn instructions_are_read_as_meant(op: Arm, args: Operands)
    requires
        emit::fits(op, args),
        has_operands(op, args),
    ensures
        decode(emit::enc(op, args)) == Some(intended(op, args)),
        0 <= emit::enc(op, args) < 0x1_0000_0000,
{
    match args {
        Operands::Reg(r) => {
            lemma_ret(r);
        },
        Operands::RegRegReg(x, a, b) => {
            lemma_logical(op is orr64, x, a, b);
            emit::logical_fields_read_back(op is orr64, 1, false, b, 0, a, x);
        },
        Operands::RegImmImm(r, hw, imm) => {
            let opc: u32 = if op is movz32 || op is movz64 {
                2
            } else {
                3
            };
            let sf = op is movz64 || op is movk64;
            lemma_mov(opc, r, hw, imm, sf);
            emit::mov_imm_fields_read_back(opc, r, hw, imm, sf);
        },
        Operands::RegRegImm(d, n, i) => {
            let sf = op is add_i64 || op is sub_i64;
            let sub = op is sub_i32 || op is sub_i64;
            lemma_add_sub(sf, sub, d, n, i);
            emit::add_sub_fields_read_back(sf, sub, false, false, d, n, i);
        },
        Operands::RegMem(r, ptr, offset) => {
            let size = emit::access_size(op)->Some_0;
            lemma_load_store(emit::is_load(op), size, offset / size.bytes(), ptr, r);
            emit::load_store_fields_read_back(
                emit::is_load(op),
                size,
                offset / size.bytes(),
                ptr,
                r,
            );
        },
        Operands::RegRegMem(a, b, ptr, offset) => {
            let opc: u32 = if op is ldp64 || op is stp64 {
                2
            } else {
                0
            };
            lemma_pair(opc, emit::is_load(op), offset % 0x100, b, ptr, a);
            emit::pair_fields_read_back(opc, emit::is_load(op), offset % 0x100, b, ptr, a);
        },
        Operands::Function(_) => {
            reveal(decode);
            assert(decode(0x9400_0000)->Some_0.regs =~= Seq::empty());
        },
    }
}

/// What is emitted for an instruction is read so, and nothing else changes. A call is also told
/// to the linker, with its place.
pub proof fn emitted_instructions_are_read_as_meant(s: EmitState, op: Arm, args: Operands)
    requires
        emit::fits(op, args),
        has_operands(op, args),
        s.text.len() + 4 <= u64::MAX,
    ensures
        ({
            let after = emit::emitted(s, op, args);
            let n = s.text.len() as int;
            &&& after.text.len() == n + 4
            &&& after.text.take(n) =~= s.text
            &&& decode(bytes::field(after.text, n, 4)) == Some(intended(op, args))
            &&& after.relocations =~= match args {
                Operands::Function(f) => s.relocations.push(
                    Relocation::FunctionCall(f.function, n as u64),
                ),
                _ => s.relocations,
            }
            &&& after.block_offsets == s.block_offsets
            &&& after.missing_block_addrs == s.missing_block_addrs
        }),
{
    instructions_are_read_as_meant(op, args);
    emit::instructions_take_four_bytes(s, op, args);
    let after = emit::emitted(s, op, args);
    let word = emit::enc(op, args);
    assert(after.text =~= s.text + bytes::le_bytes(word, 4) + Seq::<u8>::empty());
    bytes::fields_read_back(s.text, word, 4, Seq::empty());
}

#[verifier::spinoff_prover]
#[verifier::rlimit(50)]
proof fn lemma_class(r: Reg, wide: bool)
    requires
        is_register(r, wide, true),
    ensures
        r.spec_class() == RegClass::ZR || r.spec_class() == if wide {
            RegClass::GP64
        } else {
            RegClass::GP32
        },
{
    reveal(register);
}

/// A copy between registers of one width is read as putting together the source with zero in the
/// destination.
#[verifier::spinoff_prover]
#[verifier::rlimit(50)]
pub proof fn copies_move_the_source(to: Reg, from: Reg, wide: bool)
    requires
        emit::can_copy(to, from),
        is_register(to, wide, true),
        is_register(from, wide, true),
    ensures
        decode(emit::enc_copy(to, from) as int) == Some(
            Decoded {
                operation: Operation::Or,
                size: if wide {
                    8
                } else {
                    4
                },
                regs: seq![
                    to,
                    if wide {
                        Reg::xzr
                    } else {
                        Reg::wzr
                    },
                    from,
                ],
                number: 0,
                position: 0,
            },
        ),
{
    let zero = if wide {
        Reg::xzr
    } else {
        Reg::wzr
    };
    lemma_class(to, wide);
    lemma_class(from, wide);
    assert(register(31, wide, true) == zero) by {
        reveal(register);
    }
    assert(is_register(zero, wide, true));
    lemma_register(to, wide, true);
    lemma_register(from, wide, true);
    lemma_register(zero, wide, true);
    lemma_logical(wide, to, zero, from);
    emit::logical_fields_read_back(wide, 1, false, from, 0, zero, to);
}

} // verus!
