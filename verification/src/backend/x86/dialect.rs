//! The signatures of the instructions.
use vstd::prelude::*;

use crate::backend::x86::isa::X86;
use crate::ir::dialect::Dialect;
use crate::ir::inst::{Parameter, Usage};

verus! {

impl Dialect for X86 {
    open spec fn spec_id(self) -> u32 {
        match self {
            X86::or_rr8 => 0,
            X86::or_rr16 => 1,
            X86::or_rr32 => 2,
            X86::or_rr64 => 3,
            X86::or_ri8 => 4,
            X86::or_ri16 => 5,
            X86::or_ri32 => 6,
            X86::or_ri64 => 7,
            X86::and_rr8 => 8,
            X86::and_rr16 => 9,
            X86::and_rr32 => 10,
            X86::and_rr64 => 11,
            X86::and_ri8 => 12,
            X86::and_ri16 => 13,
            X86::and_ri32 => 14,
            X86::and_ri64 => 15,
            X86::push_r64 => 16,
            X86::pop_r64 => 17,
            X86::mov_ri8 => 18,
            X86::mov_ri16 => 19,
            X86::mov_ri32 => 20,
            X86::mov_ri64 => 21,
            X86::mov_rr8 => 22,
            X86::mov_rr16 => 23,
            X86::mov_rr32 => 24,
            X86::mov_rr64 => 25,
            X86::mov_rm8 => 26,
            X86::mov_rm16 => 27,
            X86::mov_rm32 => 28,
            X86::mov_rm64 => 29,
            X86::mov_mr8 => 30,
            X86::mov_mr16 => 31,
            X86::mov_mr32 => 32,
            X86::mov_mr64 => 33,
            X86::ret0 => 34,
            X86::ret64 => 35,
            X86::ret128 => 36,
            X86::jmp => 37,
            X86::je => 38,
            X86::jne => 39,
            X86::jl => 40,
            X86::jge => 41,
            X86::jle => 42,
            X86::jg => 43,
            X86::seto => 44,
            X86::setno => 45,
            X86::setc => 46,
            X86::setnc => 47,
            X86::sete => 48,
            X86::setne => 49,
            X86::setbe => 50,
            X86::seta => 51,
            X86::sets => 52,
            X86::setns => 53,
            X86::setp => 54,
            X86::setnp => 55,
            X86::setl => 56,
            X86::setge => 57,
            X86::setle => 58,
            X86::setg => 59,
            X86::cmp_rr8 => 60,
            X86::cmp_rr16 => 61,
            X86::cmp_rr32 => 62,
            X86::cmp_rr64 => 63,
            X86::test_rr8 => 64,
            X86::add_rr8 => 65,
            X86::add_rr16 => 66,
            X86::add_rr32 => 67,
            X86::add_rr64 => 68,
            X86::add_ri8 => 69,
            X86::add_ri16 => 70,
            X86::add_ri32 => 71,
            X86::add_ri64 => 72,
            X86::sub_rr8 => 73,
            X86::sub_rr16 => 74,
            X86::sub_rr32 => 75,
            X86::sub_rr64 => 76,
            X86::sub_ri8 => 77,
            X86::sub_ri16 => 78,
            X86::sub_ri32 => 79,
            X86::sub_ri64 => 80,
            X86::imul_r8 => 81,
            X86::imul_rr16 => 82,
            X86::imul_rr32 => 83,
            X86::imul_rr64 => 84,
            X86::imul_rri16 => 85,
            X86::imul_rri32 => 86,
            X86::imul_rri64 => 87,
            X86::cbw => 88,
            X86::cwd => 89,
            X86::cdq => 90,
            X86::cqo => 91,
            X86::div_r8 => 92,
            X86::div_r16 => 93,
            X86::div_r32 => 94,
            X86::div_r64 => 95,
            X86::idiv_r8 => 96,
            X86::idiv_r16 => 97,
            X86::idiv_r32 => 98,
            X86::idiv_r64 => 99,
            X86::shl_ri8 => 100,
            X86::shl_ri16 => 101,
            X86::shl_ri32 => 102,
            X86::shl_ri64 => 103,
            X86::shr_ri8 => 104,
            X86::shr_ri16 => 105,
            X86::shr_ri32 => 106,
            X86::shr_ri64 => 107,
            X86::neg_r8 => 108,
            X86::neg_r16 => 109,
            X86::neg_r32 => 110,
            X86::neg_r64 => 111,
            X86::xor_rr8 => 112,
            X86::xor_rr16 => 113,
            X86::xor_rr32 => 114,
            X86::xor_rr64 => 115,
            X86::xor_ri8 => 116,
            X86::xor_ri16 => 117,
            X86::xor_ri32 => 118,
            X86::xor_ri64 => 119,
            X86::lea_rm32 => 120,
            X86::lea_rm64 => 121,
            X86::lea_function => 122,
            X86::lea_global => 123,
            X86::call_function => 124,
            X86::call_r64 => 125,
            X86::movsx16_rr8 => 126,
            X86::movsx32_rr8 => 127,
            X86::movsx64_rr8 => 128,
            X86::movsx32_rr16 => 129,
            X86::movsx64_rr16 => 130,
            X86::movsx64_rr32 => 131,
            X86::movzx16_rr8 => 132,
            X86::movzx32_rr8 => 133,
            X86::movzx32_rr16 => 134,
        }
    }

    open spec fn spec_of_id(id: u32) -> Option<X86> {
        match id {
            0 => Some(X86::or_rr8),
            1 => Some(X86::or_rr16),
            2 => Some(X86::or_rr32),
            3 => Some(X86::or_rr64),
            4 => Some(X86::or_ri8),
            5 => Some(X86::or_ri16),
            6 => Some(X86::or_ri32),
            7 => Some(X86::or_ri64),
            8 => Some(X86::and_rr8),
            9 => Some(X86::and_rr16),
            10 => Some(X86::and_rr32),
            11 => Some(X86::and_rr64),
            12 => Some(X86::and_ri8),
            13 => Some(X86::and_ri16),
            14 => Some(X86::and_ri32),
            15 => Some(X86::and_ri64),
            16 => Some(X86::push_r64),
            17 => Some(X86::pop_r64),
            18 => Some(X86::mov_ri8),
            19 => Some(X86::mov_ri16),
            20 => Some(X86::mov_ri32),
            21 => Some(X86::mov_ri64),
            22 => Some(X86::mov_rr8),
            23 => Some(X86::mov_rr16),
            24 => Some(X86::mov_rr32),
            25 => Some(X86::mov_rr64),
            26 => Some(X86::mov_rm8),
            27 => Some(X86::mov_rm16),
            28 => Some(X86::mov_rm32),
            29 => Some(X86::mov_rm64),
            30 => Some(X86::mov_mr8),
            31 => Some(X86::mov_mr16),
            32 => Some(X86::mov_mr32),
            33 => Some(X86::mov_mr64),
            34 => Some(X86::ret0),
            35 => Some(X86::ret64),
            36 => Some(X86::ret128),
            37 => Some(X86::jmp),
            38 => Some(X86::je),
            39 => Some(X86::jne),
            40 => Some(X86::jl),
            41 => Some(X86::jge),
            42 => Some(X86::jle),
            43 => Some(X86::jg),
            44 => Some(X86::seto),
            45 => Some(X86::setno),
            46 => Some(X86::setc),
            47 => Some(X86::setnc),
            48 => Some(X86::sete),
            49 => Some(X86::setne),
            50 => Some(X86::setbe),
            51 => Some(X86::seta),
            52 => Some(X86::sets),
            53 => Some(X86::setns),
            54 => Some(X86::setp),
            55 => Some(X86::setnp),
            56 => Some(X86::setl),
            57 => Some(X86::setge),
            58 => Some(X86::setle),
            59 => Some(X86::setg),
            60 => Some(X86::cmp_rr8),
            61 => Some(X86::cmp_rr16),
            62 => Some(X86::cmp_rr32),
            63 => Some(X86::cmp_rr64),
            64 => Some(X86::test_rr8),
            65 => Some(X86::add_rr8),
            66 => Some(X86::add_rr16),
            67 => Some(X86::add_rr32),
            68 => Some(X86::add_rr64),
            69 => Some(X86::add_ri8),
            70 => Some(X86::add_ri16),
            71 => Some(X86::add_ri32),
            72 => Some(X86::add_ri64),
            73 => Some(X86::sub_rr8),
            74 => Some(X86::sub_rr16),
            75 => Some(X86::sub_rr32),
            76 => Some(X86::sub_rr64),
            77 => Some(X86::sub_ri8),
            78 => Some(X86::sub_ri16),
            79 => Some(X86::sub_ri32),
            80 => Some(X86::sub_ri64),
            81 => Some(X86::imul_r8),
            82 => Some(X86::imul_rr16),
            83 => Some(X86::imul_rr32),
            84 => Some(X86::imul_rr64),
            85 => Some(X86::imul_rri16),
            86 => Some(X86::imul_rri32),
            87 => Some(X86::imul_rri64),
            88 => Some(X86::cbw),
            89 => Some(X86::cwd),
            90 => Some(X86::cdq),
            91 => Some(X86::cqo),
            92 => Some(X86::div_r8),
            93 => Some(X86::div_r16),
            94 => Some(X86::div_r32),
            95 => Some(X86::div_r64),
            96 => Some(X86::idiv_r8),
            97 => Some(X86::idiv_r16),
            98 => Some(X86::idiv_r32),
            99 => Some(X86::idiv_r64),
            100 => Some(X86::shl_ri8),
            101 => Some(X86::shl_ri16),
            102 => Some(X86::shl_ri32),
            103 => Some(X86::shl_ri64),
            104 => Some(X86::shr_ri8),
            105 => Some(X86::shr_ri16),
            106 => Some(X86::shr_ri32),
            107 => Some(X86::shr_ri64),
            108 => Some(X86::neg_r8),
            109 => Some(X86::neg_r16),
            110 => Some(X86::neg_r32),
            111 => Some(X86::neg_r64),
            112 => Some(X86::xor_rr8),
            113 => Some(X86::xor_rr16),
            114 => Some(X86::xor_rr32),
            115 => Some(X86::xor_rr64),
            116 => Some(X86::xor_ri8),
            117 => Some(X86::xor_ri16),
            118 => Some(X86::xor_ri32),
            119 => Some(X86::xor_ri64),
            120 => Some(X86::lea_rm32),
            121 => Some(X86::lea_rm64),
            122 => Some(X86::lea_function),
            123 => Some(X86::lea_global),
            124 => Some(X86::call_function),
            125 => Some(X86::call_r64),
            126 => Some(X86::movsx16_rr8),
            127 => Some(X86::movsx32_rr8),
            128 => Some(X86::movsx64_rr8),
            129 => Some(X86::movsx32_rr16),
            130 => Some(X86::movsx64_rr16),
            131 => Some(X86::movsx64_rr32),
            132 => Some(X86::movzx16_rr8),
            133 => Some(X86::movzx32_rr8),
            134 => Some(X86::movzx32_rr16),
            _ => None,
        }
    }

    open spec fn spec_params(self) -> Seq<Parameter> {
        match self {
            X86::or_rr8
            | X86::or_rr16
            | X86::or_rr32
            | X86::or_rr64
            | X86::and_rr8
            | X86::and_rr16
            | X86::and_rr32
            | X86::and_rr64
            | X86::cmp_rr8
            | X86::cmp_rr16
            | X86::cmp_rr32
            | X86::cmp_rr64
            | X86::test_rr8 => seq![Parameter::MCReg(Usage::Use), Parameter::MCReg(Usage::Use)],
            X86::or_ri8
            | X86::or_ri16
            | X86::or_ri32
            | X86::or_ri64
            | X86::and_ri8
            | X86::and_ri16
            | X86::and_ri32
            | X86::and_ri64 => seq![Parameter::MCReg(Usage::Use), Parameter::Int32],
            X86::push_r64
            | X86::imul_r8
            | X86::div_r8
            | X86::div_r16
            | X86::div_r32
            | X86::div_r64
            | X86::idiv_r8
            | X86::idiv_r16
            | X86::idiv_r32
            | X86::idiv_r64
            | X86::call_r64 => seq![Parameter::MCReg(Usage::Use)],
            X86::pop_r64
            | X86::seto
            | X86::setno
            | X86::setc
            | X86::setnc
            | X86::sete
            | X86::setne
            | X86::setbe
            | X86::seta
            | X86::sets
            | X86::setns
            | X86::setp
            | X86::setnp
            | X86::setl
            | X86::setge
            | X86::setle
            | X86::setg => seq![Parameter::MCReg(Usage::Def)],
            X86::mov_ri8
            | X86::mov_ri16
            | X86::mov_ri32
            | X86::mov_ri64 => seq![Parameter::MCReg(Usage::Def), Parameter::Int32],
            X86::mov_rr8
            | X86::mov_rr16
            | X86::mov_rr32
            | X86::mov_rr64
            | X86::movsx16_rr8
            | X86::movsx32_rr8
            | X86::movsx64_rr8
            | X86::movsx32_rr16
            | X86::movsx64_rr16
            | X86::movsx64_rr32
            | X86::movzx16_rr8
            | X86::movzx32_rr8
            | X86::movzx32_rr16 => seq![Parameter::MCReg(Usage::Def), Parameter::MCReg(Usage::Use)],
            X86::mov_rm8
            | X86::mov_rm16
            | X86::mov_rm32
            | X86::mov_rm64
            | X86::lea_rm32
            | X86::lea_rm64 => seq![Parameter::MCReg(Usage::Def), Parameter::MCReg(Usage::Use), Parameter::Int32, Parameter::MCReg(Usage::Use), Parameter::Int32],
            X86::mov_mr8
            | X86::mov_mr16
            | X86::mov_mr32
            | X86::mov_mr64 => seq![Parameter::MCReg(Usage::Use), Parameter::Int32, Parameter::MCReg(Usage::Use), Parameter::Int32, Parameter::MCReg(Usage::Use)],
            X86::ret0
            | X86::ret64
            | X86::ret128
            | X86::cbw
            | X86::cwd
            | X86::cdq
            | X86::cqo => Seq::empty(),
            X86::jmp
            | X86::je
            | X86::jne
            | X86::jl
            | X86::jge
            | X86::jle
            | X86::jg => seq![Parameter::BlockId],
            X86::add_rr8
            | X86::add_rr16
            | X86::add_rr32
            | X86::add_rr64
            | X86::sub_rr8
            | X86::sub_rr16
            | X86::sub_rr32
            | X86::sub_rr64
            | X86::imul_rr16
            | X86::imul_rr32
            | X86::imul_rr64
            | X86::xor_rr8
            | X86::xor_rr16
            | X86::xor_rr32
            | X86::xor_rr64 => seq![Parameter::MCReg(Usage::DefUse), Parameter::MCReg(Usage::Use)],
            X86::add_ri8
            | X86::add_ri16
            | X86::add_ri32
            | X86::add_ri64
            | X86::sub_ri8
            | X86::sub_ri16
            | X86::sub_ri32
            | X86::sub_ri64
            | X86::shl_ri8
            | X86::shl_ri16
            | X86::shl_ri32
            | X86::shl_ri64
            | X86::shr_ri8
            | X86::shr_ri16
            | X86::shr_ri32
            | X86::shr_ri64
            | X86::xor_ri8
            | X86::xor_ri16
            | X86::xor_ri32
            | X86::xor_ri64 => seq![Parameter::MCReg(Usage::DefUse), Parameter::Int32],
            X86::imul_rri16
            | X86::imul_rri32
            | X86::imul_rri64 => seq![Parameter::MCReg(Usage::Def), Parameter::MCReg(Usage::Use), Parameter::Int32],
            X86::neg_r8
            | X86::neg_r16
            | X86::neg_r32
            | X86::neg_r64 => seq![Parameter::MCReg(Usage::DefUse)],
            X86::lea_function => seq![Parameter::MCReg(Usage::Def), Parameter::FunctionId],
            X86::lea_global => seq![Parameter::MCReg(Usage::Def), Parameter::GlobalId],
            X86::call_function => seq![Parameter::FunctionId],
        }
    }

    open spec fn spec_varargs(self) -> Option<Parameter> {
        None
    }

    fn id(self) -> u32 {
        match self {
            X86::or_rr8 => 0,
            X86::or_rr16 => 1,
            X86::or_rr32 => 2,
            X86::or_rr64 => 3,
            X86::or_ri8 => 4,
            X86::or_ri16 => 5,
            X86::or_ri32 => 6,
            X86::or_ri64 => 7,
            X86::and_rr8 => 8,
            X86::and_rr16 => 9,
            X86::and_rr32 => 10,
            X86::and_rr64 => 11,
            X86::and_ri8 => 12,
            X86::and_ri16 => 13,
            X86::and_ri32 => 14,
            X86::and_ri64 => 15,
            X86::push_r64 => 16,
            X86::pop_r64 => 17,
            X86::mov_ri8 => 18,
            X86::mov_ri16 => 19,
            X86::mov_ri32 => 20,
            X86::mov_ri64 => 21,
            X86::mov_rr8 => 22,
            X86::mov_rr16 => 23,
            X86::mov_rr32 => 24,
            X86::mov_rr64 => 25,
            X86::mov_rm8 => 26,
            X86::mov_rm16 => 27,
            X86::mov_rm32 => 28,
            X86::mov_rm64 => 29,
            X86::mov_mr8 => 30,
            X86::mov_mr16 => 31,
            X86::mov_mr32 => 32,
            X86::mov_mr64 => 33,
            X86::ret0 => 34,
            X86::ret64 => 35,
            X86::ret128 => 36,
            X86::jmp => 37,
            X86::je => 38,
            X86::jne => 39,
            X86::jl => 40,
            X86::jge => 41,
            X86::jle => 42,
            X86::jg => 43,
            X86::seto => 44,
            X86::setno => 45,
            X86::setc => 46,
            X86::setnc => 47,
            X86::sete => 48,
            X86::setne => 49,
            X86::setbe => 50,
            X86::seta => 51,
            X86::sets => 52,
            X86::setns => 53,
            X86::setp => 54,
            X86::setnp => 55,
            X86::setl => 56,
            X86::setge => 57,
            X86::setle => 58,
            X86::setg => 59,
            X86::cmp_rr8 => 60,
            X86::cmp_rr16 => 61,
            X86::cmp_rr32 => 62,
            X86::cmp_rr64 => 63,
            X86::test_rr8 => 64,
            X86::add_rr8 => 65,
            X86::add_rr16 => 66,
            X86::add_rr32 => 67,
            X86::add_rr64 => 68,
            X86::add_ri8 => 69,
            X86::add_ri16 => 70,
            X86::add_ri32 => 71,
            X86::add_ri64 => 72,
            X86::sub_rr8 => 73,
            X86::sub_rr16 => 74,
            X86::sub_rr32 => 75,
            X86::sub_rr64 => 76,
            X86::sub_ri8 => 77,
            X86::sub_ri16 => 78,
            X86::sub_ri32 => 79,
            X86::sub_ri64 => 80,
            X86::imul_r8 => 81,
            X86::imul_rr16 => 82,
            X86::imul_rr32 => 83,
            X86::imul_rr64 => 84,
            X86::imul_rri16 => 85,
            X86::imul_rri32 => 86,
            X86::imul_rri64 => 87,
            X86::cbw => 88,
            X86::cwd => 89,
            X86::cdq => 90,
            X86::cqo => 91,
            X86::div_r8 => 92,
            X86::div_r16 => 93,
            X86::div_r32 => 94,
            X86::div_r64 => 95,
            X86::idiv_r8 => 96,
            X86::idiv_r16 => 97,
            X86::idiv_r32 => 98,
            X86::idiv_r64 => 99,
            X86::shl_ri8 => 100,
            X86::shl_ri16 => 101,
            X86::shl_ri32 => 102,
            X86::shl_ri64 => 103,
            X86::shr_ri8 => 104,
            X86::shr_ri16 => 105,
            X86::shr_ri32 => 106,
            X86::shr_ri64 => 107,
            X86::neg_r8 => 108,
            X86::neg_r16 => 109,
            X86::neg_r32 => 110,
            X86::neg_r64 => 111,
            X86::xor_rr8 => 112,
            X86::xor_rr16 => 113,
            X86::xor_rr32 => 114,
            X86::xor_rr64 => 115,
            X86::xor_ri8 => 116,
            X86::xor_ri16 => 117,
            X86::xor_ri32 => 118,
            X86::xor_ri64 => 119,
            X86::lea_rm32 => 120,
            X86::lea_rm64 => 121,
            X86::lea_function => 122,
            X86::lea_global => 123,
            X86::call_function => 124,
            X86::call_r64 => 125,
            X86::movsx16_rr8 => 126,
            X86::movsx32_rr8 => 127,
            X86::movsx64_rr8 => 128,
            X86::movsx32_rr16 => 129,
            X86::movsx64_rr16 => 130,
            X86::movsx64_rr32 => 131,
            X86::movzx16_rr8 => 132,
            X86::movzx32_rr8 => 133,
            X86::movzx32_rr16 => 134,
        }
    }

    fn of_id(id: u32) -> Option<X86> {
        match id {
            0 => Some(X86::or_rr8),
            1 => Some(X86::or_rr16),
            2 => Some(X86::or_rr32),
            3 => Some(X86::or_rr64),
            4 => Some(X86::or_ri8),
            5 => Some(X86::or_ri16),
            6 => Some(X86::or_ri32),
            7 => Some(X86::or_ri64),
            8 => Some(X86::and_rr8),
            9 => Some(X86::and_rr16),
            10 => Some(X86::and_rr32),
            11 => Some(X86::and_rr64),
            12 => Some(X86::and_ri8),
            13 => Some(X86::and_ri16),
            14 => Some(X86::and_ri32),
            15 => Some(X86::and_ri64),
            16 => Some(X86::push_r64),
            17 => Some(X86::pop_r64),
            18 => Some(X86::mov_ri8),
            19 => Some(X86::mov_ri16),
            20 => Some(X86::mov_ri32),
            21 => Some(X86::mov_ri64),
            22 => Some(X86::mov_rr8),
            23 => Some(X86::mov_rr16),
            24 => Some(X86::mov_rr32),
            25 => Some(X86::mov_rr64),
            26 => Some(X86::mov_rm8),
            27 => Some(X86::mov_rm16),
            28 => Some(X86::mov_rm32),
            29 => Some(X86::mov_rm64),
            30 => Some(X86::mov_mr8),
            31 => Some(X86::mov_mr16),
            32 => Some(X86::mov_mr32),
            33 => Some(X86::mov_mr64),
            34 => Some(X86::ret0),
            35 => Some(X86::ret64),
            36 => Some(X86::ret128),
            37 => Some(X86::jmp),
            38 => Some(X86::je),
            39 => Some(X86::jne),
            40 => Some(X86::jl),
            41 => Some(X86::jge),
            42 => Some(X86::jle),
            43 => Some(X86::jg),
            44 => Some(X86::seto),
            45 => Some(X86::setno),
            46 => Some(X86::setc),
            47 => Some(X86::setnc),
            48 => Some(X86::sete),
            49 => Some(X86::setne),
            50 => Some(X86::setbe),
            51 => Some(X86::seta),
            52 => Some(X86::sets),
            53 => Some(X86::setns),
            54 => Some(X86::setp),
            55 => Some(X86::setnp),
            56 => Some(X86::setl),
            57 => Some(X86::setge),
            58 => Some(X86::setle),
            59 => Some(X86::setg),
            60 => Some(X86::cmp_rr8),
            61 => Some(X86::cmp_rr16),
            62 => Some(X86::cmp_rr32),
            63 => Some(X86::cmp_rr64),
            64 => Some(X86::test_rr8),
            65 => Some(X86::add_rr8),
            66 => Some(X86::add_rr16),
            67 => Some(X86::add_rr32),
            68 => Some(X86::add_rr64),
            69 => Some(X86::add_ri8),
            70 => Some(X86::add_ri16),
            71 => Some(X86::add_ri32),
            72 => Some(X86::add_ri64),
            73 => Some(X86::sub_rr8),
            74 => Some(X86::sub_rr16),
            75 => Some(X86::sub_rr32),
            76 => Some(X86::sub_rr64),
            77 => Some(X86::sub_ri8),
            78 => Some(X86::sub_ri16),
            79 => Some(X86::sub_ri32),
            80 => Some(X86::sub_ri64),
            81 => Some(X86::imul_r8),
            82 => Some(X86::imul_rr16),
            83 => Some(X86::imul_rr32),
            84 => Some(X86::imul_rr64),
            85 => Some(X86::imul_rri16),
            86 => Some(X86::imul_rri32),
            87 => Some(X86::imul_rri64),
            88 => Some(X86::cbw),
            89 => Some(X86::cwd),
            90 => Some(X86::cdq),
            91 => Some(X86::cqo),
            92 => Some(X86::div_r8),
            93 => Some(X86::div_r16),
            94 => Some(X86::div_r32),
            95 => Some(X86::div_r64),
            96 => Some(X86::idiv_r8),
            97 => Some(X86::idiv_r16),
            98 => Some(X86::idiv_r32),
            99 => Some(X86::idiv_r64),
            100 => Some(X86::shl_ri8),
            101 => Some(X86::shl_ri16),
            102 => Some(X86::shl_ri32),
            103 => Some(X86::shl_ri64),
            104 => Some(X86::shr_ri8),
            105 => Some(X86::shr_ri16),
            106 => Some(X86::shr_ri32),
            107 => Some(X86::shr_ri64),
            108 => Some(X86::neg_r8),
            109 => Some(X86::neg_r16),
            110 => Some(X86::neg_r32),
            111 => Some(X86::neg_r64),
            112 => Some(X86::xor_rr8),
            113 => Some(X86::xor_rr16),
            114 => Some(X86::xor_rr32),
            115 => Some(X86::xor_rr64),
            116 => Some(X86::xor_ri8),
            117 => Some(X86::xor_ri16),
            118 => Some(X86::xor_ri32),
            119 => Some(X86::xor_ri64),
            120 => Some(X86::lea_rm32),
            121 => Some(X86::lea_rm64),
            122 => Some(X86::lea_function),
            123 => Some(X86::lea_global),
            124 => Some(X86::call_function),
            125 => Some(X86::call_r64),
            126 => Some(X86::movsx16_rr8),
            127 => Some(X86::movsx32_rr8),
            128 => Some(X86::movsx64_rr8),
            129 => Some(X86::movsx32_rr16),
            130 => Some(X86::movsx64_rr16),
            131 => Some(X86::movsx64_rr32),
            132 => Some(X86::movzx16_rr8),
            133 => Some(X86::movzx32_rr8),
            134 => Some(X86::movzx32_rr16),
            _ => None,
        }
    }

    fn params(self) -> Vec<Parameter> {
        let params: Vec<Parameter> = match self {
            X86::or_rr8
            | X86::or_rr16
            | X86::or_rr32
            | X86::or_rr64
            | X86::and_rr8
            | X86::and_rr16
            | X86::and_rr32
            | X86::and_rr64
            | X86::cmp_rr8
            | X86::cmp_rr16
            | X86::cmp_rr32
            | X86::cmp_rr64
            | X86::test_rr8 => vec![Parameter::MCReg(Usage::Use), Parameter::MCReg(Usage::Use)],
            X86::or_ri8
            | X86::or_ri16
            | X86::or_ri32
            | X86::or_ri64
            | X86::and_ri8
            | X86::and_ri16
            | X86::and_ri32
            | X86::and_ri64 => vec![Parameter::MCReg(Usage::Use), Parameter::Int32],
            X86::push_r64
            | X86::imul_r8
            | X86::div_r8
            | X86::div_r16
            | X86::div_r32
            | X86::div_r64
            | X86::idiv_r8
            | X86::idiv_r16
            | X86::idiv_r32
            | X86::idiv_r64
            | X86::call_r64 => vec![Parameter::MCReg(Usage::Use)],
            X86::pop_r64
            | X86::seto
            | X86::setno
            | X86::setc
            | X86::setnc
            | X86::sete
            | X86::setne
            | X86::setbe
            | X86::seta
            | X86::sets
            | X86::setns
            | X86::setp
            | X86::setnp
            | X86::setl
            | X86::setge
            | X86::setle
            | X86::setg => vec![Parameter::MCReg(Usage::Def)],
            X86::mov_ri8
            | X86::mov_ri16
            | X86::mov_ri32
            | X86::mov_ri64 => vec![Parameter::MCReg(Usage::Def), Parameter::Int32],
            X86::mov_rr8
            | X86::mov_rr16
            | X86::mov_rr32
            | X86::mov_rr64
            | X86::movsx16_rr8
            | X86::movsx32_rr8
            | X86::movsx64_rr8
            | X86::movsx32_rr16
            | X86::movsx64_rr16
            | X86::movsx64_rr32
            | X86::movzx16_rr8
            | X86::movzx32_rr8
            | X86::movzx32_rr16 => vec![Parameter::MCReg(Usage::Def), Parameter::MCReg(Usage::Use)],
            X86::mov_rm8
            | X86::mov_rm16
            | X86::mov_rm32
            | X86::mov_rm64
            | X86::lea_rm32
            | X86::lea_rm64 => vec![Parameter::MCReg(Usage::Def), Parameter::MCReg(Usage::Use), Parameter::Int32, Parameter::MCReg(Usage::Use), Parameter::Int32],
            X86::mov_mr8
            | X86::mov_mr16
            | X86::mov_mr32
            | X86::mov_mr64 => vec![Parameter::MCReg(Usage::Use), Parameter::Int32, Parameter::MCReg(Usage::Use), Parameter::Int32, Parameter::MCReg(Usage::Use)],
            X86::ret0
            | X86::ret64
            | X86::ret128
            | X86::cbw
            | X86::cwd
            | X86::cdq
            | X86::cqo => Vec::new(),
            X86::jmp
            | X86::je
            | X86::jne
            | X86::jl
            | X86::jge
            | X86::jle
            | X86::jg => vec![Parameter::BlockId],
            X86::add_rr8
            | X86::add_rr16
            | X86::add_rr32
            | X86::add_rr64
            | X86::sub_rr8
            | X86::sub_rr16
            | X86::sub_rr32
            | X86::sub_rr64
            | X86::imul_rr16
            | X86::imul_rr32
            | X86::imul_rr64
            | X86::xor_rr8
            | X86::xor_rr16
            | X86::xor_rr32
            | X86::xor_rr64 => vec![Parameter::MCReg(Usage::DefUse), Parameter::MCReg(Usage::Use)],
            X86::add_ri8
            | X86::add_ri16
            | X86::add_ri32
            | X86::add_ri64
            | X86::sub_ri8
            | X86::sub_ri16
            | X86::sub_ri32
            | X86::sub_ri64
            | X86::shl_ri8
            | X86::shl_ri16
            | X86::shl_ri32
            | X86::shl_ri64
            | X86::shr_ri8
            | X86::shr_ri16
            | X86::shr_ri32
            | X86::shr_ri64
            | X86::xor_ri8
            | X86::xor_ri16
            | X86::xor_ri32
            | X86::xor_ri64 => vec![Parameter::MCReg(Usage::DefUse), Parameter::Int32],
            X86::imul_rri16
            | X86::imul_rri32
            | X86::imul_rri64 => vec![Parameter::MCReg(Usage::Def), Parameter::MCReg(Usage::Use), Parameter::Int32],
            X86::neg_r8
            | X86::neg_r16
            | X86::neg_r32
            | X86::neg_r64 => vec![Parameter::MCReg(Usage::DefUse)],
            X86::lea_function => vec![Parameter::MCReg(Usage::Def), Parameter::FunctionId],
            X86::lea_global => vec![Parameter::MCReg(Usage::Def), Parameter::GlobalId],
            X86::call_function => vec![Parameter::FunctionId],
        };
        assert(params@ =~= self.spec_params());
        params
    }

    fn varargs(self) -> Option<Parameter> {
        None
    }

    proof fn ids_are_unique(self) {
    }
}

} // verus!
