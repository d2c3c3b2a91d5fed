//! The signatures of the instructions.
use vstd::prelude::*;

use crate::backend::arm::isa::Arm;
use crate::ir::dialect::Dialect;
use crate::ir::inst::{Imm, Parameter, Usage};

verus! {

impl Dialect for Arm {
    open spec fn spec_id(self) -> u32 {
        match self {
            Arm::orr32 => 0,
            Arm::orr64 => 1,
            Arm::movz32 => 2,
            Arm::movz64 => 3,
            Arm::movk32 => 4,
            Arm::movk64 => 5,
            Arm::ldrb32 => 6,
            Arm::ldrh32 => 7,
            Arm::ldr32 => 8,
            Arm::ldr64 => 9,
            Arm::strb32 => 10,
            Arm::strh32 => 11,
            Arm::str32 => 12,
            Arm::str64 => 13,
            Arm::ldp32 => 14,
            Arm::ldp64 => 15,
            Arm::stp32 => 16,
            Arm::stp64 => 17,
            Arm::add_i32 => 18,
            Arm::add_i64 => 19,
            Arm::sub_i32 => 20,
            Arm::sub_i64 => 21,
            Arm::bl_function => 22,
            Arm::ret0 => 23,
            Arm::ret64 => 24,
            Arm::ret128 => 25,
        }
    }

    open spec fn spec_of_id(id: u32) -> Option<Arm> {
        match id {
            0 => Some(Arm::orr32),
            1 => Some(Arm::orr64),
            2 => Some(Arm::movz32),
            3 => Some(Arm::movz64),
            4 => Some(Arm::movk32),
            5 => Some(Arm::movk64),
            6 => Some(Arm::ldrb32),
            7 => Some(Arm::ldrh32),
            8 => Some(Arm::ldr32),
            9 => Some(Arm::ldr64),
            10 => Some(Arm::strb32),
            11 => Some(Arm::strh32),
            12 => Some(Arm::str32),
            13 => Some(Arm::str64),
            14 => Some(Arm::ldp32),
            15 => Some(Arm::ldp64),
            16 => Some(Arm::stp32),
            17 => Some(Arm::stp64),
            18 => Some(Arm::add_i32),
            19 => Some(Arm::add_i64),
            20 => Some(Arm::sub_i32),
            21 => Some(Arm::sub_i64),
            22 => Some(Arm::bl_function),
            23 => Some(Arm::ret0),
            24 => Some(Arm::ret64),
            25 => Some(Arm::ret128),
            _ => None,
        }
    }

    open spec fn spec_params(self) -> Seq<Parameter> {
        match self {
            Arm::orr32
            | Arm::orr64 => seq![Parameter::MCReg(Usage::Def), Parameter::MCReg(Usage::Use), Parameter::MCReg(Usage::Use)],
            Arm::movz32
            | Arm::movz64
            | Arm::movk32
            | Arm::movk64 => seq![Parameter::MCReg(Usage::Def), Parameter::Int32, Parameter::Int32],
            Arm::ldrb32 => seq![Parameter::MCReg(Usage::Def), Parameter::MCRegOffset(Usage::Use, Imm::Unsigned12(1))],
            Arm::ldrh32 => seq![Parameter::MCReg(Usage::Def), Parameter::MCRegOffset(Usage::Use, Imm::Unsigned12(2))],
            Arm::ldr32 => seq![Parameter::MCReg(Usage::Def), Parameter::MCRegOffset(Usage::Use, Imm::Unsigned12(4))],
            Arm::ldr64 => seq![Parameter::MCReg(Usage::Def), Parameter::MCRegOffset(Usage::Use, Imm::Unsigned12(8))],
            Arm::strb32 => seq![Parameter::MCReg(Usage::Use), Parameter::MCRegOffset(Usage::Use, Imm::Unsigned12(1))],
            Arm::strh32 => seq![Parameter::MCReg(Usage::Use), Parameter::MCRegOffset(Usage::Use, Imm::Unsigned12(2))],
            Arm::str32 => seq![Parameter::MCReg(Usage::Use), Parameter::MCRegOffset(Usage::Use, Imm::Unsigned12(4))],
            Arm::str64 => seq![Parameter::MCReg(Usage::Use), Parameter::MCRegOffset(Usage::Use, Imm::Unsigned12(8))],
            Arm::ldp32 => seq![Parameter::MCReg(Usage::Def), Parameter::MCReg(Usage::Def), Parameter::MCRegOffset(Usage::Use, Imm::Signed7(4))],
            Arm::ldp64 => seq![Parameter::MCReg(Usage::Def), Parameter::MCReg(Usage::Def), Parameter::MCRegOffset(Usage::Use, Imm::Signed7(8))],
            Arm::stp32 => seq![Parameter::MCReg(Usage::Use), Parameter::MCReg(Usage::Use), Parameter::MCRegOffset(Usage::Use, Imm::Signed7(4))],
            Arm::stp64 => seq![Parameter::MCReg(Usage::Use), Parameter::MCReg(Usage::Use), Parameter::MCRegOffset(Usage::Use, Imm::Signed7(8))],
            Arm::add_i32
            | Arm::add_i64
            | Arm::sub_i32
            | Arm::sub_i64 => seq![Parameter::MCReg(Usage::Def), Parameter::MCReg(Usage::Use), Parameter::Int32],
            Arm::bl_function => seq![Parameter::FunctionId],
            Arm::ret0
            | Arm::ret64
            | Arm::ret128 => seq![Parameter::MCReg(Usage::Use)],
        }
    }

    open spec fn spec_varargs(self) -> Option<Parameter> {
        None
    }

    fn id(self) -> u32 {
        match self {
            Arm::orr32 => 0,
            Arm::orr64 => 1,
            Arm::movz32 => 2,
            Arm::movz64 => 3,
            Arm::movk32 => 4,
            Arm::movk64 => 5,
            Arm::ldrb32 => 6,
            Arm::ldrh32 => 7,
            Arm::ldr32 => 8,
            Arm::ldr64 => 9,
            Arm::strb32 => 10,
            Arm::strh32 => 11,
            Arm::str32 => 12,
            Arm::str64 => 13,
            Arm::ldp32 => 14,
            Arm::ldp64 => 15,
            Arm::stp32 => 16,
            Arm::stp64 => 17,
            Arm::add_i32 => 18,
            Arm::add_i64 => 19,
            Arm::sub_i32 => 20,
            Arm::sub_i64 => 21,
            Arm::bl_function => 22,
            Arm::ret0 => 23,
            Arm::ret64 => 24,
            Arm::ret128 => 25,
        }
    }

    fn of_id(id: u32) -> Option<Arm> {
        match id {
            0 => Some(Arm::orr32),
            1 => Some(Arm::orr64),
            2 => Some(Arm::movz32),
            3 => Some(Arm::movz64),
            4 => Some(Arm::movk32),
            5 => Some(Arm::movk64),
            6 => Some(Arm::ldrb32),
            7 => Some(Arm::ldrh32),
            8 => Some(Arm::ldr32),
            9 => Some(Arm::ldr64),
            10 => Some(Arm::strb32),
            11 => Some(Arm::strh32),
            12 => Some(Arm::str32),
            13 => Some(Arm::str64),
            14 => Some(Arm::ldp32),
            15 => Some(Arm::ldp64),
            16 => Some(Arm::stp32),
            17 => Some(Arm::stp64),
            18 => Some(Arm::add_i32),
            19 => Some(Arm::add_i64),
            20 => Some(Arm::sub_i32),
            21 => Some(Arm::sub_i64),
            22 => Some(Arm::bl_function),
            23 => Some(Arm::ret0),
            24 => Some(Arm::ret64),
            25 => Some(Arm::ret128),
            _ => None,
        }
    }

    fn params(self) -> Vec<Parameter> {
        let params: Vec<Parameter> = match self {
            Arm::orr32
            | Arm::orr64 => vec![Parameter::MCReg(Usage::Def), Parameter::MCReg(Usage::Use), Parameter::MCReg(Usage::Use)],
            Arm::movz32
            | Arm::movz64
            | Arm::movk32
            | Arm::movk64 => vec![Parameter::MCReg(Usage::Def), Parameter::Int32, Parameter::Int32],
            Arm::ldrb32 => vec![Parameter::MCReg(Usage::Def), Parameter::MCRegOffset(Usage::Use, Imm::Unsigned12(1))],
            Arm::ldrh32 => vec![Parameter::MCReg(Usage::Def), Parameter::MCRegOffset(Usage::Use, Imm::Unsigned12(2))],
            Arm::ldr32 => vec![Parameter::MCReg(Usage::Def), Parameter::MCRegOffset(Usage::Use, Imm::Unsigned12(4))],
            Arm::ldr64 => vec![Parameter::MCReg(Usage::Def), Parameter::MCRegOffset(Usage::Use, Imm::Unsigned12(8))],
            Arm::strb32 => vec![Parameter::MCReg(Usage::Use), Parameter::MCRegOffset(Usage::Use, Imm::Unsigned12(1))],
            Arm::strh32 => vec![Parameter::MCReg(Usage::Use), Parameter::MCRegOffset(Usage::Use, Imm::Unsigned12(2))],
            Arm::str32 => vec![Parameter::MCReg(Usage::Use), Parameter::MCRegOffset(Usage::Use, Imm::Unsigned12(4))],
            Arm::str64 => vec![Parameter::MCReg(Usage::Use), Parameter::MCRegOffset(Usage::Use, Imm::Unsigned12(8))],
            Arm::ldp32 => vec![Parameter::MCReg(Usage::Def), Parameter::MCReg(Usage::Def), Parameter::MCRegOffset(Usage::Use, Imm::Signed7(4))],
            Arm::ldp64 => vec![Parameter::MCReg(Usage::Def), Parameter::MCReg(Usage::Def), Parameter::MCRegOffset(Usage::Use, Imm::Signed7(8))],
            Arm::stp32 => vec![Parameter::MCReg(Usage::Use), Parameter::MCReg(Usage::Use), Parameter::MCRegOffset(Usage::Use, Imm::Signed7(4))],
            Arm::stp64 => vec![Parameter::MCReg(Usage::Use), Parameter::MCReg(Usage::Use), Parameter::MCRegOffset(Usage::Use, Imm::Signed7(8))],
            Arm::add_i32
            | Arm::add_i64
            | Arm::sub_i32
            | Arm::sub_i64 => vec![Parameter::MCReg(Usage::Def), Parameter::MCReg(Usage::Use), Parameter::Int32],
            Arm::bl_function => vec![Parameter::FunctionId],
            Arm::ret0
            | Arm::ret64
            | Arm::ret128 => vec![Parameter::MCReg(Usage::Use)],
        };
        assert(params@ =~= self.spec_params());
        params
    }

    fn varargs(self) -> Option<Parameter> {
        None
    }

    proof fn ids_are_unique(self) {
    }
}

} // verus!
