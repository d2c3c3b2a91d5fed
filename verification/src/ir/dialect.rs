//! Instructions of the dialects.
use vstd::prelude::*;

use crate::ir::env::Environment;
use crate::ir::ids::{FunctionId, LocalFunctionId, ModuleId};
use crate::ir::inst::{Instruction, Parameter, Usage};

verus! {

/// A group of instructions that a program knows under one module.
pub trait Dialect: Copy {
    /// The number of the instruction in its module.
    spec fn spec_id(self) -> u32;

    spec fn spec_of_id(id: u32) -> Option<Self> where Self: Sized;

    spec fn spec_params(self) -> Seq<Parameter>;

    spec fn spec_varargs(self) -> Option<Parameter>;

    fn id(self) -> (id: u32)
        ensures
            id == self.spec_id(),
    ;

    fn of_id(id: u32) -> (op: Option<Self>) where Self: Sized
        ensures
            op == Self::spec_of_id(id),
    ;

    fn params(self) -> (params: Vec<Parameter>)
        ensures
            params@ == self.spec_params(),
    ;

    fn varargs(self) -> (varargs: Option<Parameter>)
        ensures
            varargs == self.spec_varargs(),
    ;

    /// The number of an instruction belongs to no other.
    proof fn ids_are_unique(self)
        ensures
            Self::spec_of_id(self.spec_id()) == Some(self),
    ;
}

/// The instruction in the module of its dialect.
pub open spec fn spec_function<D: Dialect>(module: ModuleId, op: D) -> FunctionId {
    FunctionId { module, function: LocalFunctionId(op.spec_id()) }
}

pub fn function<D: Dialect>(module: ModuleId, op: D) -> (f: FunctionId)
    ensures
        f == spec_function(module, op),
{
    FunctionId { module, function: LocalFunctionId(op.id()) }
}

/// The instruction of the dialect that is meant.
pub open spec fn spec_as_module<D: Dialect>(inst: Instruction, module: ModuleId) -> Option<D> {
    if inst.function.module == module {
        D::spec_of_id(inst.function.function.0)
    } else {
        None
    }
}

pub fn as_module<D: Dialect>(inst: &Instruction, module: ModuleId) -> (op: Option<D>)
    ensures
        op == spec_as_module::<D>(*inst, module),
{
    if inst.function.module == module {
        D::of_id(inst.function.function.0)
    } else {
        None
    }
}

/// The module holds the instructions of the dialect with their signatures.
pub open spec fn registered<D: Dialect>(env: &Environment, module: ModuleId) -> bool {
    &&& module != ModuleId::builtins()
    &&& forall|op: D|
        #![trigger op.spec_id()]
        {
            &&& env.has(spec_function(module, op))
            &&& env.def(spec_function(module, op)).params@ == op.spec_params()
            &&& env.def(spec_function(module, op)).varargs == op.spec_varargs()
        }
}

/// An instruction of a dialect is recognized in its module.
pub proof fn instructions_are_recognized<D: Dialect>(inst: Instruction, module: ModuleId, op: D)
    requires
        inst.function == spec_function(module, op),
    ensures
        spec_as_module::<D>(inst, module) == Some(op),
{
    op.ids_are_unique();
}

/// Arithmetic on numbers.
#[derive(Clone, Copy, Debug, PartialEq, Eq, Hash, Structural)]
pub enum Arith {
    Int,
    Float,
    Neg,
    Not,
    Add,
    Sub,
    Mul,
    Div,
    Rem,
    Or,
    And,
    Xor,
    Shl,
    Shr,
    Rol,
    Ror,
    Eq,
    NE,
    LT,
    GT,
    LE,
    GE,
    CastInt,
    CastFloat,
    CastIntToFloat,
    CastFloatToInt,
}

impl Dialect for Arith {
    open spec fn spec_id(self) -> u32 {
        match self {
            Arith::Int => 0,
            Arith::Float => 1,
            Arith::Neg => 2,
            Arith::Not => 3,
            Arith::Add => 4,
            Arith::Sub => 5,
            Arith::Mul => 6,
            Arith::Div => 7,
            Arith::Rem => 8,
            Arith::Or => 9,
            Arith::And => 10,
            Arith::Xor => 11,
            Arith::Shl => 12,
            Arith::Shr => 13,
            Arith::Rol => 14,
            Arith::Ror => 15,
            Arith::Eq => 16,
            Arith::NE => 17,
            Arith::LT => 18,
            Arith::GT => 19,
            Arith::LE => 20,
            Arith::GE => 21,
            Arith::CastInt => 22,
            Arith::CastFloat => 23,
            Arith::CastIntToFloat => 24,
            Arith::CastFloatToInt => 25,
        }
    }

    open spec fn spec_of_id(id: u32) -> Option<Arith> {
        match id {
            0 => Some(Arith::Int),
            1 => Some(Arith::Float),
            2 => Some(Arith::Neg),
            3 => Some(Arith::Not),
            4 => Some(Arith::Add),
            5 => Some(Arith::Sub),
            6 => Some(Arith::Mul),
            7 => Some(Arith::Div),
            8 => Some(Arith::Rem),
            9 => Some(Arith::Or),
            10 => Some(Arith::And),
            11 => Some(Arith::Xor),
            12 => Some(Arith::Shl),
            13 => Some(Arith::Shr),
            14 => Some(Arith::Rol),
            15 => Some(Arith::Ror),
            16 => Some(Arith::Eq),
            17 => Some(Arith::NE),
            18 => Some(Arith::LT),
            19 => Some(Arith::GT),
            20 => Some(Arith::LE),
            21 => Some(Arith::GE),
            22 => Some(Arith::CastInt),
            23 => Some(Arith::CastFloat),
            24 => Some(Arith::CastIntToFloat),
            25 => Some(Arith::CastFloatToInt),
            _ => None,
        }
    }

    open spec fn spec_params(self) -> Seq<Parameter> {
        match self {
            Arith::Int
            | Arith::Float => seq![Parameter::Int],
            Arith::Neg
            | Arith::Not
            | Arith::CastInt
            | Arith::CastFloat
            | Arith::CastIntToFloat
            | Arith::CastFloatToInt => seq![Parameter::Ref],
            Arith::Add
            | Arith::Sub
            | Arith::Mul
            | Arith::Div
            | Arith::Rem
            | Arith::Or
            | Arith::And
            | Arith::Xor
            | Arith::Shl
            | Arith::Shr
            | Arith::Rol
            | Arith::Ror
            | Arith::Eq
            | Arith::NE
            | Arith::LT
            | Arith::GT
            | Arith::LE
            | Arith::GE => seq![Parameter::Ref, Parameter::Ref],
        }
    }

    open spec fn spec_varargs(self) -> Option<Parameter> {
        None
    }

    fn id(self) -> u32 {
        match self {
            Arith::Int => 0,
            Arith::Float => 1,
            Arith::Neg => 2,
            Arith::Not => 3,
            Arith::Add => 4,
            Arith::Sub => 5,
            Arith::Mul => 6,
            Arith::Div => 7,
            Arith::Rem => 8,
            Arith::Or => 9,
            Arith::And => 10,
            Arith::Xor => 11,
            Arith::Shl => 12,
            Arith::Shr => 13,
            Arith::Rol => 14,
            Arith::Ror => 15,
            Arith::Eq => 16,
            Arith::NE => 17,
            Arith::LT => 18,
            Arith::GT => 19,
            Arith::LE => 20,
            Arith::GE => 21,
            Arith::CastInt => 22,
            Arith::CastFloat => 23,
            Arith::CastIntToFloat => 24,
            Arith::CastFloatToInt => 25,
        }
    }

    fn of_id(id: u32) -> Option<Arith> {
        match id {
            0 => Some(Arith::Int),
            1 => Some(Arith::Float),
            2 => Some(Arith::Neg),
            3 => Some(Arith::Not),
            4 => Some(Arith::Add),
            5 => Some(Arith::Sub),
            6 => Some(Arith::Mul),
            7 => Some(Arith::Div),
            8 => Some(Arith::Rem),
            9 => Some(Arith::Or),
            10 => Some(Arith::And),
            11 => Some(Arith::Xor),
            12 => Some(Arith::Shl),
            13 => Some(Arith::Shr),
            14 => Some(Arith::Rol),
            15 => Some(Arith::Ror),
            16 => Some(Arith::Eq),
            17 => Some(Arith::NE),
            18 => Some(Arith::LT),
            19 => Some(Arith::GT),
            20 => Some(Arith::LE),
            21 => Some(Arith::GE),
            22 => Some(Arith::CastInt),
            23 => Some(Arith::CastFloat),
            24 => Some(Arith::CastIntToFloat),
            25 => Some(Arith::CastFloatToInt),
            _ => None,
        }
    }

    fn params(self) -> Vec<Parameter> {
        let params: Vec<Parameter> = match self {
            Arith::Int
            | Arith::Float => vec![Parameter::Int],
            Arith::Neg
            | Arith::Not
            | Arith::CastInt
            | Arith::CastFloat
            | Arith::CastIntToFloat
            | Arith::CastFloatToInt => vec![Parameter::Ref],
            Arith::Add
            | Arith::Sub
            | Arith::Mul
            | Arith::Div
            | Arith::Rem
            | Arith::Or
            | Arith::And
            | Arith::Xor
            | Arith::Shl
            | Arith::Shr
            | Arith::Rol
            | Arith::Ror
            | Arith::Eq
            | Arith::NE
            | Arith::LT
            | Arith::GT
            | Arith::LE
            | Arith::GE => vec![Parameter::Ref, Parameter::Ref],
        };
        assert(params@ =~= self.spec_params());
        params
    }

    fn varargs(self) -> Option<Parameter> {
        None
    }

    proof fn ids_are_unique(self) {
    }
}

/// Memory and pointers.
#[derive(Clone, Copy, Debug, PartialEq, Eq, Hash, Structural)]
pub enum Mem {
    /// A local variable; the result points to it.
    Decl,
    Load,
    Store,
    MemberPtr,
    ArrayIndex,
    Offset,
    IntToPtr,
    PtrToInt,
    FunctionPtr,
    Global,
    CallPtr,
}

impl Dialect for Mem {
    open spec fn spec_id(self) -> u32 {
        match self {
            Mem::Decl => 0,
            Mem::Load => 1,
            Mem::Store => 2,
            Mem::MemberPtr => 3,
            Mem::ArrayIndex => 4,
            Mem::Offset => 5,
            Mem::IntToPtr => 6,
            Mem::PtrToInt => 7,
            Mem::FunctionPtr => 8,
            Mem::Global => 9,
            Mem::CallPtr => 10,
        }
    }

    open spec fn spec_of_id(id: u32) -> Option<Mem> {
        match id {
            0 => Some(Mem::Decl),
            1 => Some(Mem::Load),
            2 => Some(Mem::Store),
            3 => Some(Mem::MemberPtr),
            4 => Some(Mem::ArrayIndex),
            5 => Some(Mem::Offset),
            6 => Some(Mem::IntToPtr),
            7 => Some(Mem::PtrToInt),
            8 => Some(Mem::FunctionPtr),
            9 => Some(Mem::Global),
            10 => Some(Mem::CallPtr),
            _ => None,
        }
    }

    open spec fn spec_params(self) -> Seq<Parameter> {
        match self {
            Mem::Decl => seq![Parameter::TypeId],
            Mem::Load
            | Mem::IntToPtr
            | Mem::PtrToInt
            | Mem::CallPtr => seq![Parameter::Ref],
            Mem::Store => seq![Parameter::Ref, Parameter::Ref],
            Mem::MemberPtr => seq![Parameter::Ref, Parameter::TypeId, Parameter::Int32],
            Mem::ArrayIndex => seq![Parameter::Ref, Parameter::TypeId, Parameter::Ref],
            Mem::Offset => seq![Parameter::Ref, Parameter::Int],
            Mem::FunctionPtr => seq![Parameter::FunctionId],
            Mem::Global => seq![Parameter::GlobalId],
        }
    }

    open spec fn spec_varargs(self) -> Option<Parameter> {
        match self {
            Mem::CallPtr => Some(Parameter::Ref),
            _ => None,
        }
    }

    fn id(self) -> u32 {
        match self {
            Mem::Decl => 0,
            Mem::Load => 1,
            Mem::Store => 2,
            Mem::MemberPtr => 3,
            Mem::ArrayIndex => 4,
            Mem::Offset => 5,
            Mem::IntToPtr => 6,
            Mem::PtrToInt => 7,
            Mem::FunctionPtr => 8,
            Mem::Global => 9,
            Mem::CallPtr => 10,
        }
    }

    fn of_id(id: u32) -> Option<Mem> {
        match id {
            0 => Some(Mem::Decl),
            1 => Some(Mem::Load),
            2 => Some(Mem::Store),
            3 => Some(Mem::MemberPtr),
            4 => Some(Mem::ArrayIndex),
            5 => Some(Mem::Offset),
            6 => Some(Mem::IntToPtr),
            7 => Some(Mem::PtrToInt),
            8 => Some(Mem::FunctionPtr),
            9 => Some(Mem::Global),
            10 => Some(Mem::CallPtr),
            _ => None,
        }
    }

    fn params(self) -> Vec<Parameter> {
        let params: Vec<Parameter> = match self {
            Mem::Decl => vec![Parameter::TypeId],
            Mem::Load
            | Mem::IntToPtr
            | Mem::PtrToInt
            | Mem::CallPtr => vec![Parameter::Ref],
            Mem::Store => vec![Parameter::Ref, Parameter::Ref],
            Mem::MemberPtr => vec![Parameter::Ref, Parameter::TypeId, Parameter::Int32],
            Mem::ArrayIndex => vec![Parameter::Ref, Parameter::TypeId, Parameter::Ref],
            Mem::Offset => vec![Parameter::Ref, Parameter::Int],
            Mem::FunctionPtr => vec![Parameter::FunctionId],
            Mem::Global => vec![Parameter::GlobalId],
        };
        assert(params@ =~= self.spec_params());
        params
    }

    fn varargs(self) -> Option<Parameter> {
        match self {
            Mem::CallPtr => Some(Parameter::Ref),
            _ => None,
        }
    }

    proof fn ids_are_unique(self) {
    }
}

/// Values made of several.
#[derive(Clone, Copy, Debug, PartialEq, Eq, Hash, Structural)]
pub enum Tuple {
    MemberValue,
    InsertMember,
}

impl Dialect for Tuple {
    open spec fn spec_id(self) -> u32 {
        match self {
            Tuple::MemberValue => 0,
            Tuple::InsertMember => 1,
        }
    }

    open spec fn spec_of_id(id: u32) -> Option<Tuple> {
        match id {
            0 => Some(Tuple::MemberValue),
            1 => Some(Tuple::InsertMember),
            _ => None,
        }
    }

    open spec fn spec_params(self) -> Seq<Parameter> {
        match self {
            Tuple::MemberValue => seq![Parameter::Ref, Parameter::Int32],
            Tuple::InsertMember => seq![Parameter::Ref, Parameter::Int32, Parameter::Ref],
        }
    }

    open spec fn spec_varargs(self) -> Option<Parameter> {
        None
    }

    fn id(self) -> u32 {
        match self {
            Tuple::MemberValue => 0,
            Tuple::InsertMember => 1,
        }
    }

    fn of_id(id: u32) -> Option<Tuple> {
        match id {
            0 => Some(Tuple::MemberValue),
            1 => Some(Tuple::InsertMember),
            _ => None,
        }
    }

    fn params(self) -> Vec<Parameter> {
        let params: Vec<Parameter> = match self {
            Tuple::MemberValue => vec![Parameter::Ref, Parameter::Int32],
            Tuple::InsertMember => vec![Parameter::Ref, Parameter::Int32, Parameter::Ref],
        };
        assert(params@ =~= self.spec_params());
        params
    }

    fn varargs(self) -> Option<Parameter> {
        None
    }

    proof fn ids_are_unique(self) {
    }
}

/// Control flow.
#[derive(Clone, Copy, Debug, PartialEq, Eq, Hash, Structural)]
pub enum Cf {
    Goto,
    Branch,
    Ret,
}

impl Dialect for Cf {
    open spec fn spec_id(self) -> u32 {
        match self {
            Cf::Goto => 0,
            Cf::Branch => 1,
            Cf::Ret => 2,
        }
    }

    open spec fn spec_of_id(id: u32) -> Option<Cf> {
        match id {
            0 => Some(Cf::Goto),
            1 => Some(Cf::Branch),
            2 => Some(Cf::Ret),
            _ => None,
        }
    }

    open spec fn spec_params(self) -> Seq<Parameter> {
        match self {
            Cf::Goto => seq![Parameter::BlockTarget],
            Cf::Branch => seq![Parameter::Ref, Parameter::BlockTarget, Parameter::BlockTarget],
            Cf::Ret => seq![Parameter::Ref],
        }
    }

    open spec fn spec_varargs(self) -> Option<Parameter> {
        None
    }

    fn id(self) -> u32 {
        match self {
            Cf::Goto => 0,
            Cf::Branch => 1,
            Cf::Ret => 2,
        }
    }

    fn of_id(id: u32) -> Option<Cf> {
        match id {
            0 => Some(Cf::Goto),
            1 => Some(Cf::Branch),
            2 => Some(Cf::Ret),
            _ => None,
        }
    }

    fn params(self) -> Vec<Parameter> {
        let params: Vec<Parameter> = match self {
            Cf::Goto => vec![Parameter::BlockTarget],
            Cf::Branch => vec![Parameter::Ref, Parameter::BlockTarget, Parameter::BlockTarget],
            Cf::Ret => vec![Parameter::Ref],
        };
        assert(params@ =~= self.spec_params());
        params
    }

    fn varargs(self) -> Option<Parameter> {
        None
    }

    proof fn ids_are_unique(self) {
    }
}

/// Instructions of machine code that every machine has.
#[derive(Clone, Copy, Debug, PartialEq, Eq, Hash, Structural)]
pub enum Mc {
    IncomingBlockArgs,
    /// usage is special-cased in register allocator, used in pairs where each first register
    /// is assigned to the second one.
    Copy,
    /// Same as Copy but with the target registers being block arguments
    AssignBlockArgs,
    /// Represents a value stored on the stack by referencing a stack slot. Note that this is
    /// similar to mem.Decl but with a concrete stack slot assigned. It may also hold abi
    /// parameters and spilled values.
    /// Since this exists across instruction selection, it may be both used as an SSA Ref or
    /// by referencing the created `addr` vreg. Both reference the same value
    StackValue,
}

impl Dialect for Mc {
    open spec fn spec_id(self) -> u32 {
        match self {
            Mc::IncomingBlockArgs => 0,
            Mc::Copy => 1,
            Mc::AssignBlockArgs => 2,
            Mc::StackValue => 3,
        }
    }

    open spec fn spec_of_id(id: u32) -> Option<Mc> {
        match id {
            0 => Some(Mc::IncomingBlockArgs),
            1 => Some(Mc::Copy),
            2 => Some(Mc::AssignBlockArgs),
            3 => Some(Mc::StackValue),
            _ => None,
        }
    }

    open spec fn spec_params(self) -> Seq<Parameter> {
        match self {
            Mc::IncomingBlockArgs
            | Mc::Copy
            | Mc::AssignBlockArgs => Seq::empty(),
            Mc::StackValue => seq![Parameter::MCReg(Usage::Def), Parameter::Int32],
        }
    }

    open spec fn spec_varargs(self) -> Option<Parameter> {
        match self {
            Mc::IncomingBlockArgs => Some(Parameter::MCReg(Usage::DefUse)),
            Mc::Copy => Some(Parameter::MCReg(Usage::Use)),
            Mc::AssignBlockArgs => Some(Parameter::MCReg(Usage::Use)),
            _ => None,
        }
    }

    fn id(self) -> u32 {
        match self {
            Mc::IncomingBlockArgs => 0,
            Mc::Copy => 1,
            Mc::AssignBlockArgs => 2,
            Mc::StackValue => 3,
        }
    }

    fn of_id(id: u32) -> Option<Mc> {
        match id {
            0 => Some(Mc::IncomingBlockArgs),
            1 => Some(Mc::Copy),
            2 => Some(Mc::AssignBlockArgs),
            3 => Some(Mc::StackValue),
            _ => None,
        }
    }

    fn params(self) -> Vec<Parameter> {
        let params: Vec<Parameter> = match self {
            Mc::IncomingBlockArgs
            | Mc::Copy
            | Mc::AssignBlockArgs => Vec::new(),
            Mc::StackValue => vec![Parameter::MCReg(Usage::Def), Parameter::Int32],
        };
        assert(params@ =~= self.spec_params());
        params
    }

    fn varargs(self) -> Option<Parameter> {
        match self {
            Mc::IncomingBlockArgs => Some(Parameter::MCReg(Usage::DefUse)),
            Mc::Copy => Some(Parameter::MCReg(Usage::Use)),
            Mc::AssignBlockArgs => Some(Parameter::MCReg(Usage::Use)),
            _ => None,
        }
    }

    proof fn ids_are_unique(self) {
    }
}

} // verus!
