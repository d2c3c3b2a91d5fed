//! Loading values from memory and storing them.
use vstd::prelude::*;

use crate::backend::arm::isa::Arm;
use crate::ir::dialect;
use crate::ir::dialect::Dialect;
use crate::ir::edit::{EditView, Plan, PlanView};
use crate::ir::ids::{ModuleId, Ref, TypeId};
use crate::ir::inst;
use crate::ir::inst::{Argument, ArgumentView, Imm, MCReg, Usage};
use crate::ir::modify::Insert;
use crate::ir::slots::Piece;
use crate::ir::types::Primitive;

verus! {

/// The instruction that moves a primitive value between registers and memory.
#[verifier::allow_in_spec]
pub fn access_op(load: bool, primitive: Primitive) -> Option<Arm>
    returns
        (match primitive {
            Primitive::I1 | Primitive::I8 | Primitive::U8 => Some(
                if load {
                    Arm::ldrb32
                } else {
                    Arm::strb32
                },
            ),
            Primitive::I16 | Primitive::U16 => Some(
                if load {
                    Arm::ldrh32
                } else {
                    Arm::strh32
                },
            ),
            Primitive::I32 | Primitive::U32 => Some(
                if load {
                    Arm::ldr32
                } else {
                    Arm::str32
                },
            ),
            Primitive::I64 | Primitive::U64 | Primitive::Ptr => Some(
                if load {
                    Arm::ldr64
                } else {
                    Arm::str64
                },
            ),
            Primitive::I128 | Primitive::U128 => Some(
                if load {
                    Arm::ldp64
                } else {
                    Arm::stp64
                },
            ),
            Primitive::F32 | Primitive::F64 => None,
        }),
{
    match primitive {
        Primitive::I1 | Primitive::I8 | Primitive::U8 => Some(
            if load {
                Arm::ldrb32
            } else {
                Arm::strb32
            },
        ),
        Primitive::I16 | Primitive::U16 => Some(
            if load {
                Arm::ldrh32
            } else {
                Arm::strh32
            },
        ),
        Primitive::I32 | Primitive::U32 => Some(
            if load {
                Arm::ldr32
            } else {
                Arm::str32
            },
        ),
        Primitive::I64 | Primitive::U64 | Primitive::Ptr => Some(
            if load {
                Arm::ldr64
            } else {
                Arm::str64
            },
        ),
        Primitive::I128 | Primitive::U128 => Some(
            if load {
                Arm::ldp64
            } else {
                Arm::stp64
            },
        ),
        Primitive::F32 | Primitive::F64 => None,
    }
}

/// The distances that can be written for a primitive value.
pub open spec fn offset_fits(primitive: Primitive, offset: u64) -> bool {
    match primitive {
        Primitive::I1 | Primitive::I8 | Primitive::U8 => offset < 0x1000,
        Primitive::I16 | Primitive::U16 => offset % 2 == 0 && offset < 0x2000,
        Primitive::I32 | Primitive::U32 => offset % 4 == 0 && offset < 0x4000,
        Primitive::I64 | Primitive::U64 | Primitive::Ptr => offset % 8 == 0 && offset < 0x8000,
        Primitive::I128 | Primitive::U128 => offset % 8 == 0 && offset < 0x400,
        Primitive::F32 | Primitive::F64 => false,
    }
}

/// The units in which the distance is written.
#[verifier::allow_in_spec]
pub fn access_imm(primitive: Primitive) -> Imm
    returns
        (match primitive {
            Primitive::I1 | Primitive::I8 | Primitive::U8 => Imm::Unsigned12(1),
            Primitive::I16 | Primitive::U16 => Imm::Unsigned12(2),
            Primitive::I32 | Primitive::U32 => Imm::Unsigned12(4),
            Primitive::I128 | Primitive::U128 => Imm::Signed7(8),
            _ => Imm::Unsigned12(8),
        }),
{
    match primitive {
        Primitive::I1 | Primitive::I8 | Primitive::U8 => Imm::Unsigned12(1),
        Primitive::I16 | Primitive::U16 => Imm::Unsigned12(2),
        Primitive::I32 | Primitive::U32 => Imm::Unsigned12(4),
        Primitive::I128 | Primitive::U128 => Imm::Signed7(8),
        _ => Imm::Unsigned12(8),
    }
}

/// Whether the registers of the value are written or read.
#[verifier::allow_in_spec]
pub fn value_usage(load: bool) -> Usage
    returns
        (if load {
            Usage::Def
        } else {
            Usage::Use
        }),
{
    if load {
        Usage::Def
    } else {
        Usage::Use
    }
}

/// The piece can be moved by one instruction.
pub open spec fn accessible(p: Piece) -> bool {
    &&& offset_fits(p.primitive, p.offset)
    &&& p.second is Some <==> p.primitive.slot_count() == 2
}

/// The operands for a piece: its registers, then the place in memory.
pub open spec fn access_args(load: bool, p: Piece, ptr: MCReg) -> Seq<ArgumentView> {
    let usage = value_usage(load);
    let place = ArgumentView::MCRegOffset(
        Usage::Use,
        access_imm(p.primitive),
        ptr,
        p.offset as u32,
    );
    match p.second {
        Some(second) => seq![
            ArgumentView::MCReg(usage, p.first),
            ArgumentView::MCReg(usage, second),
            place,
        ],
        None => seq![ArgumentView::MCReg(usage, p.first), place],
    }
}

/// One instruction for a piece.
pub open spec fn piece_accessed(
    plan: PlanView,
    at: Ref,
    position: Insert,
    load: bool,
    arm: ModuleId,
    p: Piece,
    ptr: MCReg,
) -> PlanView {
    plan.with(
        EditView::Add {
            at,
            position,
            function: dialect::spec_function(arm, access_op(load, p.primitive)->Some_0),
            args: access_args(load, p, ptr),
            ty: TypeId::unit(),
        },
    )
}

/// One instruction for each piece, in their order.
pub open spec fn accessed(
    plan: PlanView,
    at: Ref,
    position: Insert,
    load: bool,
    arm: ModuleId,
    pieces: Seq<Piece>,
    ptr: MCReg,
) -> PlanView
    decreases pieces.len(),
{
    if pieces.len() == 0 {
        plan
    } else {
        piece_accessed(
            accessed(plan, at, position, load, arm, pieces.drop_last(), ptr),
            at,
            position,
            load,
            arm,
            pieces.last(),
            ptr,
        )
    }
}

/// Moves a value between its registers and memory.
pub fn load_store_reg(
    plan: &mut Plan,
    at: Ref,
    position: Insert,
    load: bool,
    arm: ModuleId,
    pieces: &Vec<Piece>,
    ptr: MCReg,
)
    requires
        forall|i: int| 0 <= i < pieces@.len() ==> accessible(#[trigger] pieces@[i]),
    ensures
        final(plan)@ == accessed(old(plan)@, at, position, load, arm, pieces@, ptr),
{
    let ghost start = plan@;
    let mut i: usize = 0;
    assert(pieces@.take(0) =~= Seq::empty());
    while i < pieces.len()
        invariant
            i <= pieces@.len(),
            forall|k: int| 0 <= k < pieces@.len() ==> accessible(#[trigger] pieces@[k]),
            plan@ == accessed(start, at, position, load, arm, pieces@.take(i as int), ptr),
        decreases pieces.len() - i,
    {
        let p: Piece = pieces[i];
        assert(accessible(pieces@[i as int]));
        assert(pieces@.take(i + 1).drop_last() =~= pieces@.take(i as int));
        let usage: Usage = value_usage(load);
        let mut args: Vec<Argument> = Vec::new();
        args.push(Argument::MCReg(usage, p.first));
        if let Some(second) = p.second {
            args.push(Argument::MCReg(usage, second));
        }
        args.push(
            Argument::MCRegOffset(Usage::Use, access_imm(p.primitive), ptr, p.offset as u32),
        );
        assert(inst::views(args@) =~= access_args(load, p, ptr));
        if let Some(op) = access_op(load, p.primitive) {
            plan.add(at, position, dialect::function(arm, op), args, TypeId::unit());
        }
        i += 1;
    }
    assert(pieces@.take(i as int) =~= pieces@);
}

/// The operands are those that the instruction takes.
pub proof fn accesses_are_well_formed(load: bool, p: Piece, ptr: MCReg)
    requires
        accessible(p),
    ensures
        access_op(load, p.primitive) is Some,
        ({
            let op = access_op(load, p.primitive)->Some_0;
            let args = access_args(load, p, ptr);
            &&& args.len() == op.spec_params().len()
            &&& forall|i: int|
                0 <= i < args.len() ==> (#[trigger] args[i]).parameter() == op.spec_params()[i]
        }),
{
}

/// Loading a value and storing it touch the same registers and the same places.
pub proof fn loads_mirror_stores(p: Piece, ptr: MCReg)
    requires
        accessible(p),
    ensures
        access_args(true, p, ptr).len() == access_args(false, p, ptr).len(),
        access_args(true, p, ptr).last() == access_args(false, p, ptr).last(),
        forall|i: int|
            0 <= i < access_args(true, p, ptr).len() - 1 ==> {
                &&& #[trigger] access_args(true, p, ptr)[i] is MCReg
                &&& access_args(false, p, ptr)[i] == ArgumentView::MCReg(
                    Usage::Use,
                    access_args(true, p, ptr)[i]->MCReg_1,
                )
            },
{
}

} // verus!
