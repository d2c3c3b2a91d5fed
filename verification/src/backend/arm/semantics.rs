//! What the selected instructions do, and that it is what was selected for.
use vstd::prelude::*;

use crate::backend::arm::access;
use crate::backend::arm::decode;
use crate::backend::arm::decode::Operation;
use crate::backend::arm::isa::Arm;
use crate::backend::arm::isel as select;
use crate::backend::isel;
use crate::backend::isel::IselView;
use crate::backend::size::Size;
use crate::ir::dialect::Dialect;
use crate::ir::edit::EditView;
use crate::ir::ids::{FunctionId, Ref};
use crate::ir::inst::{ArgumentView, Imm, MCReg};
use crate::ir::mc::inst::Context;
use crate::ir::slots::Piece;

verus! {

/// The value of the lowest bit of a part of sixteen bits.
pub open spec fn part_unit(position: int) -> int {
    if position == 0 {
        1
    } else if position == 1 {
        0x1_0000
    } else if position == 2 {
        0x1_0000_0000
    } else if position == 3 {
        0x1_0000_0000_0000
    } else {
        0x1_0000_0000_0000_0000
    }
}

/// The number with sixteen bits of it changed.
pub open spec fn with_part(v: int, position: int, imm: int) -> int {
    let unit = part_unit(position);
    v - (v / unit % 0x1_0000) * unit + imm * unit
}

/// The number in a register after an instruction, where one was set.
pub open spec fn stepped(
    c: Context,
    r: MCReg,
    v: Option<int>,
    function: FunctionId,
    args: Seq<ArgumentView>,
) -> Option<int> {
    if function.module == c.isa && args.len() == 3 && args[0]->MCReg_1 == r {
        let position = args[1]->Int32_0 as int;
        let imm = args[2]->Int32_0 as int;
        match Arm::spec_of_id(function.function.0) {
            Some(op) => match decode::named(op).0 {
                Operation::SetNumber => Some(imm * part_unit(position)),
                Operation::ChangeNumber => match v {
                    Some(v) => Some(with_part(v, position, imm)),
                    None => None,
                },
                _ => v,
            },
            None => v,
        }
    } else {
        v
    }
}

/// The number in a register after what stands in place of an instruction and behind it.
pub open spec fn run(c: Context, edits: Seq<EditView>, at: Ref, r: MCReg) -> Option<int>
    decreases edits.len(),
{
    if edits.len() == 0 {
        None
    } else {
        let v = run(c, edits.drop_last(), at, r);
        match edits.last() {
            EditView::Add { at: place, function, args, .. } => if place == at {
                stepped(c, r, v, function, args)
            } else {
                v
            },
            EditView::Replace { at: place, function, args, .. } => if place == at {
                stepped(c, r, v, function, args)
            } else {
                v
            },
            _ => v,
        }
    }
}

/// The number in a register after what a selection added.
pub open spec fn number_in(c: Context, s: IselView, t: IselView, at: Ref, r: MCReg) -> Option<int> {
    run(c, t.plan.edits.skip(s.plan.edits.len() as int), at, r)
}

proof fn lemma_step(
    c: Context,
    s: IselView,
    t: IselView,
    at: Ref,
    r: MCReg,
    op: Arm,
    position: u32,
    imm: u32,
)
    requires
        s.plan.edits.len() <= t.plan.edits.len(),
    ensures
        ({
            let function = select::machine_op(c, op);
            let args = select::move_args(r, position, imm);
            let v = number_in(c, s, t, at, r);
            let new = match decode::named(op).0 {
                Operation::SetNumber => Some(imm * part_unit(position as int)),
                Operation::ChangeNumber => match v {
                    Some(v) => Some(with_part(v, position as int, imm as int)),
                    None => None,
                },
                _ => v,
            };
            &&& number_in(c, s, t.replaced(at, function, args), at, r) == new
            &&& number_in(c, s, t.put_after(at, function, args), at, r) == new
        }),
{
    op.ids_are_unique();
    let function = select::machine_op(c, op);
    let args = select::move_args(r, position, imm);
    let n = s.plan.edits.len() as int;
    assert(t.replaced(at, function, args).plan.edits.skip(n).drop_last() =~= t.plan.edits.skip(n));
    assert(t.put_after(at, function, args).plan.edits.skip(n).drop_last() =~= t.plan.edits.skip(n));
}

#[verifier::spinoff_prover]
#[verifier::rlimit(50)]
proof fn lemma_parts(x: u64, n: u32)
    requires
        0 < n <= 4,
    ensures
        ({
            let hw = (n - 1) as u32;
            let low = x as int % part_unit(n - 1);
            let imm = select::part(x, hw) as int;
            &&& x as int % part_unit(n as int) == low + imm * part_unit(n - 1)
            &&& 0 <= imm
            &&& 0 <= low
            &&& with_part(low, n - 1, imm) == low + imm * part_unit(n - 1)
            &&& imm == 0 ==> imm * part_unit(n - 1) == 0
        }),
{
    let unit = part_unit(n - 1);
    let v = x as int;
    let low = v % unit;
    assert(part_unit(n as int) == unit * 0x1_0000);
    assert(select::part(x, (n - 1) as u32) == v / unit % 0x1_0000);
    vstd::arithmetic::div_mod::lemma_mod_breakdown(v, unit, 0x1_0000);
    vstd::arithmetic::div_mod::lemma_mod_bound(v, unit);
    vstd::arithmetic::div_mod::lemma_basic_div(low, unit);
    let imm = v / unit % 0x1_0000;
    assert(unit * imm == imm * unit) by (nonlinear_arith);
}

proof fn lemma_parts_set(s: IselView, c: Context, r: Ref, x: u64, wide: bool, n: u32)
    requires
        n <= 4,
    ensures
        ({
            let p = select::parts_set(s, c, r, x, wide, n);
            let v = number_in(c, s, p.s, r, isel::reg(c, r));
            &&& s.plan.edits.len() <= p.s.plan.edits.len()
            &&& p.first <==> v is None
            &&& p.first ==> x as int % part_unit(n as int) == 0
            &&& v matches Some(v) ==> v == x as int % part_unit(n as int)
        }),
    decreases n,
{
    if n == 0 {
        assert(s.plan.edits.skip(s.plan.edits.len() as int) =~= Seq::empty());
    } else {
        let hw = (n - 1) as u32;
        lemma_parts_set(s, c, r, x, wide, hw);
        lemma_parts(x, n);
        let p = select::parts_set(s, c, r, x, wide, hw);
        let (set, change) = select::move_ops(wide);
        lemma_step(c, s, p.s, r, isel::reg(c, r), set, hw, select::part(x, hw));
        lemma_step(c, s, p.s, r, isel::reg(c, r), change, hw, select::part(x, hw));
    }
}

/// What is selected for a number puts it in the register of the value, part by part. For fewer
/// than 32 bits the low bits are those of the number.
pub proof fn numbers_are_set(s: IselView, c: Context, r: Ref, x: u64)
    requires
        isel::is_number(c, r),
        isel::size_in(c, r) is S32 ==> x <= u32::MAX,
    ensures
        ({
            let v = number_in(c, s, select::number_set(s, c, r, x), r, isel::reg(c, r));
            match isel::size_in(c, r) {
                Size::S8 => v matches Some(v) && v % 0x100 == x as int % 0x100,
                Size::S16 => v matches Some(v) && v % 0x1_0000 == x as int % 0x1_0000,
                _ => v == Some(x as int),
            }
        }),
{
    let reg = isel::reg(c, r);
    let size = isel::size_in(c, r);
    assert(s.plan.edits.skip(s.plan.edits.len() as int) =~= Seq::empty());
    match size {
        Size::S8 | Size::S16 => {
            lemma_step(c, s, s, r, reg, Arm::movz32, 0, select::sign_extended(x, size));
        },
        _ => {
            let wide = size is S64;
            let n: u32 = if wide {
                4
            } else {
                2
            };
            if x == 0 {
                lemma_step(c, s, s, r, reg, select::move_ops(wide).0, 0, 0);
            } else {
                lemma_parts_set(s, c, r, x, wide, n);
                assert(x as int % part_unit(n as int) == x);
            }
        },
    }
}

/// The instruction for a piece of a value moves as many bytes as the piece has: one register for
/// most, and two of eight bytes each for the widest. The distance is written in units of what one
/// register holds. A load sets the registers, and a store only reads them.
pub proof fn accesses_move_the_piece(load: bool, p: Piece, ptr: MCReg)
    requires
        access::accessible(p),
    ensures
        ({
            let op = access::access_op(load, p.primitive)->Some_0;
            let args = access::access_args(load, p, ptr);
            let (operation, size) = decode::named(op);
            let count = if operation is LoadPair || operation is StorePair {
                2int
            } else {
                1
            };
            &&& operation is Load || operation is LoadPair <==> load
            &&& operation is Store || operation is StorePair <==> !load
            &&& size * count == p.primitive.byte_size()
            &&& args.len() == count + 1
            &&& args[0]->MCReg_1 == p.first
            &&& count == 2 ==> Some(args[1]->MCReg_1) == p.second
            &&& args.last() matches ArgumentView::MCRegOffset(_, imm, base, offset) && base == ptr
                && offset == p.offset && p.offset as int % size == 0 && match imm {
                Imm::Unsigned12(unit) => unit == size && p.offset < 4096 * size,
                Imm::Signed7(unit) => unit == size,
                _ => false,
            }
        }),
{
}

} // verus!
