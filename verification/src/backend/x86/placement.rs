//! Where the changes of the selection are made.
use vstd::prelude::*;

use crate::backend::arguments;
use crate::backend::isel;
use crate::backend::isel::IselView;
use crate::backend::placement as place;
use crate::backend::x86::abi::systemv;
use crate::backend::x86::abi::systemv::SystemV;
use crate::backend::x86::codegen;
use crate::backend::x86::isa::{Reg, X86};
use crate::backend::x86::isel as select;
use crate::backend::x86::isel::InstructionSelector;
use crate::ir::dialect;
use crate::ir::dialect::{Arith, Cf, Dialect, Mc, Mem, Tuple};
use crate::ir::edit;
use crate::ir::edit::{EditView, PlanView};
use crate::ir::ids::{BlockId, FunctionId, ModuleId, Ref, TypeId};
use crate::ir::inst;
use crate::ir::inst::{ArgumentView, MCReg, Parameter, Usage};
use crate::ir::mc::inst as machine;
use crate::ir::mc::inst::{Abi, Context};
use crate::ir::modify::Insert;
use crate::ir::slots::Piece;

verus! {

/// The instructions of the machine and those of all machines are known.
pub open spec fn machine_known(c: Context) -> bool {
    &&& dialect::registered::<X86>(c.env, c.isa)
    &&& dialect::registered::<Mc>(c.env, c.mc)
}

proof fn lemma_put(s: IselView, c: Context, at: Ref, op: X86, args: Seq<ArgumentView>)
    requires
        place::ok(s, c),
        machine_known(c),
        edit::placed(c.ir@, at),
        inst::args_fit(op.spec_params(), None, args),
        inst::targets_exist(args, c.ir@.blocks.len()),
    ensures
        place::ok(s.put(at, select::machine_op(c, op), args), c),
        place::ok(s.replaced(at, select::machine_op(c, op), args), c),
{
    place::lemma_add::<X86>(c, s.plan, at, Insert::Before, c.isa, op, args);
    place::lemma_replace::<X86>(c, s.plan, at, c.isa, op, args);
}

/// Operands of a machine instruction: registers and numbers where it asks for them.
pub open spec fn takes_reg(op: X86, i: int) -> bool {
    0 <= i < op.spec_params().len() && op.spec_params()[i] is MCReg
}

pub open spec fn takes_number(op: X86, i: int) -> bool {
    0 <= i < op.spec_params().len() && op.spec_params()[i] is Int32
}

proof fn lemma_operands(
    op: X86,
    a: MCReg,
    b: MCReg,
    imm: u32,
    g: crate::ir::ids::GlobalId,
    f: FunctionId,
    blocks: nat,
)
    ensures
        op.spec_params().len() == 1 && takes_reg(op, 0) ==> inst::args_fit(
            op.spec_params(),
            None,
            select::one_reg(op, a),
        ) && inst::targets_exist(select::one_reg(op, a), blocks),
        op.spec_params().len() == 2 && takes_reg(op, 0) && takes_reg(op, 1) ==> inst::args_fit(
            op.spec_params(),
            None,
            select::two_regs(op, a, b),
        ) && inst::targets_exist(select::two_regs(op, a, b), blocks),
        op.spec_params().len() == 2 && takes_reg(op, 0) && takes_number(op, 1) ==> inst::args_fit(
            op.spec_params(),
            None,
            select::reg_and_number(op, a, imm),
        ) && inst::targets_exist(select::reg_and_number(op, a, imm), blocks),
        op.spec_params().len() == 3 && takes_reg(op, 0) && takes_reg(op, 1) && takes_number(op, 2)
            ==> inst::args_fit(
            op.spec_params(),
            None,
            select::regs_and_number(op, a, b, imm),
        ) && inst::targets_exist(select::regs_and_number(op, a, b, imm), blocks),
        op.spec_params().len() == 5 && takes_reg(op, 0) && takes_reg(op, 1) && takes_number(op, 2)
            && takes_reg(op, 3) && takes_number(op, 4) ==> inst::args_fit(
            op.spec_params(),
            None,
            select::reg_and_memory(op, a, b, imm),
        ) && inst::targets_exist(select::reg_and_memory(op, a, b, imm), blocks),
        op.spec_params().len() == 5 && takes_reg(op, 0) && takes_number(op, 1) && takes_reg(op, 2)
            && takes_number(op, 3) && takes_reg(op, 4) ==> inst::args_fit(
            op.spec_params(),
            None,
            select::memory_and_reg(op, a, imm, b),
        ) && inst::targets_exist(select::memory_and_reg(op, a, imm, b), blocks),
        inst::args_fit(
            X86::lea_function.spec_params(),
            None,
            select::reg_and_function(X86::lea_function, a, f),
        ) && inst::targets_exist(select::reg_and_function(X86::lea_function, a, f), blocks),
        inst::args_fit(
            X86::lea_global.spec_params(),
            None,
            select::reg_and_global(X86::lea_global, a, g),
        ) && inst::targets_exist(select::reg_and_global(X86::lea_global, a, g), blocks),
        inst::args_fit(X86::call_function.spec_params(), None, select::one_function(f))
            && inst::targets_exist(select::one_function(f), blocks),
{
}

proof fn lemma_copied(s: IselView, c: Context, at: Ref, to: MCReg, from: MCReg)
    requires
        place::ok(s, c),
        machine_known(c),
        edit::placed(c.ir@, at),
    ensures
        place::ok(s.copied(c, at, to, from), c),
{
    place::lemma_read_regs(seq![to, from], c.ir@.blocks.len());
    place::lemma_add::<Mc>(
        c,
        s.plan,
        at,
        Insert::Before,
        c.mc,
        Mc::Copy,
        machine::read_regs(seq![to, from]),
    );
}

#[verifier::rlimit(30)]
proof fn lemma_arith(m: InstructionSelector, s: IselView, c: Context, r: Ref, op: Arith)
    requires
        place::ok(s, c),
        machine_known(c),
        place::bodies_hold(c),
        s.fits(c),
        edit::placed(c.ir@, r),
    ensures
        place::ok(m.arith_selected(s, c, r, op), c),
{
    let args = c.args(r);
    let a = arguments::ref_at(args, 0);
    let b = arguments::ref_at(args, 1);
    let blocks = c.ir@.blocks.len();
    let out = isel::reg(c, r);
    let g = arguments::global_at(args, 0);
    let f = arguments::function_at(args, 0);
    lemma_copied(s, c, r, out, isel::reg(c, a));
    let t = s.copied(c, r, out, isel::reg(c, a));
    if let Some(ops) = select::int_bin_ops(op) {
        let (op_rr, op_ri) = ops.of_size(isel::size_in(c, r));
        match m.constant(c, b) {
            Some(x) => {
                place::lemma_use_removed(t, c, b, c.ir@.insts.len());
                lemma_operands(op_ri, out, out, x as u32, g, f, blocks);
                lemma_put(
                    t.without_use(c, b),
                    c,
                    r,
                    op_ri,
                    select::reg_and_number(op_ri, out, x as u32),
                );
            },
            None => {
                lemma_operands(op_rr, out, isel::reg(c, b), 0, g, f, blocks);
                lemma_put(t, c, r, op_rr, select::two_regs(op_rr, out, isel::reg(c, b)));
            },
        }
    } else if let Some(ops) = select::comparison(op) {
        lemma_compared(s, c, r, a, b);
        let set = ops.of_class(isel::arith_class_in(c, a));
        lemma_operands(set, out, out, 0, g, f, blocks);
        lemma_put(select::compared(s, c, r, a, b), c, r, set, select::one_reg(set, out));
    } else {
        match op {
            Arith::Int => {
                let set = select::number_op(isel::size_in(c, r));
                let x = select::low_bits(arguments::int_at(args, 0), isel::size_in(c, r));
                lemma_operands(set, out, out, x, g, f, blocks);
                lemma_put(s, c, r, set, select::reg_and_number(set, out, x));
            },
            Arith::Neg => {
                let neg = select::negate_op(isel::size_in(c, r));
                lemma_operands(neg, out, out, 0, g, f, blocks);
                lemma_operands(neg, isel::reg(c, a), out, 0, g, f, blocks);
                lemma_put(t, c, r, neg, select::one_reg(neg, out));
                lemma_put(t, c, r, neg, select::one_reg(neg, isel::reg(c, a)));
            },
            Arith::Not => {
                lemma_operands(X86::xor_ri8, out, out, 1, g, f, blocks);
                lemma_put(t, c, r, X86::xor_ri8, select::reg_and_number(X86::xor_ri8, out, 1));
            },
            Arith::Mul => {
                let x = (m.constant(c, b)->Some_0 % 0x1_0000_0000) as u32;
                let mul_op = X86::imul_rri16;
                let list = select::regs_and_number(mul_op, out, isel::reg(c, a), x);
                lemma_operands(mul_op, out, isel::reg(c, a), x, g, f, blocks);
                lemma_put(s, c, r, mul_op, list);
                place::lemma_without(c, s.put(r, select::machine_op(c, mul_op), list).plan, r);
            },
            Arith::CastInt => {
                let cast = select::cast_op(
                    isel::arith_class_in(c, a),
                    isel::size_in(c, a),
                    isel::size_in(c, r),
                );
                lemma_operands(cast, out, isel::reg(c, a), 0, g, f, blocks);
                lemma_put(s, c, r, cast, select::two_regs(cast, out, isel::reg(c, a)));
            },
            _ => {},
        }
    }
}

proof fn lemma_compared(s: IselView, c: Context, at: Ref, a: Ref, b: Ref)
    requires
        place::ok(s, c),
        machine_known(c),
        edit::placed(c.ir@, at),
    ensures
        place::ok(select::compared(s, c, at, a, b), c),
{
    let op = select::compare_op(isel::size_in(c, a));
    let f = arguments::function_at(c.args(at), 0);
    let g = arguments::global_at(c.args(at), 0);
    lemma_operands(op, isel::reg(c, a), isel::reg(c, b), 0, g, f, c.ir@.blocks.len());
    lemma_put(s, c, at, op, select::two_regs(op, isel::reg(c, a), isel::reg(c, b)));
}

proof fn lemma_passing(s: IselView, c: Context, r: Ref, b: BlockId, args: Seq<Ref>, n: int)
    requires
        place::ok(s, c),
        machine_known(c),
        edit::placed(c.ir@, r),
    ensures
        place::ok(isel::passing(s, c, r, b, args, select::machine_op(c, X86::mov_ri8), n).s, c),
    decreases n,
{
    if n > 0 {
        let set = select::machine_op(c, X86::mov_ri8);
        lemma_passing(s, c, r, b, args, n - 1);
        let p = isel::passing(s, c, r, b, args, set, n - 1);
        let to = c.slots@.reg(isel::block_arg(c, b, n - 1), 0);
        let one = seq![ArgumentView::MCReg(Usage::Def, to), ArgumentView::Int32(1)];
        let zero = seq![ArgumentView::MCReg(Usage::Def, to), ArgumentView::Int32(0)];
        lemma_put(p.s, c, r, X86::mov_ri8, one);
        lemma_put(p.s, c, r, X86::mov_ri8, zero);
    }
}

proof fn lemma_passed(s: IselView, c: Context, r: Ref, b: BlockId, args: Seq<Ref>)
    requires
        place::ok(s, c),
        machine_known(c),
        edit::placed(c.ir@, r),
    ensures
        place::ok(codegen::passed(s, c, r, b, args), c),
{
    let set = select::machine_op(c, X86::mov_ri8);
    lemma_passing(s, c, r, b, args, args.len() as int);
    let p = isel::passing(s, c, r, b, args, set, args.len() as int);
    place::lemma_read_regs(p.regs, c.ir@.blocks.len());
    place::lemma_add::<Mc>(
        c,
        p.s.plan,
        r,
        Insert::Before,
        c.mc,
        Mc::AssignBlockArgs,
        machine::read_regs(p.regs),
    );
}

/// The instruction goes to a block.
pub open spec fn is_jump(op: X86) -> bool {
    op.spec_params() == seq![Parameter::BlockId]
}

proof fn lemma_jumped(s: IselView, c: Context, r: Ref, b: BlockId, args: Seq<Ref>)
    requires
        place::ok(s, c),
        machine_known(c),
        edit::placed(c.ir@, r),
        b.0 < c.ir@.blocks.len(),
    ensures
        place::ok(codegen::jumped(s, c, r, b, args), c),
{
    lemma_passed(s, c, r, b, args);
    lemma_put(codegen::passed(s, c, r, b, args), c, r, X86::jmp, select::one_block(b));
}

proof fn lemma_branched(
    s: IselView,
    c: Context,
    block: BlockId,
    r: Ref,
    b1: (BlockId, Seq<Ref>),
    b2: (BlockId, Seq<Ref>),
    jumps: (X86, X86),
)
    requires
        place::ok(s, c),
        machine_known(c),
        edit::placed(c.ir@, r),
        b1.0.0 < c.ir@.blocks.len(),
        b2.0.0 < c.ir@.blocks.len(),
        is_jump(jumps.0),
        is_jump(jumps.1),
    ensures
        place::ok(codegen::branched(s, c, block, r, b1, b2, jumps), c),
{
    lemma_passed(s, c, r, b2.0, b2.1);
    let t = codegen::passed(s, c, r, b2.0, b2.1);
    lemma_put(t, c, r, jumps.1, select::one_block(b2.0));
    lemma_jumped(
        t.put(r, select::machine_op(c, jumps.1), select::one_block(b2.0)),
        c,
        r,
        b1.0,
        b1.1,
    );
    lemma_passed(s, c, r, b1.0, b1.1);
    let u = codegen::passed(s, c, r, b1.0, b1.1);
    lemma_put(u, c, r, jumps.0, select::one_block(b1.0));
    lemma_jumped(
        u.put(r, select::machine_op(c, jumps.0), select::one_block(b1.0)),
        c,
        r,
        b2.0,
        b2.1,
    );
}

proof fn lemma_rr(
    c: Context,
    plan: PlanView,
    at: Ref,
    position: Insert,
    op: X86,
    usage: Usage,
    a: MCReg,
    b: MCReg,
)
    requires
        place::all_placed(c.ir@, c.env, plan),
        machine_known(c),
        edit::placed(c.ir@, at),
        op.spec_params() == seq![Parameter::MCReg(usage), Parameter::MCReg(Usage::Use)],
    ensures
        place::all_placed(
            c.ir@,
            c.env,
            systemv::added_rr(plan, at, position, c.isa, op, usage, a, b),
        ),
{
    let args = seq![ArgumentView::MCReg(usage, a), ArgumentView::MCReg(Usage::Use, b)];
    place::lemma_add::<X86>(c, plan, at, position, c.isa, op, args);
}

proof fn lemma_ri(
    c: Context,
    plan: PlanView,
    at: Ref,
    position: Insert,
    op: X86,
    a: MCReg,
    imm: u32,
)
    requires
        place::all_placed(c.ir@, c.env, plan),
        machine_known(c),
        edit::placed(c.ir@, at),
        op.spec_params() == seq![Parameter::MCReg(Usage::DefUse), Parameter::Int32],
    ensures
        place::all_placed(c.ir@, c.env, systemv::added_ri(plan, at, position, c.isa, op, a, imm)),
{
    let args = seq![ArgumentView::MCReg(Usage::DefUse, a), ArgumentView::Int32(imm)];
    place::lemma_add::<X86>(c, plan, at, position, c.isa, op, args);
}

proof fn lemma_copy(c: Context, plan: PlanView, at: Ref, position: Insert, to: MCReg, from: MCReg)
    requires
        place::all_placed(c.ir@, c.env, plan),
        machine_known(c),
        edit::placed(c.ir@, at),
    ensures
        place::all_placed(c.ir@, c.env, systemv::copied(plan, at, position, c.mc, to, from)),
{
    place::lemma_read_regs(seq![to, from], c.ir@.blocks.len());
    place::lemma_add::<Mc>(c, plan, at, position, c.mc, Mc::Copy, machine::read_regs(seq![to, from]));
}

proof fn lemma_extracted(
    c: Context,
    plan: PlanView,
    at: Ref,
    position: Insert,
    to: MCReg,
    from: Reg,
    byte_offset: int,
)
    requires
        place::all_placed(c.ir@, c.env, plan),
        machine_known(c),
        edit::placed(c.ir@, at),
    ensures
        place::all_placed(
            c.ir@,
            c.env,
            systemv::extracted(plan, c, at, position, to, from, byte_offset),
        ),
{
    let src = systemv::phys(from);
    lemma_copy(c, plan, at, position, to, src);
    lemma_rr(c, plan, at, position, X86::mov_rr64, Usage::Def, to, src);
    let moved = systemv::added_rr(
        plan,
        at,
        position,
        c.isa,
        X86::mov_rr64,
        Usage::Def,
        to,
        src,
    );
    lemma_ri(c, moved, at, position, X86::shr_ri64, to, (byte_offset * 8) as u32);
}

proof fn lemma_all_extracted(
    c: Context,
    plan: PlanView,
    at: Ref,
    position: Insert,
    pieces: Seq<Piece>,
    a: Option<Reg>,
    b: Option<Reg>,
)
    requires
        place::all_placed(c.ir@, c.env, plan),
        machine_known(c),
        edit::placed(c.ir@, at),
    ensures
        place::all_placed(
            c.ir@,
            c.env,
            systemv::all_extracted(plan, c, at, position, pieces, a, b),
        ),
    decreases pieces.len(),
{
    if pieces.len() > 0 {
        lemma_all_extracted(c, plan, at, position, pieces.drop_last(), a, b);
        let before = systemv::all_extracted(plan, c, at, position, pieces.drop_last(), a, b);
        let p = pieces.last();
        match p.second {
            None => {
                lemma_extracted(
                    c,
                    before,
                    at,
                    position,
                    p.first,
                    systemv::half(a, b, p.offset)->Some_0,
                    systemv::within_half(p.offset),
                );
            },
            Some(second) => {
                lemma_extracted(c, before, at, position, p.first, a->Some_0, 0);
                let mid = systemv::extracted(before, c, at, position, p.first, a->Some_0, 0);
                lemma_extracted(c, mid, at, position, second, b->Some_0, 0);
            },
        }
    }
}

proof fn lemma_inserted(
    c: Context,
    plan: PlanView,
    at: Ref,
    to: Reg,
    from: MCReg,
    byte_offset: int,
    first: bool,
)
    requires
        place::all_placed(c.ir@, c.env, plan),
        machine_known(c),
        edit::placed(c.ir@, at),
    ensures
        place::all_placed(
            c.ir@,
            c.env,
            systemv::inserted(plan, c, at, to, from, byte_offset, first),
        ),
{
    let before = Insert::Before;
    let dst = systemv::phys(to);
    let imm = (byte_offset * 8) as u32;
    lemma_rr(c, plan, at, before, X86::mov_rr64, Usage::Def, dst, from);
    let moved = systemv::added_rr(
        plan,
        at,
        before,
        c.isa,
        X86::mov_rr64,
        Usage::Def,
        dst,
        from,
    );
    lemma_ri(c, moved, at, before, X86::shl_ri64, dst, imm);
    lemma_rr(c, plan, at, before, X86::or_rr64, Usage::Use, dst, from);
    let class = EditView::NewReg { class: to.spec_class().spec_code() };
    place::lemma_with(c.ir@, c.env, plan, class);
    let made = plan.with(class);
    let tmp = MCReg(plan.next_reg);
    lemma_copy(c, made, at, before, tmp, from);
    let copied = systemv::copied(made, at, before, c.mc, tmp, from);
    lemma_ri(c, copied, at, before, X86::shl_ri64, tmp, imm);
    let shifted = systemv::added_ri(copied, at, before, c.isa, X86::shl_ri64, tmp, imm);
    lemma_rr(c, shifted, at, before, X86::or_rr64, Usage::Use, dst, tmp);
}

proof fn lemma_all_inserted(
    c: Context,
    plan: PlanView,
    at: Ref,
    pieces: Seq<Piece>,
    a: Option<Reg>,
    b: Option<Reg>,
)
    requires
        place::all_placed(c.ir@, c.env, plan),
        machine_known(c),
        edit::placed(c.ir@, at),
    ensures
        place::all_placed(c.ir@, c.env, systemv::all_inserted(plan, c, at, pieces, a, b).plan),
    decreases pieces.len(),
{
    if pieces.len() > 0 {
        lemma_all_inserted(c, plan, at, pieces.drop_last(), a, b);
        let s = systemv::all_inserted(plan, c, at, pieces.drop_last(), a, b);
        let p = pieces.last();
        match p.second {
            None => {
                let off = systemv::within_half(p.offset);
                lemma_inserted(c, s.plan, at, b->Some_0, p.first, off, s.first_b);
                lemma_inserted(c, s.plan, at, a->Some_0, p.first, off, s.first_a);
            },
            Some(second) => {
                lemma_inserted(c, s.plan, at, a->Some_0, p.first, 0, false);
                let mid = systemv::inserted(s.plan, c, at, a->Some_0, p.first, 0, false);
                lemma_inserted(c, mid, at, b->Some_0, second, 0, s.first_b);
            },
        }
    }
}

proof fn lemma_args_inserted(c: Context, at: Ref, args: Seq<Ref>, plan: PlanView)
    requires
        place::all_placed(c.ir@, c.env, plan),
        machine_known(c),
        edit::placed(c.ir@, at),
    ensures
        place::all_placed(c.ir@, c.env, systemv::args_inserted(c, at, args, plan)),
        place::all_placed(c.ir@, c.env, systemv::params_extracted(c, at, args, plan)),
    decreases args.len(),
{
    if args.len() > 0 {
        lemma_args_inserted(c, at, args.drop_last(), plan);
        let (a, b) = systemv::registers_of_last(c, args);
        let pieces = systemv::pieces_of(c, args.last());
        lemma_all_inserted(
            c,
            systemv::args_inserted(c, at, args.drop_last(), plan),
            at,
            pieces,
            a,
            b,
        );
        lemma_all_extracted(
            c,
            systemv::params_extracted(c, at, args.drop_last(), plan),
            at,
            Insert::Before,
            pieces,
            a,
            b,
        );
    }
}

/// What the convention adds for calls, parameters and results is well placed.
pub proof fn calls_are_well_placed(
    abi: SystemV,
    c: Context,
    at: Ref,
    skip: bool,
    args: Seq<Ref>,
    value: Ref,
    plan: PlanView,
)
    requires
        place::all_placed(c.ir@, c.env, plan),
        machine_known(c),
        edit::placed(c.ir@, at),
    ensures
        place::all_placed(c.ir@, c.env, abi.called(c, at, skip, plan)),
        place::all_placed(c.ir@, c.env, abi.params_taken(c, at, args, plan)),
        place::all_placed(c.ir@, c.env, abi.returned(c, value, at, plan)),
{
    lemma_args_inserted(c, at, args, plan);
    let given = machine::passed(c.args(at), skip);
    lemma_args_inserted(c, at, given, plan);
    let passed = systemv::args_inserted(c, at, given, plan);
    let eax = systemv::phys(Reg::eax);
    lemma_rr(c, passed, at, Insert::Before, X86::xor_rr32, Usage::DefUse, eax, eax);
    let marked = if systemv::is_variadic(c, at) {
        systemv::added_rr(
            passed,
            at,
            Insert::Before,
            c.isa,
            X86::xor_rr32,
            Usage::DefUse,
            eax,
            eax,
        )
    } else {
        passed
    };
    let (a, b) = systemv::registers_for(0, systemv::classes_in(c, at), true);
    lemma_all_extracted(c, marked, at, Insert::After, systemv::pieces_of(c, at), a, b);
    lemma_returned(abi, c, at, value, plan);
}

proof fn lemma_returned(abi: SystemV, c: Context, at: Ref, value: Ref, plan: PlanView)
    requires
        place::all_placed(c.ir@, c.env, plan),
        machine_known(c),
        edit::placed(c.ir@, at),
    ensures
        place::all_placed(c.ir@, c.env, abi.returned(c, value, at, plan)),
{
    let none = Seq::<ArgumentView>::empty();
    place::lemma_replace::<X86>(c, plan, at, c.isa, X86::ret0, none);
    place::lemma_replace::<X86>(c, plan, at, c.isa, X86::ret64, none);
    place::lemma_replace::<X86>(c, plan, at, c.isa, X86::ret128, none);
    let classes = systemv::classes_in(c, value);
    let (a, b) = systemv::registers_for(0, classes, true);
    let op = if classes.1 == systemv::AbiClass::Nothing {
        X86::ret64
    } else {
        X86::ret128
    };
    let replaced = plan.with(
        EditView::Replace {
            at,
            function: dialect::spec_function(c.isa, op),
            args: none,
            ty: TypeId::unit(),
        },
    );
    lemma_all_inserted(c, replaced, at, systemv::pieces_of(c, value), a, b);
}

proof fn lemma_cf(
    m: InstructionSelector,
    s: IselView,
    c: Context,
    block: BlockId,
    r: Ref,
    op: Cf,
)
    requires
        place::ok(s, c),
        machine_known(c),
        place::bodies_hold(c),
        s.fits(c),
        edit::placed(c.ir@, r),
        m.arith != ModuleId::builtins(),
        m.can_select_cf(s, c, block, r, op),
    ensures
        place::ok(m.cf_selected(s, c, block, r, op), c),
{
    let args = c.args(r);
    match op {
        Cf::Goto => {
            let t = arguments::target_at(args, 0);
            lemma_jumped(s, c, r, t.0, t.1);
        },
        Cf::Branch => {
            let cond = arguments::ref_at(args, 0);
            let b1 = arguments::target_at(args, 1);
            let b2 = arguments::target_at(args, 2);
            match m.fused(s, c, cond) {
                Some(jumps) => {
                    place::lemma_use_removed(s, c, cond, c.ir@.insts.len());
                    let t = s.without_use(c, cond);
                    assert(edit::placed(c.ir@, cond));
                    let x = arguments::ref_at(c.args(cond), 0);
                    let y = arguments::ref_at(c.args(cond), 1);
                    lemma_compared(t, c, cond, x, y);
                    lemma_branched(
                        select::compared(t, c, cond, x, y),
                        c,
                        block,
                        r,
                        b1,
                        b2,
                        jumps,
                    );
                },
                None => {
                    let reg = isel::reg(c, cond);
                    let test = X86::test_rr8;
                    let list = select::two_regs(test, reg, reg);
                    lemma_operands(
                        test,
                        reg,
                        reg,
                        0,
                        arguments::global_at(args, 0),
                        arguments::function_at(args, 0),
                        c.ir@.blocks.len(),
                    );
                    lemma_put(s, c, r, test, list);
                    lemma_branched(
                        s.put(r, select::machine_op(c, test), list),
                        c,
                        block,
                        r,
                        b1,
                        b2,
                        (X86::jne, X86::je),
                    );
                },
            }
        },
        Cf::Ret => {
            lemma_returned(m.abi, c, r, arguments::ref_at(args, 0), s.plan);
        },
    }
}

proof fn lemma_accessed(s: IselView, c: Context, r: Ref, ptr: MCReg, pieces: Seq<Piece>, n: int)
    requires
        place::ok(s, c),
        machine_known(c),
        edit::placed(c.ir@, r),
        0 <= n <= pieces.len(),
    ensures
        place::ok(codegen::pieces_loaded(s, c, r, ptr, pieces, n), c),
        place::ok(codegen::pieces_stored(s, c, r, ptr, pieces, n), c),
    decreases n,
{
    if n > 0 {
        lemma_accessed(s, c, r, ptr, pieces, n - 1);
        let p = pieces[n - 1];
        let load = codegen::load_op(p.primitive);
        let store = codegen::store_op(p.primitive);
        let f = arguments::function_at(c.args(r), 0);
        let g = arguments::global_at(c.args(r), 0);
        let offset = p.offset as u32;
        lemma_operands(load, p.first, ptr, offset, g, f, c.ir@.blocks.len());
        lemma_operands(store, ptr, p.first, offset, g, f, c.ir@.blocks.len());
        lemma_put(
            codegen::pieces_loaded(s, c, r, ptr, pieces, n - 1),
            c,
            r,
            load,
            select::reg_and_memory(load, p.first, ptr, offset),
        );
        lemma_put(
            codegen::pieces_stored(s, c, r, ptr, pieces, n - 1),
            c,
            r,
            store,
            select::memory_and_reg(store, ptr, offset, p.first),
        );
    }
}

proof fn lemma_offset(s: IselView, c: Context, r: Ref, ptr: Ref, offset: u64)
    requires
        place::ok(s, c),
        machine_known(c),
        edit::placed(c.ir@, r),
    ensures
        place::ok(codegen::offset_added(s, c, r, ptr, offset), c),
{
    let dst = isel::reg(c, r);
    lemma_copied(s, c, r, dst, isel::reg(c, ptr));
    let t = s.copied(c, r, dst, isel::reg(c, ptr));
    place::lemma_without(c, t.plan, r);
    let f = arguments::function_at(c.args(r), 0);
    let g = arguments::global_at(c.args(r), 0);
    let op = X86::add_ri64;
    lemma_operands(op, dst, dst, offset as u32, g, f, c.ir@.blocks.len());
    lemma_put(t, c, r, op, select::reg_and_number(op, dst, offset as u32));
}

#[verifier::rlimit(30)]
proof fn lemma_mem(m: InstructionSelector, s: IselView, c: Context, r: Ref, op: Mem)
    requires
        place::ok(s, c),
        machine_known(c),
        edit::placed(c.ir@, r),
    ensures
        place::ok(m.mem_selected(s, c, r, op), c),
{
    let args = c.args(r);
    let x = arguments::ref_at(args, 0);
    let blocks = c.ir@.blocks.len();
    let out = isel::reg(c, r);
    let src = isel::reg(c, x);
    let g = arguments::global_at(args, 0);
    let f = arguments::function_at(args, 0);
    match op {
        Mem::Decl => {
            let layout = codegen::layout_in(c, arguments::type_at(args, 0));
            let offset = crate::backend::state::rounded_up(
                s.stack_size + layout.size,
                layout.align as int,
            );
            let base = systemv::phys(Reg::rbp);
            let imm = codegen::minus(offset as u32);
            let lea = X86::lea_rm64;
            lemma_operands(lea, out, base, imm, g, f, blocks);
            lemma_put(s, c, r, lea, select::reg_and_memory(lea, out, base, imm));
        },
        Mem::Load => {
            let pieces = systemv::pieces_of(c, r);
            let n = pieces.len() as int;
            lemma_accessed(s, c, r, src, pieces, n);
            place::lemma_without(c, codegen::pieces_loaded(s, c, r, src, pieces, n).plan, r);
        },
        Mem::Store => {
            let pieces = systemv::pieces_of(c, arguments::ref_at(args, 1));
            let n = pieces.len() as int;
            lemma_accessed(s, c, r, src, pieces, n);
            place::lemma_without(c, codegen::pieces_stored(s, c, r, src, pieces, n).plan, r);
        },
        Mem::MemberPtr => {
            let offset = codegen::member_offset(
                c,
                arguments::type_at(args, 1),
                arguments::int_at(args, 2),
            )->Some_0;
            lemma_offset(s, c, r, x, offset);
        },
        Mem::ArrayIndex => {
            let layout = codegen::layout_in(c, arguments::type_at(args, 1));
            let index = isel::reg(c, arguments::ref_at(args, 2));
            let imm = codegen::stride(layout) as u32;
            let times = X86::imul_rri64;
            let plus = X86::add_rr64;
            let list = select::regs_and_number(times, out, index, imm);
            lemma_operands(times, out, index, imm, g, f, blocks);
            lemma_put(s, c, r, times, list);
            lemma_operands(plus, out, src, 0, g, f, blocks);
            lemma_put(
                s.put(r, select::machine_op(c, times), list),
                c,
                r,
                plus,
                select::two_regs(plus, out, src),
            );
        },
        Mem::Offset => {
            lemma_offset(s, c, r, x, arguments::int_at(args, 1));
        },
        Mem::IntToPtr | Mem::PtrToInt => {
            let list = machine::read_regs(seq![out, src]);
            place::lemma_read_regs(seq![out, src], blocks);
            place::lemma_replace::<Mc>(c, s.plan, r, c.mc, Mc::Copy, list);
            let extend = select::extend_op(isel::arith_class_in(c, x), isel::size_in(c, x));
            let cut = select::truncate_op(isel::size_in(c, r));
            lemma_operands(extend, out, src, 0, g, f, blocks);
            lemma_put(s, c, r, extend, select::two_regs(extend, out, src));
            lemma_operands(cut, out, src, 0, g, f, blocks);
            lemma_put(s, c, r, cut, select::two_regs(cut, out, src));
        },
        Mem::FunctionPtr => {
            let lea = X86::lea_function;
            lemma_operands(lea, out, src, 0, g, f, blocks);
            lemma_put(s, c, r, lea, select::reg_and_function(lea, out, f));
        },
        Mem::Global => {
            let lea = X86::lea_global;
            lemma_operands(lea, out, src, 0, g, f, blocks);
            lemma_put(s, c, r, lea, select::reg_and_global(lea, out, g));
        },
        Mem::CallPtr => {
            calls_are_well_placed(m.abi, c, r, true, Seq::empty(), x, s.plan);
            let call = X86::call_r64;
            lemma_operands(call, src, src, 0, g, f, blocks);
            lemma_put(
                s.planned(m.abi.called(c, r, true, s.plan)),
                c,
                r,
                call,
                select::one_reg(call, src),
            );
        },
    }
}

/// What becomes of an instruction is well placed.
pub proof fn selections_are_well_placed(
    m: InstructionSelector,
    s: IselView,
    c: Context,
    block: BlockId,
    r: Ref,
)
    requires
        place::ok(s, c),
        machine_known(c),
        place::bodies_hold(c),
        s.fits(c),
        edit::placed(c.ir@, r),
        m.arith != ModuleId::builtins(),
        m.can_select(s, c, block, r),
    ensures
        place::ok(m.selected(s, c, block, r), c),
{
    let called = c.ir@.insts[r.0 as int];
    place::lemma_without(c, s.plan, r);
    if called.function != inst::Builtin::Undef.spec_function() {
        if let Some(op) = dialect::spec_as_module::<Arith>(called, m.arith) {
            lemma_arith(m, s, c, r, op);
        } else if let Some(op) = dialect::spec_as_module::<Cf>(called, m.cf) {
            lemma_cf(m, s, c, block, r, op);
        } else if let Some(op) = dialect::spec_as_module::<Mem>(called, m.mem) {
            lemma_mem(m, s, c, r, op);
        } else if dialect::spec_as_module::<Tuple>(called, m.tuple) is None {
            calls_are_well_placed(m.abi, c, r, false, Seq::empty(), r, s.plan);
            let f = called.function;
            let call = X86::call_function;
            let out = isel::reg(c, r);
            let g = arguments::global_at(c.args(r), 0);
            lemma_operands(call, out, out, 0, g, f, c.ir@.blocks.len());
            lemma_put(
                s.planned(m.abi.called(c, r, false, s.plan)),
                c,
                r,
                call,
                select::one_function(f),
            );
        }
    }
}

} // verus!
