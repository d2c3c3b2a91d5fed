//! Laying out the stack frame of a function.
use vstd::prelude::*;

use crate::backend::arm::abi;
use crate::backend::arm::abi::{from_phys, CALL_STACK_ALIGN};
use crate::backend::arm::isa::{Arm, Reg};
use crate::backend::state;
use crate::backend::state::round_up_u64;
use crate::ir::dialect;
use crate::ir::dialect::Dialect;
use crate::ir::edit;
use crate::ir::edit::{apply_all, Plan, PlanView};
use crate::ir::env::Environment;
use crate::ir::finish;
use crate::ir::finish::set_slot;
use crate::ir::function::{FunctionIr, FunctionView};
use crate::ir::ids::{ModuleId, Ref, TypeId};
use crate::ir::inst;
use crate::ir::inst::{
    all_params, is_stored_inline, read_slot, Argument, ArgumentView, Imm, Instruction, MCReg,
    Parameter, Usage,
};
use crate::ir::layout;
use crate::ir::modify::{Insert, IrModify};
use crate::ir::types::Layout;

verus! {

#[derive(Clone, Copy, Debug)]
pub struct StackFrameHandling {
    pub arm: ModuleId,
}

/// The size of the frame of the first `n` places.
pub open spec fn frame_size(slots: Seq<Layout>, n: int) -> int
    decreases n,
{
    if n <= 0 {
        0
    } else {
        slot_offset(slots, n - 1) + slots[n - 1].size
    }
}

/// Where a place stands in the frame.
pub open spec fn slot_offset(slots: Seq<Layout>, i: int) -> int
    decreases i + 1,
{
    if i < 0 {
        0
    } else {
        state::rounded_up(
            if i == 0 {
                0
            } else {
                slot_offset(slots, i - 1) + slots[i - 1].size
            },
            slots[i].size as int,
        )
    }
}

/// No place is empty.
pub open spec fn slots_fit(slots: Seq<Layout>) -> bool {
    forall|i: int| 0 <= i < slots.len() ==> 0 < (#[trigger] slots[i]).size
}

/// Places do not overlap, lie within the frame and stand at multiples of their size.
pub proof fn places_are_apart(slots: Seq<Layout>, i: int, j: int)
    requires
        slots_fit(slots),
        0 <= i <= j < slots.len(),
    ensures
        slot_offset(slots, j) >= 0,
        slot_offset(slots, j) % (slots[j].size as int) == 0,
        i < j ==> slot_offset(slots, i) + slots[i].size <= slot_offset(slots, j),
        slot_offset(slots, j) + slots[j].size <= frame_size(slots, slots.len() as int),
    decreases slots.len() - j, j - i,
{
    lemma_offsets(slots, j);
    if i + 1 < j {
        lemma_later(slots, i, j);
    } else if i + 1 == j {
        lemma_offsets(slots, i);
        state::rounding_up(slot_offset(slots, i) + slots[i].size, slots[j].size as int);
    }
    if j + 1 < slots.len() {
        lemma_later(slots, j, slots.len() - 1);
    }
}

proof fn lemma_offsets(slots: Seq<Layout>, j: int)
    requires
        slots_fit(slots),
        0 <= j < slots.len(),
    ensures
        slot_offset(slots, j) >= 0,
        slot_offset(slots, j) % (slots[j].size as int) == 0,
        slot_offset(slots, j) >= frame_size(slots, j) >= 0,
    decreases j,
{
    assert(0 < slots[j].size);
    if j > 0 {
        lemma_offsets(slots, j - 1);
    }
    state::rounding_up(frame_size(slots, j), slots[j].size as int);
}

proof fn lemma_later(slots: Seq<Layout>, i: int, j: int)
    requires
        slots_fit(slots),
        0 <= i < j < slots.len(),
    ensures
        slot_offset(slots, i) + slots[i].size <= slot_offset(slots, j),
    decreases j - i,
{
    lemma_offsets(slots, j);
    if i + 1 < j {
        lemma_later(slots, i, j - 1);
    }
}

fn stack_offsets(slots: &Vec<Layout>) -> (r: (Vec<u64>, u64))
    requires
        slots_fit(slots@),
        frame_size(slots@, slots@.len() as int) <= u64::MAX,
    ensures
        r.0@.len() == slots@.len(),
        forall|i: int| 0 <= i < slots@.len() ==> #[trigger] r.0@[i] == slot_offset(slots@, i),
        r.1 == frame_size(slots@, slots@.len() as int),
{
    let mut offsets: Vec<u64> = Vec::new();
    let mut stack_size: u64 = 0;
    let mut i: usize = 0;
    while i < slots.len()
        invariant
            i <= slots@.len(),
            slots_fit(slots@),
            frame_size(slots@, slots@.len() as int) <= u64::MAX,
            stack_size == frame_size(slots@, i as int),
            offsets@.len() == i,
            forall|k: int| 0 <= k < i ==> #[trigger] offsets@[k] == slot_offset(slots@, k),
        decreases slots.len() - i,
    {
        proof {
            assert(0 < slots@[i as int].size);
            lemma_offsets(slots@, i as int);
            places_are_apart(slots@, i as int, i as int);
        }
        let size: u64 = slots[i].size;
        let start: u64 = round_up_u64(stack_size, size);
        offsets.push(start);
        stack_size = start + size;
        i += 1;
    }
    (offsets, stack_size)
}

/// The operand of kind `p` at position `k` names a place in the frame.
pub open spec fn names_slot(
    p: Parameter,
    k: int,
    inline: bool,
    args: [u32; 2],
    extra: Seq<u32>,
) -> bool {
    p is MCRegOffset && MCReg(inst::slot(inline, args, extra, k)).spec_is_slot()
}

/// The place that the operand at position `k` names.
pub open spec fn named_slot(k: int, inline: bool, args: [u32; 2], extra: Seq<u32>) -> int {
    inst::slot(inline, args, extra, k) - 0x4000_0000
}

/// The distance from the stack pointer that the operand at position `k` means.
pub open spec fn new_offset(
    k: int,
    inline: bool,
    args: [u32; 2],
    extra: Seq<u32>,
    offsets: Seq<u64>,
) -> int {
    inst::slot(inline, args, extra, k + 1) + offsets[named_slot(k, inline, args, extra)]
}

/// The stored operands of the kinds `full` from position `k` on, with distances from
/// the stack pointer in place of places in the frame.
pub open spec fn resolved_from(
    full: Seq<Parameter>,
    k: int,
    inline: bool,
    args: [u32; 2],
    extra: Seq<u32>,
    offsets: Seq<u64>,
) -> ([u32; 2], Seq<u32>)
    decreases full.len(),
{
    if full.len() == 0 {
        (args, extra)
    } else {
        let (args2, extra2) = if names_slot(full[0], k, inline, args, extra) {
            let offset = new_offset(k, inline, args, extra, offsets);
            let (args1, extra1) = finish::with_slot(inline, args, extra, k, abi::phys(Reg::sp).0);
            finish::with_slot(inline, args1, extra1, k + 1, offset as u32)
        } else {
            (args, extra)
        };
        resolved_from(
            full.skip(1),
            k + full[0].spec_slot_count(),
            inline,
            args2,
            extra2,
            offsets,
        )
    }
}

/// The distances can be written in the instruction.
pub open spec fn can_resolve_from(
    full: Seq<Parameter>,
    k: int,
    inline: bool,
    args: [u32; 2],
    extra: Seq<u32>,
    offsets: Seq<u64>,
) -> bool
    decreases full.len(),
{
    full.len() > 0 ==> {
        let offset = new_offset(k, inline, args, extra, offsets);
        let (args2, extra2) = if names_slot(full[0], k, inline, args, extra) {
            let (args1, extra1) = finish::with_slot(inline, args, extra, k, abi::phys(Reg::sp).0);
            finish::with_slot(inline, args1, extra1, k + 1, offset as u32)
        } else {
            (args, extra)
        };
        &&& names_slot(full[0], k, inline, args, extra) ==> {
            &&& named_slot(k, inline, args, extra) < offsets.len()
            &&& offset <= u32::MAX
            &&& full[0]->MCRegOffset_1.spec_fits(offset as u32)
        }
        &&& can_resolve_from(
            full.skip(1),
            k + full[0].spec_slot_count(),
            inline,
            args2,
            extra2,
            offsets,
        )
    }
}

pub open spec fn resolved_inst(
    env: &Environment,
    i: Instruction,
    extra: Seq<u32>,
    offsets: Seq<u64>,
) -> (Instruction, Seq<u32>) {
    let (args, extra1) = resolved_from(
        finish::known_params(env, i),
        0,
        finish::known_inline(env, i),
        i.args,
        extra,
        offsets,
    );
    (Instruction { args, ..i }, extra1)
}

pub open spec fn can_resolve(
    env: &Environment,
    i: Instruction,
    extra: Seq<u32>,
    offsets: Seq<u64>,
) -> bool {
    can_resolve_from(
        finish::known_params(env, i),
        0,
        finish::known_inline(env, i),
        i.args,
        extra,
        offsets,
    )
}

fn resolve_inst(env: &Environment, i: Instruction, extra: &mut Vec<u32>, offsets: &Vec<u64>) -> (r:
    Instruction)
    requires
        env.has(i.function),
        env.def(i.function).params@.len() <= u32::MAX,
        can_resolve(env, i, old(extra)@, offsets@),
    ensures
        (r, final(extra)@) == resolved_inst(env, i, old(extra)@, offsets@),
{
    let def = env.get(i.function);
    let full: Vec<Parameter> = all_params(&def.params, def.varargs, i.args);
    let inline: bool = is_stored_inline(&def.params, def.varargs);
    let ghost extra0 = extra@;
    let mut args: [u32; 2] = i.args;
    let mut k: u64 = 0;
    let mut n: usize = 0;
    assert(full@.skip(0) =~= full@);
    while n < full.len()
        invariant
            n <= full@.len(),
            full@.len() <= 0x1_ffff_ffff,
            k <= 2 * n,
            can_resolve_from(full@.skip(n as int), k as int, inline, args, extra@, offsets@),
            resolved_from(full@, 0, inline, i.args, extra0, offsets@) == resolved_from(
                full@.skip(n as int),
                k as int,
                inline,
                args,
                extra@,
                offsets@,
            ),
        decreases full.len() - n,
    {
        assert(full@.skip(n as int).skip(1) =~= full@.skip(n + 1));
        assert(full@.skip(n as int)[0] == full@[n as int]);
        if let Parameter::MCRegOffset(_, imm) = full[n] {
            let reg: MCReg = MCReg(read_slot(inline, args, extra, k));
            if let Some(slot) = reg.stack_slot() {
                let offset: u32 = read_slot(inline, args, extra, k + 1);
                let new: u32 = (offset as u64 + offsets[slot.0 as usize]) as u32;
                args = set_slot(inline, args, extra, k, from_phys(Reg::sp).0);
                args = set_slot(inline, args, extra, k + 1, new);
            }
        }
        k += full[n].slot_count() as u64;
        n += 1;
    }
    assert(full@.skip(n as int).len() == 0);
    Instruction { function: i.function, args, ty: i.ty }
}

/// The first `n` instructions with distances in place of places in the frame.
pub open spec fn resolved(f: FunctionView, env: &Environment, offsets: Seq<u64>, n: int) -> FunctionView
    decreases n,
{
    if n <= 0 {
        f
    } else {
        let before = resolved(f, env, offsets, n - 1);
        let (i, extra) = resolved_inst(env, before.insts[n - 1], before.extra, offsets);
        FunctionView { insts: before.insts.update(n - 1, i), extra, ..before }
    }
}

pub open spec fn all_resolve(f: FunctionView, env: &Environment, offsets: Seq<u64>) -> bool {
    forall|n: int|
        0 <= n < f.insts.len() ==> can_resolve(
            env,
            (#[trigger] resolved(f, env, offsets, n)).insts[n],
            resolved(f, env, offsets, n).extra,
            offsets,
        )
}

proof fn lemma_with_slot_len(inline: bool, args: [u32; 2], extra: Seq<u32>, k: int, v: u32)
    ensures
        finish::with_slot(inline, args, extra, k, v).1.len() == extra.len(),
{
}

proof fn lemma_resolved_len(
    full: Seq<Parameter>,
    k: int,
    inline: bool,
    args: [u32; 2],
    extra: Seq<u32>,
    offsets: Seq<u64>,
)
    ensures
        resolved_from(full, k, inline, args, extra, offsets).1.len() == extra.len(),
    decreases full.len(),
{
    if full.len() > 0 {
        let (args2, extra2) = if names_slot(full[0], k, inline, args, extra) {
            let offset = new_offset(k, inline, args, extra, offsets);
            let (args1, extra1) = finish::with_slot(inline, args, extra, k, abi::phys(Reg::sp).0);
            lemma_with_slot_len(inline, args, extra, k, abi::phys(Reg::sp).0);
            lemma_with_slot_len(inline, args1, extra1, k + 1, offset as u32);
            finish::with_slot(inline, args1, extra1, k + 1, offset as u32)
        } else {
            (args, extra)
        };
        lemma_resolved_len(
            full.skip(1),
            k + full[0].spec_slot_count(),
            inline,
            args2,
            extra2,
            offsets,
        );
    }
}

/// Resolving places leaves everything but operands as it is.
pub proof fn resolving_changes_only_operands(
    f: FunctionView,
    env: &Environment,
    offsets: Seq<u64>,
    n: int,
)
    requires
        0 <= n <= f.insts.len(),
    ensures
        ({
            let r = resolved(f, env, offsets, n);
            &&& r.insts.len() == f.insts.len()
            &&& r.blocks == f.blocks
            &&& r.reg_classes == f.reg_classes
            &&& r.extra.len() == f.extra.len()
            &&& forall|i: int|
                0 <= i < f.insts.len() ==> (#[trigger] r.insts[i]).function == f.insts[i].function
                    && r.insts[i].ty == f.insts[i].ty
            &&& forall|i: int| n <= i < f.insts.len() ==> #[trigger] r.insts[i] == f.insts[i]
        }),
    decreases n,
{
    if n > 0 {
        resolving_changes_only_operands(f, env, offsets, n - 1);
        let before = resolved(f, env, offsets, n - 1);
        let i = before.insts[n - 1];
        lemma_resolved_len(
            finish::known_params(env, i),
            0,
            finish::known_inline(env, i),
            i.args,
            before.extra,
            offsets,
        );
    }
}

/// One of the first `n` instructions is a call.
pub open spec fn has_call(f: FunctionView, arm: ModuleId, n: int) -> bool {
    exists|i: int| 0 <= i < n && calls(#[trigger] f.insts[i], arm)
}

pub open spec fn calls(i: Instruction, arm: ModuleId) -> bool {
    dialect::spec_as_module::<Arm>(i, arm) matches Some(op) && op.is_call()
}

pub open spec fn is_return(i: Instruction, arm: ModuleId) -> bool {
    dialect::spec_as_module::<Arm>(i, arm) matches Some(op) && op.is_ret()
}

/// By how much the stack pointer is lowered: the frame, and the frame pointer and the
/// return address unless no other function is called.
pub open spec fn sp_decrement(slots: Seq<Layout>, leaf: bool) -> int {
    state::rounded_up(frame_size(slots, slots.len() as int), CALL_STACK_ALIGN as int) + if leaf {
        0int
    } else {
        16
    }
}

pub open spec fn add_sub_args(d: Reg, n: Reg, imm: int) -> Seq<ArgumentView> {
    seq![
        ArgumentView::MCReg(Usage::Def, abi::phys(d)),
        ArgumentView::MCReg(Usage::Use, abi::phys(n)),
        ArgumentView::Int32(imm as u32),
    ]
}

pub open spec fn pair_args(usage: Usage, offset: int) -> Seq<ArgumentView> {
    seq![
        ArgumentView::MCReg(usage, abi::phys(Reg::x29)),
        ArgumentView::MCReg(usage, abi::phys(Reg::x30)),
        ArgumentView::MCRegOffset(Usage::Use, Imm::Signed7(8), abi::phys(Reg::sp), offset as u32),
    ]
}

pub open spec fn inserted(plan: PlanView, arm: ModuleId, at: Ref, op: Arm, args: Seq<ArgumentView>) -> PlanView {
    plan.before(at, dialect::spec_function(arm, op), args, TypeId::unit())
}

/// The frame is made.
pub open spec fn prologue(plan: PlanView, arm: ModuleId, at: Ref, decrement: int, leaf: bool) -> PlanView {
    if decrement == 0 {
        plan
    } else {
        let lowered = inserted(
            plan,
            arm,
            at,
            Arm::sub_i64,
            add_sub_args(Reg::sp, Reg::sp, decrement),
        );
        if leaf {
            lowered
        } else {
            inserted(
                inserted(lowered, arm, at, Arm::stp64, pair_args(Usage::Use, decrement - 16)),
                arm,
                at,
                Arm::add_i64,
                add_sub_args(Reg::x29, Reg::sp, decrement - 16),
            )
        }
    }
}

/// The frame is given up before the function returns.
pub open spec fn epilogue(plan: PlanView, arm: ModuleId, at: Ref, decrement: int, leaf: bool) -> PlanView {
    if decrement == 0 {
        plan
    } else {
        let restored = if leaf {
            plan
        } else {
            inserted(plan, arm, at, Arm::ldp64, pair_args(Usage::Def, decrement - 16))
        };
        inserted(restored, arm, at, Arm::add_i64, add_sub_args(Reg::sp, Reg::sp, decrement))
    }
}

/// The frame is given up before each of the first `n` instructions that returns.
pub open spec fn epilogues(
    plan: PlanView,
    f: FunctionView,
    arm: ModuleId,
    decrement: int,
    leaf: bool,
    n: int,
) -> PlanView
    decreases n,
{
    if n <= 0 {
        plan
    } else {
        let before = epilogues(plan, f, arm, decrement, leaf, n - 1);
        if is_return(f.insts[n - 1], arm) {
            epilogue(before, arm, Ref((n - 1) as u32), decrement, leaf)
        } else {
            before
        }
    }
}

/// All changes that set up the frame of a function.
pub open spec fn frame_changes(arm: ModuleId, f: FunctionView, slots: Seq<Layout>) -> PlanView {
    let leaf = !has_call(f, arm, f.insts.len() as int);
    let decrement = sp_decrement(slots, leaf);
    epilogues(
        prologue(
            PlanView::none(f.insts.len() as u32),
            arm,
            Ref(f.blocks[0].body_idx),
            decrement,
            leaf,
        ),
        f,
        arm,
        decrement,
        leaf,
        f.insts.len() as int,
    )
}

fn args_add_sub(d: Reg, n: Reg, imm: u32) -> (args: Vec<Argument>)
    ensures
        inst::views(args@) == add_sub_args(d, n, imm as int),
{
    let args: Vec<Argument> = vec![
        Argument::MCReg(Usage::Def, from_phys(d)),
        Argument::MCReg(Usage::Use, from_phys(n)),
        Argument::Int32(imm),
    ];
    assert(inst::views(args@) =~= add_sub_args(d, n, imm as int));
    args
}

fn args_pair(usage: Usage, offset: u32) -> (args: Vec<Argument>)
    ensures
        inst::views(args@) == pair_args(usage, offset as int),
{
    let args: Vec<Argument> = vec![
        Argument::MCReg(usage, from_phys(Reg::x29)),
        Argument::MCReg(usage, from_phys(Reg::x30)),
        Argument::MCRegOffset(Usage::Use, Imm::Signed7(8), from_phys(Reg::sp), offset),
    ];
    assert(inst::views(args@) =~= pair_args(usage, offset as int));
    args
}

fn insert(plan: &mut Plan, arm: ModuleId, at: Ref, op: Arm, args: Vec<Argument>)
    ensures
        final(plan)@ == inserted(old(plan)@, arm, at, op, inst::views(args@)),
{
    plan.add_before(at, dialect::function(arm, op), args, TypeId::unit());
}

fn add_prologue(plan: &mut Plan, arm: ModuleId, at: Ref, decrement: u32, leaf: bool)
    requires
        !leaf ==> decrement >= 16,
    ensures
        final(plan)@ == prologue(old(plan)@, arm, at, decrement as int, leaf),
{
    if decrement != 0 {
        insert(plan, arm, at, Arm::sub_i64, args_add_sub(Reg::sp, Reg::sp, decrement));
        if !leaf {
            insert(plan, arm, at, Arm::stp64, args_pair(Usage::Use, decrement - 16));
            insert(
                plan,
                arm,
                at,
                Arm::add_i64,
                args_add_sub(Reg::x29, Reg::sp, decrement - 16),
            );
        }
    }
}

fn add_epilogue(plan: &mut Plan, arm: ModuleId, at: Ref, decrement: u32, leaf: bool)
    requires
        !leaf ==> decrement >= 16,
    ensures
        final(plan)@ == epilogue(old(plan)@, arm, at, decrement as int, leaf),
{
    if decrement != 0 {
        if !leaf {
            insert(plan, arm, at, Arm::ldp64, args_pair(Usage::Def, decrement - 16));
        }
        insert(plan, arm, at, Arm::add_i64, args_add_sub(Reg::sp, Reg::sp, decrement));
    }
}

/// The function can be worked on: its instructions are known, it begins with a block, and
/// it returns from the bodies of blocks.
pub open spec fn can_run(arm: ModuleId, f: FunctionView, env: &Environment) -> bool {
    &&& edit::editable(edit::unchanged(f), env)
    &&& finish::layout_fits(edit::unchanged(f))
    &&& dialect::registered::<Arm>(env, arm)
    &&& f.blocks.len() > 0
    &&& edit::placed(f, Ref(f.blocks[0].body_idx))
    &&& forall|i: int|
        0 <= i < f.insts.len() && is_return(#[trigger] f.insts[i], arm) ==> edit::placed(
            f,
            Ref(i as u32),
        )
}

/// All changes add known instructions at known places.
spec fn sound(f: FunctionView, env: &Environment, plan: PlanView) -> bool {
    forall|i: int|
        0 <= i < plan.edits.len() ==> {
            &&& #[trigger] plan.edits[i] is Add
            &&& layout::is_no_argument(plan.edits[i])
            &&& forall|count: nat| edit::well_placed(edit::unchanged(f), env, plan.edits[i], count)
        }
}

proof fn lemma_inserted(
    f: FunctionView,
    env: &Environment,
    plan: PlanView,
    arm: ModuleId,
    at: Ref,
    op: Arm,
    args: Seq<ArgumentView>,
)
    requires
        sound(f, env, plan),
        dialect::registered::<Arm>(env, arm),
        edit::placed(f, at),
        args.len() == op.spec_params().len(),
        forall|i: int|
            0 <= i < args.len() ==> (#[trigger] args[i]).parameter() == op.spec_params()[i]
                && args[i].target() is None,
    ensures
        sound(f, env, inserted(plan, arm, at, op, args)),
{
    let new = inserted(plan, arm, at, op, args);
    assert(op.spec_id() == op.spec_id());
    assert forall|i: int| 0 <= i < new.edits.len() implies {
        &&& #[trigger] new.edits[i] is Add
        &&& layout::is_no_argument(new.edits[i])
        &&& forall|count: nat| edit::well_placed(edit::unchanged(f), env, new.edits[i], count)
    } by {
        if i < plan.edits.len() {
            assert(new.edits[i] == plan.edits[i]);
        }
    }
}

proof fn lemma_prologue(
    f: FunctionView,
    env: &Environment,
    plan: PlanView,
    arm: ModuleId,
    at: Ref,
    decrement: int,
    leaf: bool,
)
    requires
        sound(f, env, plan),
        dialect::registered::<Arm>(env, arm),
        edit::placed(f, at),
    ensures
        sound(f, env, prologue(plan, arm, at, decrement, leaf)),
        sound(f, env, epilogue(plan, arm, at, decrement, leaf)),
{
    if decrement != 0 {
        let a = add_sub_args(Reg::sp, Reg::sp, decrement);
        lemma_inserted(f, env, plan, arm, at, Arm::sub_i64, a);
        let lowered = inserted(plan, arm, at, Arm::sub_i64, a);
        if leaf {
            lemma_inserted(f, env, plan, arm, at, Arm::add_i64, a);
        } else {
            let p = pair_args(Usage::Use, decrement - 16);
            lemma_inserted(f, env, lowered, arm, at, Arm::stp64, p);
            let stored = inserted(lowered, arm, at, Arm::stp64, p);
            let b = add_sub_args(Reg::x29, Reg::sp, decrement - 16);
            lemma_inserted(f, env, stored, arm, at, Arm::add_i64, b);
            let q = pair_args(Usage::Def, decrement - 16);
            lemma_inserted(f, env, plan, arm, at, Arm::ldp64, q);
            let loaded = inserted(plan, arm, at, Arm::ldp64, q);
            lemma_inserted(f, env, loaded, arm, at, Arm::add_i64, a);
        }
    }
}

proof fn lemma_epilogues(
    f: FunctionView,
    env: &Environment,
    plan: PlanView,
    arm: ModuleId,
    decrement: int,
    leaf: bool,
    n: int,
)
    requires
        sound(f, env, plan),
        can_run(arm, f, env),
        0 <= n <= f.insts.len(),
    ensures
        sound(f, env, epilogues(plan, f, arm, decrement, leaf, n)),
    decreases n,
{
    if n > 0 {
        lemma_epilogues(f, env, plan, arm, decrement, leaf, n - 1);
        let before = epilogues(plan, f, arm, decrement, leaf, n - 1);
        if is_return(f.insts[n - 1], arm) {
            lemma_prologue(f, env, before, arm, Ref((n - 1) as u32), decrement, leaf);
        }
    }
}

/// The changes that set up the frame can be made.
pub proof fn frame_changes_are_well_placed(
    arm: ModuleId,
    f: FunctionView,
    env: &Environment,
    slots: Seq<Layout>,
)
    requires
        can_run(arm, f, env),
    ensures
        edit::all_well_placed(
            edit::unchanged(f),
            env,
            frame_changes(arm, f, slots).edits,
        ),
        layout::adds_no_arguments(frame_changes(arm, f, slots).edits),
{
    let leaf = !has_call(f, arm, f.insts.len() as int);
    let decrement = sp_decrement(slots, leaf);
    let start = PlanView::none(f.insts.len() as u32);
    let at = Ref(f.blocks[0].body_idx);
    assert(sound(f, env, start));
    lemma_prologue(f, env, start, arm, at, decrement, leaf);
    lemma_epilogues(
        f,
        env,
        prologue(start, arm, at, decrement, leaf),
        arm,
        decrement,
        leaf,
        f.insts.len() as int,
    );
}

proof fn lemma_can_run_resolved(
    arm: ModuleId,
    f: FunctionView,
    env: &Environment,
    offsets: Seq<u64>,
)
    requires
        can_run(arm, f, env),
    ensures
        ({
            let r = resolved(f, env, offsets, f.insts.len() as int);
            &&& can_run(arm, r, env)
            &&& has_call(r, arm, r.insts.len() as int) == has_call(f, arm, f.insts.len() as int)
        }),
{
    let n = f.insts.len() as int;
    resolving_changes_only_operands(f, env, offsets, n);
    let r = resolved(f, env, offsets, n);
    let v = edit::unchanged(f);
    let w = edit::unchanged(r);
    assert forall|at: Ref| #[trigger] edit::placed(f, at) implies edit::placed(r, at) by {
        let b = choose|b: int| 0 <= b < v.ir.blocks.len() && #[trigger] v.body_has(b, v.key(at));
        assert(w.body_has(b, w.key(at)));
        let c = choose|c: int|
            0 <= c < v.ir.blocks.len() && #[trigger] v.takes_insertion(c, at, Insert::Before);
        assert(w.takes_insertion(c, at, Insert::Before));
    }
    assert forall|i: int| 0 <= i < r.insts.len() && is_return(#[trigger] r.insts[i], arm) implies edit::placed(
        r,
        Ref(i as u32),
    ) by {
        assert(is_return(f.insts[i], arm));
    }
    if has_call(f, arm, n) {
        let i = choose|i: int| 0 <= i < n && calls(#[trigger] f.insts[i], arm);
        assert(calls(r.insts[i], arm));
    }
    if has_call(r, arm, n) {
        let i = choose|i: int| 0 <= i < n && calls(#[trigger] r.insts[i], arm);
        assert(calls(f.insts[i], arm));
    }
    assert forall|b: int| 0 <= b < w.ir.blocks.len() implies {
        let info = #[trigger] w.ir.blocks[b];
        if finish::is_new_block(w, b) {
            info.body_idx < u32::MAX
        } else {
            info.body_idx + info.len <= w.ir.insts.len()
        }
    } by {
        let info = v.ir.blocks[b];
        assert(finish::is_new_block(w, b) == finish::is_new_block(v, b));
    }
}

/// The offsets of all places.
pub open spec fn offsets_of(slots: Seq<Layout>) -> Seq<u64> {
    Seq::new(slots.len(), |i: int| slot_offset(slots, i) as u64)
}

impl StackFrameHandling {
    /// Lays out the stack frame: operands that name places in it get distances from the
    /// stack pointer, and the frame is made and given up.
    pub fn run(&self, env: &Environment, ir: FunctionIr, slots: &Vec<Layout>) -> (r: FunctionIr)
        requires
            can_run(self.arm, ir@, env),
            slots_fit(slots@),
            all_resolve(ir@, env, offsets_of(slots@)),
            sp_decrement(slots@, !has_call(ir@, self.arm, ir@.insts.len() as int)) < 0x80,
            edit::within_limits(
                edit::unchanged(ir@),
                frame_changes(self.arm, ir@, slots@).edits,
            ),
        ensures
            ({
                let f = resolved(ir@, env, offsets_of(slots@), ir@.insts.len() as int);
                r@ == finish::finished(
                    edit::all_applied(
                        edit::unchanged(f),
                        env,
                        frame_changes(self.arm, f, slots@).edits,
                    ),
                    env,
                    true,
                )
            }),
            layout::laid_out(ir@) && r@.insts.len() < u32::MAX ==> layout::is_ready(r@, env),
    {
        let ghost f0 = ir@;
        let ghost offsets = offsets_of(slots@);
        let ghost len = f0.insts.len() as int;
        let mut ir = ir;
        proof {
            if slots@.len() > 0 {
                places_are_apart(slots@, slots@.len() - 1, slots@.len() - 1);
            }
            state::rounding_up(frame_size(slots@, slots@.len() as int), CALL_STACK_ALIGN as int);
        }
        let (stack_offsets, stack_size) = stack_offsets(slots);
        proof {
            assert forall|i: int| 0 <= i < slots@.len() implies stack_offsets@[i] == offsets[i] by {
                assert(stack_offsets@[i] == slot_offset(slots@, i));
            }
            assert(stack_offsets@ =~= offsets);
        }
        let mut leaf: bool = true;
        let mut i: usize = 0;
        while i < ir.insts.len()
            invariant
                i <= len,
                len == f0.insts.len(),
                ir@.insts.len() == len,
                can_run(self.arm, f0, env),
                all_resolve(f0, env, offsets),
                offsets == stack_offsets@,
                ir@ == resolved(f0, env, offsets, i as int),
                leaf == !has_call(f0, self.arm, i as int),
            decreases len - i,
        {
            proof {
                resolving_changes_only_operands(f0, env, offsets, i as int);
                assert(ir@.insts[i as int] == f0.insts[i as int]);
                assert(env.has(f0.insts[i as int].function));
            }
            let inst: Instruction = ir.insts[i];
            if let Some(op) = dialect::as_module::<Arm>(&inst, self.arm) {
                if op.is_call() {
                    leaf = false;
                    assert(calls(f0.insts[i as int], self.arm));
                }
            }
            proof {
                if has_call(f0, self.arm, i + 1) {
                    let k = choose|k: int| 0 <= k < i + 1 && calls(#[trigger] f0.insts[k], self.arm);
                    if k < i {
                        assert(calls(f0.insts[k], self.arm));
                    }
                }
                if has_call(f0, self.arm, i as int) {
                    let k = choose|k: int| 0 <= k < i && calls(#[trigger] f0.insts[k], self.arm);
                    assert(calls(f0.insts[k], self.arm));
                }
            }
            let ghost before = ir@;
            let new: Instruction = resolve_inst(env, inst, &mut ir.extra, &stack_offsets);
            ir.insts.set(i, new);
            assert(ir@ =~= resolved(f0, env, offsets, i + 1));
            i += 1;
        }
        let ghost f = ir@;
        proof {
            lemma_can_run_resolved(self.arm, f0, env, offsets);
            resolving_changes_only_operands(f0, env, offsets, len);
            frame_changes_are_well_placed(self.arm, f, env, slots@);
            lemma_same_sizes(self.arm, f0, f, slots@);
        }
        let stack_size: u64 = round_up_u64(stack_size, CALL_STACK_ALIGN);
        // space for x29, x30
        let sp_decrement: u32 = stack_size as u32 + if leaf {
            0
        } else {
            16
        };
        let start: Ref = Ref(ir.blocks[0].body_idx);
        let mut plan: Plan = Plan::new(ir.insts.len() as u32);
        add_prologue(&mut plan, self.arm, start, sp_decrement, leaf);
        let ghost begun = plan@;
        let mut i: usize = 0;
        while i < ir.insts.len()
            invariant
                i <= ir@.insts.len(),
                ir@.insts.len() < u32::MAX,
                !leaf ==> sp_decrement >= 16,
                plan@ == epilogues(begun, ir@, self.arm, sp_decrement as int, leaf, i as int),
            decreases ir@.insts.len() - i,
        {
            if let Some(op) = dialect::as_module::<Arm>(&ir.insts[i], self.arm) {
                if op.is_ret() {
                    add_epilogue(&mut plan, self.arm, Ref(i as u32), sp_decrement, leaf);
                }
            }
            i += 1;
        }
        assert(plan@ == frame_changes(self.arm, f, slots@));
        let mut ir = IrModify::new(ir);
        proof {
            assert(ir@ =~= edit::unchanged(f));
            edit::well_placed_changes_apply(ir@, env, plan@.edits);
            let done = finish::finished(
                edit::all_applied(ir@, env, plan@.edits),
                env,
                true,
            );
            if layout::laid_out(f0) && done.insts.len() < u32::MAX {
                lemma_laid_out(f0, f);
                layout::changed_functions_can_be_changed_again(f, env, plan@.edits, true);
            }
        }
        apply_all(&mut ir, env, &plan.edits);
        ir.finish_and_compress(env)
    }
}

/// Functions of the same instructions with other operands are laid out alike.
proof fn lemma_laid_out(f: FunctionView, g: FunctionView)
    requires
        layout::laid_out(f),
        g.blocks == f.blocks,
        g.insts.len() == f.insts.len(),
        forall|i: int|
            0 <= i < f.insts.len() ==> (#[trigger] g.insts[i]).function == f.insts[i].function,
    ensures
        layout::laid_out(g),
{
    assert forall|b: int| 0 <= b < g.blocks.len() implies layout::has_its_place(
        #[trigger] g.blocks[b],
        g.insts,
    ) by {
        assert(layout::has_its_place(f.blocks[b], f.insts));
    }
}

proof fn lemma_same_epilogues(
    plan: PlanView,
    f: FunctionView,
    g: FunctionView,
    arm: ModuleId,
    decrement: int,
    leaf: bool,
    n: int,
)
    requires
        0 <= n <= f.insts.len(),
        g.insts.len() == f.insts.len(),
        forall|i: int|
            0 <= i < f.insts.len() ==> (#[trigger] g.insts[i]).function == f.insts[i].function,
    ensures
        epilogues(plan, f, arm, decrement, leaf, n) == epilogues(plan, g, arm, decrement, leaf, n),
    decreases n,
{
    if n > 0 {
        lemma_same_epilogues(plan, f, g, arm, decrement, leaf, n - 1);
        assert(g.insts[n - 1].function == f.insts[n - 1].function);
    }
}

proof fn lemma_same_sizes(arm: ModuleId, f: FunctionView, g: FunctionView, slots: Seq<Layout>)
    requires
        g.insts.len() == f.insts.len(),
        g.blocks == f.blocks,
        has_call(g, arm, g.insts.len() as int) == has_call(f, arm, f.insts.len() as int),
        forall|i: int|
            0 <= i < f.insts.len() ==> (#[trigger] g.insts[i]).function == f.insts[i].function,
    ensures
        frame_changes(arm, g, slots) == frame_changes(arm, f, slots),
{
    let leaf = !has_call(f, arm, f.insts.len() as int);
    let decrement = sp_decrement(slots, leaf);
    lemma_same_epilogues(
        prologue(
            PlanView::none(f.insts.len() as u32),
            arm,
            Ref(f.blocks[0].body_idx),
            decrement,
            leaf,
        ),
        f,
        g,
        arm,
        decrement,
        leaf,
        f.insts.len() as int,
    );
}

} // verus!
