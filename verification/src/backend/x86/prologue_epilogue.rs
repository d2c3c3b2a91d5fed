//! What functions do when they begin and before they return.
use vstd::prelude::*;

use crate::backend::state;
use crate::backend::state::{round_up_u32, BackendState};
use crate::backend::x86::abi::systemv;
use crate::backend::x86::abi::systemv::{add_ri, add_rr, from_phys, SystemV};
use crate::backend::x86::isa::{Reg, RegBits, X86};
use crate::ir::dialect;
use crate::ir::dialect::Dialect;
use crate::ir::edit;
use crate::ir::edit::{apply_all, Plan, PlanView};
use crate::ir::env::Environment;
use crate::ir::finish;
use crate::ir::function::{FunctionIr, FunctionView};
use crate::ir::ids::{ModuleId, Ref, TypeId};
use crate::ir::inst;
use crate::ir::inst::{Argument, ArgumentView, Instruction, Usage};
use crate::ir::layout;
use crate::ir::mc::inst as machine;
use crate::ir::mc::inst::{used_physical_registers, Abi};
use crate::ir::mc::register::Register;
use crate::ir::modify::{Insert, IrModify};
use crate::text::str_eq;

verus! {

#[derive(Clone, Copy, Debug)]
pub struct PrologueEpilogueInsertion {
    pub x86: ModuleId,
    pub abi: SystemV,
}

/// The function writes the register and has to keep it for its caller. The stack and frame
/// pointers are kept by other means.
pub open spec fn is_saved(f: FunctionView, env: &Environment, abi: SystemV, index: u8) -> bool {
    &&& machine::used_before::<Reg>(edit::unchanged(f), env, f.insts.len() as int, index)
    &&& abi.keeps(index)
    &&& index != Reg::rsp.spec_index()
    &&& index != Reg::rbp.spec_index()
}

/// The registers among the first `n` that are saved.
pub open spec fn saved(f: FunctionView, env: &Environment, abi: SystemV, n: int) -> Seq<Reg>
    decreases n,
{
    if n <= 0 {
        Seq::empty()
    } else {
        let before = saved(f, env, abi, n - 1);
        let r = Reg::spec_unique_bits()[n - 1];
        if is_saved(f, env, abi, r.spec_index()) {
            before.push(r)
        } else {
            before
        }
    }
}

/// All registers that are saved.
pub open spec fn all_saved(f: FunctionView, env: &Environment, abi: SystemV) -> Seq<Reg> {
    saved(f, env, abi, 18)
}

/// The size of the stack frame with which the stack stays aligned when the registers are
/// saved behind it.
pub open spec fn aligned_size(stack_size: int, saved_count: int) -> int {
    if stack_size > 0 {
        state::rounded_up(stack_size + 8 * saved_count, 16) - 8 * saved_count
    } else {
        0
    }
}

/// The frame and the saved registers together keep the stack aligned, and the frame has
/// room for what it holds.
pub proof fn frames_are_aligned(stack_size: int, saved_count: int)
    requires
        stack_size > 0,
        saved_count >= 0,
    ensures
        (aligned_size(stack_size, saved_count) + 8 * saved_count) % 16 == 0,
        stack_size <= aligned_size(stack_size, saved_count) < stack_size + 16,
{
    state::rounding_up(stack_size + 8 * saved_count, 16);
}

/// An instruction with one register.
pub open spec fn added_r(plan: PlanView, at: Ref, x86: ModuleId, op: X86, usage: Usage, r: Reg) -> PlanView {
    plan.before(
        at,
        dialect::spec_function(x86, op),
        seq![ArgumentView::MCReg(usage, systemv::phys(r))],
        TypeId::unit(),
    )
}

fn add_r(plan: &mut Plan, at: Ref, x86: ModuleId, op: X86, usage: Usage, r: Reg)
    ensures
        final(plan)@ == added_r(old(plan)@, at, x86, op, usage, r),
{
    let args: Vec<Argument> = vec![Argument::MCReg(usage, from_phys(r))];
    assert(inst::views(args@) =~= seq![ArgumentView::MCReg(usage, systemv::phys(r))]);
    plan.add_before(at, dialect::function(x86, op), args, TypeId::unit());
}

/// The first `n` registers are pushed.
pub open spec fn pushed(plan: PlanView, at: Ref, x86: ModuleId, regs: Seq<Reg>, n: int) -> PlanView
    decreases n,
{
    if n <= 0 {
        plan
    } else {
        added_r(
            pushed(plan, at, x86, regs, n - 1),
            at,
            x86,
            X86::push_r64,
            Usage::Use,
            regs[n - 1],
        )
    }
}

/// The last `n` registers are popped, the last one first.
pub open spec fn popped(plan: PlanView, at: Ref, x86: ModuleId, regs: Seq<Reg>, n: int) -> PlanView
    decreases n,
{
    if n <= 0 {
        plan
    } else {
        added_r(
            popped(plan, at, x86, regs, n - 1),
            at,
            x86,
            X86::pop_r64,
            Usage::Def,
            regs[regs.len() - n],
        )
    }
}

pub open spec fn prologue(plan: PlanView, at: Ref, x86: ModuleId, size: int, regs: Seq<Reg>) -> PlanView {
    let framed = if size > 0 {
        systemv::added_ri(
            systemv::added_rr(
                added_r(plan, at, x86, X86::push_r64, Usage::Use, Reg::rbp),
                at,
                Insert::Before,
                x86,
                X86::mov_rr64,
                Usage::Def,
                systemv::phys(Reg::rbp),
                systemv::phys(Reg::rsp),
            ),
            at,
            Insert::Before,
            x86,
            X86::sub_ri64,
            systemv::phys(Reg::rsp),
            size as u32,
        )
    } else {
        plan
    };
    pushed(framed, at, x86, regs, regs.len() as int)
}

pub open spec fn epilogue(plan: PlanView, at: Ref, x86: ModuleId, size: int, regs: Seq<Reg>) -> PlanView {
    let restored = popped(plan, at, x86, regs, regs.len() as int);
    if size != 0 {
        added_r(
            systemv::added_ri(
                restored,
                at,
                Insert::Before,
                x86,
                X86::add_ri64,
                systemv::phys(Reg::rsp),
                size as u32,
            ),
            at,
            x86,
            X86::pop_r64,
            Usage::Def,
            Reg::rbp,
        )
    } else {
        restored
    }
}

/// The registers are popped in the reverse of the order in which they were pushed.
pub proof fn registers_are_restored_in_reverse(regs: Seq<Reg>, i: int)
    requires
        0 < i <= regs.len(),
    ensures
        regs[regs.len() - i] == regs.reverse()[i - 1],
{
}

pub open spec fn is_return(i: Instruction, x86: ModuleId) -> bool {
    dialect::spec_as_module::<X86>(i, x86) matches Some(op) && (op == X86::ret0 || op == X86::ret64
        || op == X86::ret128)
}

pub open spec fn epilogues(
    plan: PlanView,
    f: FunctionView,
    x86: ModuleId,
    size: int,
    regs: Seq<Reg>,
    n: int,
) -> PlanView
    decreases n,
{
    if n <= 0 {
        plan
    } else {
        let before = epilogues(plan, f, x86, size, regs, n - 1);
        if is_return(f.insts[n - 1], x86) {
            epilogue(before, Ref((n - 1) as u32), x86, size, regs)
        } else {
            before
        }
    }
}

/// All changes to a function.
pub open spec fn frame_changes(
    p: PrologueEpilogueInsertion,
    f: FunctionView,
    env: &Environment,
    stack_size: int,
) -> PlanView {
    let regs = all_saved(f, env, p.abi);
    let size = aligned_size(stack_size, regs.len() as int);
    epilogues(
        prologue(
            PlanView::none(f.insts.len() as u32),
            Ref(f.blocks[0].body_idx),
            p.x86,
            size,
            regs,
        ),
        f,
        p.x86,
        size,
        regs,
        f.insts.len() as int,
    )
}

/// The function can be worked on: its instructions are known, it begins with a block, and
/// it returns from the bodies of blocks.
pub open spec fn can_run(x86: ModuleId, f: FunctionView, env: &Environment) -> bool {
    &&& edit::editable(edit::unchanged(f), env)
    &&& finish::layout_fits(edit::unchanged(f))
    &&& dialect::registered::<X86>(env, x86)
    &&& machine::registers_are_known::<Reg>(edit::unchanged(f), env)
    &&& f.blocks.len() > 0
    &&& edit::placed(f, Ref(f.blocks[0].body_idx))
    &&& forall|i: int|
        0 <= i < f.insts.len() && is_return(#[trigger] f.insts[i], x86) ==> edit::placed(
            f,
            Ref(i as u32),
        )
}

/// All changes add known instructions at known places.
spec fn sound(f: FunctionView, env: &Environment, plan: PlanView) -> bool {
    forall|i: int|
        0 <= i < plan.edits.len() ==> {
            &&& #[trigger] plan.edits[i] is Add
            &&& layout::is_no_argument(plan.edits[i])
            &&& forall|count: nat| edit::well_placed(edit::unchanged(f), env, plan.edits[i], count)
        }
}

proof fn lemma_with(
    f: FunctionView,
    env: &Environment,
    plan: PlanView,
    x86: ModuleId,
    at: Ref,
    op: X86,
    args: Seq<ArgumentView>,
)
    requires
        sound(f, env, plan),
        dialect::registered::<X86>(env, x86),
        edit::placed(f, at),
        args.len() == op.spec_params().len(),
        forall|i: int|
            0 <= i < args.len() ==> (#[trigger] args[i]).parameter() == op.spec_params()[i]
                && args[i].target() is None,
    ensures
        sound(
            f,
            env,
            plan.before(at, dialect::spec_function(x86, op), args, TypeId::unit()),
        ),
{
    let new = plan.before(at, dialect::spec_function(x86, op), args, TypeId::unit());
    assert(op.spec_id() == op.spec_id());
    assert forall|i: int| 0 <= i < new.edits.len() implies {
        &&& #[trigger] new.edits[i] is Add
        &&& layout::is_no_argument(new.edits[i])
        &&& forall|count: nat| edit::well_placed(edit::unchanged(f), env, new.edits[i], count)
    } by {
        if i < plan.edits.len() {
            assert(new.edits[i] == plan.edits[i]);
        }
    }
}

proof fn lemma_r(
    f: FunctionView,
    env: &Environment,
    plan: PlanView,
    x86: ModuleId,
    at: Ref,
    r: Reg,
)
    requires
        sound(f, env, plan),
        dialect::registered::<X86>(env, x86),
        edit::placed(f, at),
    ensures
        sound(f, env, added_r(plan, at, x86, X86::push_r64, Usage::Use, r)),
        sound(f, env, added_r(plan, at, x86, X86::pop_r64, Usage::Def, r)),
{
    lemma_with(
        f,
        env,
        plan,
        x86,
        at,
        X86::push_r64,
        seq![ArgumentView::MCReg(Usage::Use, systemv::phys(r))],
    );
    lemma_with(
        f,
        env,
        plan,
        x86,
        at,
        X86::pop_r64,
        seq![ArgumentView::MCReg(Usage::Def, systemv::phys(r))],
    );
}

proof fn lemma_pushed(
    f: FunctionView,
    env: &Environment,
    plan: PlanView,
    x86: ModuleId,
    at: Ref,
    regs: Seq<Reg>,
    n: int,
)
    requires
        sound(f, env, plan),
        dialect::registered::<X86>(env, x86),
        edit::placed(f, at),
    ensures
        sound(f, env, pushed(plan, at, x86, regs, n)),
        sound(f, env, popped(plan, at, x86, regs, n)),
    decreases n,
{
    if n > 0 {
        lemma_pushed(f, env, plan, x86, at, regs, n - 1);
        lemma_r(f, env, pushed(plan, at, x86, regs, n - 1), x86, at, regs[n - 1]);
        lemma_r(f, env, popped(plan, at, x86, regs, n - 1), x86, at, regs[regs.len() - n]);
    }
}

proof fn lemma_prologue(
    f: FunctionView,
    env: &Environment,
    plan: PlanView,
    x86: ModuleId,
    at: Ref,
    size: int,
    regs: Seq<Reg>,
)
    requires
        sound(f, env, plan),
        dialect::registered::<X86>(env, x86),
        edit::placed(f, at),
    ensures
        sound(f, env, prologue(plan, at, x86, size, regs)),
        sound(f, env, epilogue(plan, at, x86, size, regs)),
{
    let rsp = systemv::phys(Reg::rsp);
    let rbp = systemv::phys(Reg::rbp);
    let n = regs.len() as int;
    lemma_pushed(f, env, plan, x86, at, regs, n);
    if size != 0 {
        let restored = popped(plan, at, x86, regs, n);
        let args = seq![
            ArgumentView::MCReg(Usage::DefUse, rsp),
            ArgumentView::Int32(size as u32),
        ];
        lemma_with(f, env, restored, x86, at, X86::add_ri64, args);
        let raised = systemv::added_ri(
            restored,
            at,
            Insert::Before,
            x86,
            X86::add_ri64,
            rsp,
            size as u32,
        );
        lemma_r(f, env, raised, x86, at, Reg::rbp);
        lemma_r(f, env, plan, x86, at, Reg::rbp);
        let a = added_r(plan, at, x86, X86::push_r64, Usage::Use, Reg::rbp);
        lemma_with(
            f,
            env,
            a,
            x86,
            at,
            X86::mov_rr64,
            seq![ArgumentView::MCReg(Usage::Def, rbp), ArgumentView::MCReg(Usage::Use, rsp)],
        );
        let b = systemv::added_rr(
            a,
            at,
            Insert::Before,
            x86,
            X86::mov_rr64,
            Usage::Def,
            rbp,
            rsp,
        );
        lemma_with(f, env, b, x86, at, X86::sub_ri64, args);
        let c = systemv::added_ri(b, at, Insert::Before, x86, X86::sub_ri64, rsp, size as u32);
        lemma_pushed(f, env, c, x86, at, regs, n);
    }
}

proof fn lemma_epilogues(
    f: FunctionView,
    env: &Environment,
    plan: PlanView,
    x86: ModuleId,
    size: int,
    regs: Seq<Reg>,
    n: int,
)
    requires
        sound(f, env, plan),
        can_run(x86, f, env),
        0 <= n <= f.insts.len(),
    ensures
        sound(f, env, epilogues(plan, f, x86, size, regs, n)),
    decreases n,
{
    if n > 0 {
        lemma_epilogues(f, env, plan, x86, size, regs, n - 1);
        let before = epilogues(plan, f, x86, size, regs, n - 1);
        if is_return(f.insts[n - 1], x86) {
            lemma_prologue(f, env, before, x86, Ref((n - 1) as u32), size, regs);
        }
    }
}

/// The changes can be made.
pub proof fn frame_changes_are_well_placed(
    p: PrologueEpilogueInsertion,
    f: FunctionView,
    env: &Environment,
    stack_size: int,
)
    requires
        can_run(p.x86, f, env),
    ensures
        edit::all_well_placed(
            edit::unchanged(f),
            env,
            frame_changes(p, f, env, stack_size).edits,
        ),
        layout::adds_no_arguments(frame_changes(p, f, env, stack_size).edits),
{
    let regs = all_saved(f, env, p.abi);
    let size = aligned_size(stack_size, regs.len() as int);
    let start = PlanView::none(f.insts.len() as u32);
    let at = Ref(f.blocks[0].body_idx);
    assert(sound(f, env, start));
    lemma_prologue(f, env, start, p.x86, at, size, regs);
    lemma_epilogues(
        f,
        env,
        prologue(start, at, p.x86, size, regs),
        p.x86,
        size,
        regs,
        f.insts.len() as int,
    );
}

proof fn lemma_saved_len(f: FunctionView, env: &Environment, abi: SystemV, n: int)
    requires
        0 <= n,
    ensures
        saved(f, env, abi, n).len() <= n,
    decreases n,
{
    if n > 0 {
        lemma_saved_len(f, env, abi, n - 1);
    }
}

impl PrologueEpilogueInsertion {
    fn saved_regs(&self, ir: &IrModify, env: &Environment) -> (regs: Vec<Reg>)
        requires
            ir@ == edit::unchanged(ir@.ir),
            machine::registers_are_known::<Reg>(ir@, env),
        ensures
            regs@ == all_saved(ir@.ir, env, self.abi),
    {
        let ghost f = ir@.ir;
        let used: RegBits = used_physical_registers::<Reg>(ir, env);
        let kept: RegBits = self.abi.callee_saved();
        let others: RegBits = Reg::rsp.bit().bitor(Reg::rbp.bit()).not();
        let to_save: RegBits = used.bitand(kept).bitand(others);
        proof {
            assert forall|i: u8| i < 32 implies (#[trigger] to_save.has_index(i) <==> is_saved(
                f,
                env,
                self.abi,
                i,
            )) by {
                assert(Reg::spec_has(used, i) <==> machine::used_before::<Reg>(
                    ir@,
                    env,
                    ir@.count() as int,
                    i,
                ));
                assert(SystemV::spec_has(kept, i) <==> self.abi.keeps(i));
            }
        }
        let all: [Reg; 18] = Reg::unique_bits();
        let mut regs: Vec<Reg> = Vec::new();
        let mut i: usize = 0;
        while i < 18
            invariant
                i <= 18,
                all@ == Reg::spec_unique_bits(),
                forall|i: u8|
                    i < 32 ==> (#[trigger] to_save.has_index(i) <==> is_saved(f, env, self.abi, i)),
                regs@ =~= saved(f, env, self.abi, i as int),
            decreases 18 - i,
        {
            let r: Reg = all[i];
            if to_save.get(r) {
                regs.push(r);
            }
            i += 1;
        }
        regs
    }

    fn add_prologue(&self, plan: &mut Plan, at: Ref, size: u32, regs: &Vec<Reg>)
        ensures
            final(plan)@ == prologue(old(plan)@, at, self.x86, size as int, regs@),
    {
        let x86: ModuleId = self.x86;
        if size > 0 {
            add_r(plan, at, x86, X86::push_r64, Usage::Use, Reg::rbp);
            add_rr(
                plan,
                at,
                Insert::Before,
                x86,
                X86::mov_rr64,
                Usage::Def,
                from_phys(Reg::rbp),
                from_phys(Reg::rsp),
            );
            add_ri(plan, at, Insert::Before, x86, X86::sub_ri64, from_phys(Reg::rsp), size);
        }
        let ghost framed = plan@;
        let mut i: usize = 0;
        while i < regs.len()
            invariant
                i <= regs@.len(),
                x86 == self.x86,
                plan@ == pushed(framed, at, x86, regs@, i as int),
            decreases regs.len() - i,
        {
            add_r(plan, at, x86, X86::push_r64, Usage::Use, regs[i]);
            i += 1;
        }
    }

    fn add_epilogue(&self, plan: &mut Plan, at: Ref, size: u32, regs: &Vec<Reg>)
        ensures
            final(plan)@ == epilogue(old(plan)@, at, self.x86, size as int, regs@),
    {
        let ghost start = plan@;
        let x86: ModuleId = self.x86;
        let mut i: usize = 0;
        while i < regs.len()
            invariant
                i <= regs@.len(),
                x86 == self.x86,
                plan@ == popped(start, at, x86, regs@, i as int),
            decreases regs.len() - i,
        {
            let at_end: usize = regs.len() - 1 - i;
            add_r(plan, at, x86, X86::pop_r64, Usage::Def, regs[at_end]);
            i += 1;
        }
        if size != 0 {
            add_ri(plan, at, Insert::Before, x86, X86::add_ri64, from_phys(Reg::rsp), size);
            add_r(plan, at, x86, X86::pop_r64, Usage::Def, Reg::rbp);
        }
    }

    /// Inserts what a function does when it begins and before it returns. A function with
    /// the name `_start` has neither.
    pub fn run(&self, env: &Environment, ir: FunctionIr, name: &str, state: &mut BackendState) -> (r:
        FunctionIr)
        requires
            can_run(self.x86, ir@, env),
            old(state).stack_size <= 0x7fff_ff00,
            edit::within_limits(
                edit::unchanged(ir@),
                frame_changes(*self, ir@, env, old(state).stack_size as int).edits,
            ),
        ensures
            name@ == "_start"@ ==> r == ir && *final(state) == *old(state),
            name@ != "_start"@ ==> r@ == finish::finished(
                edit::all_applied(
                    edit::unchanged(ir@),
                    env,
                    frame_changes(*self, ir@, env, old(state).stack_size as int).edits,
                ),
                env,
                true,
            ),
            name@ != "_start"@ ==> final(state).stack_size == aligned_size(
                old(state).stack_size as int,
                all_saved(ir@, env, self.abi).len() as int,
            ),
            final(state).stack_slots == old(state).stack_slots,
            layout::laid_out(ir@) && r@.insts.len() < u32::MAX ==> layout::is_ready(r@, env),
    {
        // no prologue/epilogue for _start (used on linux only) since it's supposed to be a
        // naked function
        if str_eq(name, "_start") {
            return ir;
        }
        let ghost f = ir@;
        let count: u32 = ir.insts.len() as u32;
        let start: Ref = Ref(ir.blocks[0].body_idx);
        let mut ir = IrModify::new(ir);
        assert(ir@ =~= edit::unchanged(f));
        let regs: Vec<Reg> = self.saved_regs(&ir, env);
        proof {
            lemma_saved_len(f, env, self.abi, 18);
            state::rounding_up(state.stack_size + 8 * regs@.len(), 16);
        }
        let callee_saved_size: u32 = regs.len() as u32 * 8;
        if state.stack_size > 0 {
            let final_stack_size: u32 = round_up_u32(state.stack_size + callee_saved_size, 16);
            state.stack_size = final_stack_size - callee_saved_size;
        }
        let size: u32 = state.stack_size;
        let mut plan: Plan = Plan::new(count);
        self.add_prologue(&mut plan, start, size, &regs);
        let ghost begun = plan@;
        let mut i: u32 = 0;
        while i < count
            invariant
                i <= count,
                ir@ == edit::unchanged(f),
                count == f.insts.len(),
                plan@ == epilogues(begun, f, self.x86, size as int, regs@, i as int),
            decreases count - i,
        {
            let r: Ref = Ref(i);
            if let Some(op) = dialect::as_module::<X86>(ir.get_inst(r), self.x86) {
                if op.is_ret() {
                    // insert epilogue before return
                    self.add_epilogue(&mut plan, r, size, &regs);
                }
            }
            i += 1;
        }
        proof {
            frame_changes_are_well_placed(*self, f, env, old(state).stack_size as int);
            assert(plan@ == frame_changes(*self, f, env, old(state).stack_size as int));
            edit::well_placed_changes_apply(ir@, env, plan@.edits);
            let done = finish::finished(
                edit::all_applied(ir@, env, plan@.edits),
                env,
                true,
            );
            if layout::laid_out(f) && done.insts.len() < u32::MAX {
                layout::changed_functions_can_be_changed_again(f, env, plan@.edits, true);
            }
        }
        apply_all(&mut ir, env, &plan.edits);
        ir.finish_and_compress(env)
    }
}

} // verus!
