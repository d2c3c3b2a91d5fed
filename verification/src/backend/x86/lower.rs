//! Whole functions as instructions of the machine.
use vstd::prelude::*;

use crate::backend::isel;
use crate::backend::isel::{IselCtx, IselView};
use crate::backend::placement as place;
use crate::backend::selector;
use crate::backend::selector::{select_blocks, Selector};
use crate::backend::state::BackendState;
use crate::backend::x86::isa::X86;
use crate::backend::x86::isel::InstructionSelector;
use crate::backend::x86::placement;
use crate::backend::x86::registers;
use crate::backend::x86::registers::Assigned;
use crate::ir::dialect;
use crate::ir::dialect::Mc;
use crate::ir::edit;
use crate::ir::edit::{apply_all, EditView, Plan, PlanView};
use crate::ir::env::Environment;
use crate::ir::finish;
use crate::ir::finish::compute_postorder;
use crate::ir::function;
use crate::ir::function::{FunctionIr, FunctionView};
use crate::ir::ids::{BlockId, ModuleId, Ref};
use crate::ir::inst::MCReg;
use crate::ir::layout;
use crate::ir::mc::inst::{Abi, Context};
use crate::ir::modify::IrModify;
use crate::ir::slots;
use crate::ir::slots::{Slots, SlotsView};
use crate::ir::types::{Layout, Leaf, TypeView, Types};

verus! {

impl Selector for InstructionSelector {
    open spec fn known(&self, c: Context) -> bool {
        placement::machine_known(c) && self.arith != ModuleId::builtins()
    }

    open spec fn step(&self, s: IselView, c: Context, block: BlockId, r: Ref) -> IselView {
        self.selected(s, c, block, r)
    }

    open spec fn can_step(&self, s: IselView, c: Context, block: BlockId, r: Ref) -> bool {
        self.can_select(s, c, block, r)
    }

    fn select_one(&self, ctx: &mut IselCtx, c: &Context, block: BlockId, r: Ref) {
        self.select(ctx, c, block, r);
    }

    proof fn known_machines_copy(&self, c: Context) {
    }

    proof fn steps_are_well_placed(&self, s: IselView, c: Context, block: BlockId, r: Ref) {
        placement::selections_are_well_placed(*self, s, c, block, r);
    }
}

impl InstructionSelector {
    /// The arguments of the function are taken.
    pub open spec fn entered(
        self,
        c: Context,
        main_module: ModuleId,
        stack_size: u32,
        stack_slots: Seq<Layout>,
        plan: PlanView,
    ) -> IselView {
        selector::begun(
            c,
            main_module,
            stack_size,
            stack_slots,
            self.abi.params_taken(c, Ref(c.ir@.blocks[0].body_idx), selector::params(c.ir@), plan),
        )
    }

    /// All instructions of a function are selected, block by block in postorder.
    pub open spec fn selection(
        self,
        c: Context,
        main_module: ModuleId,
        stack_size: u32,
        stack_slots: Seq<Layout>,
        plan: PlanView,
    ) -> IselView {
        let order = finish::postorder(c.ir@.blocks);
        selector::blocks_selected(
            &self,
            self.entered(c, main_module, stack_size, stack_slots, plan),
            c,
            order,
            order.len() as int,
        )
    }

    /// All instructions of the function are supported, and what is added can be counted.
    pub open spec fn ready(
        self,
        c: Context,
        main_module: ModuleId,
        stack_size: u32,
        stack_slots: Seq<Layout>,
        plan: PlanView,
    ) -> bool {
        let order = finish::postorder(c.ir@.blocks);
        &&& isel::countable(c)
        &&& place::bodies_hold(c)
        &&& self.abi.can_take_params(c, selector::params(c.ir@), plan)
        &&& selector::blocks_selectable(
            &self,
            self.entered(c, main_module, stack_size, stack_slots, plan),
            c,
            order,
            order.len() as int,
        )
        &&& edit::within_limits(
            edit::unchanged(c.ir@),
            self.selection(c, main_module, stack_size, stack_slots, plan).plan.edits,
        )
    }
}

proof fn lemma_fresh_placed(
    f: FunctionView,
    env: &Environment,
    a: Assigned,
    at: int,
    leaves: Seq<Leaf>,
    n: int,
)
    requires
        place::all_placed(f, env, a.plan),
    ensures
        place::all_placed(f, env, registers::fresh(a, at, leaves, n).plan),
    decreases n,
{
    if n > 0 {
        lemma_fresh_placed(f, env, a, at, leaves, n - 1);
        let b = registers::fresh(a, at, leaves, n - 1).plan;
        let e = EditView::NewReg {
            class: registers::register_class(leaves[n - 1].primitive).spec_code(),
        };
        assert forall|i: int, count: nat|
            0 <= i < b.with(e).edits.len() implies #[trigger] edit::well_placed(
            edit::unchanged(f),
            env,
            b.with(e).edits[i],
            count,
        ) by {
            if i < b.edits.len() {
                assert(edit::well_placed(edit::unchanged(f), env, b.edits[i], count));
            }
        }
    }
}

proof fn lemma_assigned_placed(
    m: InstructionSelector,
    f: FunctionView,
    env: &Environment,
    types: Seq<TypeView>,
    s: SlotsView,
    plan: PlanView,
    n: int,
)
    requires
        place::all_placed(f, env, plan),
        n <= f.insts.len() <= u32::MAX,
    ensures
        place::all_placed(f, env, m.assigned(f, env, types, s, plan, n).plan),
    decreases n,
{
    if n > 0 {
        lemma_assigned_placed(m, f, env, types, s, plan, n - 1);
        let a = m.assigned(f, env, types, s, plan, n - 1);
        let leaves = slots::leaves_of(types, f.insts[n - 1].ty);
        lemma_fresh_placed(f, env, a, s.map[n - 1] as int, leaves, leaves.len() as int);
    }
}

impl InstructionSelector {
    /// The registers of all values of a function and the changes that add them.
    pub open spec fn assignment(
        self,
        f: FunctionView,
        env: &Environment,
        types: Seq<TypeView>,
    ) -> Assigned {
        self.assigned(
            f,
            env,
            types,
            selector::unassigned(f, types),
            PlanView::none_with_regs(f.insts.len() as u32, f.reg_classes.len() as u32),
            f.insts.len() as int,
        )
    }

    /// The context is that of the function with its registers.
    pub open spec fn describes(
        self,
        c: Context,
        f: FunctionView,
        env: &Environment,
        types: Seq<TypeView>,
        mc: ModuleId,
        isa: ModuleId,
    ) -> bool {
        &&& c.mc == mc
        &&& c.isa == isa
        &&& c.env == env
        &&& c.ir@ == f
        &&& c.types@ == types
        &&& c.slots@.map == selector::unassigned(f, types).map
        &&& c.slots@.slots == self.assignment(f, env, types).slots
    }

    /// The function can be changed, and all its values can get registers.
    pub open spec fn can_codegen(
        self,
        f: FunctionView,
        env: &Environment,
        types: Seq<TypeView>,
        mc: ModuleId,
        isa: ModuleId,
    ) -> bool {
        &&& edit::editable(edit::unchanged(f), env)
        &&& finish::layout_fits(edit::unchanged(f))
        &&& dialect::registered::<X86>(env, isa)
        &&& dialect::registered::<Mc>(env, mc)
        &&& self.arith != ModuleId::builtins()
        &&& f.blocks.len() > 0
        &&& f.blocks[0].args_idx + f.blocks[0].arg_count <= u32::MAX
        &&& f.reg_classes.len() <= u32::MAX
        &&& selector::blocks_are_full(f)
        &&& slots::types_known(f, types)
        &&& slots::slots_of(f, types, f.insts.len() as int) <= u32::MAX
        &&& self.can_assign_all(f, env, types)
    }

    /// Turns a function into one of machine instructions. Its values are held by virtual
    /// registers.
    pub fn codegen(
        &self,
        ir: FunctionIr,
        env: &Environment,
        types: &Types,
        mc: ModuleId,
        isa: ModuleId,
        main_module: ModuleId,
        state: BackendState,
    ) -> (r: (FunctionIr, BackendState))
        requires
            self.can_codegen(ir@, env, types@, mc, isa),
            forall|c: Context| #[trigger]
                self.describes(c, ir@, env, types@, mc, isa) ==> self.ready(
                    c,
                    main_module,
                    state.stack_size,
                    state.stack_slots@,
                    self.assignment(ir@, env, types@).plan,
                ),
        ensures
            exists|c: Context| #[trigger]
                self.describes(c, ir@, env, types@, mc, isa) && {
                    let s = self.selection(
                        c,
                        main_module,
                        state.stack_size,
                        state.stack_slots@,
                        self.assignment(ir@, env, types@).plan,
                    );
                    &&& r.0@ == finish::finished(
                        edit::all_applied(edit::unchanged(ir@), env, s.plan.edits),
                        env,
                        true,
                    )
                    &&& r.1.stack_size == s.stack_size
                    &&& r.1.stack_slots@ == s.stack_slots
                },
            layout::laid_out(ir@) && r.0@.insts.len() < u32::MAX ==> layout::is_ready(
                r.0@,
                env,
            ),
    {
        let ghost f = ir@;
        let ghost stack_size = state.stack_size;
        let ghost stack_slots = state.stack_slots@;
        let mut slots: Slots = Slots::with_default(&ir, types, MCReg(0));
        let mut plan: Plan = Plan::with_regs(ir.insts.len() as u32, ir.reg_classes.len() as u32);
        let ghost none = plan@;
        proof {
            assert forall|i: int| 0 <= i < f.insts.len() implies slots@.map[i] == selector::unassigned(
                f,
                types@,
            ).map[i] by {
                assert(slots@.map[i] == slots::slots_of(f, types@, i));
            }
            assert(slots@ =~= selector::unassigned(f, types@));
        }
        self.assign_registers(&ir, env, types, &mut slots, &mut plan);
        let c = Context { mc, isa, env, ir: &ir, types, slots: &slots };
        let ghost assigned = plan@;
        proof {
            assert(self.describes(c, f, env, types@, mc, isa));
            assert(place::all_placed(f, env, none));
            lemma_assigned_placed(
                *self,
                f,
                env,
                types@,
                selector::unassigned(f, types@),
                none,
                f.insts.len() as int,
            );
            edit::bodies_are_placed(f, 0, Ref(f.blocks[0].body_idx));
            placement::calls_are_well_placed(
                self.abi,
                c,
                Ref(f.blocks[0].body_idx),
                false,
                selector::params(f),
                Ref(0),
                assigned,
            );
        }
        let entry = &ir.blocks[0];
        assert(entry@ == f.blocks[0]);
        let mut args: Vec<Ref> = Vec::new();
        let mut i: u32 = 0;
        while i < entry.arg_count
            invariant
                i <= entry.arg_count,
                entry@ == f.blocks[0],
                f.blocks[0].args_idx + f.blocks[0].arg_count <= u32::MAX,
                args@ =~= selector::params(f).take(i as int),
            decreases entry.arg_count - i,
        {
            args.push(Ref(entry.args_idx + i));
            i += 1;
        }
        assert(args@ =~= selector::params(f));
        self.abi.implement_params(&c, Ref(entry.body_idx), &args, &mut plan);
        let order: Vec<BlockId> = compute_postorder(&ir.blocks);
        let mut ctx: IselCtx = IselCtx::new(&c, main_module, state, plan, &order);
        proof {
            assert(function::block_views(ir.blocks@) == f.blocks);
            let s = self.entered(c, main_module, stack_size, stack_slots, assigned);
            assert(ctx@.counts =~= s.counts);
            assert(ctx@.gone =~= s.gone);
            assert(ctx@ =~= s);
        }
        select_blocks(self, &mut ctx, &c, &order);
        let ghost view = c;
        let ghost s = ctx@;
        let plan: Plan = ctx.plan;
        let state: BackendState = ctx.state;
        let mut m: IrModify = IrModify::new(ir);
        assert(m@ =~= edit::unchanged(f));
        proof {
            assert forall|i: int| 0 <= i < plan@.edits.len() implies edit::well_placed(
                m@,
                env,
                #[trigger] plan@.edits[i],
                m@.count() + edit::added(plan@.edits.take(i)),
            ) by {}
            edit::well_placed_changes_apply(m@, env, plan@.edits);
            let done = finish::finished(
                edit::all_applied(m@, env, plan@.edits),
                env,
                true,
            );
            if layout::laid_out(f) && done.insts.len() < u32::MAX {
                layout::changed_functions_can_be_changed_again(f, env, plan@.edits, true);
            }
            assert(self.describes(view, f, env, types@, mc, isa));
        }
        apply_all(&mut m, env, &plan.edits);
        (m.finish_and_compress(env), state)
    }
}

} // verus!
