//! Whole functions as instructions of the machine.
use vstd::prelude::*;

use crate::backend::arguments;
use crate::backend::arguments::{get_type, read_args};
use crate::backend::arm::isa::{Arm, RegClass};
use crate::backend::arm::isel as select;
use crate::backend::arm::isel::InstructionSelector;
use crate::backend::isel;
use crate::backend::isel::{IselCtx, IselView};
use crate::backend::placement as place;
use crate::backend::selector;
use crate::backend::selector::select_blocks;
use crate::backend::state::BackendState;
use crate::ir::dialect;
use crate::ir::dialect::{Dialect, Mc, Mem};
use crate::ir::edit;
use crate::ir::edit::{apply_all, EditView, Plan, PlanView};
use crate::ir::env::Environment;
use crate::ir::finish;
use crate::ir::finish::compute_postorder;
use crate::ir::function;
use crate::ir::function::{FunctionIr, FunctionView};
use crate::ir::ids::{BlockId, ModuleId, Ref, StackSlot, TypeId};
use crate::ir::inst;
use crate::ir::inst::{Argument, ArgumentView, MCReg, Usage};
use crate::ir::layout;
use crate::ir::mc::inst::{Abi, Context};
use crate::ir::modify::IrModify;
use crate::ir::slots;
use crate::ir::slots::{Slots, SlotsView};
use crate::ir::types::{Layout, Leaf, Primitive, TypeView, Types};

verus! {

/// The registers that hold a primitive value.
#[verifier::allow_in_spec]
pub fn register_class(p: Primitive) -> RegClass
    returns
        (match p {
            Primitive::I64 | Primitive::U64 | Primitive::Ptr => RegClass::GP64,
            _ => RegClass::GP32,
        }),
{
    match p {
        Primitive::I64 | Primitive::U64 | Primitive::Ptr => RegClass::GP64,
        _ => RegClass::GP32,
    }
}

/// The primitive value can be held by a register so far.
pub open spec fn supported(p: Primitive) -> bool {
    !p.is_float() && p != Primitive::I128 && p != Primitive::U128
}

/// The registers of all values, the places in the stack frame, and the changes that add them.
#[verifier::ext_equal]
pub struct Assigned {
    pub slots: Seq<MCReg>,
    pub stack_slots: Seq<Layout>,
    pub plan: PlanView,
}

/// The first `n` primitive values get registers of their own.
pub open spec fn fresh(a: Assigned, at: int, leaves: Seq<Leaf>, n: int) -> Assigned
    decreases n,
{
    if n <= 0 {
        a
    } else {
        let b = fresh(a, at, leaves, n - 1);
        Assigned {
            slots: b.slots.update(
                at + slots::slots_before(leaves, n - 1),
                MCReg(b.plan.next_reg),
            ),
            plan: b.plan.with(
                EditView::NewReg { class: register_class(leaves[n - 1].primitive).spec_code() },
            ),
            ..b
        }
    }
}

/// A register for an address, and the number of a place in the stack frame.
pub open spec fn slot_args(r: MCReg, slot: u32) -> Seq<ArgumentView> {
    seq![ArgumentView::MCReg(Usage::Def, r), ArgumentView::Int32(slot)]
}

impl InstructionSelector {
    /// A value gets its registers. A variable gets a place in the stack frame.
    pub open spec fn assigned_one(
        self,
        f: FunctionView,
        env: &Environment,
        types: Seq<TypeView>,
        mc: ModuleId,
        map: Seq<u32>,
        a: Assigned,
        r: Ref,
    ) -> Assigned {
        let called = f.insts[r.0 as int];
        let at = map[r.0 as int] as int;
        if self.is_decl(f, r) {
            let ty = arguments::type_at(arguments::args_in(f, env, r), 0);
            let reg = MCReg(a.plan.next_reg);
            Assigned {
                slots: a.slots.update(at, reg),
                stack_slots: a.stack_slots.push(types[ty.0 as int].layout),
                plan: a.plan.with(EditView::NewReg { class: RegClass::GP32.spec_code() }).with(
                    EditView::Replace {
                        at: r,
                        function: dialect::spec_function(mc, Mc::StackValue),
                        args: slot_args(reg, a.stack_slots.len() as u32),
                        ty: called.ty,
                    },
                ),
            }
        } else {
            let leaves = slots::leaves_of(types, called.ty);
            fresh(a, at, leaves, leaves.len() as int)
        }
    }

    /// The first `n` values get their registers.
    pub open spec fn assigned(
        self,
        f: FunctionView,
        env: &Environment,
        types: Seq<TypeView>,
        mc: ModuleId,
        map: Seq<u32>,
        a: Assigned,
        n: int,
    ) -> Assigned
        decreases n,
    {
        if n <= 0 {
            a
        } else {
            self.assigned_one(
                f,
                env,
                types,
                mc,
                map,
                self.assigned(f, env, types, mc, map, a, n - 1),
                Ref((n - 1) as u32),
            )
        }
    }

    /// Variables have types that are known and addresses that a register holds. Other values
    /// are whole numbers of at most 64 bits.
    pub open spec fn can_assign(
        self,
        f: FunctionView,
        env: &Environment,
        types: Seq<TypeView>,
        r: Ref,
    ) -> bool {
        let leaves = slots::leaves_of(types, f.insts[r.0 as int].ty);
        if self.is_decl(f, r) {
            &&& arguments::type_at(arguments::args_in(f, env, r), 0).0 < types.len()
            &&& slots::slot_count(leaves) >= 1
            &&& edit::placed(f, r)
        } else {
            forall|k: int| 0 <= k < leaves.len() ==> supported((#[trigger] leaves[k]).primitive)
        }
    }

    /// All values can get registers.
    pub open spec fn can_assign_all(
        self,
        f: FunctionView,
        env: &Environment,
        types: Seq<TypeView>,
    ) -> bool {
        forall|i: int|
            0 <= i < f.insts.len() ==> {
                &&& env.has((#[trigger] f.insts[i]).function)
                &&& env.def(f.insts[i].function).params@.len() <= u32::MAX
                &&& self.can_assign(f, env, types, Ref(i as u32))
            }
    }
}

fn assign_fresh(slots: &mut Vec<MCReg>, plan: &mut Plan, at: usize, leaves: &Vec<Leaf>)
    requires
        at + slots::slot_count(leaves@) <= old(slots)@.len(),
    ensures
        forall|stack_slots: Seq<Layout>|
            (Assigned { slots: final(slots)@, stack_slots, plan: final(plan)@ })
                == #[trigger] fresh(
                (Assigned { slots: old(slots)@, stack_slots, plan: old(plan)@ }),
                at as int,
                leaves@,
                leaves@.len() as int,
            ),
        final(slots)@.len() == old(slots)@.len(),
{
    let ghost slots0 = slots@;
    let ghost plan0 = plan@;
    let len: usize = slots.len();
    let mut k: usize = at;
    let mut i: usize = 0;
    while i < leaves.len()
        invariant
            i <= leaves@.len(),
            len == slots@.len(),
            at + slots::slot_count(leaves@) <= len,
            k == at + slots::slots_before(leaves@, i as int),
            forall|stack_slots: Seq<Layout>|
                (Assigned { slots: slots@, stack_slots, plan: plan@ }) == #[trigger] fresh(
                    (Assigned { slots: slots0, stack_slots, plan: plan0 }),
                    at as int,
                    leaves@,
                    i as int,
                ),
        decreases leaves.len() - i,
    {
        proof {
            slots::lemma_slots_before(leaves@, i + 1, leaves@.len() as int);
            slots::lemma_slots_before(leaves@, 0, i as int);
        }
        let ghost slots1 = slots@;
        let ghost plan1 = plan@;
        let p: Primitive = leaves[i].primitive;
        let r: MCReg = plan.new_reg(register_class(p).code());
        slots.set(k, r);
        proof {
            assert forall|stack_slots: Seq<Layout>|
                (Assigned { slots: slots@, stack_slots, plan: plan@ }) == #[trigger] fresh(
                    (Assigned { slots: slots0, stack_slots, plan: plan0 }),
                    at as int,
                    leaves@,
                    i + 1,
                ) by {
                assert((Assigned { slots: slots1, stack_slots, plan: plan1 }) == fresh(
                    (Assigned { slots: slots0, stack_slots, plan: plan0 }),
                    at as int,
                    leaves@,
                    i as int,
                ));
            }
        }
        k += p.slot_count() as usize;
        i += 1;
    }
}

impl InstructionSelector {
    fn assign_one(
        &self,
        ir: &FunctionIr,
        env: &Environment,
        types: &Types,
        mc: ModuleId,
        map: &Vec<u32>,
        slots: &mut Vec<MCReg>,
        state: &mut BackendState,
        plan: &mut Plan,
        r: Ref,
    )
        requires
            r.0 < ir@.insts.len(),
            ir@.insts[r.0 as int].ty.0 < types@.len(),
            slots::in_order((SlotsView { map: map@, slots: old(slots)@ }), ir@, types@),
            env.has(ir@.insts[r.0 as int].function),
            env.def(ir@.insts[r.0 as int].function).params@.len() <= u32::MAX,
            self.can_assign(ir@, env, types@, r),
            old(state).stack_slots@.len() < u32::MAX,
        ensures
            (Assigned {
                slots: final(slots)@,
                stack_slots: final(state).stack_slots@,
                plan: final(plan)@,
            }) == self.assigned_one(
                ir@,
                env,
                types@,
                mc,
                map@,
                (Assigned {
                    slots: old(slots)@,
                    stack_slots: old(state).stack_slots@,
                    plan: old(plan)@,
                }),
                r,
            ),
            final(slots)@.len() == old(slots)@.len(),
            final(state).stack_size == old(state).stack_size,
            old(state).stack_slots@.len() <= final(state).stack_slots@.len()
                <= old(state).stack_slots@.len() + 1,
    {
        let ghost s = SlotsView { map: map@, slots: slots@ };
        proof {
            slots::lemma_holds(s, ir@, types@, r);
        }
        let called = &ir.insts[r.idx()];
        let at: usize = map[r.idx()] as usize;
        if self.check_decl(ir, r) {
            // variables get their stack slots here
            let args: Vec<Argument> = read_args(ir, env, r);
            let ty: TypeId = get_type(&args, 0);
            assert(types@[ty.0 as int] == types.types@[ty.0 as int]@);
            let slot: StackSlot = state.new_stack_slot(types.types[ty.0 as usize].layout);
            let reg: MCReg = plan.new_reg(RegClass::GP32.code());
            slots.set(at, reg);
            let operands: Vec<Argument> = vec![
                Argument::MCReg(Usage::Def, reg),
                Argument::Int32(slot.0),
            ];
            assert(inst::views(operands@) =~= slot_args(reg, slot.0));
            plan.replace(r, dialect::function(mc, Mc::StackValue), operands, called.ty);
        } else {
            assert(types@[called.ty.0 as int] == types.types@[called.ty.0 as int]@);
            assign_fresh(slots, plan, at, &types.types[called.ty.0 as usize].leaves);
        }
    }

    /// Gives all values their registers and variables their places in the stack frame.
    pub fn assign_registers(
        &self,
        ir: &FunctionIr,
        env: &Environment,
        types: &Types,
        mc: ModuleId,
        slots: &mut Slots,
        state: &mut BackendState,
        plan: &mut Plan,
    )
        requires
            slots::types_known(ir@, types@),
            slots::in_order(old(slots)@, ir@, types@),
            self.can_assign_all(ir@, env, types@),
            old(state).stack_slots@.len() + ir@.insts.len() <= u32::MAX,
        ensures
            final(slots)@.map == old(slots)@.map,
            (Assigned {
                slots: final(slots)@.slots,
                stack_slots: final(state).stack_slots@,
                plan: final(plan)@,
            }) == self.assigned(
                ir@,
                env,
                types@,
                mc,
                old(slots)@.map,
                (Assigned {
                    slots: old(slots)@.slots,
                    stack_slots: old(state).stack_slots@,
                    plan: old(plan)@,
                }),
                ir@.insts.len() as int,
            ),
            slots::in_order(final(slots)@, ir@, types@),
            final(state).stack_size == old(state).stack_size,
    {
        let ghost s = slots@;
        let ghost start = Assigned {
            slots: slots@.slots,
            stack_slots: state.stack_slots@,
            plan: plan@,
        };
        let ghost size = state.stack_size;
        let n: usize = ir.insts.len();
        let mut i: usize = 0;
        while i < n
            invariant
                i <= n,
                n == ir@.insts.len(),
                slots::types_known(ir@, types@),
                slots::in_order(slots@, ir@, types@),
                self.can_assign_all(ir@, env, types@),
                slots@.map == s.map,
                start.stack_slots.len() + n <= u32::MAX,
                state.stack_slots@.len() <= start.stack_slots.len() + i,
                state.stack_size == size,
                (Assigned {
                    slots: slots@.slots,
                    stack_slots: state.stack_slots@,
                    plan: plan@,
                }) == self.assigned(ir@, env, types@, mc, s.map, start, i as int),
            decreases n - i,
        {
            assert(self.can_assign(ir@, env, types@, Ref(i as int as u32))) by {
                assert(env.has(ir@.insts[i as int].function));
            }
            self.assign_one(
                ir,
                env,
                types,
                mc,
                &slots.slot_map,
                &mut slots.slots,
                state,
                plan,
                Ref(i as u32),
            );
            i += 1;
        }
    }

    /// Variables get places in the stack frame in the order in which they are declared.
    pub proof fn variables_are_numbered(
        self,
        f: FunctionView,
        env: &Environment,
        types: Seq<TypeView>,
        mc: ModuleId,
        map: Seq<u32>,
        a: Assigned,
        n: int,
    )
        requires
            0 <= n <= f.insts.len() <= u32::MAX,
        ensures
            self.assigned(f, env, types, mc, map, a, n).stack_slots.len() == a.stack_slots.len()
                + self.decls_before(f, n),
        decreases n,
    {
        if n > 0 {
            self.variables_are_numbered(f, env, types, mc, map, a, n - 1);
            let b = self.assigned(f, env, types, mc, map, a, n - 1);
            let leaves = slots::leaves_of(types, f.insts[n - 1].ty);
            lemma_fresh_keeps(b, map[n - 1] as int, leaves, leaves.len() as int);
        }
    }
}

proof fn lemma_fresh_keeps(a: Assigned, at: int, leaves: Seq<Leaf>, n: int)
    ensures
        fresh(a, at, leaves, n).stack_slots == a.stack_slots,
    decreases n,
{
    if n > 0 {
        lemma_fresh_keeps(a, at, leaves, n - 1);
    }
}

proof fn lemma_fresh_placed(
    f: FunctionView,
    env: &Environment,
    a: Assigned,
    at: int,
    leaves: Seq<Leaf>,
    n: int,
)
    requires
        place::all_placed(f, env, a.plan),
    ensures
        place::all_placed(f, env, fresh(a, at, leaves, n).plan),
    decreases n,
{
    if n > 0 {
        lemma_fresh_placed(f, env, a, at, leaves, n - 1);
        place::lemma_with(
            f,
            env,
            fresh(a, at, leaves, n - 1).plan,
            EditView::NewReg { class: register_class(leaves[n - 1].primitive).spec_code() },
        );
    }
}

proof fn lemma_assigned_placed(
    m: InstructionSelector,
    f: FunctionView,
    env: &Environment,
    types: Seq<TypeView>,
    mc: ModuleId,
    map: Seq<u32>,
    a: Assigned,
    n: int,
)
    requires
        place::all_placed(f, env, a.plan),
        n <= f.insts.len() <= u32::MAX,
        m.can_assign_all(f, env, types),
        dialect::registered::<Mc>(env, mc),
    ensures
        place::all_placed(f, env, m.assigned(f, env, types, mc, map, a, n).plan),
    decreases n,
{
    if n > 0 {
        lemma_assigned_placed(m, f, env, types, mc, map, a, n - 1);
        let b = m.assigned(f, env, types, mc, map, a, n - 1);
        let r = Ref((n - 1) as u32);
        let leaves = slots::leaves_of(types, f.insts[n - 1].ty);
        lemma_fresh_placed(f, env, b, map[n - 1] as int, leaves, leaves.len() as int);
        if m.is_decl(f, r) {
            assert(m.can_assign(f, env, types, r)) by {
                assert(env.has(f.insts[n - 1].function));
            }
            let class = EditView::NewReg { class: RegClass::GP32.spec_code() };
            place::lemma_with(f, env, b.plan, class);
            assert(Mc::StackValue.spec_id() == Mc::StackValue.spec_id());
            place::lemma_with(
                f,
                env,
                b.plan.with(class),
                EditView::Replace {
                    at: r,
                    function: dialect::spec_function(mc, Mc::StackValue),
                    args: slot_args(MCReg(b.plan.next_reg), b.stack_slots.len() as u32),
                    ty: f.insts[n - 1].ty,
                },
            );
        }
    }
}

impl InstructionSelector {
    /// The registers of all values of a function and the changes that add them.
    pub open spec fn assignment(
        self,
        f: FunctionView,
        env: &Environment,
        types: Seq<TypeView>,
        mc: ModuleId,
        stack_slots: Seq<Layout>,
    ) -> Assigned {
        self.assigned(
            f,
            env,
            types,
            mc,
            selector::unassigned(f, types).map,
            Assigned {
                slots: selector::unassigned(f, types).slots,
                stack_slots,
                plan: PlanView::none_with_regs(
                    f.insts.len() as u32,
                    f.reg_classes.len() as u32,
                ),
            },
            f.insts.len() as int,
        )
    }

    /// The context is that of the function with its registers.
    pub open spec fn describes(
        self,
        c: Context,
        f: FunctionView,
        env: &Environment,
        types: Seq<TypeView>,
        mc: ModuleId,
        isa: ModuleId,
        stack_slots: Seq<Layout>,
    ) -> bool {
        &&& c.mc == mc
        &&& c.isa == isa
        &&& c.env == env
        &&& c.ir@ == f
        &&& c.types@ == types
        &&& c.slots@.map == selector::unassigned(f, types).map
        &&& c.slots@.slots == self.assignment(f, env, types, mc, stack_slots).slots
    }

    /// The arguments of the function are taken.
    pub open spec fn entered(
        self,
        c: Context,
        main_module: ModuleId,
        stack_size: u32,
        a: Assigned,
    ) -> IselView {
        selector::begun(
            c,
            main_module,
            stack_size,
            a.stack_slots,
            self.abi.params_taken(
                c,
                Ref(c.ir@.blocks[0].body_idx),
                selector::params(c.ir@),
                a.plan,
            ),
        )
    }

    /// All instructions of a function are selected, block by block in postorder.
    pub open spec fn selection(
        self,
        c: Context,
        main_module: ModuleId,
        stack_size: u32,
        a: Assigned,
    ) -> IselView {
        let order = finish::postorder(c.ir@.blocks);
        selector::blocks_selected(
            &self,
            self.entered(c, main_module, stack_size, a),
            c,
            order,
            order.len() as int,
        )
    }

    /// All instructions of the function are supported, and what is added can be counted. A
    /// place in the stack frame can be left out where a variable can.
    pub open spec fn ready(
        self,
        c: Context,
        main_module: ModuleId,
        stack_size: u32,
        a: Assigned,
    ) -> bool {
        let order = finish::postorder(c.ir@.blocks);
        &&& isel::countable(c)
        &&& place::bodies_hold(c)
        &&& c.env.def(dialect::spec_function(self.mem, Mem::Decl)).pure_ == c.env.def(
            dialect::spec_function(c.mc, Mc::StackValue),
        ).pure_
        &&& self.abi.can_take_params(c, selector::params(c.ir@), a.plan)
        &&& selector::blocks_selectable(
            &self,
            self.entered(c, main_module, stack_size, a),
            c,
            order,
            order.len() as int,
        )
        &&& edit::within_limits(
            edit::unchanged(c.ir@),
            self.selection(c, main_module, stack_size, a).plan.edits,
        )
    }

    /// The function can be changed, and all its values can get registers.
    pub open spec fn can_codegen(
        self,
        f: FunctionView,
        env: &Environment,
        types: Seq<TypeView>,
        mc: ModuleId,
        isa: ModuleId,
    ) -> bool {
        &&& edit::editable(edit::unchanged(f), env)
        &&& finish::layout_fits(edit::unchanged(f))
        &&& dialect::registered::<Arm>(env, isa)
        &&& dialect::registered::<Mc>(env, mc)
        &&& f.blocks.len() > 0
        &&& f.blocks[0].args_idx + f.blocks[0].arg_count <= u32::MAX
        &&& f.reg_classes.len() <= u32::MAX
        &&& selector::blocks_are_full(f)
        &&& slots::types_known(f, types)
        &&& slots::slots_of(f, types, f.insts.len() as int) <= u32::MAX
        &&& self.can_assign_all(f, env, types)
    }

    /// Turns a function into one of machine instructions. Its values are held by virtual
    /// registers and by places in the stack frame.
    pub fn codegen(
        &self,
        ir: FunctionIr,
        env: &Environment,
        types: &Types,
        mc: ModuleId,
        isa: ModuleId,
        main_module: ModuleId,
        state: BackendState,
    ) -> (r: (FunctionIr, BackendState))
        requires
            self.can_codegen(ir@, env, types@, mc, isa),
            state.stack_slots@.len() + ir@.insts.len() <= u32::MAX,
            forall|c: Context| #[trigger]
                self.describes(c, ir@, env, types@, mc, isa, state.stack_slots@) ==> self.ready(
                    c,
                    main_module,
                    state.stack_size,
                    self.assignment(ir@, env, types@, mc, state.stack_slots@),
                ),
        ensures
            exists|c: Context| #[trigger]
                self.describes(c, ir@, env, types@, mc, isa, state.stack_slots@) && {
                    let s = self.selection(
                        c,
                        main_module,
                        state.stack_size,
                        self.assignment(ir@, env, types@, mc, state.stack_slots@),
                    );
                    &&& r.0@ == finish::finished(
                        edit::all_applied(edit::unchanged(ir@), env, s.plan.edits),
                        env,
                        true,
                    )
                    &&& r.1.stack_size == s.stack_size
                    &&& r.1.stack_slots@ == s.stack_slots
                },
            layout::laid_out(ir@) && r.0@.insts.len() < u32::MAX ==> layout::is_ready(
                r.0@,
                env,
            ),
    {
        let ghost f = ir@;
        let ghost stack_size = state.stack_size;
        let ghost stack_slots = state.stack_slots@;
        let ghost assigned = self.assignment(f, env, types@, mc, stack_slots);
        let mut state: BackendState = state;
        let mut slots: Slots = Slots::with_default(&ir, types, MCReg(0));
        let mut plan: Plan = Plan::with_regs(ir.insts.len() as u32, ir.reg_classes.len() as u32);
        let ghost start = Assigned { slots: slots@.slots, stack_slots, plan: plan@ };
        proof {
            assert forall|i: int| 0 <= i < f.insts.len() implies slots@.map[i]
                == selector::unassigned(f, types@).map[i] by {
                assert(slots@.map[i] == slots::slots_of(f, types@, i));
            }
            assert(slots@ =~= selector::unassigned(f, types@));
        }
        let ghost map = slots@.map;
        self.assign_registers(&ir, env, types, mc, &mut slots, &mut state, &mut plan);
        let c = Context { mc, isa, env, ir: &ir, types, slots: &slots };
        proof {
            assert(self.describes(c, f, env, types@, mc, isa, stack_slots));
            assert(place::all_placed(f, env, start.plan));
            lemma_assigned_placed(*self, f, env, types@, mc, map, start, f.insts.len() as int);
            edit::bodies_are_placed(f, 0, Ref(f.blocks[0].body_idx));
            select::calls_are_well_placed(
                self.abi,
                c,
                Ref(f.blocks[0].body_idx),
                false,
                selector::params(f),
                Ref(0),
                assigned.plan,
            );
        }
        let entry = &ir.blocks[0];
        assert(entry@ == f.blocks[0]);
        let mut args: Vec<Ref> = Vec::new();
        let mut i: u32 = 0;
        while i < entry.arg_count
            invariant
                i <= entry.arg_count,
                entry@ == f.blocks[0],
                f.blocks[0].args_idx + f.blocks[0].arg_count <= u32::MAX,
                args@ =~= selector::params(f).take(i as int),
            decreases entry.arg_count - i,
        {
            args.push(Ref(entry.args_idx + i));
            i += 1;
        }
        assert(args@ =~= selector::params(f));
        self.abi.implement_params(&c, Ref(entry.body_idx), &args, &mut plan);
        let order: Vec<BlockId> = compute_postorder(&ir.blocks);
        let mut ctx: IselCtx = IselCtx::new(&c, main_module, state, plan, &order);
        proof {
            assert(function::block_views(ir.blocks@) == f.blocks);
            let s = self.entered(c, main_module, stack_size, assigned);
            assert(ctx@.counts =~= s.counts);
            assert(ctx@.gone =~= s.gone);
            assert(ctx@ =~= s);
        }
        select_blocks(self, &mut ctx, &c, &order);
        let ghost view = c;
        let plan: Plan = ctx.plan;
        let state: BackendState = ctx.state;
        let mut m: IrModify = IrModify::new(ir);
        assert(m@ =~= edit::unchanged(f));
        proof {
            assert forall|i: int| 0 <= i < plan@.edits.len() implies edit::well_placed(
                m@,
                env,
                #[trigger] plan@.edits[i],
                m@.count() + edit::added(plan@.edits.take(i)),
            ) by {}
            edit::well_placed_changes_apply(m@, env, plan@.edits);
            let done = finish::finished(
                edit::all_applied(m@, env, plan@.edits),
                env,
                true,
            );
            if layout::laid_out(f) && done.insts.len() < u32::MAX {
                layout::changed_functions_can_be_changed_again(f, env, plan@.edits, true);
            }
            assert(self.describes(view, f, env, types@, mc, isa, stack_slots));
        }
        apply_all(&mut m, env, &plan.edits);
        (m.finish_and_compress(env), state)
    }
}

} // verus!
