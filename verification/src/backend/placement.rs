//! Where the changes of the selection of instructions are made.
use vstd::prelude::*;

use crate::backend::isel;
use crate::backend::isel::IselView;
use crate::ir::dialect;
use crate::ir::dialect::{Dialect, Mc};
use crate::ir::edit;
use crate::ir::edit::{EditView, PlanView};
use crate::ir::env::Environment;
use crate::ir::function::FunctionView;
use crate::ir::ids::{BlockId, ModuleId, Ref, TypeId};
use crate::ir::inst;
use crate::ir::inst::{ArgumentView, MCReg};
use crate::ir::layout;
use crate::ir::mc::inst as machine;
use crate::ir::mc::inst::Context;
use crate::ir::modify::Insert;

verus! {

/// All changes are well placed, whatever is added besides. They add no arguments to blocks.
pub open spec fn all_placed(f: FunctionView, env: &Environment, plan: PlanView) -> bool {
    &&& layout::adds_no_arguments(plan.edits)
    &&& forall|i: int, count: nat|
        0 <= i < plan.edits.len() ==> #[trigger] edit::well_placed(
            edit::unchanged(f),
            env,
            plan.edits[i],
            count,
        )
}

pub proof fn lemma_with(f: FunctionView, env: &Environment, plan: PlanView, e: EditView)
    requires
        all_placed(f, env, plan),
        layout::is_no_argument(e),
        forall|count: nat| #[trigger] edit::well_placed(edit::unchanged(f), env, e, count),
    ensures
        all_placed(f, env, plan.with(e)),
{
    let new = plan.with(e);
    assert forall|i: int, count: nat| 0 <= i < new.edits.len() implies #[trigger] edit::well_placed(
        edit::unchanged(f),
        env,
        new.edits[i],
        count,
    ) by {
        if i < plan.edits.len() {
            assert(new.edits[i] == plan.edits[i]);
            assert(edit::well_placed(edit::unchanged(f), env, plan.edits[i], count));
        } else {
            assert(edit::well_placed(edit::unchanged(f), env, e, count));
        }
    }
    assert forall|i: int| 0 <= i < new.edits.len() implies layout::is_no_argument(
        #[trigger] new.edits[i],
    ) by {
        if i < plan.edits.len() {
            assert(new.edits[i] == plan.edits[i]);
        }
    }
}

/// Instructions but the builtin ones, and all that can be left out, stand in the bodies of
/// blocks.
pub open spec fn bodies_hold(c: Context) -> bool {
    forall|r: Ref|
        r.0 < c.ir@.insts.len() && (c.ir@.insts[r.0 as int].function.module
            != ModuleId::builtins() || c.env.def(c.ir@.insts[r.0 as int].function).pure_)
            ==> #[trigger] edit::placed(c.ir@, r)
}

pub proof fn lemma_add<D: Dialect>(
    c: Context,
    plan: PlanView,
    at: Ref,
    position: Insert,
    module: ModuleId,
    op: D,
    args: Seq<ArgumentView>,
)
    requires
        all_placed(c.ir@, c.env, plan),
        dialect::registered::<D>(c.env, module),
        edit::placed(c.ir@, at),
        inst::args_fit(op.spec_params(), op.spec_varargs(), args),
        inst::targets_exist(args, c.ir@.blocks.len()),
    ensures
        all_placed(
            c.ir@,
            c.env,
            plan.with(
                EditView::Add {
                    at,
                    position,
                    function: dialect::spec_function(module, op),
                    args,
                    ty: TypeId::unit(),
                },
            ),
        ),
{
    assert(op.spec_id() == op.spec_id());
    let v = edit::unchanged(c.ir@);
    let i = choose|i: int| 0 <= i < v.ir.blocks.len() && #[trigger] v.body_has(i, v.key(at));
    assert(v.takes_insertion(i, at, position));
    lemma_with(
        c.ir@,
        c.env,
        plan,
        EditView::Add {
            at,
            position,
            function: dialect::spec_function(module, op),
            args,
            ty: TypeId::unit(),
        },
    );
}

pub proof fn lemma_replace<D: Dialect>(
    c: Context,
    plan: PlanView,
    at: Ref,
    module: ModuleId,
    op: D,
    args: Seq<ArgumentView>,
)
    requires
        all_placed(c.ir@, c.env, plan),
        dialect::registered::<D>(c.env, module),
        edit::placed(c.ir@, at),
        inst::args_fit(op.spec_params(), op.spec_varargs(), args),
        inst::targets_exist(args, c.ir@.blocks.len()),
    ensures
        all_placed(
            c.ir@,
            c.env,
            plan.with(
                EditView::Replace {
                    at,
                    function: dialect::spec_function(module, op),
                    args,
                    ty: TypeId::unit(),
                },
            ),
        ),
{
    assert(op.spec_id() == op.spec_id());
    lemma_with(
        c.ir@,
        c.env,
        plan,
        EditView::Replace {
            at,
            function: dialect::spec_function(module, op),
            args,
            ty: TypeId::unit(),
        },
    );
}

pub proof fn lemma_without(c: Context, plan: PlanView, at: Ref)
    requires
        all_placed(c.ir@, c.env, plan),
        edit::placed(c.ir@, at),
    ensures
        all_placed(c.ir@, c.env, plan.with(EditView::ReplaceWith { at, new: Ref::unit() })),
        all_placed(c.ir@, c.env, plan.with(EditView::Delete { at })),
{
    lemma_with(c.ir@, c.env, plan, EditView::ReplaceWith { at, new: Ref::unit() });
    lemma_with(c.ir@, c.env, plan, EditView::Delete { at });
}

/// The changes so far are well placed.
pub open spec fn ok(s: IselView, c: Context) -> bool {
    all_placed(c.ir@, c.env, s.plan)
}

pub proof fn lemma_read_regs(regs: Seq<MCReg>, blocks: nat)
    ensures
        inst::args_fit(Mc::Copy.spec_params(), Mc::Copy.spec_varargs(), machine::read_regs(regs)),
        inst::args_fit(
            Mc::AssignBlockArgs.spec_params(),
            Mc::AssignBlockArgs.spec_varargs(),
            machine::read_regs(regs),
        ),
        inst::args_fit(
            Mc::IncomingBlockArgs.spec_params(),
            Mc::IncomingBlockArgs.spec_varargs(),
            isel::changed_regs(regs),
        ),
        inst::targets_exist(machine::read_regs(regs), blocks),
        inst::targets_exist(isel::changed_regs(regs), blocks),
{
}

/// Removing uses only leaves out instructions that stand in bodies.
pub proof fn lemma_use_removed(s: IselView, c: Context, r: Ref, depth: nat)
    requires
        ok(s, c),
        bodies_hold(c),
        s.counts.len() == c.ir@.insts.len(),
    ensures
        ok(s.use_removed(c, r, depth), c),
        s.use_removed(c, r, depth).counts.len() == s.counts.len(),
    decreases depth, 0nat,
{
    if depth > 0 && r.0 < s.counts.len() && s.counts[r.0 as int] != 0 {
        let count = (s.counts[r.0 as int] - 1) as u32;
        let t = IselView { counts: s.counts.update(r.0 as int, count), ..s };
        if count == 0 && c.env.def(c.ir@.insts[r.0 as int].function).pure_ {
            let refs = machine::passed(c.args(r), false);
            lemma_uses_removed(t, c, refs, (depth - 1) as nat);
            assert(edit::placed(c.ir@, r));
            lemma_without(c, t.uses_removed(c, refs, (depth - 1) as nat).plan, r);
        }
    }
}

pub proof fn lemma_uses_removed(s: IselView, c: Context, refs: Seq<Ref>, depth: nat)
    requires
        ok(s, c),
        bodies_hold(c),
        s.counts.len() == c.ir@.insts.len(),
    ensures
        ok(s.uses_removed(c, refs, depth), c),
        s.uses_removed(c, refs, depth).counts.len() == s.counts.len(),
    decreases depth, refs.len() + 1,
{
    if refs.len() > 0 {
        lemma_uses_removed(s, c, refs.drop_last(), depth);
        lemma_use_removed(s.uses_removed(c, refs.drop_last(), depth), c, refs.last(), depth);
    }
}

/// What a block begins with is well placed.
pub proof fn beginnings_are_well_placed(s: IselView, c: Context, block: BlockId)
    requires
        ok(s, c),
        dialect::registered::<Mc>(c.env, c.mc),
        block != BlockId::entry() ==> edit::placed(
            c.ir@,
            Ref(c.ir@.blocks[block.0 as int].body_idx),
        ),
    ensures
        ok(isel::block_begun(s, c, block), c),
{
    if block != BlockId::entry() {
        let info = c.ir@.blocks[block.0 as int];
        let regs = isel::arg_registers(c, block, info.arg_count as int);
        lemma_read_regs(regs, c.ir@.blocks.len());
        lemma_add::<Mc>(
            c,
            s.plan,
            Ref(info.body_idx),
            Insert::Before,
            c.mc,
            Mc::IncomingBlockArgs,
            isel::changed_regs(regs),
        );
    }
}

} // verus!
