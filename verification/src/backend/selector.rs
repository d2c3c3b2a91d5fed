//! The selection of instructions for all blocks of a function.
use vstd::prelude::*;

use crate::backend::isel;
use crate::backend::isel::{IselCtx, IselView};
use crate::backend::placement as place;
use crate::ir::dialect;
use crate::ir::dialect::Mc;
use crate::ir::edit;
use crate::ir::edit::PlanView;
use crate::ir::finish;
use crate::ir::function::FunctionView;
use crate::ir::ids::{BlockId, ModuleId, Ref};
use crate::ir::inst::MCReg;
use crate::ir::mc::inst::Context;
use crate::ir::slots;
use crate::ir::slots::SlotsView;
use crate::ir::types::{Layout, TypeView};

verus! {

/// Selects instructions of a machine.
pub trait Selector {
    /// The instructions of the machine are known.
    spec fn known(&self, c: Context) -> bool;

    /// What becomes of an instruction.
    spec fn step(&self, s: IselView, c: Context, block: BlockId, r: Ref) -> IselView;

    spec fn can_step(&self, s: IselView, c: Context, block: BlockId, r: Ref) -> bool;

    fn select_one(&self, ctx: &mut IselCtx, c: &Context, block: BlockId, r: Ref)
        requires
            old(ctx)@.fits(*c),
            r.0 < c.ir@.insts.len(),
            self.can_step(old(ctx)@, *c, block, r),
        ensures
            final(ctx)@ == self.step(old(ctx)@, *c, block, r),
            final(ctx)@.fits(*c),
    ;

    proof fn known_machines_copy(&self, c: Context)
        requires
            self.known(c),
        ensures
            dialect::registered::<Mc>(c.env, c.mc),
    ;

    /// What becomes of an instruction is well placed.
    proof fn steps_are_well_placed(&self, s: IselView, c: Context, block: BlockId, r: Ref)
        requires
            place::ok(s, c),
            place::bodies_hold(c),
            self.known(c),
            s.fits(c),
            edit::placed(c.ir@, r),
            self.can_step(s, c, block, r),
        ensures
            place::ok(self.step(s, c, block, r), c),
    ;
}

/// The `k`-th instruction of a block from its end.
pub open spec fn from_end(c: Context, b: BlockId, k: int) -> Ref {
    let info = c.ir@.blocks[b.0 as int];
    Ref((info.body_idx + info.len - k) as u32)
}

/// The last `k` instructions of a block are selected, the last one first. What is not needed
/// any more is passed over.
pub open spec fn body_selected<S: Selector>(
    m: &S,
    s: IselView,
    c: Context,
    b: BlockId,
    k: int,
) -> IselView
    decreases k,
{
    if k <= 0 {
        s
    } else {
        let t = body_selected(m, s, c, b, k - 1);
        let r = from_end(c, b, k);
        if t.gone[r.0 as int] {
            t
        } else {
            m.step(t, c, b, r)
        }
    }
}

pub open spec fn body_selectable<S: Selector>(
    m: &S,
    s: IselView,
    c: Context,
    b: BlockId,
    k: int,
) -> bool
    decreases k,
{
    k > 0 ==> {
        let t = body_selected(m, s, c, b, k - 1);
        let r = from_end(c, b, k);
        &&& body_selectable(m, s, c, b, k - 1)
        &&& t.gone[r.0 as int] || m.can_step(t, c, b, r)
    }
}

/// The first `n` blocks are selected one after the other.
pub open spec fn blocks_selected<S: Selector>(
    m: &S,
    s: IselView,
    c: Context,
    order: Seq<BlockId>,
    n: int,
) -> IselView
    decreases n,
{
    if n <= 0 {
        s
    } else {
        let b = order[n - 1];
        body_selected(
            m,
            isel::block_begun(blocks_selected(m, s, c, order, n - 1), c, b),
            c,
            b,
            c.ir@.blocks[b.0 as int].len as int,
        )
    }
}

pub open spec fn blocks_selectable<S: Selector>(
    m: &S,
    s: IselView,
    c: Context,
    order: Seq<BlockId>,
    n: int,
) -> bool
    decreases n,
{
    n > 0 ==> {
        let b = order[n - 1];
        &&& blocks_selectable(m, s, c, order, n - 1)
        &&& isel::can_begin(c, b)
        &&& body_selectable(
            m,
            isel::block_begun(blocks_selected(m, s, c, order, n - 1), c, b),
            c,
            b,
            c.ir@.blocks[b.0 as int].len as int,
        )
    }
}

/// The bodies of blocks are not empty and consist of instructions of the function.
pub open spec fn blocks_are_full(f: FunctionView) -> bool {
    forall|b: int|
        0 <= b < f.blocks.len() ==> {
            &&& (#[trigger] f.blocks[b]).len > 0
            &&& f.blocks[b].body_idx + f.blocks[b].len <= f.insts.len()
        }
}

/// The arguments of the function.
pub open spec fn params(f: FunctionView) -> Seq<Ref> {
    Seq::new(
        f.blocks[0].arg_count as nat,
        |i: int| Ref((f.blocks[0].args_idx + i) as u32),
    )
}

/// The beginning of the selection.
pub open spec fn begun(
    c: Context,
    main_module: ModuleId,
    stack_size: u32,
    stack_slots: Seq<Layout>,
    plan: PlanView,
) -> IselView {
    let order = finish::postorder(c.ir@.blocks);
    IselView {
        main_module,
        stack_size,
        stack_slots,
        plan,
        counts: Seq::new(c.ir@.insts.len(), |i: int| isel::uses(c, Ref(i as u32)) as u32),
        gone: Seq::new(c.ir@.insts.len(), |i: int| false),
        next_blocks: isel::nexts(order, order.len() as int, c.ir@.blocks.len()),
    }
}

/// All values share one register at first.
pub open spec fn unassigned(f: FunctionView, types: Seq<TypeView>) -> SlotsView {
    SlotsView {
        map: Seq::new(f.insts.len(), |i: int| slots::slots_of(f, types, i) as u32),
        slots: Seq::new(
            slots::slots_of(f, types, f.insts.len() as int) as nat,
            |i: int| MCReg(0),
        ),
    }
}

proof fn lemma_selectable<S: Selector>(
    m: &S,
    s: IselView,
    c: Context,
    b: BlockId,
    k: int,
    n: int,
)
    requires
        0 <= k <= n,
        body_selectable(m, s, c, b, n),
    ensures
        body_selectable(m, s, c, b, k),
    decreases n,
{
    if k < n {
        lemma_selectable(m, s, c, b, k, n - 1);
    }
}

proof fn lemma_blocks_selectable<S: Selector>(
    m: &S,
    s: IselView,
    c: Context,
    order: Seq<BlockId>,
    k: int,
    n: int,
)
    requires
        0 <= k <= n,
        blocks_selectable(m, s, c, order, n),
    ensures
        blocks_selectable(m, s, c, order, k),
    decreases n,
{
    if k < n {
        lemma_blocks_selectable(m, s, c, order, k, n - 1);
    }
}

fn select_body<S: Selector>(m: &S, ctx: &mut IselCtx, c: &Context, b: BlockId)
    requires
        old(ctx)@.fits(*c),
        place::ok(old(ctx)@, *c),
        place::bodies_hold(*c),
        m.known(*c),
        blocks_are_full(c.ir@),
        b.0 < c.ir@.blocks.len(),
        body_selectable(m, old(ctx)@, *c, b, c.ir@.blocks[b.0 as int].len as int),
    ensures
        final(ctx)@ == body_selected(
            m,
            old(ctx)@,
            *c,
            b,
            c.ir@.blocks[b.0 as int].len as int,
        ),
        final(ctx)@.fits(*c),
        place::ok(final(ctx)@, *c),
{
    let ghost start = ctx@;
    let ghost view = c.ir@.blocks[b.0 as int];
    let info = &c.ir.blocks[b.idx()];
    assert(info@ == view);
    let end: u32 = info.body_idx + info.len;
    let len: u32 = info.len;
    let mut k: u32 = 0;
    while k < len
        invariant
            k <= len,
            end == view.body_idx + len,
            len == view.len,
            view == c.ir@.blocks[b.0 as int],
            b.0 < c.ir@.blocks.len(),
            end <= c.ir@.insts.len(),
            ctx@.fits(*c),
            place::ok(ctx@, *c),
            place::bodies_hold(*c),
            m.known(*c),
            body_selectable(m, start, *c, b, len as int),
            ctx@ == body_selected(m, start, *c, b, k as int),
        decreases len - k,
    {
        k += 1;
        let r: Ref = Ref(end - k);
        proof {
            lemma_selectable(m, start, *c, b, k as int, len as int);
            edit::bodies_are_placed(c.ir@, b.0 as int, r);
        }
        assert(r == from_end(*c, b, k as int));
        if !ctx.gone[r.idx()] {
            proof {
                m.steps_are_well_placed(ctx@, *c, b, r);
            }
            m.select_one(ctx, c, b, r);
        }
    }
}

/// Selects the instructions of blocks one after the other.
pub fn select_blocks<S: Selector>(m: &S, ctx: &mut IselCtx, c: &Context, order: &Vec<BlockId>)
    requires
        old(ctx)@.fits(*c),
        place::ok(old(ctx)@, *c),
        place::bodies_hold(*c),
        m.known(*c),
        blocks_are_full(c.ir@),
        forall|i: int| 0 <= i < order@.len() ==> (#[trigger] order@[i]).0 < c.ir@.blocks.len(),
        blocks_selectable(m, old(ctx)@, *c, order@, order@.len() as int),
    ensures
        final(ctx)@ == blocks_selected(m, old(ctx)@, *c, order@, order@.len() as int),
        final(ctx)@.fits(*c),
        place::ok(final(ctx)@, *c),
{
    let ghost start = ctx@;
    let mut n: usize = 0;
    while n < order.len()
        invariant
            n <= order@.len(),
            ctx@.fits(*c),
            place::ok(ctx@, *c),
            place::bodies_hold(*c),
            m.known(*c),
            blocks_are_full(c.ir@),
            forall|i: int| 0 <= i < order@.len() ==> (#[trigger] order@[i]).0 < c.ir@.blocks.len(),
            blocks_selectable(m, start, *c, order@, order@.len() as int),
            ctx@ == blocks_selected(m, start, *c, order@, n as int),
        decreases order.len() - n,
    {
        let b: BlockId = order[n];
        proof {
            lemma_blocks_selectable(m, start, *c, order@, n + 1, order@.len() as int);
            assert(order@[n as int].0 < c.ir@.blocks.len());
            let info = c.ir@.blocks[b.0 as int];
            edit::bodies_are_placed(c.ir@, b.0 as int, Ref(info.body_idx));
            m.known_machines_copy(*c);
            place::beginnings_are_well_placed(ctx@, *c, b);
        }
        ctx.begin_block(c, b);
        select_body(m, ctx, c, b);
        n += 1;
    }
}

} // verus!
