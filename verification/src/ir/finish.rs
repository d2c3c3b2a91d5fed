//! Putting a changed function together again.
//!
//! The instructions are laid out block by block in reverse postorder with the
//! added ones in their places. A block that ends in a jump to a block that
//! nothing else jumps to is continued with the contents of that block.
use vstd::prelude::*;

use crate::ir::env::Environment;
use crate::ir::function;
use crate::ir::function::{BlockInfo, BlockView, FunctionIr, FunctionView};
use crate::ir::ids::{BlockId, FunctionId, Ref};
use crate::ir::inst;
use crate::ir::inst::{
    all_params, is_stored_inline, read_slot, Argument, ArgumentView, Builtin, Instruction,
    Parameter,
};
use crate::ir::modify;
use crate::ir::modify::{AdditionalInst, Insert, IrModify, ModifyView};

verus! {

/// The value that a reference stands for after renaming.
pub open spec fn renamed(renames: Seq<Option<Ref>>, r: u32) -> u32 {
    if Ref(r).spec_is_ref() && r < renames.len() {
        match renames[r as int] {
            Some(n) => n.0,
            None => r,
        }
    } else {
        r
    }
}

fn rename_ref(renames: &Vec<Option<Ref>>, r: u32) -> (n: u32)
    ensures
        n == renamed(renames@, r),
{
    if Ref(r).is_ref() && (r as usize) < renames.len() {
        match renames[r as usize] {
            Some(n) => n.0,
            None => r,
        }
    } else {
        r
    }
}

/// The stored arguments with another number at position `k`.
pub open spec fn with_slot(
    inline: bool,
    args: [u32; 2],
    extra: Seq<u32>,
    k: int,
    v: u32,
) -> ([u32; 2], Seq<u32>) {
    if inline {
        (
            [
                if k == 0 {
                    v
                } else {
                    args[0]
                },
                if k == 1 {
                    v
                } else {
                    args[1]
                },
            ],
            extra,
        )
    } else if 0 <= k && args[0] + k < extra.len() {
        (args, extra.update(args[0] + k, v))
    } else {
        (args, extra)
    }
}

pub fn set_slot(inline: bool, args: [u32; 2], extra: &mut Vec<u32>, k: u64, v: u32) -> (new_args: [u32;
    2])
    requires
        k <= 0xffff_ffff_ffff,
    ensures
        (new_args, final(extra)@) == with_slot(inline, args, old(extra)@, k as int, v),
{
    if inline {
        let a: u32 = if k == 0 {
            v
        } else {
            args[0]
        };
        let b: u32 = if k == 1 {
            v
        } else {
            args[1]
        };
        let new_args: [u32; 2] = [a, b];
        assert(new_args =~= with_slot(inline, args, extra@, k as int, v).0);
        new_args
    } else {
        let at: u64 = args[0] as u64 + k;
        if at < extra.len() as u64 {
            extra.set(at as usize, v);
        }
        args
    }
}

/// `n` stored values with their references renamed.
pub open spec fn rename_range(
    extra: Seq<u32>,
    start: u32,
    n: u32,
    renames: Seq<Option<Ref>>,
) -> Seq<u32> {
    Seq::new(
        extra.len(),
        |j: int|
            if start <= j < start + n {
                renamed(renames, extra[j])
            } else {
                extra[j]
            },
    )
}

fn rename_stored(extra: &mut Vec<u32>, start: u32, n: u32, renames: &Vec<Option<Ref>>)
    ensures
        final(extra)@ == rename_range(old(extra)@, start, n, renames@),
{
    let ghost before = extra@;
    let mut i: u32 = 0;
    while i < n
        invariant
            i <= n,
            extra@.len() == before.len(),
            forall|j: int|
                0 <= j < before.len() ==> extra@[j] == if start <= j < start + i {
                    renamed(renames@, before[j])
                } else {
                    before[j]
                },
        decreases n - i,
    {
        let at: u64 = start as u64 + i as u64;
        if at < extra.len() as u64 {
            let v: u32 = rename_ref(renames, extra[at as usize]);
            extra.set(at as usize, v);
        }
        i += 1;
    }
    assert(extra@ =~= rename_range(before, start, n, renames@));
}

/// The stored arguments of the kinds `full` from position `k` on with their
/// references renamed.
pub open spec fn rename_from(
    full: Seq<Parameter>,
    k: int,
    inline: bool,
    args: [u32; 2],
    extra: Seq<u32>,
    blocks: Seq<BlockView>,
    renames: Seq<Option<Ref>>,
) -> ([u32; 2], Seq<u32>)
    decreases full.len(),
{
    if full.len() == 0 {
        (args, extra)
    } else {
        let (args1, extra1) = match full[0] {
            Parameter::Ref => with_slot(
                inline,
                args,
                extra,
                k,
                renamed(renames, inst::slot(inline, args, extra, k)),
            ),
            Parameter::BlockTarget => (
                args,
                rename_range(
                    extra,
                    inst::slot(inline, args, extra, k + 1),
                    inst::arg_count_of(blocks, inst::slot(inline, args, extra, k)),
                    renames,
                ),
            ),
            _ => (args, extra),
        };
        rename_from(
            full.skip(1),
            k + full[0].spec_slot_count(),
            inline,
            args1,
            extra1,
            blocks,
            renames,
        )
    }
}

/// The parameters of an instruction; an unknown one has none.
pub open spec fn known_params(env: &Environment, inst: Instruction) -> Seq<Parameter> {
    if env.has(inst.function) {
        inst::full_params(
            env.def(inst.function).params@,
            env.def(inst.function).varargs,
            inst.args,
        )
    } else {
        Seq::empty()
    }
}

pub open spec fn known_inline(env: &Environment, inst: Instruction) -> bool {
    env.has(inst.function) && inst::stored_inline(
        env.def(inst.function).params@,
        env.def(inst.function).varargs,
    )
}

/// Signatures are of a reasonable length.
pub open spec fn signatures_fit(env: &Environment) -> bool {
    forall|f: FunctionId| #[trigger] env.has(f) ==> env.def(f).params@.len() <= u32::MAX
}

fn params_of(env: &Environment, inst: Instruction) -> (r: (Vec<Parameter>, bool))
    requires
        signatures_fit(env),
    ensures
        r.0@ == known_params(env, inst),
        r.1 == known_inline(env, inst),
        r.0@.len() <= 0x1_ffff_ffff,
{
    if env.contains(inst.function) {
        let def = env.get(inst.function);
        (all_params(&def.params, def.varargs, inst.args), is_stored_inline(&def.params, def.varargs))
    } else {
        (Vec::new(), false)
    }
}

/// The instruction and the stored values after renaming.
pub open spec fn rename_inst(
    env: &Environment,
    inst: Instruction,
    extra: Seq<u32>,
    blocks: Seq<BlockView>,
    renames: Seq<Option<Ref>>,
) -> (Instruction, Seq<u32>) {
    let (args, extra1) = rename_from(
        known_params(env, inst),
        0,
        known_inline(env, inst),
        inst.args,
        extra,
        blocks,
        renames,
    );
    (Instruction { args, ..inst }, extra1)
}

fn visit_inst(
    env: &Environment,
    inst: Instruction,
    extra: &mut Vec<u32>,
    blocks: &Vec<BlockInfo>,
    renames: &Vec<Option<Ref>>,
) -> (new_inst: Instruction)
    requires
        signatures_fit(env),
    ensures
        (new_inst, final(extra)@) == rename_inst(
            env,
            inst,
            old(extra)@,
            function::block_views(blocks@),
            renames@,
        ),
{
    let ghost extra0 = extra@;
    let ghost views = function::block_views(blocks@);
    let (full, inline) = params_of(env, inst);
    let mut args: [u32; 2] = inst.args;
    let mut k: u64 = 0;
    let mut i: usize = 0;
    assert(full@.skip(0) =~= full@);
    while i < full.len()
        invariant
            i <= full@.len(),
            full@.len() <= 0x1_ffff_ffff,
            k <= 2 * i,
            views == function::block_views(blocks@),
            full@ == known_params(env, inst),
            inline == known_inline(env, inst),
            rename_from(full@, 0, inline, inst.args, extra0, views, renames@) == rename_from(
                full@.skip(i as int),
                k as int,
                inline,
                args,
                extra@,
                views,
                renames@,
            ),
        decreases full.len() - i,
    {
        assert(full@.skip(i as int).skip(1) =~= full@.skip(i + 1));
        assert(full@.skip(i as int)[0] == full@[i as int]);
        match full[i] {
            Parameter::Ref => {
                let v: u32 = rename_ref(renames, read_slot(inline, args, extra, k));
                args = set_slot(inline, args, extra, k, v);
            },
            Parameter::BlockTarget => {
                let b: u32 = read_slot(inline, args, extra, k);
                let start: u32 = read_slot(inline, args, extra, k + 1);
                let n: u32 = if (b as usize) < blocks.len() {
                    blocks[b as usize].arg_count
                } else {
                    0
                };
                rename_stored(extra, start, n, renames);
            },
            _ => {},
        }
        k += full[i].slot_count() as u64;
        i += 1;
    }
    assert(full@.skip(i as int).len() == 0);
    Instruction { function: inst.function, args, ty: inst.ty }
}

/// An instruction in its place.
#[derive(Clone, Copy, Debug)]
pub struct Item {
    pub r: Ref,
    pub inst: Instruction,
    pub added: bool,
}

/// The instructions that were added at a place, in the order in which they were
/// added. The first added instruction has the number `base`.
pub open spec fn added_at(
    additional: Seq<AdditionalInst>,
    base: nat,
    at: u32,
    position: Insert,
) -> Seq<Item>
    decreases additional.len(),
{
    if additional.len() == 0 {
        Seq::empty()
    } else {
        let rest = added_at(additional.drop_last(), base, at, position);
        let last = additional.last();
        if last.insert_at.0 == at && last.position == position {
            rest.push(
                Item {
                    r: Ref((base + additional.len() - 1) as u32),
                    inst: last.inst,
                    added: true,
                },
            )
        } else {
            rest
        }
    }
}

/// What stands at a place: the instruction there, unless the block is a new one,
/// between the instructions added before and after it.
pub open spec fn items_at(v: ModifyView, at: int, is_new: bool) -> Seq<Item> {
    let base = v.ir.insts.len();
    let own = if is_new {
        Seq::empty()
    } else {
        seq![Item { r: Ref(at as u32), inst: v.ir.insts[at], added: false }]
    };
    added_at(v.additional, base, at as u32, Insert::Before) + own + added_at(
        v.additional,
        base,
        at as u32,
        Insert::After,
    )
}

pub open spec fn items_between(v: ModifyView, from: int, to: int, is_new: bool) -> Seq<Item>
    decreases to - from,
{
    if from >= to {
        Seq::empty()
    } else {
        items_between(v, from, to - 1, is_new) + items_at(v, to - 1, is_new)
    }
}

/// The block was added.
pub open spec fn is_new_block(v: ModifyView, b: int) -> bool {
    v.ir.blocks[b].args_idx >= v.ir.insts.len()
}

/// The contents of a block: its arguments and its body.
pub open spec fn block_items(v: ModifyView, b: int) -> Seq<Item> {
    let info = v.ir.blocks[b];
    if is_new_block(v, b) {
        items_between(v, info.args_idx as int, info.body_idx + 1, true)
    } else {
        items_between(v, info.args_idx as int, info.body_idx + info.len, false)
    }
}

fn push_added(m: &IrModify, at: u32, position: Insert, items: &mut Vec<Item>)
    requires
        m@.count() <= u32::MAX,
    ensures
        final(items)@ == old(items)@ + added_at(m@.additional, m@.ir.insts.len(), at, position),
{
    let ghost before = items@;
    let n: usize = m.ir.insts.len();
    let mut i: usize = 0;
    assert(m@.additional.take(0) =~= Seq::empty());
    while i < m.additional.len()
        invariant
            i <= m.additional@.len(),
            n == m.ir.insts@.len(),
            m@.count() <= u32::MAX,
            items@ =~= before + added_at(
                m@.additional.take(i as int),
                m@.ir.insts.len(),
                at,
                position,
            ),
        decreases m.additional.len() - i,
    {
        proof {
            assert(m@.additional.take(i + 1).drop_last() =~= m@.additional.take(i as int));
        }
        let added: AdditionalInst = m.additional[i];
        if added.insert_at.0 == at && added.position == position {
            items.push(Item { r: Ref((n + i) as u32), inst: added.inst, added: true });
        }
        i += 1;
    }
    assert(m@.additional.take(i as int) =~= m@.additional);
}

/// The function is laid out as blocks say: the contents of an existing block are
/// existing instructions.
pub open spec fn layout_fits(v: ModifyView) -> bool {
    &&& v.count() <= u32::MAX
    &&& v.ir.blocks.len() <= u32::MAX
    &&& forall|b: int|
        0 <= b < v.ir.blocks.len() ==> {
            let info = #[trigger] v.ir.blocks[b];
            if is_new_block(v, b) {
                info.body_idx < u32::MAX
            } else {
                info.body_idx + info.len <= v.ir.insts.len()
            }
        }
}

fn collect_items(m: &IrModify, b: usize) -> (items: Vec<Item>)
    requires
        b < m@.ir.blocks.len(),
        layout_fits(m@),
    ensures
        items@ == block_items(m@, b as int),
{
    let info = &m.ir.blocks[b];
    assert(info@ == m@.ir.blocks[b as int]);
    let is_new: bool = info.args_idx as usize >= m.ir.insts.len();
    let from: u32 = info.args_idx;
    let to: u32 = if is_new {
        info.body_idx + 1
    } else {
        info.body_idx + info.len
    };
    let mut items: Vec<Item> = Vec::new();
    let mut at: u32 = from;
    while at < to
        invariant
            from <= at,
            at <= to || at == from,
            layout_fits(m@),
            !is_new ==> to <= m@.ir.insts.len(),
            items@ == items_between(m@, from as int, at as int, is_new),
        decreases to - at,
    {
        push_added(m, at, Insert::Before, &mut items);
        if !is_new {
            items.push(Item { r: Ref(at), inst: m.ir.insts[at as usize], added: false });
        }
        push_added(m, at, Insert::After, &mut items);
        assert(items@ =~= items_between(m@, from as int, at as int, is_new) + items_at(
            m@,
            at as int,
            is_new,
        ));
        at += 1;
    }
    proof {
        if from > to {
            assert(items_between(m@, from as int, to as int, is_new) =~= Seq::empty());
        }
    }
    items
}

/// The function as far as it is put together.
pub struct Linearizer {
    pub insts: Vec<Instruction>,
    pub extra: Vec<u32>,
    pub blocks: Vec<BlockInfo>,
    pub renames: Vec<Option<Ref>>,
    pub visited: Vec<bool>,
    /// Blocks that became part of another one.
    pub merged: Vec<bool>,
    /// The block that is being put together.
    pub target: BlockId,
    /// The number of instructions in its body.
    pub body_count: usize,
    /// The values of the arguments of a block that became part of it, those that
    /// are still to be used last.
    pub pending: Vec<Ref>,
    pub pending_used: usize,
}

#[verifier::ext_equal]
pub struct Work {
    pub insts: Seq<Instruction>,
    pub extra: Seq<u32>,
    pub blocks: Seq<BlockView>,
    pub renames: Seq<Option<Ref>>,
    pub visited: Seq<bool>,
    pub merged: Seq<bool>,
    pub target: BlockId,
    pub body_count: nat,
    pub pending: Seq<Ref>,
}

impl View for Linearizer {
    type V = Work;

    open spec fn view(&self) -> Work {
        Work {
            insts: self.insts@,
            extra: self.extra@,
            blocks: function::block_views(self.blocks@),
            renames: self.renames@,
            visited: self.visited@,
            merged: self.merged@,
            target: self.target,
            body_count: self.body_count as nat,
            pending: self.pending@.skip(self.pending_used as int),
        }
    }
}

impl Work {
    pub open spec fn rename(self, r: Ref, new: Ref) -> Work {
        if r.0 < self.renames.len() {
            Work { renames: self.renames.update(r.0 as int, Some(new)), ..self }
        } else {
            self
        }
    }

    /// The instruction is the next one of the function.
    pub open spec fn push(self, r: Ref, inst: Instruction) -> Work {
        let renamed = self.rename(r, Ref(self.insts.len() as u32));
        Work { insts: self.insts.push(inst), ..renamed }
    }

    /// The block and the arguments of an unconditional jump that can be left out:
    /// nothing else jumps to the block.
    pub open spec fn merge_target(
        self,
        env: &Environment,
        compress: bool,
        inst: Instruction,
    ) -> Option<(BlockId, Seq<Ref>)> {
        if compress && env.goto == Some(inst.function) && env.has(inst.function) {
            let args = inst::args_of(
                env.def(inst.function).params@,
                env.def(inst.function).varargs,
                inst.args,
                self.extra,
                self.blocks,
            );
            if args.len() > 0 {
                match args[0] {
                    ArgumentView::BlockTarget(t, values) => if t.0 < self.blocks.len()
                        && self.blocks[t.0 as int].preds.len() == 1 && t.0 < self.visited.len()
                        && !self.visited[t.0 as int] {
                        Some((t, values))
                    } else {
                        None
                    },
                    _ => None,
                }
            } else {
                None
            }
        } else {
            None
        }
    }

    /// The block `t` becomes part of the block that is being put together: its
    /// successors become successors of that one.
    pub open spec fn merge(self, t: BlockId, values: Seq<Ref>, goto_ref: Ref) -> Work {
        let succs = self.blocks[t.0 as int].succs;
        let cleared = self.blocks.update(
            t.0 as int,
            BlockView { succs: Seq::empty(), ..self.blocks[t.0 as int] },
        );
        let redirected = modify::redirect_preds(cleared, succs, t, self.target);
        let blocks = redirected.update(
            self.target.0 as int,
            BlockView { succs, ..redirected[self.target.0 as int] },
        );
        Work {
            blocks,
            merged: self.merged.update(t.0 as int, true),
            pending: values,
            ..self.rename(goto_ref, Ref::unit())
        }
    }

    /// Takes one instruction over. The result names the block with which to go on
    /// where the instruction is a jump that is left out.
    pub open spec fn step(self, env: &Environment, compress: bool, item: Item) -> (
        Work,
        Option<BlockId>,
    ) {
        if item.added && item.inst.is_builtin(Builtin::Nothing) {
            (self, None)
        } else {
            let (inst, extra) = rename_inst(env, item.inst, self.extra, self.blocks, self.renames);
            let w = Work { extra, ..self };
            if !item.added && inst.is_builtin(Builtin::Nothing) {
                (w.rename(item.r, Ref::unit()), None)
            } else if !item.added && inst.is_builtin(Builtin::Copy) {
                (w.rename(item.r, Ref(inst.args[0])), None)
            } else if inst.is_builtin(Builtin::BlockArg) {
                if w.pending.len() > 0 {
                    (
                        Work {
                            pending: w.pending.skip(1),
                            ..w.rename(item.r, w.pending[0])
                        },
                        None,
                    )
                } else {
                    (w.push(item.r, inst), None)
                }
            } else {
                match w.merge_target(env, compress, inst) {
                    Some((t, values)) => (w.merge(t, values, item.r), Some(t)),
                    None => (
                        Work { body_count: w.body_count + 1, ..w.push(item.r, inst) },
                        None,
                    ),
                }
            }
        }
    }

    /// Takes instructions over from position `i` on, up to a jump that is left out.
    pub open spec fn run(self, env: &Environment, compress: bool, items: Seq<Item>, i: nat) -> (
        Work,
        Option<BlockId>,
    )
        decreases items.len() - i,
    {
        if i >= items.len() {
            (self, None)
        } else {
            match self.step(env, compress, items[i as int]) {
                (w, Some(t)) => (w, Some(t)),
                (w, None) => w.run(env, compress, items, i + 1),
            }
        }
    }

    /// Begins a block at the end of the function. Without arguments a place to
    /// insert them is kept.
    pub open spec fn begin(self, b: BlockId) -> Work {
        let info = self.blocks[b.0 as int];
        let start = self.insts.len();
        Work {
            insts: if info.arg_count == 0 {
                self.insts.push(Instruction::spec_nothing())
            } else {
                self.insts
            },
            blocks: self.blocks.update(
                b.0 as int,
                BlockView {
                    args_idx: start as u32,
                    body_idx: if info.arg_count == 0 {
                        (start + 1) as u32
                    } else {
                        (start + info.arg_count) as u32
                    },
                    ..info
                },
            ),
            target: b,
            body_count: 0,
            pending: Seq::empty(),
            ..self
        }
    }

    pub open spec fn visit(self, b: BlockId) -> Work {
        Work { visited: self.visited.update(b.0 as int, true), ..self }
    }

    /// Takes over a block and the blocks that become part of it. There are at most
    /// `fuel` of these.
    pub open spec fn chain(
        self,
        env: &Environment,
        compress: bool,
        items: Seq<Seq<Item>>,
        b: BlockId,
        fuel: nat,
    ) -> Work
        decreases fuel,
    {
        let (w, next) = self.visit(b).run(env, compress, items[b.0 as int], 0);
        match next {
            Some(t) => if fuel > 0 {
                w.chain(env, compress, items, t, (fuel - 1) as nat)
            } else {
                w
            },
            None => w,
        }
    }

    /// The length of the block is known at its end.
    pub open spec fn end(self) -> Work {
        let t = self.target.0 as int;
        Work {
            blocks: self.blocks.update(
                t,
                BlockView { len: self.body_count as u32, ..self.blocks[t] },
            ),
            ..self
        }
    }

    /// Puts all blocks together in the given order.
    pub open spec fn all(
        self,
        env: &Environment,
        compress: bool,
        items: Seq<Seq<Item>>,
        order: Seq<BlockId>,
        i: nat,
    ) -> Work
        decreases order.len() - i,
    {
        if i >= order.len() {
            self
        } else {
            let b = order[i as int];
            let w = if self.visited[b.0 as int] {
                self
            } else {
                self.begin(b).chain(env, compress, items, b, self.blocks.len()).end()
            };
            w.all(env, compress, items, order, i + 1)
        }
    }

    /// The tables cover all blocks.
    pub open spec fn sized(self, n: nat) -> bool {
        &&& self.blocks.len() == n
        &&& self.visited.len() == n
        &&& self.merged.len() == n
    }
}

proof fn lemma_redirect_len(blocks: Seq<BlockView>, succs: Seq<BlockId>, from: BlockId, to: BlockId)
    ensures
        modify::redirect_preds(blocks, succs, from, to).len() == blocks.len(),
    decreases succs.len(),
{
    if succs.len() > 0 {
        lemma_redirect_len(blocks, succs.drop_last(), from, to);
    }
}

impl Linearizer {
    spec fn ok(self, n: nat) -> bool {
        &&& self@.sized(n)
        &&& self.pending_used <= self.pending@.len()
        &&& self.target.0 < n
        &&& self.body_count <= self.insts@.len()
    }

    fn rename(&mut self, r: Ref, new: Ref)
        requires
            old(self).pending_used <= old(self).pending@.len(),
        ensures
            final(self)@ == old(self)@.rename(r, new),
            final(self).pending_used == old(self).pending_used,
            final(self).pending == old(self).pending,
            final(self).body_count == old(self).body_count,
    {
        if r.idx() < self.renames.len() {
            self.renames.set(r.idx(), Some(new));
        }
        assert(self@ =~= old(self)@.rename(r, new));
    }

    fn push(&mut self, r: Ref, inst: Instruction)
        requires
            old(self).pending_used <= old(self).pending@.len(),
        ensures
            final(self)@ == old(self)@.push(r, inst),
            final(self).pending_used == old(self).pending_used,
            final(self).pending == old(self).pending,
            final(self).body_count == old(self).body_count,
    {
        let new_r: Ref = Ref(self.insts.len() as u32);
        self.rename(r, new_r);
        self.insts.push(inst);
        assert(self@ =~= old(self)@.push(r, inst));
    }

    fn find_merge_target(&self, env: &Environment, compress: bool, inst: Instruction) -> (found:
        Option<(BlockId, Vec<Ref>)>)
        requires
            signatures_fit(env),
        ensures
            match found {
                Some((t, values)) => self@.merge_target(env, compress, inst) == Some((t, values@)),
                None => self@.merge_target(env, compress, inst) is None,
            },
    {
        if !compress {
            return None;
        }
        match env.goto {
            None => {
                return None;
            },
            Some(goto) => {
                if goto != inst.function {
                    return None;
                }
            },
        }
        if !env.contains(inst.function) {
            return None;
        }
        let def = env.get(inst.function);
        let mut args: Vec<Argument> = inst::decode_args(
            &def.params,
            def.varargs,
            inst.args,
            &self.extra,
            &self.blocks,
        );
        let ghost decoded = args@;
        assert(inst::views(decoded).len() == decoded.len());
        if args.len() == 0 {
            return None;
        }
        let first: Argument = args.remove(0);
        assert(inst::views(decoded)[0] == first@);
        match first {
            Argument::BlockTarget(t, values) => {
                if t.idx() < self.blocks.len() {
                    assert(self.blocks@[t.0 as int]@ == self@.blocks[t.0 as int]);
                    if self.blocks[t.idx()].preds.len() == 1 && t.idx() < self.visited.len()
                        && !self.visited[t.idx()] {
                        return Some((t, values));
                    }
                }
                None
            },
            _ => None,
        }
    }

    fn merge(&mut self, t: BlockId, values: Vec<Ref>, goto_ref: Ref, n: Ghost<nat>)
        requires
            old(self).ok(n@),
            t.0 < n@,
        ensures
            final(self)@ == old(self)@.merge(t, values@, goto_ref),
            final(self).ok(n@),
    {
        let ghost before = self@;
        let target: BlockId = self.target;
        let mut succs: Vec<BlockId> = Vec::new();
        assert(self.blocks@[t.0 as int]@ == before.blocks[t.0 as int]);
        succs.append(&mut self.blocks[t.idx()].succs);
        let ghost all = succs@;
        let ghost cleared = before.blocks.update(
            t.0 as int,
            BlockView { succs: Seq::empty(), ..before.blocks[t.0 as int] },
        );
        proof {
            assert(self.blocks@[t.0 as int]@ =~= cleared[t.0 as int]);
            assert(self@.blocks =~= cleared);
            assert(all.take(0) =~= Seq::empty());
        }
        let mut i: usize = 0;
        while i < succs.len()
            invariant
                i <= succs@.len(),
                all == succs@,
                self@ =~= (Work { blocks: self@.blocks, ..before }),
                self@.blocks =~= modify::redirect_preds(cleared, all.take(i as int), t, target),
                cleared.len() == n@,
                self.pending_used <= self.pending@.len(),
                self.body_count <= self.insts@.len(),
            decreases succs.len() - i,
        {
            proof {
                assert(all.take(i + 1).drop_last() =~= all.take(i as int));
                assert(all.take(i + 1).last() == all[i as int]);
            }
            let s: BlockId = succs[i];
            if s != t && s.idx() < self.blocks.len() {
                let ghost blocks_before = self@.blocks;
                assert(self.blocks@[s.0 as int]@ == blocks_before[s.0 as int]);
                self.blocks[s.idx()].replace_pred(t, target);
                proof {
                    assert(self.blocks@[s.0 as int]@ == self@.blocks[s.0 as int]);
                    assert forall|k: int| 0 <= k < blocks_before.len() && k != s.0 implies
                        self@.blocks[k] == blocks_before[k] by {}
                    assert(self@.blocks =~= modify::redirect_preds(
                        cleared,
                        all.take(i + 1),
                        t,
                        target,
                    ));
                }
            }
            i += 1;
        }
        assert(all.take(i as int) =~= all);
        let ghost redirected = self@.blocks;
        proof {
            lemma_redirect_len(cleared, all, t, target);
        }
        assert(self.blocks@[target.0 as int]@ == redirected[target.0 as int]);
        self.blocks[target.idx()].succs = succs;
        proof {
            let goal = redirected.update(
                target.0 as int,
                BlockView { succs: all, ..redirected[target.0 as int] },
            );
            assert(self.blocks@[target.0 as int]@ =~= goal[target.0 as int]);
            assert(self@.blocks =~= goal);
        }
        self.merged.set(t.idx(), true);
        self.rename(goto_ref, Ref::unit());
        self.pending = values;
        self.pending_used = 0;
        proof {
            assert(self.pending@.skip(0) =~= values@);
            assert(self@ =~= before.merge(t, values@, goto_ref));
        }
    }

    fn step(&mut self, env: &Environment, compress: bool, item: Item, n: Ghost<nat>) -> (next: Option<
        BlockId,
    >)
        requires
            old(self).ok(n@),
            signatures_fit(env),
        ensures
            (final(self)@, next) == old(self)@.step(env, compress, item),
            final(self).ok(n@),
            next matches Some(t) ==> t.0 < n@ && !final(self)@.visited[t.0 as int],
            final(self)@.visited == old(self)@.visited,
    {
        if item.added && item.inst.is(Builtin::Nothing) {
            return None;
        }
        let ghost before = self@;
        let inst: Instruction = visit_inst(
            env,
            item.inst,
            &mut self.extra,
            &self.blocks,
            &self.renames,
        );
        let ghost w = Work {
            extra: rename_inst(
                env,
                item.inst,
                before.extra,
                before.blocks,
                before.renames,
            ).1,
            ..before
        };
        assert(self@ =~= w);
        if !item.added && inst.is(Builtin::Nothing) {
            self.rename(item.r, Ref::unit());
            return None;
        }
        if !item.added && inst.is(Builtin::Copy) {
            self.rename(item.r, Ref(inst.args[0]));
            return None;
        }
        if inst.is(Builtin::BlockArg) {
            if self.pending_used < self.pending.len() {
                let value: Ref = self.pending[self.pending_used];
                assert(value == w.pending[0]);
                self.rename(item.r, value);
                self.pending_used = self.pending_used + 1;
                assert(self.pending@.skip(self.pending_used as int) =~= w.pending.skip(1));
                assert(self@ =~= (Work {
                    pending: w.pending.skip(1),
                    ..w.rename(item.r, w.pending[0])
                }));
            } else {
                self.push(item.r, inst);
            }
            return None;
        }
        match self.find_merge_target(env, compress, inst) {
            Some((t, values)) => {
                self.merge(t, values, item.r, n);
                Some(t)
            },
            None => {
                self.push(item.r, inst);
                let len: usize = self.insts.len();
                assert(self.body_count < len);
                self.body_count = self.body_count + 1;
                assert(self@ =~= (Work { body_count: w.body_count + 1, ..w.push(item.r, inst) }));
                None
            },
        }
    }

    fn run(&mut self, env: &Environment, compress: bool, items: &Vec<Item>, n: Ghost<nat>) -> (next:
        Option<BlockId>)
        requires
            old(self).ok(n@),
            signatures_fit(env),
        ensures
            (final(self)@, next) == old(self)@.run(env, compress, items@, 0),
            final(self).ok(n@),
            next matches Some(t) ==> t.0 < n@ && !final(self)@.visited[t.0 as int],
            final(self)@.visited == old(self)@.visited,
    {
        let mut i: usize = 0;
        while i < items.len()
            invariant
                i <= items@.len(),
                self.ok(n@),
                signatures_fit(env),
                self@.visited == old(self)@.visited,
                old(self)@.run(env, compress, items@, 0) == self@.run(
                    env,
                    compress,
                    items@,
                    i as nat,
                ),
            decreases items.len() - i,
        {
            match self.step(env, compress, items[i], n) {
                Some(t) => {
                    return Some(t);
                },
                None => {},
            }
            i += 1;
        }
        None
    }

    fn chain(
        &mut self,
        env: &Environment,
        compress: bool,
        items: &Vec<Vec<Item>>,
        b: BlockId,
        n: Ghost<nat>,
    )
        requires
            old(self).ok(n@),
            signatures_fit(env),
            b.0 < n@,
            items@.len() == n@,
        ensures
            final(self)@ == old(self)@.chain(env, compress, item_views(items@), b, n@),
            final(self).ok(n@),
    {
        let mut current: BlockId = b;
        let mut fuel: usize = items.len();
        loop
            invariant_except_break
                old(self)@.chain(env, compress, item_views(items@), b, n@) == self@.chain(
                    env,
                    compress,
                    item_views(items@),
                    current,
                    fuel as nat,
                ),
            invariant
                self.ok(n@),
                signatures_fit(env),
                current.0 < n@,
                items@.len() == n@,
            ensures
                self.ok(n@),
                old(self)@.chain(env, compress, item_views(items@), b, n@) == self@,
            decreases fuel,
        {
            let ghost before = self@;
            self.visited.set(current.idx(), true);
            assert(self@ =~= before.visit(current));
            assert(item_views(items@)[current.0 as int] == items@[current.0 as int]@);
            match self.run(env, compress, &items[current.idx()], n) {
                Some(t) => {
                    if fuel == 0 {
                        break;
                    }
                    fuel = fuel - 1;
                    current = t;
                },
                None => {
                    break;
                },
            }
        }
    }

    fn begin(&mut self, b: BlockId, n: Ghost<nat>)
        requires
            old(self)@.sized(n@),
            b.0 < n@,
        ensures
            final(self)@ == old(self)@.begin(b),
            final(self).ok(n@),
    {
        let ghost before = self@;
        assert(self.blocks@[b.0 as int]@ == before.blocks[b.0 as int]);
        let arg_count: u32 = self.blocks[b.idx()].arg_count;
        let start: usize = self.insts.len();
        self.blocks[b.idx()].args_idx = start as u32;
        if arg_count == 0 {
            // add a block arg insert point in case there are no block args
            self.insts.push(Instruction::nothing());
            self.blocks[b.idx()].body_idx = (start as u128 + 1) as u32;
        } else {
            self.blocks[b.idx()].body_idx = (start as u128 + arg_count as u128) as u32;
        }
        self.target = b;
        self.body_count = 0;
        self.pending = Vec::new();
        self.pending_used = 0;
        proof {
            let goal = before.begin(b);
            assert(self.blocks@[b.0 as int]@ =~= goal.blocks[b.0 as int]);
            assert(self@.blocks =~= goal.blocks);
            assert(self@ =~= goal);
        }
    }

    fn end(&mut self, n: Ghost<nat>)
        requires
            old(self).ok(n@),
        ensures
            final(self)@ == old(self)@.end(),
            final(self).ok(n@),
    {
        let ghost before = self@;
        let t: BlockId = self.target;
        assert(self.blocks@[t.0 as int]@ == before.blocks[t.0 as int]);
        self.blocks[t.idx()].len = self.body_count as u32;
        proof {
            let goal = before.end();
            assert(self.blocks@[t.0 as int]@ =~= goal.blocks[t.0 as int]);
            assert(self@.blocks =~= goal.blocks);
            assert(self@ =~= goal);
        }
    }

    fn all(
        &mut self,
        env: &Environment,
        compress: bool,
        items: &Vec<Vec<Item>>,
        order: &Vec<BlockId>,
    )
        requires
            old(self)@.sized(items@.len()),
            signatures_fit(env),
            forall|i: int| 0 <= i < order@.len() ==> (#[trigger] order@[i]).0 < items@.len(),
        ensures
            final(self)@ == old(self)@.all(env, compress, item_views(items@), order@, 0),
            final(self)@.sized(items@.len()),
    {
        let ghost n: nat = items@.len();
        let mut i: usize = 0;
        while i < order.len()
            invariant
                i <= order@.len(),
                n == items@.len(),
                self@.sized(n),
                signatures_fit(env),
                forall|i: int| 0 <= i < order@.len() ==> (#[trigger] order@[i]).0 < items@.len(),
                old(self)@.all(env, compress, item_views(items@), order@, 0) == self@.all(
                    env,
                    compress,
                    item_views(items@),
                    order@,
                    i as nat,
                ),
            decreases order.len() - i,
        {
            let b: BlockId = order[i];
            if !self.visited[b.idx()] {
                self.begin(b, Ghost(n));
                self.chain(env, compress, items, b, Ghost(n));
                self.end(Ghost(n));
            }
            i += 1;
        }
    }
}

pub open spec fn item_views(items: Seq<Vec<Item>>) -> Seq<Seq<Item>> {
    items.map_values(|v: Vec<Item>| v@)
}

/// Which blocks were reached, and in which order they were left.
pub struct Traversal {
    pub visited: Seq<bool>,
    pub order: Seq<BlockId>,
}

/// Visits a block and then leaves it. No path is longer than `fuel`.
pub open spec fn postorder_from(
    blocks: Seq<BlockView>,
    fuel: nat,
    b: BlockId,
    t: Traversal,
) -> Traversal
    decreases fuel, 0nat,
{
    if fuel == 0 || b.0 >= blocks.len() || t.visited[b.0 as int] {
        t
    } else {
        let entered = Traversal { visited: t.visited.update(b.0 as int, true), ..t };
        let done = postorder_all(
            blocks,
            (fuel - 1) as nat,
            blocks[b.0 as int].succs,
            entered,
        );
        Traversal { order: done.order.push(b), ..done }
    }
}

/// Visits blocks one after the other.
pub open spec fn postorder_all(
    blocks: Seq<BlockView>,
    fuel: nat,
    list: Seq<BlockId>,
    t: Traversal,
) -> Traversal
    decreases fuel, list.len() + 1,
{
    if list.len() == 0 {
        t
    } else {
        postorder_from(
            blocks,
            fuel,
            list.last(),
            postorder_all(blocks, fuel, list.drop_last(), t),
        )
    }
}

/// The blocks that can be reached from the entry, each behind those reached
/// through it.
pub open spec fn postorder(blocks: Seq<BlockView>) -> Seq<BlockId> {
    postorder_from(
        blocks,
        blocks.len(),
        BlockId::entry(),
        Traversal {
            visited: Seq::new(blocks.len(), |i: int| false),
            order: Seq::empty(),
        },
    ).order
}

fn visit_postorder(
    blocks: &Vec<BlockInfo>,
    fuel: usize,
    b: BlockId,
    visited: &mut Vec<bool>,
    order: &mut Vec<BlockId>,
)
    requires
        old(visited)@.len() == blocks@.len(),
        forall|i: int| 0 <= i < old(order)@.len() ==> (#[trigger] old(order)@[i]).0 < blocks@.len(),
    ensures
        (Traversal { visited: final(visited)@, order: final(order)@ }) == postorder_from(
            function::block_views(blocks@),
            fuel as nat,
            b,
            (Traversal { visited: old(visited)@, order: old(order)@ }),
        ),
        final(visited)@.len() == blocks@.len(),
        forall|i: int|
            0 <= i < final(order)@.len() ==> (#[trigger] final(order)@[i]).0 < blocks@.len(),
    decreases fuel,
{
    if fuel == 0 || b.idx() >= blocks.len() || visited[b.idx()] {
        return;
    }
    let ghost views = function::block_views(blocks@);
    visited.set(b.idx(), true);
    let ghost entered = Traversal { visited: visited@, order: order@ };
    assert(blocks@[b.0 as int]@ == views[b.0 as int]);
    let list = &blocks[b.idx()].succs;
    let mut i: usize = 0;
    assert(list@.take(0) =~= Seq::empty());
    while i < list.len()
        invariant
            i <= list@.len(),
            fuel > 0,
            views == function::block_views(blocks@),
            (Traversal { visited: visited@, order: order@ }) == postorder_all(
                views,
                (fuel - 1) as nat,
                list@.take(i as int),
                entered,
            ),
            visited@.len() == blocks@.len(),
            forall|i: int| 0 <= i < order@.len() ==> (#[trigger] order@[i]).0 < blocks@.len(),
        decreases list.len() - i,
    {
        assert(list@.take(i + 1).drop_last() =~= list@.take(i as int));
        visit_postorder(blocks, fuel - 1, list[i], visited, order);
        i += 1;
    }
    assert(list@.take(i as int) =~= list@);
    order.push(b);
}

/// The blocks that can be reached from the entry, in postorder.
pub fn compute_postorder(blocks: &Vec<BlockInfo>) -> (order: Vec<BlockId>)
    ensures
        order@ == postorder(function::block_views(blocks@)),
        forall|i: int| 0 <= i < order@.len() ==> (#[trigger] order@[i]).0 < blocks@.len(),
{
    let n: usize = blocks.len();
    let mut visited: Vec<bool> = Vec::new();
    let mut i: usize = 0;
    while i < n
        invariant
            i <= n,
            visited@ =~= Seq::new(i as nat, |i: int| false),
        decreases n - i,
    {
        visited.push(false);
        i += 1;
    }
    let mut order: Vec<BlockId> = Vec::new();
    visit_postorder(blocks, n, BlockId::entry(), &mut visited, &mut order);
    order
}

/// Blocks without those that are gone. The last block takes the place of one that
/// is taken out; `names` tells which block went where.
pub open spec fn compacted(
    blocks: Seq<BlockView>,
    gone: Seq<bool>,
    names: Seq<Option<u32>>,
) -> (Seq<BlockView>, Seq<Option<u32>>)
    decreases blocks.len(),
{
    match first_gone(gone) {
        None => (blocks, names),
        Some(i) => if !(0 <= i < blocks.len()) || gone.len() != blocks.len() {
            (blocks, names)
        } else if gone.last() {
            compacted(blocks.drop_last(), gone.drop_last(), names)
        } else {
            compacted(
                blocks.update(i, blocks.last()).drop_last(),
                gone.update(i, false).drop_last(),
                names.update(blocks.len() - 1, Some(i as u32)),
            )
        },
    }
}

pub open spec fn first_gone(gone: Seq<bool>) -> Option<int>
    decreases gone.len(),
{
    if gone.len() == 0 {
        None
    } else {
        match first_gone(gone.drop_last()) {
            Some(i) => Some(i),
            None => if gone.last() {
                Some(gone.len() - 1)
            } else {
                None
            },
        }
    }
}

fn find_gone(gone: &Vec<bool>) -> (found: Option<usize>)
    ensures
        match found {
            Some(i) => first_gone(gone@) == Some(i as int) && i < gone@.len(),
            None => first_gone(gone@) is None,
        },
{
    let mut i: usize = 0;
    assert(gone@.take(0) =~= Seq::empty());
    while i < gone.len()
        invariant
            i <= gone@.len(),
            first_gone(gone@.take(i as int)) is None,
        decreases gone.len() - i,
    {
        assert(gone@.take(i + 1).drop_last() =~= gone@.take(i as int));
        if gone[i] {
            proof {
                lemma_first_gone_take(gone@, i + 1);
            }
            return Some(i);
        }
        i += 1;
    }
    assert(gone@.take(i as int) =~= gone@);
    None
}

proof fn lemma_first_gone_take(gone: Seq<bool>, n: int)
    requires
        0 <= n <= gone.len(),
        first_gone(gone.take(n)) is Some,
    ensures
        first_gone(gone) == first_gone(gone.take(n)),
    decreases gone.len() - n,
{
    if n < gone.len() {
        assert(gone.take(n + 1).drop_last() =~= gone.take(n));
        lemma_first_gone_take(gone, n + 1);
    } else {
        assert(gone.take(n) =~= gone);
    }
}

fn compact(blocks: &mut Vec<BlockInfo>, gone: Vec<bool>, names: &mut Vec<Option<u32>>)
    requires
        gone@.len() == old(blocks)@.len(),
        old(names)@.len() == old(blocks)@.len(),
        old(blocks)@.len() <= u32::MAX,
    ensures
        (function::block_views(final(blocks)@), final(names)@) == compacted(
            function::block_views(old(blocks)@),
            gone@,
            old(names)@,
        ),
{
    let mut gone: Vec<bool> = gone;
    let ghost start = compacted(function::block_views(blocks@), gone@, names@);
    loop
        invariant_except_break
            start == compacted(function::block_views(blocks@), gone@, names@),
        invariant
            gone@.len() == blocks@.len(),
            blocks@.len() <= names@.len(),
            names@.len() <= u32::MAX,
        ensures
            start == (function::block_views(blocks@), names@),
        decreases blocks@.len(),
    {
        match find_gone(&gone) {
            None => {
                break;
            },
            Some(i) => {
                let ghost before = function::block_views(blocks@);
                let last: usize = blocks.len() - 1;
                if gone[last] {
                    gone.pop();
                    blocks.pop();
                    assert(function::block_views(blocks@) =~= before.drop_last());
                } else {
                    names.set(last, Some(i as u32));
                    gone.set(i, false);
                    gone.pop();
                    blocks.swap_remove(i);
                    assert(function::block_views(blocks@) =~= before.update(
                        i as int,
                        before.last(),
                    ).drop_last());
                }
            },
        }
    }
}

/// The name of a block after compaction.
pub open spec fn block_name(names: Seq<Option<u32>>, b: u32) -> u32 {
    if b < names.len() {
        match names[b as int] {
            Some(n) => n,
            None => b,
        }
    } else {
        b
    }
}

fn name_of(names: &Vec<Option<u32>>, b: u32) -> (n: u32)
    ensures
        n == block_name(names@, b),
{
    if (b as usize) < names.len() {
        match names[b as usize] {
            Some(n) => n,
            None => b,
        }
    } else {
        b
    }
}

pub open spec fn block_names(names: Seq<Option<u32>>, list: Seq<BlockId>) -> Seq<BlockId> {
    list.map_values(|b: BlockId| BlockId(block_name(names, b.0)))
}

pub open spec fn renamed_block(names: Seq<Option<u32>>, b: BlockView) -> BlockView {
    BlockView { succs: block_names(names, b.succs), preds: block_names(names, b.preds), ..b }
}

fn rename_list(names: &Vec<Option<u32>>, list: &mut Vec<BlockId>)
    ensures
        final(list)@ == block_names(names@, old(list)@),
{
    let ghost before = list@;
    let mut i: usize = 0;
    while i < list.len()
        invariant
            i <= list@.len(),
            list@.len() == before.len(),
            forall|j: int|
                0 <= j < before.len() ==> list@[j] == if j < i {
                    BlockId(block_name(names@, before[j].0))
                } else {
                    before[j]
                },
        decreases list.len() - i,
    {
        let n: u32 = name_of(names, list[i].0);
        list.set(i, BlockId(n));
        i += 1;
    }
    assert(list@ =~= block_names(names@, before));
}

/// The stored arguments of the kinds `full` from position `k` on with the names of
/// blocks exchanged.
pub open spec fn rename_blocks_from(
    full: Seq<Parameter>,
    k: int,
    inline: bool,
    args: [u32; 2],
    extra: Seq<u32>,
    names: Seq<Option<u32>>,
) -> ([u32; 2], Seq<u32>)
    decreases full.len(),
{
    if full.len() == 0 {
        (args, extra)
    } else {
        let (args1, extra1) = if full[0] is BlockId || full[0] is BlockTarget {
            with_slot(
                inline,
                args,
                extra,
                k,
                block_name(names, inst::slot(inline, args, extra, k)),
            )
        } else {
            (args, extra)
        };
        rename_blocks_from(
            full.skip(1),
            k + full[0].spec_slot_count(),
            inline,
            args1,
            extra1,
            names,
        )
    }
}

pub open spec fn rename_blocks_of(
    env: &Environment,
    inst: Instruction,
    extra: Seq<u32>,
    names: Seq<Option<u32>>,
) -> (Instruction, Seq<u32>) {
    let (args, extra1) = rename_blocks_from(
        known_params(env, inst),
        0,
        known_inline(env, inst),
        inst.args,
        extra,
        names,
    );
    (Instruction { args, ..inst }, extra1)
}

fn rename_inst_blocks(
    env: &Environment,
    inst: Instruction,
    extra: &mut Vec<u32>,
    names: &Vec<Option<u32>>,
) -> (new_inst: Instruction)
    requires
        signatures_fit(env),
    ensures
        (new_inst, final(extra)@) == rename_blocks_of(env, inst, old(extra)@, names@),
{
    let ghost extra0 = extra@;
    let (full, inline) = params_of(env, inst);
    let mut args: [u32; 2] = inst.args;
    let mut k: u64 = 0;
    let mut i: usize = 0;
    assert(full@.skip(0) =~= full@);
    while i < full.len()
        invariant
            i <= full@.len(),
            full@.len() <= 0x1_ffff_ffff,
            k <= 2 * i,
            full@ == known_params(env, inst),
            inline == known_inline(env, inst),
            rename_blocks_from(full@, 0, inline, inst.args, extra0, names@) == rename_blocks_from(
                full@.skip(i as int),
                k as int,
                inline,
                args,
                extra@,
                names@,
            ),
        decreases full.len() - i,
    {
        assert(full@.skip(i as int).skip(1) =~= full@.skip(i + 1));
        assert(full@.skip(i as int)[0] == full@[i as int]);
        if matches!(full[i], Parameter::BlockId | Parameter::BlockTarget) {
            let v: u32 = name_of(names, read_slot(inline, args, extra, k));
            args = set_slot(inline, args, extra, k, v);
        }
        k += full[i].slot_count() as u64;
        i += 1;
    }
    assert(full@.skip(i as int).len() == 0);
    Instruction { function: inst.function, args, ty: inst.ty }
}

/// The first `n` instructions with the names of blocks exchanged.
pub open spec fn rename_blocks_in(
    env: &Environment,
    insts: Seq<Instruction>,
    extra: Seq<u32>,
    names: Seq<Option<u32>>,
) -> (Seq<Instruction>, Seq<u32>)
    decreases insts.len(),
{
    if insts.len() == 0 {
        (insts, extra)
    } else {
        let (rest, extra1) = rename_blocks_in(env, insts.drop_last(), extra, names);
        let (last, extra2) = rename_blocks_of(env, insts.last(), extra1, names);
        (rest.push(last), extra2)
    }
}

/// The blocks that are no longer part of the function.
pub open spec fn gone_blocks(w: Work) -> Seq<bool> {
    Seq::new(w.visited.len(), |i: int| w.merged[i] || !w.visited[i])
}

/// Takes out the blocks that are gone.
pub open spec fn closed_up(env: &Environment, w: Work, reg_classes: Seq<u8>) -> FunctionView {
    let (blocks, names) = compacted(
        w.blocks,
        gone_blocks(w),
        Seq::new(w.blocks.len(), |i: int| None),
    );
    let (insts, extra) = rename_blocks_in(env, w.insts, w.extra, names);
    FunctionView {
        insts,
        extra,
        blocks: blocks.map_values(|b: BlockView| renamed_block(names, b)),
        reg_classes,
    }
}

/// All blocks are still to be put together.
pub open spec fn fresh(v: ModifyView) -> Work {
    Work {
        insts: Seq::empty(),
        extra: v.ir.extra,
        blocks: v.ir.blocks,
        renames: Seq::new(v.count(), |i: int| None),
        visited: Seq::new(v.ir.blocks.len(), |i: int| false),
        merged: Seq::new(v.ir.blocks.len(), |i: int| false),
        target: BlockId::entry(),
        body_count: 0,
        pending: Seq::empty(),
    }
}

/// The function put together from a changed one.
pub open spec fn finished(v: ModifyView, env: &Environment, compress: bool) -> FunctionView {
    let items = Seq::new(v.ir.blocks.len(), |b: int| block_items(v, b));
    let order = postorder(v.ir.blocks).reverse();
    closed_up(env, fresh(v).all(env, compress, items, order, 0), v.ir.reg_classes)
}

fn close_up(env: &Environment, w: Linearizer, reg_classes: Vec<u8>) -> (ir: FunctionIr)
    requires
        w@.sized(w@.blocks.len()),
        w@.blocks.len() <= u32::MAX,
        signatures_fit(env),
    ensures
        ir@ == closed_up(env, w@, reg_classes@),
{
    let mut w: Linearizer = w;
    let ghost start = w@;
    let mut gone: Vec<bool> = Vec::new();
    let mut names: Vec<Option<u32>> = Vec::new();
    let mut i: usize = 0;
    while i < w.visited.len()
        invariant
            i <= w.visited@.len(),
            w@ == start,
            start.sized(start.blocks.len()),
            gone@ =~= gone_blocks(start).take(i as int),
            names@ =~= Seq::new(i as nat, |i: int| None),
        decreases w.visited.len() - i,
    {
        gone.push(w.merged[i] || !w.visited[i]);
        names.push(None);
        i += 1;
    }
    assert(gone@ =~= gone_blocks(start));
    assert(w.blocks@.len() == start.blocks.len());
    assert(names@ =~= Seq::new(start.blocks.len(), |i: int| None));
    compact(&mut w.blocks, gone, &mut names);
    let ghost (blocks1, names1) = compacted(
        start.blocks,
        gone_blocks(start),
        Seq::new(start.blocks.len(), |i: int| None),
    );
    let ghost insts0 = w.insts@;
    let ghost extra0 = w.extra@;
    let mut i: usize = 0;
    assert(insts0.take(0) =~= Seq::empty());
    while i < w.insts.len()
        invariant
            i <= w.insts@.len(),
            w.insts@.len() == insts0.len(),
            names@ == names1,
            signatures_fit(env),
            function::block_views(w.blocks@) == blocks1,
            forall|j: int| i <= j < insts0.len() ==> w.insts@[j] == insts0[j],
            (w.insts@.take(i as int), w.extra@) == rename_blocks_in(
                env,
                insts0.take(i as int),
                extra0,
                names1,
            ),
        decreases w.insts.len() - i,
    {
        proof {
            assert(insts0.take(i + 1).drop_last() =~= insts0.take(i as int));
            assert(insts0.take(i + 1).last() == insts0[i as int]);
        }
        let ghost before = w.insts@;
        let new_inst: Instruction = rename_inst_blocks(env, w.insts[i], &mut w.extra, &names);
        w.insts.set(i, new_inst);
        assert(w.insts@.take(i + 1) =~= before.take(i as int).push(new_inst));
        i += 1;
    }
    assert(insts0.take(i as int) =~= insts0);
    assert(w.insts@.take(i as int) =~= w.insts@);
    let mut i: usize = 0;
    while i < w.blocks.len()
        invariant
            i <= w.blocks@.len(),
            names@ == names1,
            (w.insts@, w.extra@) == rename_blocks_in(env, insts0, extra0, names1),
            w.blocks@.len() == blocks1.len(),
            forall|j: int|
                0 <= j < blocks1.len() ==> function::block_views(w.blocks@)[j] == if j < i {
                    renamed_block(names1, blocks1[j])
                } else {
                    blocks1[j]
                },
        decreases w.blocks.len() - i,
    {
        let ghost before = function::block_views(w.blocks@);
        assert(w.blocks@[i as int]@ == before[i as int]);
        rename_list(&names, &mut w.blocks[i].succs);
        rename_list(&names, &mut w.blocks[i].preds);
        proof {
            assert(w.blocks@[i as int]@ == function::block_views(w.blocks@)[i as int]);
            assert forall|j: int| 0 <= j < blocks1.len() && j != i implies function::block_views(
                w.blocks@,
            )[j] == before[j] by {}
            assert(w.blocks@[i as int]@ =~= renamed_block(names1, blocks1[i as int]));
            assert forall|j: int| 0 <= j < blocks1.len() implies function::block_views(w.blocks@)[j]
                == if j < i + 1 {
                renamed_block(names1, blocks1[j])
            } else {
                blocks1[j]
            } by {
                if j != i {
                    assert(function::block_views(w.blocks@)[j] == before[j]);
                }
            }
        }
        i += 1;
    }
    let ir = FunctionIr { insts: w.insts, blocks: w.blocks, extra: w.extra, reg_classes };
    proof {
        let goal = closed_up(env, start, reg_classes@);
        assert(ir@.blocks =~= goal.blocks);
        assert(ir@ =~= goal);
    }
    ir
}

impl IrModify {
    /// The function can be put together.
    pub open spec fn can_finish(v: ModifyView, env: &Environment) -> bool {
        layout_fits(v) && signatures_fit(env)
    }

    pub fn finish_and_compress(self, env: &Environment) -> (ir: FunctionIr)
        requires
            Self::can_finish(self@, env),
        ensures
            ir@ == finished(self@, env, true),
    {
        self.finish_and_compress_with_options(env, true)
    }

    pub fn finish_and_compress_with_options(self, env: &Environment, compress_gotos: bool) -> (ir:
        FunctionIr)
        requires
            Self::can_finish(self@, env),
        ensures
            ir@ == finished(self@, env, compress_gotos),
    {
        let ghost v = self@;
        let n: usize = self.ir.blocks.len();
        let mut visited: Vec<bool> = Vec::new();
        let mut merged: Vec<bool> = Vec::new();
        let mut seen: Vec<bool> = Vec::new();
        let mut items: Vec<Vec<Item>> = Vec::new();
        let mut i: usize = 0;
        while i < n
            invariant
                i <= n,
                n == self@.ir.blocks.len(),
                layout_fits(self@),
                visited@ =~= Seq::new(i as nat, |i: int| false),
                merged@ =~= Seq::new(i as nat, |i: int| false),
                seen@ =~= Seq::new(i as nat, |i: int| false),
                item_views(items@) =~= Seq::new(i as nat, |b: int| block_items(self@, b)),
            decreases n - i,
        {
            let ghost before = item_views(items@);
            visited.push(false);
            merged.push(false);
            seen.push(false);
            items.push(collect_items(&self, i));
            assert(item_views(items@) =~= before.push(block_items(self@, i as int)));
            i += 1;
        }
        let count: usize = self.ir.insts.len() + self.additional.len();
        let mut renames: Vec<Option<Ref>> = Vec::new();
        let mut i: usize = 0;
        while i < count
            invariant
                i <= count,
                renames@ =~= Seq::new(i as nat, |i: int| None),
            decreases count - i,
        {
            renames.push(None);
            i += 1;
        }
        let mut order: Vec<BlockId> = Vec::new();
        visit_postorder(&self.ir.blocks, n, BlockId::entry(), &mut seen, &mut order);
        let mut reversed: Vec<BlockId> = Vec::new();
        let mut i: usize = order.len();
        while i > 0
            invariant
                i <= order@.len(),
                forall|i: int| 0 <= i < order@.len() ==> (#[trigger] order@[i]).0 < n,
                reversed@ =~= order@.reverse().take(order@.len() - i),
                forall|i: int| 0 <= i < reversed@.len() ==> (#[trigger] reversed@[i]).0 < n,
            decreases i,
        {
            i -= 1;
            reversed.push(order[i]);
        }
        assert(reversed@ =~= order@.reverse());
        assert(self.ir.blocks@.len() == n);
        let mut w: Linearizer = Linearizer {
            insts: Vec::new(),
            extra: self.ir.extra,
            blocks: self.ir.blocks,
            renames,
            visited,
            merged,
            target: BlockId::entry(),
            body_count: 0,
            pending: Vec::new(),
            pending_used: 0,
        };
        assert(w@ =~= fresh(v));
        assert(items@.len() == item_views(items@).len());
        w.all(env, compress_gotos, &items, &reversed);
        close_up(env, w, self.ir.reg_classes)
    }
}

} // verus!
