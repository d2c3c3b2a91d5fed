//! Changing the values that are passed to blocks.
use vstd::prelude::*;

use crate::ir::env::Environment;
use crate::ir::function;
use crate::ir::function::{BlockView, FunctionView};
use crate::ir::ids::{BlockId, Ref};
use crate::ir::inst;
use crate::ir::inst::{decode_target, is_stored_inline, read_slot, Instruction, Parameter};
use crate::ir::modify::{IrModify, ModifyView};

verus! {

/// The storage with the values from `start` on replaced, as far as it reaches.
pub open spec fn with_refs(extra: Seq<u32>, start: u32, values: Seq<Ref>) -> Seq<u32> {
    Seq::new(
        extra.len(),
        |i: int|
            if start <= i < start + values.len() {
                values[i - start].0
            } else {
                extra[i]
            },
    )
}

/// Where the arguments of an instruction are stored.
pub struct Stored {
    pub inline: bool,
    pub args: [u32; 2],
    pub blocks: Seq<BlockView>,
}

impl Stored {
    pub open spec fn slot(self, extra: Seq<u32>, k: int) -> u32 {
        inst::slot(self.inline, self.args, extra, k)
    }

    /// The values that the argument in the slots from `k` on passes to its block.
    pub open spec fn passed(self, extra: Seq<u32>, k: int) -> Seq<Ref> {
        inst::refs_at(
            extra,
            self.slot(extra, k + 1),
            inst::arg_count_of(self.blocks, self.slot(extra, k)),
        )
    }
}

/// One argument was visited: where it is a target, the values that are passed became what
/// `f` made of them.
pub open spec fn visited_one<F: Fn(BlockId, Vec<Ref>) -> Vec<Ref>>(
    f: F,
    s: Stored,
    p: Parameter,
    k: int,
    before: Seq<u32>,
    after: Seq<u32>,
) -> bool {
    if p == Parameter::BlockTarget {
        exists|passed: Vec<Ref>, values: Vec<Ref>|
            {
                &&& passed@ == s.passed(before, k)
                &&& #[trigger] call_ensures(f, (BlockId(s.slot(before, k)), passed), values)
                &&& after == with_refs(before, s.slot(before, k + 1), values@)
            }
    } else {
        after == before
    }
}

/// The arguments of the kinds `params`, whose slots begin at `k`, were visited one after the
/// other.
pub open spec fn visited<F: Fn(BlockId, Vec<Ref>) -> Vec<Ref>>(
    f: F,
    s: Stored,
    params: Seq<Parameter>,
    k: int,
    before: Seq<u32>,
    after: Seq<u32>,
) -> bool
    decreases params.len(),
{
    if params.len() == 0 {
        after == before
    } else {
        exists|next: Seq<u32>|
            {
                &&& #[trigger] visited_one(f, s, params[0], k, before, next)
                &&& visited(
                    f,
                    s,
                    params.skip(1),
                    k + params[0].spec_slot_count(),
                    next,
                    after,
                )
            }
    }
}

/// The last argument is visited after the others.
proof fn lemma_visited_push<F: Fn(BlockId, Vec<Ref>) -> Vec<Ref>>(
    f: F,
    s: Stored,
    params: Seq<Parameter>,
    p: Parameter,
    k: int,
    before: Seq<u32>,
    middle: Seq<u32>,
    after: Seq<u32>,
)
    requires
        visited(f, s, params, k, before, middle),
        visited_one(f, s, p, k + inst::slot_total(params), middle, after),
    ensures
        visited(f, s, params.push(p), k, before, after),
    decreases params.len(),
{
    let all = params.push(p);
    if params.len() == 0 {
        assert(all.skip(1) =~= Seq::<Parameter>::empty());
        assert(visited_one(f, s, all[0], k, before, after));
        assert(visited(f, s, all.skip(1), k + all[0].spec_slot_count(), after, after));
    } else {
        let k1 = k + params[0].spec_slot_count();
        let next = choose|next: Seq<u32>|
            {
                &&& #[trigger] visited_one(f, s, params[0], k, before, next)
                &&& visited(f, s, params.skip(1), k1, next, middle)
            };
        lemma_visited_push(f, s, params.skip(1), p, k1, next, middle, after);
        assert(params.skip(1).push(p) =~= all.skip(1));
        assert(visited_one(f, s, all[0], k, before, next));
        assert(visited(f, s, all.skip(1), k + all[0].spec_slot_count(), next, after));
    }
}

/// Where all values stay as they are, so does the storage.
pub proof fn visiting_changes_only_values<F: Fn(BlockId, Vec<Ref>) -> Vec<Ref>>(
    f: F,
    s: Stored,
    params: Seq<Parameter>,
    k: int,
    before: Seq<u32>,
    after: Seq<u32>,
)
    requires
        forall|b: BlockId, v: Vec<Ref>, w: Vec<Ref>| #[trigger]
            call_ensures(f, (b, v), w) ==> w@ == v@,
        visited(f, s, params, k, before, after),
    ensures
        after == before,
    decreases params.len(),
{
    if params.len() > 0 {
        let k1 = k + params[0].spec_slot_count();
        let next = choose|next: Seq<u32>|
            {
                &&& #[trigger] visited_one(f, s, params[0], k, before, next)
                &&& visited(f, s, params.skip(1), k1, next, after)
            };
        if params[0] == Parameter::BlockTarget {
            let start = s.slot(before, k + 1);
            assert(with_refs(before, start, s.passed(before, k)) =~= before);
        }
        assert(next == before);
        visiting_changes_only_values(f, s, params.skip(1), k1, next, after);
    }
}

impl ModifyView {
    /// The instruction whose targets are visited. Behind the instructions of the function
    /// counting starts over.
    pub open spec fn visited_inst(self, r: Ref) -> Instruction {
        if r.0 < self.ir.insts.len() {
            self.ir.insts[r.0 as int]
        } else {
            self.ir.insts[r.0 - self.ir.insts.len()]
        }
    }

    /// Where the arguments of the instruction are stored. Variable arguments are no targets.
    pub open spec fn stored(self, r: Ref, env: &Environment) -> Stored {
        let called = self.visited_inst(r);
        Stored {
            inline: inst::stored_inline(env.def(called.function).params@, None),
            args: called.args,
            blocks: self.ir.blocks,
        }
    }
}

fn write_refs(extra: &mut Vec<u32>, start: u32, values: &Vec<Ref>)
    requires
        values@.len() <= u32::MAX,
    ensures
        final(extra)@ == with_refs(old(extra)@, start, values@),
{
    let ghost before = extra@;
    let mut i: usize = 0;
    while i < values.len()
        invariant
            i <= values@.len() <= u32::MAX,
            extra@ =~= with_refs(before, start, values@.take(i as int)),
        decreases values.len() - i,
    {
        let at: u64 = start as u64 + i as u64;
        if at < extra.len() as u64 {
            extra.set(at as usize, values[i].0);
        }
        i += 1;
    }
    assert(values@.take(i as int) =~= values@);
}

impl IrModify {
    /// Replaces the values that an instruction passes to blocks by what `f` makes of them.
    pub fn visit_block_targets_mut<F: Fn(BlockId, Vec<Ref>) -> Vec<Ref>>(
        &mut self,
        r: Ref,
        env: &Environment,
        f: F,
    )
        requires
            r.0 < 2 * old(self)@.ir.insts.len(),
            env.has(old(self)@.visited_inst(r).function),
            env.def(old(self)@.visited_inst(r).function).params@.len() <= 0xffff_ffff,
            forall|b: BlockId, v: Vec<Ref>|
                v@.len() == inst::arg_count_of(old(self)@.ir.blocks, b.0) ==> #[trigger]
                call_requires(f, (b, v)),
            forall|b: BlockId, v: Vec<Ref>, w: Vec<Ref>| #[trigger]
                call_ensures(f, (b, v), w) ==> w@.len() == v@.len(),
        ensures
            final(self)@.additional == old(self)@.additional,
            final(self)@.ir == (FunctionView { extra: final(self)@.ir.extra, ..old(self)@.ir }),
            visited(
                f,
                old(self)@.stored(r, env),
                env.def(old(self)@.visited_inst(r).function).params@,
                0,
                old(self)@.ir.extra,
                final(self)@.ir.extra,
            ),
    {
        let ghost start = self@;
        let ghost s = self@.stored(r, env);
        let i: usize = if r.idx() < self.ir.insts.len() {
            r.idx()
        } else {
            r.idx() - self.ir.insts.len()
        };
        let called: Instruction = self.ir.insts[i];
        let params: &Vec<Parameter> = &env.get(called.function).params;
        let inline: bool = is_stored_inline(params, None);
        let mut k: u64 = 0;
        let mut n: usize = 0;
        proof {
            assert(params@.take(0) =~= Seq::<Parameter>::empty());
        }
        while n < params.len()
            invariant
                n <= params@.len() <= 0xffff_ffff,
                k == inst::slot_total(params@.take(n as int)),
                k <= 2 * n,
                s.inline == inline,
                s.args == called.args,
                s.blocks == start.ir.blocks,
                self@.additional == start.additional,
                self@.ir == (FunctionView { extra: self@.ir.extra, ..start.ir }),
                visited(f, s, params@.take(n as int), 0, start.ir.extra, self@.ir.extra),
                forall|b: BlockId, v: Vec<Ref>|
                    v@.len() == inst::arg_count_of(start.ir.blocks, b.0) ==> #[trigger]
                    call_requires(f, (b, v)),
                forall|b: BlockId, v: Vec<Ref>, w: Vec<Ref>| #[trigger]
                    call_ensures(f, (b, v), w) ==> w@.len() == v@.len(),
            decreases params.len() - n,
        {
            let p: Parameter = params[n];
            let ghost before = self@.ir.extra;
            assert(function::block_views(self.ir.blocks@) == start.ir.blocks);
            if p == Parameter::BlockTarget {
                let block: u32 = read_slot(inline, called.args, &self.ir.extra, k);
                let args_idx: u32 = read_slot(inline, called.args, &self.ir.extra, k + 1);
                let arg_count: u32 = if (block as usize) < self.ir.blocks.len() {
                    self.ir.blocks[block as usize].arg_count
                } else {
                    0
                };
                assert(arg_count == inst::arg_count_of(start.ir.blocks, block));
                let passed: Vec<Ref> = decode_target(&self.ir.extra, args_idx, arg_count);
                let ghost seen = passed;
                let values: Vec<Ref> = f(BlockId(block), passed);
                assert(call_ensures(f, (BlockId(s.slot(before, k as int)), seen), values));
                write_refs(&mut self.ir.extra, args_idx, &values);
            }
            proof {
                let taken = params@.take(n as int);
                assert(visited_one(f, s, p, k as int, before, self@.ir.extra));
                lemma_visited_push(f, s, taken, p, 0, start.ir.extra, before, self@.ir.extra);
                assert(taken.push(p) =~= params@.take(n + 1));
                lemma_slot_total_push(taken, p);
            }
            k += p.slot_count() as u64;
            n += 1;
        }
        assert(params@.take(n as int) =~= params@);
    }
}

proof fn lemma_slot_total_push(params: Seq<Parameter>, p: Parameter)
    ensures
        inst::slot_total(params.push(p)) == inst::slot_total(params) + p.spec_slot_count(),
    decreases params.len(),
{
    if params.len() == 0 {
        assert(params.push(p).skip(1) =~= Seq::<Parameter>::empty());
        assert(inst::slot_total(Seq::<Parameter>::empty()) == 0);
    } else {
        assert(params.push(p).skip(1) =~= params.skip(1).push(p));
        lemma_slot_total_push(params.skip(1), p);
    }
}

} // verus!
