//! Adding arguments to blocks.
use vstd::prelude::*;

use crate::ir::env::Environment;
use crate::ir::finish;
use crate::ir::finish::set_slot;
use crate::ir::function;
use crate::ir::function::{BlockView, FunctionView};
use crate::ir::ids::{BlockId, Ref, TypeId};
use crate::ir::inst;
use crate::ir::inst::{is_stored_inline, read_slot, Instruction, Parameter};
use crate::ir::modify::{Insert, IrModify, ModifyView};

verus! {

/// A list of `n` stored values with the unit value behind it. A list that does not
/// lie at the end of the storage is copied there first. Returns the storage and
/// where the list begins.
pub open spec fn extended(extra: Seq<u32>, idx: u32, n: u32) -> (Seq<u32>, u32) {
    if extra.len() != idx + n {
        (
            extra + Seq::new(n as nat, |i: int| inst::slot(false, [idx, 0], extra, i)) + seq![
                Ref::unit().0,
            ],
            extra.len() as u32,
        )
    } else {
        (extra.push(Ref::unit().0), idx)
    }
}

fn extend_list(extra: &mut Vec<u32>, idx: u32, n: u32) -> (new_idx: u32)
    ensures
        (final(extra)@, new_idx) == extended(old(extra)@, idx, n),
{
    let ghost before = extra@;
    if extra.len() as u64 != idx as u64 + n as u64 {
        let len: usize = extra.len();
        let new_idx: u32 = len as u32;
        let ghost base: [u32; 2] = [idx, 0];
        assert(base[0] == idx);
        let mut i: u32 = 0;
        while i < n
            invariant
                i <= n,
                len == before.len(),
                base == [idx, 0],
                base[0] == idx,
                extra@ =~= before + Seq::new(
                    i as nat,
                    |i: int| inst::slot(false, [idx, 0], before, i),
                ),
            decreases n - i,
        {
            let at: u64 = idx as u64 + i as u64;
            let v: u32 = if at < len as u64 {
                extra[at as usize]
            } else {
                0
            };
            assert(v == inst::slot(false, base, before, i as int));
            extra.push(v);
            i += 1;
        }
        extra.push(Ref::unit().0);
        assert(extra@ =~= extended(before, idx, n).0);
        new_idx
    } else {
        extra.push(Ref::unit().0);
        idx
    }
}

/// The stored arguments of an instruction in which each target that is `block` has
/// an argument more.
pub open spec fn extended_from(
    params: Seq<Parameter>,
    k: int,
    inline: bool,
    args: [u32; 2],
    extra: Seq<u32>,
    block: BlockId,
    n: u32,
) -> ([u32; 2], Seq<u32>)
    decreases params.len(),
{
    if params.len() == 0 {
        (args, extra)
    } else {
        let (args1, extra1) = if params[0] is BlockTarget && inst::slot(inline, args, extra, k)
            == block.0 {
            let (longer, idx) = extended(extra, inst::slot(inline, args, extra, k + 1), n);
            finish::with_slot(inline, args, longer, k + 1, idx)
        } else {
            (args, extra)
        };
        extended_from(
            params.skip(1),
            k + params[0].spec_slot_count(),
            inline,
            args1,
            extra1,
            block,
            n,
        )
    }
}

fn extend_targets(
    params: &Vec<Parameter>,
    inline: bool,
    args: [u32; 2],
    extra: &mut Vec<u32>,
    block: BlockId,
    n: u32,
) -> (new_args: [u32; 2])
    requires
        params@.len() <= u32::MAX,
    ensures
        (new_args, final(extra)@) == extended_from(
            params@,
            0,
            inline,
            args,
            old(extra)@,
            block,
            n,
        ),
{
    let ghost args0 = args;
    let ghost extra0 = extra@;
    let mut args: [u32; 2] = args;
    let mut k: u64 = 0;
    let mut i: usize = 0;
    assert(params@.skip(0) =~= params@);
    while i < params.len()
        invariant
            i <= params@.len(),
            params@.len() <= u32::MAX,
            k <= 2 * i,
            extended_from(params@, 0, inline, args0, extra0, block, n) == extended_from(
                params@.skip(i as int),
                k as int,
                inline,
                args,
                extra@,
                block,
                n,
            ),
        decreases params.len() - i,
    {
        assert(params@.skip(i as int).skip(1) =~= params@.skip(i + 1));
        assert(params@.skip(i as int)[0] == params@[i as int]);
        if matches!(params[i], Parameter::BlockTarget) && read_slot(inline, args, extra, k)
            == block.0 {
            let idx: u32 = read_slot(inline, args, extra, k + 1);
            let new_idx: u32 = extend_list(extra, idx, n);
            args = set_slot(inline, args, extra, k + 1, new_idx);
        }
        k += params[i].slot_count() as u64;
        i += 1;
    }
    assert(params@.skip(i as int).len() == 0);
    args
}

/// The position of the last instruction of a block.
pub open spec fn terminator_at(v: FunctionView, b: BlockId) -> int {
    v.blocks[b.0 as int].body_idx + v.blocks[b.0 as int].len - 1
}

/// The last instruction of a block passes an argument more to `block`.
pub open spec fn terminator_extended(
    v: FunctionView,
    env: &Environment,
    pred: BlockId,
    block: BlockId,
    n: u32,
) -> FunctionView {
    let at = terminator_at(v, pred);
    let inst = v.insts[at];
    let def = env.def(inst.function);
    let (args, extra) = extended_from(
        def.params@,
        0,
        inst::stored_inline(def.params@, def.varargs),
        inst.args,
        v.extra,
        block,
        n,
    );
    FunctionView { insts: v.insts.update(at, Instruction { args, ..inst }), extra, ..v }
}

pub open spec fn terminators_extended(
    v: FunctionView,
    env: &Environment,
    preds: Seq<BlockId>,
    block: BlockId,
    n: u32,
) -> FunctionView
    decreases preds.len(),
{
    if preds.len() == 0 {
        v
    } else {
        terminator_extended(
            terminators_extended(v, env, preds.drop_last(), block, n),
            env,
            preds.last(),
            block,
            n,
        )
    }
}

/// The block ends in an instruction that is known.
pub open spec fn has_terminator(v: FunctionView, env: &Environment, b: BlockId) -> bool {
    &&& b.0 < v.blocks.len()
    &&& v.blocks[b.0 as int].body_idx + v.blocks[b.0 as int].len <= u32::MAX
    &&& 0 <= terminator_at(v, b) < v.insts.len()
    &&& env.has(v.insts[terminator_at(v, b)].function)
    &&& env.def(v.insts[terminator_at(v, b)].function).params@.len() <= u32::MAX
}

proof fn lemma_terminators_keep(
    v: FunctionView,
    env: &Environment,
    preds: Seq<BlockId>,
    block: BlockId,
    n: u32,
)
    requires
        forall|i: int| 0 <= i < preds.len() ==> has_terminator(v, env, #[trigger] preds[i]),
    ensures
        ({
            let after = terminators_extended(v, env, preds, block, n);
            &&& after.blocks == v.blocks
            &&& after.reg_classes == v.reg_classes
            &&& after.insts.len() == v.insts.len()
            &&& forall|i: int|
                0 <= i < v.insts.len() ==> (#[trigger] after.insts[i]).function
                    == v.insts[i].function
        }),
    decreases preds.len(),
{
    if preds.len() > 0 {
        let rest = preds.drop_last();
        assert(forall|i: int| 0 <= i < rest.len() ==> rest[i] == preds[i]);
        lemma_terminators_keep(v, env, rest, block, n);
        assert(has_terminator(v, env, preds[preds.len() - 1]));
    }
}

impl IrModify {
    /// The function with an argument more for `block`.
    pub open spec fn block_arg_added(
        v: ModifyView,
        env: &Environment,
        block: BlockId,
        ty: TypeId,
    ) -> ModifyView {
        let info = v.ir.blocks[block.0 as int];
        let counted = FunctionView {
            blocks: v.ir.blocks.update(
                block.0 as int,
                BlockView { arg_count: (info.arg_count + 1) as u32, ..info },
            ),
            ..v.ir
        };
        ModifyView {
            ir: terminators_extended(counted, env, info.preds, block, info.arg_count),
            ..v.add(
                Ref((info.body_idx - 1) as u32),
                Insert::After,
                Instruction::spec_block_arg(ty),
            )
        }
    }

    /// adds a block argument of the specified type to the block and returns the Ref to the new arg
    /// as well as its index in the arg list of that block
    pub fn add_block_arg(&mut self, env: &Environment, block: BlockId, ty: TypeId) -> (res: (
        Ref,
        u32,
    ))
        requires
            block.0 < old(self)@.ir.blocks.len(),
            old(self)@.count() < u32::MAX,
            old(self)@.ir.blocks[block.0 as int].body_idx > 0,
            old(self)@.ir.blocks[block.0 as int].arg_count < u32::MAX,
            forall|i: int|
                0 <= i < old(self)@.ir.blocks[block.0 as int].preds.len() ==> has_terminator(
                    old(self)@.ir,
                    env,
                    #[trigger] old(self)@.ir.blocks[block.0 as int].preds[i],
                ),
        ensures
            final(self)@ == Self::block_arg_added(old(self)@, env, block, ty),
            res.0.0 == old(self)@.count(),
            res.1 == old(self)@.ir.blocks[block.0 as int].arg_count,
    {
        let ghost before = self@;
        let b: usize = block.idx();
        assert(self.ir.blocks@[b as int]@ == before.ir.blocks[b as int]);
        // before the first instruction of the body block
        let after: Ref = Ref(self.ir.blocks[b].body_idx - 1);
        let prev_arg_count: u32 = self.ir.blocks[b].arg_count;
        self.ir.blocks[b].arg_count = prev_arg_count + 1;
        let ghost counted = self@.ir;
        let ghost info = before.ir.blocks[b as int];
        proof {
            let goal = before.ir.blocks.update(
                b as int,
                BlockView { arg_count: (info.arg_count + 1) as u32, ..info },
            );
            assert(self.ir.blocks@[b as int]@ =~= goal[b as int]);
            assert(counted.blocks =~= goal);
            assert(counted =~= (FunctionView { blocks: goal, ..before.ir }));
        }
        let r: Ref = self.add_inst_before_or_after(
            after,
            Insert::After,
            Instruction::block_arg(ty),
        );
        let ghost preds = info.preds;
        assert(preds.take(0) =~= Seq::empty());
        assert(self.ir.blocks@[b as int]@ == counted.blocks[b as int]);
        let mut i: usize = 0;
        while i < self.ir.blocks[b].preds.len()
            invariant
                b == block.0,
                b < self.ir.blocks@.len(),
                i <= preds.len(),
                b < counted.blocks.len(),
                counted.blocks[b as int].preds == preds,
                self.ir.blocks@[b as int]@ == counted.blocks[b as int],
                counted.insts == before.ir.insts,
                counted.blocks.len() == before.ir.blocks.len(),
                forall|j: int|
                    0 <= j < counted.blocks.len() ==> (#[trigger] counted.blocks[j]).body_idx
                        == before.ir.blocks[j].body_idx && counted.blocks[j].len
                        == before.ir.blocks[j].len,
                forall|j: int|
                    0 <= j < preds.len() ==> has_terminator(before.ir, env, #[trigger] preds[j]),
                self@.ir == terminators_extended(
                    counted,
                    env,
                    preds.take(i as int),
                    block,
                    prev_arg_count,
                ),
                self@.additional == before.add(
                    after,
                    Insert::After,
                    Instruction::spec_block_arg(ty),
                ).additional,
            decreases preds.len() - i,
        {
            let ghost start = self@.ir;
            proof {
                assert(preds.take(i + 1).drop_last() =~= preds.take(i as int));
                assert(preds.take(i + 1).last() == preds[i as int]);
                assert forall|j: int| 0 <= j < i implies has_terminator(
                    counted,
                    env,
                    #[trigger] preds.take(i as int)[j],
                ) by {
                    assert(has_terminator(before.ir, env, preds[j]));
                }
                lemma_terminators_keep(counted, env, preds.take(i as int), block, prev_arg_count);
            }
            let pred: BlockId = self.ir.blocks[b].preds[i];
            assert(pred == preds[i as int]);
            assert(has_terminator(before.ir, env, pred));
            assert(self.ir.blocks@[pred.0 as int]@ == start.blocks[pred.0 as int]);
            let pred_info = &self.ir.blocks[pred.idx()];
            let at: usize = (pred_info.body_idx + pred_info.len - 1) as usize;
            let terminator: Instruction = self.ir.insts[at];
            let def = env.get(terminator.function);
            let inline: bool = is_stored_inline(&def.params, def.varargs);
            let args: [u32; 2] = extend_targets(
                &def.params,
                inline,
                terminator.args,
                &mut self.ir.extra,
                block,
                prev_arg_count,
            );
            self.ir.insts.set(
                at,
                Instruction { function: terminator.function, args, ty: terminator.ty },
            );
            assert(self@.ir =~= terminator_extended(start, env, pred, block, prev_arg_count));
            i += 1;
        }
        proof {
            assert(preds.take(i as int) =~= preds);
            assert(self@ =~= Self::block_arg_added(before, env, block, ty));
        }
        (r, prev_arg_count)
    }
}

} // verus!
