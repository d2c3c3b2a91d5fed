//! What holds of functions that were put together.
use vstd::prelude::*;

use crate::ir::edit;
use crate::ir::env::Environment;
use crate::ir::finish;
use crate::ir::finish::{Item, Traversal, Work};
use crate::ir::function::{BlockView, FunctionView};
use crate::ir::ids::{BlockId, Ref};
use crate::ir::inst;
use crate::ir::inst::{Builtin, Instruction};
use crate::ir::modify;
use crate::ir::modify::{AdditionalInst, Insert, ModifyView};

verus! {

/// The instruction is the one behind `r` with other references. It was not deleted, and
/// it does not stand for another value.
pub open spec fn taken_over(v: ModifyView, r: Ref, i: Instruction) -> bool {
    &&& r.0 < v.count()
    &&& i.function == v.inst(r).function
    &&& i.ty == v.inst(r).ty
    &&& !i.is_builtin(Builtin::Nothing)
    &&& r.0 < v.ir.insts.len() ==> !i.is_builtin(Builtin::Copy)
}

/// The instruction keeps a place, or it was taken over.
pub open spec fn accounted(v: ModifyView, i: Instruction) -> bool {
    i.is_builtin(Builtin::Nothing) || exists|r: Ref| taken_over(v, r, i)
}

pub open spec fn all_accounted(v: ModifyView, insts: Seq<Instruction>) -> bool {
    forall|k: int| 0 <= k < insts.len() ==> accounted(v, #[trigger] insts[k])
}

/// The item is an instruction of the function.
spec fn is_item(v: ModifyView, item: Item) -> bool {
    &&& item.r.0 < v.count()
    &&& item.inst == v.inst(item.r)
    &&& item.added == (item.r.0 >= v.ir.insts.len())
}

spec fn are_items(v: ModifyView, items: Seq<Item>) -> bool {
    forall|i: int| 0 <= i < items.len() ==> is_item(v, #[trigger] items[i])
}

proof fn lemma_added_at(v: ModifyView, n: int, at: u32, position: Insert)
    requires
        0 <= n <= v.additional.len(),
        v.count() <= u32::MAX,
    ensures
        are_items(v, finish::added_at(v.additional.take(n), v.ir.insts.len(), at, position)),
    decreases n,
{
    if n > 0 {
        lemma_added_at(v, n - 1, at, position);
        assert(v.additional.take(n).drop_last() =~= v.additional.take(n - 1));
    }
}

proof fn lemma_items_between(v: ModifyView, from: int, to: int, is_new: bool)
    requires
        0 <= from,
        v.count() <= u32::MAX,
        !is_new ==> to <= v.ir.insts.len(),
    ensures
        are_items(v, finish::items_between(v, from, to, is_new)),
    decreases to - from,
{
    if from < to {
        lemma_items_between(v, from, to - 1, is_new);
        let at = (to - 1) as u32;
        let n = v.additional.len() as int;
        assert(v.additional.take(n) =~= v.additional);
        lemma_added_at(v, n, at, Insert::Before);
        lemma_added_at(v, n, at, Insert::After);
    }
}

proof fn lemma_block_items(v: ModifyView, b: int)
    requires
        finish::layout_fits(v),
        0 <= b < v.ir.blocks.len(),
    ensures
        are_items(v, finish::block_items(v, b)),
{
    let info = v.ir.blocks[b];
    if finish::is_new_block(v, b) {
        lemma_items_between(v, info.args_idx as int, info.body_idx + 1, true);
    } else {
        lemma_items_between(v, info.args_idx as int, info.body_idx + info.len, false);
    }
}

/// The arguments of a block stand before its body, and there are as many as it counts.
pub open spec fn arguments_first(items: Seq<Item>) -> bool {
    forall|i: int, j: int|
        0 <= i < j < items.len() && (#[trigger] items[j]).inst.is_builtin(Builtin::BlockArg)
            ==> (#[trigger] items[i]).inst.is_builtin(Builtin::BlockArg)
            || items[i].inst.is_builtin(Builtin::Nothing)
}

/// The number of arguments among the items from position `i` on.
pub open spec fn arguments_from(items: Seq<Item>, i: nat) -> nat
    decreases items.len() - i,
{
    if i >= items.len() {
        0
    } else if items[i as int].inst.is_builtin(Builtin::BlockArg) {
        arguments_from(items, i + 1) + 1
    } else {
        arguments_from(items, i + 1)
    }
}

/// The contents of every block are its arguments and then its body.
pub open spec fn blocks_are_in_order(v: ModifyView) -> bool {
    forall|b: int|
        0 <= b < v.ir.blocks.len() ==> {
            &&& arguments_first(#[trigger] finish::block_items(v, b))
            &&& arguments_from(finish::block_items(v, b), 0) == v.ir.blocks[b].arg_count
        }
}

proof fn lemma_no_arguments(items: Seq<Item>, i: nat)
    requires
        forall|j: int|
            i <= j < items.len() ==> !(#[trigger] items[j]).inst.is_builtin(Builtin::BlockArg),
    ensures
        arguments_from(items, i) == 0,
    decreases items.len() - i,
{
    if i < items.len() {
        lemma_no_arguments(items, i + 1);
    }
}

/// What putting a block together leaves of the others.
spec fn keeps(a: Work, b: Work) -> bool {
    &&& b.blocks.len() == a.blocks.len()
    &&& b.visited.len() == a.visited.len()
    &&& b.merged.len() == a.merged.len()
    &&& b.target == a.target
    &&& a.insts.len() <= b.insts.len()
    &&& forall|k: int| 0 <= k < a.insts.len() ==> #[trigger] b.insts[k] == a.insts[k]
    &&& forall|x: int| #![trigger b.blocks[x]]
        0 <= x < a.blocks.len() ==> same_place(a.blocks[x], b.blocks[x])
    &&& forall|x: int| #![trigger b.merged[x]]
        0 <= x < a.merged.len() && a.merged[x] ==> b.merged[x]
}

/// Behind the first `n` instructions stand `args` arguments, and behind these none.
spec fn arguments_then_body(insts: Seq<Instruction>, n: int, args: int) -> bool {
    &&& n + args <= insts.len()
    &&& forall|k: int|
        n <= k < n + args ==> (#[trigger] insts[k]).is_builtin(Builtin::BlockArg)
    &&& forall|k: int|
        n + args <= k < insts.len() ==> !(#[trigger] insts[k]).is_builtin(Builtin::BlockArg)
}

spec fn same_place(a: BlockView, b: BlockView) -> bool {
    &&& b.arg_count == a.arg_count
    &&& b.args_idx == a.args_idx
    &&& b.body_idx == a.body_idx
    &&& b.len == a.len
}

proof fn lemma_redirected(blocks: Seq<BlockView>, succs: Seq<BlockId>, from: BlockId, to: BlockId)
    ensures
        modify::redirect_preds(blocks, succs, from, to).len() == blocks.len(),
        forall|x: int|
            0 <= x < blocks.len() ==> same_place(
                blocks[x],
                #[trigger] modify::redirect_preds(blocks, succs, from, to)[x],
            ),
    decreases succs.len(),
{
    if succs.len() > 0 {
        lemma_redirected(blocks, succs.drop_last(), from, to);
    }
}

/// One step takes over at most one instruction.
proof fn lemma_step(v: ModifyView, w: Work, env: &Environment, compress: bool, item: Item)
    requires
        w.sized(v.ir.blocks.len()),
        w.target.0 < w.blocks.len(),
        is_item(v, item),
        all_accounted(v, w.insts),
    ensures
        ({
            let (s, next) = w.step(env, compress, item);
            let is_arg = item.inst.is_builtin(Builtin::BlockArg);
            &&& keeps(w, s)
            &&& s.visited == w.visited
            &&& all_accounted(v, s.insts)
            &&& is_arg ==> next is None && s.body_count == w.body_count
            &&& is_arg && w.pending.len() > 0 ==> s.insts.len() == w.insts.len()
                && s.pending.len() == w.pending.len() - 1
            &&& is_arg && w.pending.len() == 0 ==> s.insts.len() == w.insts.len() + 1
                && s.pending.len() == 0 && s.insts.last().is_builtin(Builtin::BlockArg)
            &&& !is_arg ==> arguments_then_body(s.insts, w.insts.len() as int, 0)
            &&& item.inst.is_builtin(Builtin::Nothing) ==> s.insts == w.insts
            &&& !is_arg && next is None ==> s.pending == w.pending
            &&& !is_arg ==> s.insts.len() - s.body_count == w.insts.len() - w.body_count
            &&& next matches Some(t) ==> {
                &&& t.0 < w.blocks.len()
                &&& !w.visited[t.0 as int]
                &&& s.merged[t.0 as int]
                &&& s.pending.len() == w.blocks[t.0 as int].arg_count
                &&& !item.inst.is_builtin(Builtin::Nothing)
            }
        }),
{
    if item.added && item.inst.is_builtin(Builtin::Nothing) {
    } else {
        let (i, extra) = finish::rename_inst(env, item.inst, w.extra, w.blocks, w.renames);
        let w1 = Work { extra, ..w };
        assert(taken_over(v, item.r, i) || i.is_builtin(Builtin::Nothing) || (!item.added
            && i.is_builtin(Builtin::Copy)));
        match w1.merge_target(env, compress, i) {
            Some((t, values)) => {
                let succs = w1.blocks[t.0 as int].succs;
                let cleared = w1.blocks.update(
                    t.0 as int,
                    BlockView { succs: Seq::empty(), ..w1.blocks[t.0 as int] },
                );
                lemma_redirected(cleared, succs, t, w1.target);
                lemma_target_values(env, i, w1);
            },
            None => {},
        }
    }
}

/// As many values are passed to a block as it has arguments.
proof fn lemma_target_values(env: &Environment, i: Instruction, w: Work)
    ensures
        w.merge_target(env, true, i) matches Some((t, values)) ==> values.len()
            == w.blocks[t.0 as int].arg_count,
{
    if env.goto == Some(i.function) && env.has(i.function) {
        let d = env.def(i.function);
        let full = inst::full_params(d.params@, d.varargs, i.args);
        let inline = inst::stored_inline(d.params@, d.varargs);
        let args = inst::args_of(d.params@, d.varargs, i.args, w.extra, w.blocks);
        assert(args == inst::decode_from(full, 0, inline, i.args, w.extra, w.blocks));
        if full.len() > 0 {
            assert(args[0] == inst::decode_one(full[0], 0, inline, i.args, w.extra, w.blocks));
        }
    }
}

/// The items of a block are taken over: those of its arguments that get no value from a
/// jump are counted apart from its body.
proof fn lemma_run(
    v: ModifyView,
    w: Work,
    env: &Environment,
    compress: bool,
    items: Seq<Item>,
    i: nat,
)
    requires
        w.sized(v.ir.blocks.len()),
        w.target.0 < w.blocks.len(),
        are_items(v, items),
        arguments_first(items),
        w.pending.len() <= arguments_from(items, i),
        all_accounted(v, w.insts),
    ensures
        ({
            let (s, next) = w.run(env, compress, items, i);
            &&& keeps(w, s)
            &&& s.visited == w.visited
            &&& all_accounted(v, s.insts)
            &&& s.insts.len() - s.body_count == w.insts.len() - w.body_count + arguments_from(
                items,
                i,
            ) - w.pending.len()
            &&& arguments_then_body(
                s.insts,
                w.insts.len() as int,
                arguments_from(items, i) - w.pending.len(),
            )
            &&& next matches Some(t) ==> {
                &&& t.0 < w.blocks.len()
                &&& !w.visited[t.0 as int]
                &&& s.merged[t.0 as int]
                &&& s.pending.len() == w.blocks[t.0 as int].arg_count
            }
        }),
    decreases items.len() - i,
{
    if i < items.len() {
        let item = items[i as int];
        lemma_step(v, w, env, compress, item);
        let (s, next) = w.step(env, compress, item);
        if !item.inst.is_builtin(Builtin::BlockArg) && !item.inst.is_builtin(Builtin::Nothing) {
            assert forall|j: int| i + 1 <= j < items.len() implies !(
            #[trigger] items[j]).inst.is_builtin(Builtin::BlockArg) by {
                assert(items[i as int] == item);
            }
            lemma_no_arguments(items, i + 1);
        }
        match next {
            Some(t) => {},
            None => {
                lemma_run(v, s, env, compress, items, i + 1);
                let (end, last) = s.run(env, compress, items, i + 1);
                assert forall|x: int| #![trigger end.blocks[x]]
                    0 <= x < w.blocks.len() implies same_place(w.blocks[x], end.blocks[x]) by {
                    assert(same_place(w.blocks[x], s.blocks[x]));
                }
                assert forall|x: int| #![trigger end.merged[x]]
                    0 <= x < w.merged.len() && w.merged[x] implies end.merged[x] by {
                    assert(s.merged[x]);
                }
                assert forall|k: int| 0 <= k < w.insts.len() implies #[trigger] end.insts[k]
                    == w.insts[k] by {
                    assert(s.insts[k] == w.insts[k]);
                }
                assert(arguments_then_body(
                    end.insts,
                    w.insts.len() as int,
                    arguments_from(items, i) - w.pending.len(),
                )) by {
                    if s.insts.len() > w.insts.len() {
                        assert(end.insts[w.insts.len() as int] == s.insts[w.insts.len() as int]);
                    }
                }
            },
        }
    }
}

/// The blocks are those of the function, as far as their arguments go.
spec fn counts_kept(v: ModifyView, w: Work) -> bool {
    forall|b: int|
        0 <= b < v.ir.blocks.len() ==> (#[trigger] w.blocks[b]).arg_count
            == v.ir.blocks[b].arg_count
}

spec fn contents(v: ModifyView) -> Seq<Seq<Item>> {
    Seq::new(v.ir.blocks.len(), |b: int| finish::block_items(v, b))
}

/// A block and the blocks that become part of it are taken over.
proof fn lemma_chain(
    v: ModifyView,
    w: Work,
    env: &Environment,
    compress: bool,
    b: BlockId,
    fuel: nat,
)
    requires
        finish::layout_fits(v),
        blocks_are_in_order(v),
        w.sized(v.ir.blocks.len()),
        counts_kept(v, w),
        w.target.0 < w.blocks.len(),
        b.0 < w.blocks.len(),
        w.pending.len() <= w.blocks[b.0 as int].arg_count,
        all_accounted(v, w.insts),
    ensures
        ({
            let s = w.chain(env, compress, contents(v), b, fuel);
            &&& keeps(w, s)
            &&& all_accounted(v, s.insts)
            &&& s.insts.len() - s.body_count == w.insts.len() - w.body_count
                + w.blocks[b.0 as int].arg_count - w.pending.len()
            &&& arguments_then_body(
                s.insts,
                w.insts.len() as int,
                w.blocks[b.0 as int].arg_count - w.pending.len(),
            )
            &&& forall|x: int| #![trigger s.visited[x]]
                0 <= x < w.blocks.len() && s.visited[x] && !s.merged[x] ==> x == b.0 || (
                w.visited[x] && !w.merged[x])
        }),
    decreases fuel,
{
    let entered = w.visit(b);
    let items = contents(v)[b.0 as int];
    assert(items == finish::block_items(v, b.0 as int));
    lemma_block_items(v, b.0 as int);
    lemma_run(v, entered, env, compress, items, 0);
    let (s, next) = entered.run(env, compress, items, 0);
    if let Some(t) = next {
        if fuel > 0 {
            assert(counts_kept(v, s)) by {
                assert forall|x: int| 0 <= x < v.ir.blocks.len() implies (
                #[trigger] s.blocks[x]).arg_count == v.ir.blocks[x].arg_count by {
                    assert(same_place(w.blocks[x], s.blocks[x]));
                }
            }
            assert(same_place(w.blocks[t.0 as int], s.blocks[t.0 as int]));
            lemma_chain(v, s, env, compress, t, (fuel - 1) as nat);
            let end = s.chain(env, compress, contents(v), t, (fuel - 1) as nat);
            assert forall|x: int| #![trigger end.blocks[x]]
                0 <= x < w.blocks.len() implies same_place(w.blocks[x], end.blocks[x]) by {
                assert(same_place(w.blocks[x], s.blocks[x]));
            }
            assert forall|x: int| #![trigger end.merged[x]]
                0 <= x < w.merged.len() && w.merged[x] implies end.merged[x] by {
                assert(s.merged[x]);
            }
            assert(end.merged[t.0 as int]);
            assert forall|k: int| 0 <= k < s.insts.len() implies #[trigger] end.insts[k]
                == s.insts[k] by {}
            assert(arguments_then_body(
                end.insts,
                w.insts.len() as int,
                w.blocks[b.0 as int].arg_count - w.pending.len(),
            ));
        }
    }
}

/// The block has its place among the instructions: its arguments, or else an empty place,
/// and behind them its body.
pub open spec fn has_its_place(b: BlockView, insts: Seq<Instruction>) -> bool {
    &&& b.body_idx == b.args_idx + if b.arg_count == 0 {
        1
    } else {
        b.arg_count as int
    }
    &&& b.body_idx + b.len <= insts.len()
    &&& b.arg_count == 0 ==> insts[b.args_idx as int].is_builtin(Builtin::Nothing)
    &&& forall|k: int|
        b.args_idx <= k < b.args_idx + b.arg_count ==> (#[trigger] insts[k]).is_builtin(
            Builtin::BlockArg,
        )
    &&& forall|k: int|
        b.body_idx <= k < b.body_idx + b.len ==> !(#[trigger] insts[k]).is_builtin(
            Builtin::BlockArg,
        )
}

/// The blocks share no instructions.
pub open spec fn apart(a: BlockView, b: BlockView) -> bool {
    a.body_idx + a.len <= b.args_idx || b.body_idx + b.len <= a.args_idx
}

/// Every block has a place of its own.
pub open spec fn laid_out(f: FunctionView) -> bool {
    &&& forall|b: int|
        0 <= b < f.blocks.len() ==> has_its_place(#[trigger] f.blocks[b], f.insts)
    &&& forall|a: int, b: int|
        0 <= a < f.blocks.len() && 0 <= b < f.blocks.len() && a != b ==> apart(
            #[trigger] f.blocks[a],
            #[trigger] f.blocks[b],
        )
}

/// The block was put together by itself.
spec fn is_done(w: Work, x: int) -> bool {
    0 <= x < w.blocks.len() && w.visited[x] && !w.merged[x]
}

/// The blocks that were put together have their places.
spec fn in_place(w: Work) -> bool {
    &&& forall|x: int| #[trigger] is_done(w, x) ==> has_its_place(w.blocks[x], w.insts)
    &&& forall|x: int, y: int| #[trigger]
        is_done(w, x) && #[trigger] is_done(w, y) && x != y ==> apart(w.blocks[x], w.blocks[y])
}

/// One more block is put together.
proof fn lemma_block(v: ModifyView, w: Work, env: &Environment, compress: bool, b: BlockId)
    requires
        finish::layout_fits(v),
        blocks_are_in_order(v),
        w.sized(v.ir.blocks.len()),
        counts_kept(v, w),
        b.0 < w.blocks.len(),
        !w.visited[b.0 as int],
        all_accounted(v, w.insts),
        w.insts.len() < u32::MAX ==> in_place(w),
    ensures
        ({
            let s = w.begin(b).chain(env, compress, contents(v), b, w.blocks.len()).end();
            &&& s.sized(v.ir.blocks.len())
            &&& counts_kept(v, s)
            &&& all_accounted(v, s.insts)
            &&& w.insts.len() <= s.insts.len()
            &&& s.insts.len() < u32::MAX ==> in_place(s)
        }),
{
    let n = b.0 as int;
    let begun = w.begin(b);
    assert(accounted(v, Instruction::spec_nothing()));
    assert(all_accounted(v, begun.insts));
    assert(counts_kept(v, begun));
    lemma_chain(v, begun, env, compress, b, w.blocks.len());
    let c = begun.chain(env, compress, contents(v), b, w.blocks.len());
    let s = c.end();
    assert(same_place(begun.blocks[n], c.blocks[n]));
    assert forall|x: int| 0 <= x < v.ir.blocks.len() implies (#[trigger] s.blocks[x]).arg_count
        == v.ir.blocks[x].arg_count by {
        assert(same_place(begun.blocks[x], c.blocks[x]));
    }
    if s.insts.len() < u32::MAX {
        assert forall|x: int| #[trigger] is_done(s, x) implies x == n || is_done(w, x) by {
            assert(c.visited[x]);
        }
        assert forall|x: int| #[trigger] is_done(s, x) implies has_its_place(
            s.blocks[x],
            s.insts,
        ) by {
            assert(same_place(begun.blocks[x], c.blocks[x]));
            if x != n {
                assert(is_done(w, x));
                assert(has_its_place(w.blocks[x], w.insts));
                assert forall|k: int| 0 <= k < w.insts.len() implies #[trigger] s.insts[k]
                    == w.insts[k] by {
                    assert(begun.insts[k] == w.insts[k]);
                }
            } else if begun.blocks[n].arg_count == 0 {
                assert(s.insts[w.insts.len() as int] == begun.insts[w.insts.len() as int]);
            }
        }
        assert forall|x: int, y: int| #[trigger]
            is_done(s, x) && #[trigger] is_done(s, y) && x != y implies apart(
            s.blocks[x],
            s.blocks[y],
        ) by {
            assert(same_place(begun.blocks[x], c.blocks[x]));
            assert(same_place(begun.blocks[y], c.blocks[y]));
            if x != n {
                assert(is_done(w, x));
            }
            if y != n {
                assert(is_done(w, y));
            }
        }
    }
}

/// All blocks are put together.
proof fn lemma_all(
    v: ModifyView,
    w: Work,
    env: &Environment,
    compress: bool,
    order: Seq<BlockId>,
    i: nat,
)
    requires
        finish::layout_fits(v),
        blocks_are_in_order(v),
        w.sized(v.ir.blocks.len()),
        counts_kept(v, w),
        forall|k: int| 0 <= k < order.len() ==> (#[trigger] order[k]).0 < v.ir.blocks.len(),
        all_accounted(v, w.insts),
        w.insts.len() < u32::MAX ==> in_place(w),
    ensures
        ({
            let s = w.all(env, compress, contents(v), order, i);
            &&& s.sized(v.ir.blocks.len())
            &&& all_accounted(v, s.insts)
            &&& w.insts.len() <= s.insts.len()
            &&& s.insts.len() < u32::MAX ==> in_place(s)
        }),
    decreases order.len() - i,
{
    if i < order.len() {
        let b = order[i as int];
        let s = if w.visited[b.0 as int] {
            w
        } else {
            w.begin(b).chain(env, compress, contents(v), b, w.blocks.len()).end()
        };
        if !w.visited[b.0 as int] {
            lemma_block(v, w, env, compress, b);
        }
        lemma_all(v, s, env, compress, order, i + 1);
    }
}

proof fn lemma_first_gone(gone: Seq<bool>)
    ensures
        match finish::first_gone(gone) {
            Some(i) => 0 <= i < gone.len() && gone[i],
            None => forall|i: int| 0 <= i < gone.len() ==> !gone[i],
        },
    decreases gone.len(),
{
    if gone.len() > 0 {
        lemma_first_gone(gone.drop_last());
        if finish::first_gone(gone) is None {
            assert forall|i: int| 0 <= i < gone.len() implies !gone[i] by {
                if i < gone.len() - 1 {
                    assert(gone.drop_last()[i] == gone[i]);
                }
            }
        }
    }
}

/// Only blocks that are not gone are left.
proof fn lemma_compacted(
    blocks: Seq<BlockView>,
    gone: Seq<bool>,
    names: Seq<Option<u32>>,
    good: spec_fn(BlockView) -> bool,
)
    requires
        gone.len() == blocks.len(),
        forall|i: int| 0 <= i < blocks.len() && !gone[i] ==> good(#[trigger] blocks[i]),
    ensures
        ({
            let left = finish::compacted(blocks, gone, names).0;
            &&& left.len() <= blocks.len()
            &&& forall|i: int| 0 <= i < left.len() ==> good(#[trigger] left[i])
        }),
    decreases blocks.len(),
{
    lemma_first_gone(gone);
    if let Some(i) = finish::first_gone(gone) {
        if gone.last() {
            lemma_compacted(blocks.drop_last(), gone.drop_last(), names, good);
        } else {
            lemma_compacted(
                blocks.update(i, blocks.last()).drop_last(),
                gone.update(i, false).drop_last(),
                names.update(blocks.len() - 1, Some(i as u32)),
                good,
            );
        }
    }
}

/// What holds of any two blocks still holds of those that are left.
proof fn lemma_compacted_pairs(
    blocks: Seq<BlockView>,
    gone: Seq<bool>,
    names: Seq<Option<u32>>,
    rel: spec_fn(BlockView, BlockView) -> bool,
)
    requires
        gone.len() == blocks.len(),
        forall|i: int, j: int|
            0 <= i < blocks.len() && 0 <= j < blocks.len() && i != j && !gone[i] && !gone[j]
                ==> rel(#[trigger] blocks[i], #[trigger] blocks[j]),
    ensures
        ({
            let left = finish::compacted(blocks, gone, names).0;
            forall|i: int, j: int|
                0 <= i < left.len() && 0 <= j < left.len() && i != j ==> rel(
                    #[trigger] left[i],
                    #[trigger] left[j],
                )
        }),
    decreases blocks.len(),
{
    lemma_first_gone(gone);
    let left = finish::compacted(blocks, gone, names).0;
    if finish::first_gone(gone) is None {
        assert(left == blocks);
        assert forall|i: int, j: int|
            0 <= i < left.len() && 0 <= j < left.len() && i != j implies rel(
            #[trigger] left[i],
            #[trigger] left[j],
        ) by {
            assert(!gone[i] && !gone[j]);
        }
    }
    if let Some(i) = finish::first_gone(gone) {
        if gone.last() {
            assert forall|x: int, y: int|
                0 <= x < blocks.len() - 1 && 0 <= y < blocks.len() - 1 && x != y
                    && !gone.drop_last()[x] && !gone.drop_last()[y] implies rel(
                #[trigger] blocks.drop_last()[x],
                #[trigger] blocks.drop_last()[y],
            ) by {
                assert(!gone[x] && !gone[y]);
                assert(rel(blocks[x], blocks[y]));
            }
            lemma_compacted_pairs(blocks.drop_last(), gone.drop_last(), names, rel);
            assert(left == finish::compacted(blocks.drop_last(), gone.drop_last(), names).0);
        } else {
            let moved = blocks.update(i, blocks.last()).drop_last();
            let rest = gone.update(i, false).drop_last();
            assert forall|x: int, y: int|
                0 <= x < moved.len() && 0 <= y < moved.len() && x != y && !rest[x]
                    && !rest[y] implies rel(#[trigger] moved[x], #[trigger] moved[y]) by {
                let last = blocks.len() - 1;
                let x0 = if x == i {
                    last
                } else {
                    x
                };
                let y0 = if y == i {
                    last
                } else {
                    y
                };
                assert(moved[x] == blocks[x0] && moved[y] == blocks[y0]);
                assert(!gone[x0] && !gone[y0]);
                assert(rel(blocks[x0], blocks[y0]));
            }
            let renamed = names.update(blocks.len() - 1, Some(i as u32));
            lemma_compacted_pairs(moved, rest, renamed, rel);
            assert(left == finish::compacted(moved, rest, renamed).0);
        }
    }
}

proof fn lemma_renamed_blocks(
    v: ModifyView,
    env: &Environment,
    insts: Seq<Instruction>,
    extra: Seq<u32>,
    names: Seq<Option<u32>>,
)
    requires
        all_accounted(v, insts),
    ensures
        finish::rename_blocks_in(env, insts, extra, names).0.len() == insts.len(),
        all_accounted(v, finish::rename_blocks_in(env, insts, extra, names).0),
        forall|k: int|
            0 <= k < insts.len() ==> (#[trigger] finish::rename_blocks_in(
                env,
                insts,
                extra,
                names,
            ).0[k]).function == insts[k].function,
    decreases insts.len(),
{
    if insts.len() > 0 {
        lemma_renamed_blocks(v, env, insts.drop_last(), extra, names);
        let (rest, extra1) = finish::rename_blocks_in(env, insts.drop_last(), extra, names);
        let (last, extra2) = finish::rename_blocks_of(env, insts.last(), extra1, names);
        assert(accounted(v, insts.last()));
        assert(accounted(v, last)) by {
            if !last.is_builtin(Builtin::Nothing) {
                let r = choose|r: Ref| taken_over(v, r, insts.last());
                assert(taken_over(v, r, last));
            }
        }
    }
}

/// The blocks that are reached are blocks of the function.
proof fn lemma_postorder_from(blocks: Seq<BlockView>, fuel: nat, b: BlockId, t: Traversal)
    requires
        forall|i: int| 0 <= i < t.order.len() ==> (#[trigger] t.order[i]).0 < blocks.len(),
    ensures
        ({
            let r = finish::postorder_from(blocks, fuel, b, t);
            forall|i: int| 0 <= i < r.order.len() ==> (#[trigger] r.order[i]).0 < blocks.len()
        }),
    decreases fuel, 0nat,
{
    if fuel == 0 || b.0 >= blocks.len() || t.visited[b.0 as int] {
    } else {
        let entered = Traversal { visited: t.visited.update(b.0 as int, true), ..t };
        lemma_postorder_all(blocks, (fuel - 1) as nat, blocks[b.0 as int].succs, entered);
        let done = finish::postorder_all(
            blocks,
            (fuel - 1) as nat,
            blocks[b.0 as int].succs,
            entered,
        );
        assert(finish::postorder_from(blocks, fuel, b, t).order == done.order.push(b));
    }
}

proof fn lemma_postorder_all(blocks: Seq<BlockView>, fuel: nat, list: Seq<BlockId>, t: Traversal)
    requires
        forall|i: int| 0 <= i < t.order.len() ==> (#[trigger] t.order[i]).0 < blocks.len(),
    ensures
        ({
            let r = finish::postorder_all(blocks, fuel, list, t);
            forall|i: int| 0 <= i < r.order.len() ==> (#[trigger] r.order[i]).0 < blocks.len()
        }),
    decreases fuel, list.len() + 1,
{
    if list.len() > 0 {
        lemma_postorder_all(blocks, fuel, list.drop_last(), t);
        lemma_postorder_from(
            blocks,
            fuel,
            list.last(),
            finish::postorder_all(blocks, fuel, list.drop_last(), t),
        );
        assert(finish::postorder_all(blocks, fuel, list, t) == finish::postorder_from(
            blocks,
            fuel,
            list.last(),
            finish::postorder_all(blocks, fuel, list.drop_last(), t),
        ));
    } else {
        assert(finish::postorder_all(blocks, fuel, list, t) == t);
    }
}

/// The order in which blocks are left names blocks of the function.
pub proof fn orders_name_blocks(blocks: Seq<BlockView>)
    ensures
        forall|i: int|
            0 <= i < finish::postorder(blocks).len() ==> (#[trigger] finish::postorder(
                blocks,
            )[i]).0 < blocks.len(),
{
    let none = Traversal {
        visited: Seq::new(blocks.len(), |i: int| false),
        order: Seq::empty(),
    };
    lemma_postorder_from(blocks, blocks.len(), BlockId::entry(), none);
}

proof fn lemma_finished(v: ModifyView, env: &Environment, compress: bool)
    requires
        finish::layout_fits(v),
        blocks_are_in_order(v),
    ensures
        ({
            let f = finish::finished(v, env, compress);
            &&& all_accounted(v, f.insts)
            &&& f.blocks.len() <= v.ir.blocks.len()
            &&& f.insts.len() < u32::MAX ==> laid_out(f)
        }),
{
    let start = finish::fresh(v);
    let order = finish::postorder(v.ir.blocks);
    orders_name_blocks(v.ir.blocks);
    let reversed = order.reverse();
    assert forall|k: int| 0 <= k < reversed.len() implies (#[trigger] reversed[k]).0
        < v.ir.blocks.len() by {
        assert(reversed[k] == order[order.len() - 1 - k]);
    }
    lemma_all(v, start, env, compress, reversed, 0);
    let w = start.all(env, compress, contents(v), reversed, 0);
    let gone = finish::gone_blocks(w);
    let no_names: Seq<Option<u32>> = Seq::new(w.blocks.len(), |i: int| None);
    let (blocks, names) = finish::compacted(w.blocks, gone, no_names);
    lemma_renamed_blocks(v, env, w.insts, w.extra, names);
    lemma_compacted(w.blocks, gone, no_names, |b: BlockView| true);
    if w.insts.len() < u32::MAX {
        let good = |b: BlockView| has_its_place(b, w.insts);
        assert forall|i: int| 0 <= i < w.blocks.len() && !gone[i] implies good(
            #[trigger] w.blocks[i],
        ) by {
            assert(is_done(w, i));
        }
        lemma_compacted(w.blocks, gone, no_names, good);
        let rel = |a: BlockView, b: BlockView| apart(a, b);
        assert forall|i: int, j: int|
            0 <= i < w.blocks.len() && 0 <= j < w.blocks.len() && i != j && !gone[i]
                && !gone[j] implies rel(#[trigger] w.blocks[i], #[trigger] w.blocks[j]) by {
            assert(is_done(w, i) && is_done(w, j));
        }
        lemma_compacted_pairs(w.blocks, gone, no_names, rel);
        let f = finish::finished(v, env, compress);
        assert forall|b: int| 0 <= b < f.blocks.len() implies has_its_place(
            #[trigger] f.blocks[b],
            f.insts,
        ) by {
            assert(good(blocks[b]));
        }
        assert forall|a: int, b: int|
            0 <= a < f.blocks.len() && 0 <= b < f.blocks.len() && a != b implies apart(
            #[trigger] f.blocks[a],
            #[trigger] f.blocks[b],
        ) by {
            assert(rel(blocks[a], blocks[b]));
        }
    }
}

/// Without changes the items are the instructions themselves.
proof fn lemma_plain_items(f: FunctionView, from: int, to: int)
    requires
        0 <= from <= to <= f.insts.len() <= u32::MAX,
    ensures
        finish::items_between(edit::unchanged(f), from, to, false) == Seq::new(
            (to - from) as nat,
            |i: int| Item { r: Ref((from + i) as u32), inst: f.insts[from + i], added: false },
        ),
    decreases to - from,
{
    let u = edit::unchanged(f);
    let plain = Seq::new(
        (to - from) as nat,
        |i: int| Item { r: Ref((from + i) as u32), inst: f.insts[from + i], added: false },
    );
    if from < to {
        lemma_plain_items(f, from, to - 1);
        assert(finish::items_at(u, to - 1, false) =~= seq![
            Item { r: Ref((to - 1) as u32), inst: f.insts[to - 1], added: false },
        ]);
    }
    assert(finish::items_between(u, from, to, false) =~= plain);
}

/// The arguments among items are counted where they come first.
proof fn lemma_count(items: Seq<Item>, args: nat, i: nat)
    requires
        args <= items.len(),
        forall|k: int|
            0 <= k < items.len() ==> ((#[trigger] items[k]).inst.is_builtin(Builtin::BlockArg)
                <==> k < args),
    ensures
        arguments_from(items, i) == if i < args {
            args - i
        } else {
            0
        },
    decreases items.len() - i,
{
    if i < items.len() {
        lemma_count(items, args, i + 1);
    }
}

/// A block in its place is in order.
proof fn lemma_in_order(f: FunctionView, b: int)
    requires
        f.insts.len() < u32::MAX,
        0 <= b < f.blocks.len(),
        has_its_place(f.blocks[b], f.insts),
    ensures
        arguments_first(finish::block_items(edit::unchanged(f), b)),
        arguments_from(finish::block_items(edit::unchanged(f), b), 0) == f.blocks[b].arg_count,
{
    let info = f.blocks[b];
    lemma_plain_items(f, info.args_idx as int, info.body_idx + info.len);
    let items = finish::block_items(edit::unchanged(f), b);
    assert forall|k: int| 0 <= k < items.len() implies ((
    #[trigger] items[k]).inst.is_builtin(Builtin::BlockArg) <==> k < info.arg_count) by {
        assert(items[k].inst == f.insts[info.args_idx + k]);
    }
    lemma_count(items, info.arg_count as nat, 0);
}

/// Putting a function together takes instructions over and adds none. What was deleted and
/// what was replaced by other values is left out.
pub proof fn finishing_takes_instructions_over(v: ModifyView, env: &Environment, compress: bool)
    requires
        finish::layout_fits(v),
        blocks_are_in_order(v),
    ensures
        all_accounted(v, finish::finished(v, env, compress).insts),
{
    lemma_finished(v, env, compress);
}

/// A function that was put together can be changed and put together again: its blocks lie
/// within its instructions, and these are known.
pub proof fn finished_functions_can_be_changed(v: ModifyView, env: &Environment, compress: bool)
    requires
        edit::editable(v, env),
        finish::layout_fits(v),
        blocks_are_in_order(v),
        finish::finished(v, env, compress).insts.len() < u32::MAX,
    ensures
        ({
            let f = finish::finished(v, env, compress);
            &&& edit::editable(edit::unchanged(f), env)
            &&& finish::layout_fits(edit::unchanged(f))
            &&& blocks_are_in_order(edit::unchanged(f))
            &&& laid_out(f)
        }),
{
    lemma_finished(v, env, compress);
    let f = finish::finished(v, env, compress);
    assert forall|i: int| 0 <= i < f.insts.len() implies env.has(
        (#[trigger] f.insts[i]).function,
    ) by {
        assert(accounted(v, f.insts[i]));
        if !f.insts[i].is_builtin(Builtin::Nothing) {
            let r = choose|r: Ref| taken_over(v, r, f.insts[i]);
            if r.0 < v.ir.insts.len() {
                assert(env.has(v.ir.insts[r.0 as int].function));
            } else {
                assert(env.has(v.additional[r.0 - v.ir.insts.len()].inst.function));
            }
        }
    }
    let u = edit::unchanged(f);
    assert forall|b: int| 0 <= b < f.blocks.len() implies {
        let info = #[trigger] u.ir.blocks[b];
        if finish::is_new_block(u, b) {
            info.body_idx < u32::MAX
        } else {
            info.body_idx + info.len <= u.ir.insts.len()
        }
    } by {
        assert(has_its_place(f.blocks[b], f.insts));
    }
    assert forall|b: int| 0 <= b < u.ir.blocks.len() implies {
        &&& arguments_first(#[trigger] finish::block_items(u, b))
        &&& arguments_from(finish::block_items(u, b), 0) == u.ir.blocks[b].arg_count
    } by {
        assert(has_its_place(f.blocks[b], f.insts));
        lemma_in_order(f, b);
    }
}

/// The instruction is one of the body of a block.
pub open spec fn in_body(f: FunctionView, k: int) -> bool {
    exists|b: int|
        0 <= b < f.blocks.len() && (#[trigger] f.blocks[b]).body_idx <= k < f.blocks[b].body_idx
            + f.blocks[b].len
}

/// The change puts no argument of a block anywhere.
pub open spec fn is_no_argument(e: edit::EditView) -> bool {
    match e {
        edit::EditView::Add { function, .. } => function != Builtin::BlockArg.spec_function(),
        edit::EditView::Replace { function, .. } => function
            != Builtin::BlockArg.spec_function(),
        _ => true,
    }
}

pub open spec fn adds_no_arguments(edits: Seq<edit::EditView>) -> bool {
    forall|i: int| 0 <= i < edits.len() ==> is_no_argument(#[trigger] edits[i])
}

/// What well placed changes leave of a function: only bodies are changed, and what was
/// added stands in bodies or before them.
spec fn changed_in_bodies(f: FunctionView, v: ModifyView) -> bool {
    &&& v.ir.insts.len() == f.insts.len()
    &&& forall|k: int|
        0 <= k < f.insts.len() && in_body(f, k) ==> !(#[trigger] v.ir.insts[k]).is_builtin(
            Builtin::BlockArg,
        )
    &&& forall|k: int|
        0 <= k < f.insts.len() && !in_body(f, k) ==> #[trigger] v.ir.insts[k] == f.insts[k]
    &&& forall|j: int|
        0 <= j < v.additional.len() ==> {
            let added = #[trigger] v.additional[j];
            &&& !added.inst.is_builtin(Builtin::BlockArg)
            &&& edit::has_place(edit::unchanged(f), added.insert_at, added.position)
        }
}

proof fn lemma_changed(
    f: FunctionView,
    env: &Environment,
    edits: Seq<edit::EditView>,
    n: int,
)
    requires
        laid_out(f),
        edit::all_well_placed(edit::unchanged(f), env, edits),
        adds_no_arguments(edits),
        0 <= n <= edits.len(),
    ensures
        changed_in_bodies(f, edit::all_applied(edit::unchanged(f), env, edits.take(n))),
    decreases n,
{
    let u = edit::unchanged(f);
    let v = edit::all_applied(u, env, edits.take(n));
    if n == 0 {
        assert(edits.take(0) =~= Seq::empty());
        assert(v == u);
        assert forall|k: int| 0 <= k < f.insts.len() && in_body(f, k) implies !(
        #[trigger] v.ir.insts[k]).is_builtin(Builtin::BlockArg) by {
            let b = choose|b: int|
                0 <= b < f.blocks.len() && (#[trigger] f.blocks[b]).body_idx <= k
                    < f.blocks[b].body_idx + f.blocks[b].len;
            assert(has_its_place(f.blocks[b], f.insts));
        }
    } else {
        lemma_changed(f, env, edits, n - 1);
        let w = edit::all_applied(u, env, edits.take(n - 1));
        let e = edits[n - 1];
        assert(edits.take(n).drop_last() =~= edits.take(n - 1));
        assert(edits.take(n).last() == e);
        assert(v == edit::applied(w, env, e));
        assert(edit::well_placed(u, env, e, u.count() + edit::added(edits.take(n - 1))));
        assert(is_no_argument(e));
        match e {
            edit::EditView::Add { at, position, function, args, ty } => {
                assert(w.anchor(at) == at);
                assert(v.additional.len() == w.additional.len() + 1);
                assert forall|j: int| 0 <= j < v.additional.len() implies {
                    let added = #[trigger] v.additional[j];
                    &&& !added.inst.is_builtin(Builtin::BlockArg)
                    &&& edit::has_place(u, added.insert_at, added.position)
                } by {
                    if j < w.additional.len() {
                        assert(v.additional[j] == w.additional[j]);
                    }
                }
            },
            edit::EditView::NewReg { .. } => {},
            edit::EditView::Replace { at, .. } => {
                lemma_body(f, at);
            },
            edit::EditView::ReplaceWith { at, .. } => {
                lemma_body(f, at);
            },
            edit::EditView::Delete { at } => {
                lemma_body(f, at);
            },
        }
    }
}

proof fn lemma_body(f: FunctionView, at: Ref)
    requires
        at.0 < f.insts.len(),
        edit::unchanged(f).in_some_body(at),
    ensures
        in_body(f, at.0 as int),
{
    let u = edit::unchanged(f);
    let b = choose|b: int| 0 <= b < u.ir.blocks.len() && #[trigger] u.body_has(b, u.key(at));
    assert(f.blocks[b].body_idx <= at.0 < f.blocks[b].body_idx + f.blocks[b].len);
}

/// What is added at a place is no argument.
proof fn lemma_added_items(additional: Seq<AdditionalInst>, base: nat, at: u32, position: Insert)
    requires
        forall|j: int|
            0 <= j < additional.len() ==> !(#[trigger] additional[j]).inst.is_builtin(
                Builtin::BlockArg,
            ),
    ensures
        forall|i: int|
            0 <= i < finish::added_at(additional, base, at, position).len() ==> !(
            #[trigger] finish::added_at(additional, base, at, position)[i]).inst.is_builtin(
                Builtin::BlockArg,
            ),
    decreases additional.len(),
{
    if additional.len() > 0 {
        let last = additional.last();
        assert(last == additional[additional.len() - 1]);
        lemma_added_items(additional.drop_last(), base, at, position);
        let rest = finish::added_at(additional.drop_last(), base, at, position);
        let all = finish::added_at(additional, base, at, position);
        assert forall|i: int| 0 <= i < all.len() implies !(#[trigger] all[i]).inst.is_builtin(
            Builtin::BlockArg,
        ) by {
            if i < rest.len() {
                assert(all[i] == rest[i]);
            } else {
                assert(all[i].inst == last.inst);
            }
        }
    }
}

proof fn lemma_nothing_added(additional: Seq<AdditionalInst>, base: nat, at: u32, position: Insert)
    requires
        forall|j: int|
            0 <= j < additional.len() ==> !((#[trigger] additional[j]).insert_at.0 == at
                && additional[j].position == position),
    ensures
        finish::added_at(additional, base, at, position) == Seq::<Item>::empty(),
    decreases additional.len(),
{
    if additional.len() > 0 {
        assert(additional.last() == additional[additional.len() - 1]);
        lemma_nothing_added(additional.drop_last(), base, at, position);
    }
}

/// The items of a block up to a place: first its arguments.
proof fn lemma_changed_items(f: FunctionView, v: ModifyView, b: int, to: int)
    requires
        laid_out(f),
        f.insts.len() < u32::MAX,
        changed_in_bodies(f, v),
        0 <= b < f.blocks.len(),
        f.blocks[b].args_idx <= to <= f.blocks[b].body_idx + f.blocks[b].len,
    ensures
        ({
            let info = f.blocks[b];
            let items = finish::items_between(v, info.args_idx as int, to, false);
            let taken = if to - info.args_idx < info.arg_count {
                to - info.args_idx
            } else {
                info.arg_count as int
            };
            &&& taken <= items.len()
            &&& to < info.body_idx ==> items.len() == to - info.args_idx
            &&& forall|k: int|
                0 <= k < items.len() ==> ((#[trigger] items[k]).inst.is_builtin(Builtin::BlockArg)
                    <==> k < taken)
        }),
    decreases to,
{
    let info = f.blocks[b];
    assert(has_its_place(info, f.insts));
    if to > info.args_idx {
        lemma_changed_items(f, v, b, to - 1);
        let before = finish::items_between(v, info.args_idx as int, to - 1, false);
        let k = to - 1;
        let base = v.ir.insts.len();
        lemma_added_items(v.additional, base, k as u32, Insert::Before);
        lemma_added_items(v.additional, base, k as u32, Insert::After);
        if k < info.body_idx {
            assert(!in_body(f, k)) by {
                if in_body(f, k) {
                    let o = choose|o: int|
                        0 <= o < f.blocks.len() && (#[trigger] f.blocks[o]).body_idx <= k
                            < f.blocks[o].body_idx + f.blocks[o].len;
                    assert(has_its_place(f.blocks[o], f.insts));
                    if o != b {
                        assert(apart(f.blocks[o], f.blocks[b]));
                    }
                }
            }
            assert(v.ir.insts[k] == f.insts[k]);
            assert forall|j: int| 0 <= j < v.additional.len() && (
            #[trigger] v.additional[j]).insert_at.0 == k implies v.additional[j].position
                == Insert::After && k == info.body_idx - 1 by {
                let added = v.additional[j];
                let u = edit::unchanged(f);
                let o = choose|o: int|
                    0 <= o < u.ir.blocks.len() && #[trigger] u.takes_insertion(
                        o,
                        added.insert_at,
                        added.position,
                    );
                assert(has_its_place(f.blocks[o], f.insts));
                if o != b {
                    assert(apart(f.blocks[o], f.blocks[b]));
                }
            }
            lemma_nothing_added(v.additional, base, k as u32, Insert::Before);
            if k < info.body_idx - 1 {
                lemma_nothing_added(v.additional, base, k as u32, Insert::After);
            }
        } else {
            assert(in_body(f, k)) by {
                assert(f.blocks[b].body_idx <= k < f.blocks[b].body_idx + f.blocks[b].len);
            }
        }
        let items = finish::items_between(v, info.args_idx as int, to, false);
        assert(items == before + finish::items_at(v, k, false));
    }
}

/// Well placed changes that add no arguments leave the blocks in order.
pub proof fn changes_keep_blocks_in_order(
    f: FunctionView,
    env: &Environment,
    edits: Seq<edit::EditView>,
)
    requires
        edit::editable(edit::unchanged(f), env),
        laid_out(f),
        edit::all_well_placed(edit::unchanged(f), env, edits),
        edit::within_limits(edit::unchanged(f), edits),
        adds_no_arguments(edits),
    ensures
        blocks_are_in_order(edit::all_applied(edit::unchanged(f), env, edits)),
{
    let u = edit::unchanged(f);
    let v = edit::all_applied(u, env, edits);
    lemma_changed(f, env, edits, edits.len() as int);
    assert(edits.take(edits.len() as int) =~= edits);
    edit::well_placed_changes_apply(u, env, edits);
    assert forall|b: int| 0 <= b < v.ir.blocks.len() implies {
        &&& arguments_first(#[trigger] finish::block_items(v, b))
        &&& arguments_from(finish::block_items(v, b), 0) == v.ir.blocks[b].arg_count
    } by {
        let info = f.blocks[b];
        let after = v.ir.blocks[b];
        assert(has_its_place(info, f.insts));
        lemma_changed_items(f, v, b, info.body_idx + info.len);
        lemma_count(finish::block_items(v, b), info.arg_count as nat, 0);
    }
}

/// A pass over the function can follow: it is laid out and can be changed and put together
/// again.
pub open spec fn is_ready(f: FunctionView, env: &Environment) -> bool {
    &&& edit::editable(edit::unchanged(f), env)
    &&& finish::layout_fits(edit::unchanged(f))
    &&& laid_out(f)
}

/// Passes over a function can follow one another: where well placed changes that add no
/// arguments were made to a laid out function and it was put together, it is laid out and
/// can be changed again.
pub proof fn changed_functions_can_be_changed_again(
    f: FunctionView,
    env: &Environment,
    edits: Seq<edit::EditView>,
    compress: bool,
)
    requires
        is_ready(f, env),
        edit::all_well_placed(edit::unchanged(f), env, edits),
        edit::within_limits(edit::unchanged(f), edits),
        adds_no_arguments(edits),
        finish::finished(
            edit::all_applied(edit::unchanged(f), env, edits),
            env,
            compress,
        ).insts.len() < u32::MAX,
    ensures
        is_ready(
            finish::finished(edit::all_applied(edit::unchanged(f), env, edits), env, compress),
            env,
        ),
{
    changes_keep_blocks_in_order(f, env, edits);
    edit::well_placed_changes_apply(edit::unchanged(f), env, edits);
    finished_functions_can_be_changed(
        edit::all_applied(edit::unchanged(f), env, edits),
        env,
        compress,
    );
}

} // verus!
