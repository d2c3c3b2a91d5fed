//! Where instructions stand that were added, and where blocks begin.
use vstd::prelude::*;

use crate::ir::block_arg;
use crate::ir::env::Environment;
use crate::ir::finish;
use crate::ir::finish::{Item, Work};
use crate::ir::function::{BlockView, FunctionView};
use crate::ir::ids::{BlockId, FunctionId, Ref, TypeId};
use crate::ir::inst;
use crate::ir::inst::{ArgumentView, Builtin, Instruction};
use crate::ir::layout;
use crate::ir::modify;
use crate::ir::modify::{AdditionalInst, Insert, IrModify, ModifyView};

verus! {

/// The instruction is the other one with references exchanged.
pub open spec fn with_other_refs(env: &Environment, a: Instruction, b: Instruction) -> bool {
    exists|extra: Seq<u32>, blocks: Seq<BlockView>, renames: Seq<Option<Ref>>|
        b == (#[trigger] finish::rename_inst(env, a, extra, blocks, renames)).0
}

/// The instruction is the other one with the names of blocks exchanged.
pub open spec fn with_other_blocks(env: &Environment, a: Instruction, b: Instruction) -> bool {
    exists|extra: Seq<u32>, names: Seq<Option<u32>>|
        b == (#[trigger] finish::rename_blocks_of(env, a, extra, names)).0
}

/// The instruction is the other one with references and names of blocks exchanged.
pub open spec fn stands_for(env: &Environment, a: Instruction, b: Instruction) -> bool {
    exists|mid: Instruction| #[trigger]
        with_other_refs(env, a, mid) && with_other_blocks(env, mid, b)
}

/// From position `k` on stand the instructions of the items, without others between them.
pub open spec fn stand_together(
    env: &Environment,
    insts: Seq<Instruction>,
    k: int,
    items: Seq<Item>,
) -> bool {
    &&& 0 <= k
    &&& k + items.len() <= insts.len()
    &&& forall|q: int|
        0 <= q < items.len() ==> stands_for(env, (#[trigger] items[q]).inst, insts[k + q])
}

/// The instruction gets a place of its own in the finished function. It was not deleted, it
/// stands for no other value, and it is neither an argument of a block nor a jump that may be
/// left out.
pub open spec fn keeps_its_place(env: &Environment, item: Item) -> bool {
    &&& !item.inst.is_builtin(Builtin::Nothing)
    &&& !item.inst.is_builtin(Builtin::BlockArg)
    &&& !item.added ==> !item.inst.is_builtin(Builtin::Copy)
    &&& env.goto != Some(item.inst.function)
}

pub open spec fn all_keep_their_places(env: &Environment, items: Seq<Item>) -> bool {
    forall|q: int| 0 <= q < items.len() ==> keeps_its_place(env, #[trigger] items[q])
}

/// No unconditional jump is among the items.
pub open spec fn without_jumps(env: &Environment, items: Seq<Item>) -> bool {
    forall|q: int| 0 <= q < items.len() ==> env.goto != Some((#[trigger] items[q]).inst.function)
}

/// The place `at` is one of the existing block, and the block can be reached. Nothing jumps
/// away before the place.
pub open spec fn is_reached(v: ModifyView, env: &Environment, b: BlockId, at: Ref) -> bool {
    let info = v.ir.blocks[b.0 as int];
    &&& finish::postorder(v.ir.blocks).contains(b)
    &&& !finish::is_new_block(v, b.0 as int)
    &&& info.args_idx <= at.0 < info.body_idx + info.len
    &&& without_jumps(
        env,
        finish::items_between(v, info.args_idx as int, at.0 as int, false),
    )
}

/// The first list is the beginning of the second one.
spec fn extends<T>(a: Seq<T>, b: Seq<T>) -> bool {
    &&& a.len() <= b.len()
    &&& forall|k: int| 0 <= k < a.len() ==> #[trigger] b[k] == a[k]
}

/// The items stand together before names of blocks are exchanged.
spec fn taken_together(
    env: &Environment,
    insts: Seq<Instruction>,
    k: int,
    items: Seq<Item>,
) -> bool {
    &&& 0 <= k
    &&& k + items.len() <= insts.len()
    &&& forall|q: int|
        0 <= q < items.len() ==> with_other_refs(env, (#[trigger] items[q]).inst, insts[k + q])
}

spec fn has_group(env: &Environment, insts: Seq<Instruction>, group: Seq<Item>) -> bool {
    exists|k: int| #[trigger] taken_together(env, insts, k, group)
}

proof fn lemma_group_stays(
    env: &Environment,
    a: Seq<Instruction>,
    b: Seq<Instruction>,
    group: Seq<Item>,
)
    requires
        has_group(env, a, group),
        extends(a, b),
    ensures
        has_group(env, b, group),
{
    let k = choose|k: int| #[trigger] taken_together(env, a, k, group);
    assert(taken_together(env, b, k, group)) by {
        assert forall|q: int| 0 <= q < group.len() implies with_other_refs(
            env,
            (#[trigger] group[q]).inst,
            b[k + q],
        ) by {
            assert(b[k + q] == a[k + q]);
        }
    }
}

proof fn lemma_redirected_len(
    blocks: Seq<BlockView>,
    succs: Seq<BlockId>,
    from: BlockId,
    to: BlockId,
)
    ensures
        modify::redirect_preds(blocks, succs, from, to).len() == blocks.len(),
        forall|x: int|
            0 <= x < blocks.len() ==> (#[trigger] modify::redirect_preds(
                blocks,
                succs,
                from,
                to,
            )[x]).body_idx == blocks[x].body_idx,
    decreases succs.len(),
{
    if succs.len() > 0 {
        lemma_redirected_len(blocks, succs.drop_last(), from, to);
    }
}

/// The tables cover all blocks.
spec fn is_whole(w: Work, n: nat) -> bool {
    w.sized(n) && w.target.0 < n
}

proof fn lemma_step(w: Work, env: &Environment, compress: bool, item: Item, n: nat)
    requires
        is_whole(w, n),
    ensures
        ({
            let (s, next) = w.step(env, compress, item);
            &&& is_whole(s, n)
            &&& s.visited == w.visited
            &&& extends(w.insts, s.insts)
            &&& next matches Some(t) ==> t.0 < n
            &&& env.goto != Some(item.inst.function) ==> next is None
            &&& keeps_its_place(env, item) ==> {
                &&& s.insts.len() == w.insts.len() + 1
                &&& with_other_refs(env, item.inst, s.insts[w.insts.len() as int])
            }
        }),
{
    let (i, extra) = finish::rename_inst(env, item.inst, w.extra, w.blocks, w.renames);
    let w1 = Work { extra, ..w };
    match w1.merge_target(env, compress, i) {
        Some((t, values)) => {
            let succs = w1.blocks[t.0 as int].succs;
            let cleared = w1.blocks.update(
                t.0 as int,
                BlockView { succs: Seq::empty(), ..w1.blocks[t.0 as int] },
            );
            lemma_redirected_len(cleared, succs, t, w1.target);
        },
        None => {},
    }
}

proof fn lemma_run(
    w: Work,
    env: &Environment,
    compress: bool,
    items: Seq<Item>,
    i: nat,
    n: nat,
)
    requires
        is_whole(w, n),
    ensures
        ({
            let (s, next) = w.run(env, compress, items, i);
            &&& is_whole(s, n)
            &&& s.visited == w.visited
            &&& extends(w.insts, s.insts)
            &&& next matches Some(t) ==> t.0 < n
        }),
    decreases items.len() - i,
{
    if i < items.len() {
        lemma_step(w, env, compress, items[i as int], n);
        let (s, next) = w.step(env, compress, items[i as int]);
        if next is None {
            lemma_run(s, env, compress, items, i + 1, n);
            let end = s.run(env, compress, items, i + 1).0;
            assert forall|k: int| 0 <= k < w.insts.len() implies #[trigger] end.insts[k]
                == w.insts[k] by {
                assert(s.insts[k] == w.insts[k]);
            }
        }
    }
}

/// Items that keep their places are taken over one after the other.
proof fn lemma_run_takes(
    w: Work,
    env: &Environment,
    compress: bool,
    items: Seq<Item>,
    i: nat,
    end: nat,
    n: nat,
)
    requires
        is_whole(w, n),
        i <= end <= items.len(),
        forall|q: int| i <= q < end ==> keeps_its_place(env, #[trigger] items[q]),
    ensures
        ({
            let s = w.run(env, compress, items, i).0;
            &&& extends(w.insts, s.insts)
            &&& w.insts.len() + end - i <= s.insts.len()
            &&& forall|q: int|
                i <= q < end ==> with_other_refs(
                    env,
                    (#[trigger] items[q]).inst,
                    s.insts[w.insts.len() + q - i],
                )
        }),
    decreases end - i,
{
    lemma_run(w, env, compress, items, i, n);
    if i < end {
        lemma_step(w, env, compress, items[i as int], n);
        let (s, next) = w.step(env, compress, items[i as int]);
        assert(keeps_its_place(env, items[i as int]));
        lemma_run_takes(s, env, compress, items, i + 1, end, n);
        let t = s.run(env, compress, items, i + 1).0;
        assert(w.run(env, compress, items, i).0 == t);
        assert forall|q: int| i <= q < end implies with_other_refs(
            env,
            (#[trigger] items[q]).inst,
            t.insts[w.insts.len() + q - i],
        ) by {
            if q == i {
                assert(t.insts[w.insts.len() as int] == s.insts[w.insts.len() as int]);
            } else {
                assert(s.insts.len() + q - (i + 1) == w.insts.len() + q - i);
            }
        }
    }
}

/// A group of items that no jump precedes is taken over.
proof fn lemma_run_reaches(
    w: Work,
    env: &Environment,
    compress: bool,
    items: Seq<Item>,
    i: nat,
    p: nat,
    group: Seq<Item>,
    n: nat,
)
    requires
        is_whole(w, n),
        i <= p,
        p + group.len() <= items.len(),
        group == items.subrange(p as int, (p + group.len()) as int),
        all_keep_their_places(env, group),
        forall|q: int| i <= q < p ==> env.goto != Some((#[trigger] items[q]).inst.function),
    ensures
        has_group(env, w.run(env, compress, items, i).0.insts, group),
    decreases p - i,
{
    if i == p {
        let end = (p + group.len()) as nat;
        assert forall|q: int| p <= q < end implies keeps_its_place(env, #[trigger] items[q]) by {
            assert(group[q - p] == items[q]);
        }
        lemma_run_takes(w, env, compress, items, i, end, n);
        let s = w.run(env, compress, items, i).0;
        let k = w.insts.len() as int;
        assert(taken_together(env, s.insts, k, group)) by {
            assert forall|q: int| 0 <= q < group.len() implies with_other_refs(
                env,
                (#[trigger] group[q]).inst,
                s.insts[k + q],
            ) by {
                assert(items[p + q] == group[q]);
                assert(k + q == w.insts.len() + (p + q) - i);
            }
        }
    } else {
        lemma_step(w, env, compress, items[i as int], n);
        let (s, next) = w.step(env, compress, items[i as int]);
        assert(env.goto != Some(items[i as int].inst.function));
        lemma_run_reaches(s, env, compress, items, i + 1, p, group, n);
    }
}

/// Where the group stands among the contents of the blocks.
spec fn is_group_of(
    env: &Environment,
    items: Seq<Seq<Item>>,
    b: BlockId,
    p: nat,
    group: Seq<Item>,
) -> bool {
    let list = items[b.0 as int];
    &&& b.0 < items.len()
    &&& p + group.len() <= list.len()
    &&& group == list.subrange(p as int, (p + group.len()) as int)
    &&& all_keep_their_places(env, group)
    &&& forall|q: int| 0 <= q < p ==> env.goto != Some((#[trigger] list[q]).inst.function)
}

/// Once the block was visited, the group was taken over.
spec fn is_carried(w: Work, env: &Environment, b: BlockId, group: Seq<Item>) -> bool {
    w.visited[b.0 as int] ==> has_group(env, w.insts, group)
}

/// More blocks were visited.
spec fn visits(a: Work, b: Work) -> bool {
    forall|x: int| 0 <= x < a.visited.len() && a.visited[x] ==> #[trigger] b.visited[x]
}

proof fn lemma_chain(
    w: Work,
    env: &Environment,
    compress: bool,
    items: Seq<Seq<Item>>,
    x: BlockId,
    fuel: nat,
    b: BlockId,
    p: nat,
    group: Seq<Item>,
)
    requires
        is_whole(w, items.len()),
        x.0 < items.len(),
        is_group_of(env, items, b, p, group),
        is_carried(w, env, b, group),
    ensures
        ({
            let s = w.chain(env, compress, items, x, fuel);
            &&& is_whole(s, items.len())
            &&& is_carried(s, env, b, group)
            &&& visits(w, s)
            &&& s.visited[x.0 as int]
        }),
    decreases fuel,
{
    let n = items.len();
    let w1 = w.visit(x);
    lemma_run(w1, env, compress, items[x.0 as int], 0, n);
    let (s, next) = w1.run(env, compress, items[x.0 as int], 0);
    if x == b {
        lemma_run_reaches(w1, env, compress, items[x.0 as int], 0, p, group, n);
    } else if w.visited[b.0 as int] {
        lemma_group_stays(env, w.insts, s.insts, group);
    }
    assert(is_carried(s, env, b, group));
    if let Some(t) = next {
        if fuel > 0 {
            lemma_chain(s, env, compress, items, t, (fuel - 1) as nat, b, p, group);
            let end = s.chain(env, compress, items, t, (fuel - 1) as nat);
            assert(w.chain(env, compress, items, x, fuel) == end);
            assert(s.visited[x.0 as int]);
            assert(end.visited[x.0 as int]);
            assert forall|y: int| 0 <= y < w.visited.len() && w.visited[y] implies
                #[trigger] end.visited[y] by {
                assert(s.visited[y]);
            }
        }
    }
}

proof fn lemma_all(
    w: Work,
    env: &Environment,
    compress: bool,
    items: Seq<Seq<Item>>,
    order: Seq<BlockId>,
    i: nat,
    b: BlockId,
    p: nat,
    group: Seq<Item>,
)
    requires
        is_whole(w, items.len()),
        forall|k: int| 0 <= k < order.len() ==> (#[trigger] order[k]).0 < items.len(),
        is_group_of(env, items, b, p, group),
        is_carried(w, env, b, group),
    ensures
        ({
            let s = w.all(env, compress, items, order, i);
            &&& is_whole(s, items.len())
            &&& is_carried(s, env, b, group)
            &&& visits(w, s)
            &&& forall|k: int|
                i <= k < order.len() ==> s.visited[(#[trigger] order[k]).0 as int]
        }),
    decreases order.len() - i,
{
    if i < order.len() {
        let x = order[i as int];
        let next = if w.visited[x.0 as int] {
            w
        } else {
            w.begin(x).chain(env, compress, items, x, w.blocks.len()).end()
        };
        if !w.visited[x.0 as int] {
            let begun = w.begin(x);
            if w.visited[b.0 as int] {
                lemma_group_stays(env, w.insts, begun.insts, group);
            }
            lemma_chain(begun, env, compress, items, x, w.blocks.len(), b, p, group);
            assert forall|y: int| 0 <= y < w.visited.len() && w.visited[y] implies
                #[trigger] next.visited[y] by {
                assert(begun.visited[y]);
            }
        }
        lemma_all(next, env, compress, items, order, i + 1, b, p, group);
        let end = next.all(env, compress, items, order, i + 1);
        assert(w.all(env, compress, items, order, i) == end);
        assert(next.visited[x.0 as int]);
        assert(end.visited[x.0 as int]);
        assert forall|y: int| 0 <= y < w.visited.len() && w.visited[y] implies
            #[trigger] end.visited[y] by {
            assert(next.visited[y]);
        }
    }
}

proof fn lemma_blocks_renamed(
    env: &Environment,
    insts: Seq<Instruction>,
    extra: Seq<u32>,
    names: Seq<Option<u32>>,
)
    ensures
        finish::rename_blocks_in(env, insts, extra, names).0.len() == insts.len(),
        forall|k: int|
            0 <= k < insts.len() ==> with_other_blocks(
                env,
                insts[k],
                #[trigger] finish::rename_blocks_in(env, insts, extra, names).0[k],
            ),
    decreases insts.len(),
{
    if insts.len() > 0 {
        let rest = insts.drop_last();
        lemma_blocks_renamed(env, rest, extra, names);
        let (before, extra1) = finish::rename_blocks_in(env, rest, extra, names);
        let (last, extra2) = finish::rename_blocks_of(env, insts.last(), extra1, names);
        assert(with_other_blocks(env, insts.last(), last));
        let all = finish::rename_blocks_in(env, insts, extra, names).0;
        assert forall|k: int| 0 <= k < insts.len() implies with_other_blocks(
            env,
            insts[k],
            #[trigger] all[k],
        ) by {
            if k < rest.len() {
                assert(rest[k] == insts[k]);
                assert(all[k] == before[k]);
            }
        }
    }
}

/// What stands in a range of places: what stands before a place, at it and behind it.
proof fn lemma_items_around(v: ModifyView, from: int, at: int, to: int, is_new: bool)
    requires
        from <= at < to,
    ensures
        finish::items_between(v, from, to, is_new) == finish::items_between(v, from, at, is_new)
            + finish::items_at(v, at, is_new) + finish::items_between(v, at + 1, to, is_new),
    decreases to - at,
{
    let before = finish::items_between(v, from, at, is_new) + finish::items_at(v, at, is_new);
    if to - 1 == at {
        assert(finish::items_between(v, at + 1, to, is_new) =~= Seq::empty());
        assert(before + Seq::<Item>::empty() =~= before);
    } else {
        lemma_items_around(v, from, at, to - 1, is_new);
        let behind = finish::items_between(v, at + 1, to - 1, is_new);
        let last = finish::items_at(v, to - 1, is_new);
        assert((before + behind) + last =~= before + (behind + last));
    }
}

/// What was added at an instruction stands together with it in the finished function, in the
/// order of [`finish::items_at`]: first what was added before it, then the instruction, then
/// what was added after it.
pub proof fn insertions_stand_at_their_place(
    v: ModifyView,
    env: &Environment,
    compress: bool,
    b: BlockId,
    at: Ref,
)
    requires
        finish::layout_fits(v),
        is_reached(v, env, b, at),
        all_keep_their_places(env, finish::items_at(v, at.0 as int, false)),
    ensures
        exists|k: int| #[trigger]
            stand_together(
                env,
                finish::finished(v, env, compress).insts,
                k,
                finish::items_at(v, at.0 as int, false),
            ),
{
    let n = v.ir.blocks.len();
    let items = Seq::new(n, |b: int| finish::block_items(v, b));
    let order = finish::postorder(v.ir.blocks);
    layout::orders_name_blocks(v.ir.blocks);
    let reversed = order.reverse();
    assert forall|k: int| 0 <= k < reversed.len() implies (#[trigger] reversed[k]).0 < n by {
        assert(reversed[k] == order[order.len() - 1 - k]);
    }
    let m = choose|m: int| 0 <= m < order.len() && order[m] == b;
    assert(reversed[order.len() - 1 - m] == b);
    let info = v.ir.blocks[b.0 as int];
    let from = info.args_idx as int;
    let to = info.body_idx + info.len;
    let group = finish::items_at(v, at.0 as int, false);
    let before = finish::items_between(v, from, at.0 as int, false);
    lemma_items_around(v, from, at.0 as int, to, false);
    let list = items[b.0 as int];
    let behind = finish::items_between(v, at.0 + 1, to, false);
    assert(list == before + group + behind);
    let p = before.len();
    assert(list.subrange(p as int, (p + group.len()) as int) =~= group);
    assert forall|q: int| 0 <= q < p implies env.goto != Some(
        (#[trigger] list[q]).inst.function,
    ) by {
        assert(list[q] == before[q]);
    }
    let start = finish::fresh(v);
    lemma_all(start, env, compress, items, reversed, 0, b, p, group);
    let w = start.all(env, compress, items, reversed, 0);
    assert(w.visited[b.0 as int]);
    let k = choose|k: int| #[trigger] taken_together(env, w.insts, k, group);
    let names = finish::compacted(
        w.blocks,
        finish::gone_blocks(w),
        Seq::new(w.blocks.len(), |i: int| None),
    ).1;
    lemma_blocks_renamed(env, w.insts, w.extra, names);
    let insts = finish::finished(v, env, compress).insts;
    assert(insts == finish::rename_blocks_in(env, w.insts, w.extra, names).0);
    assert(stand_together(env, insts, k, group)) by {
        assert forall|q: int| 0 <= q < group.len() implies stands_for(
            env,
            (#[trigger] group[q]).inst,
            insts[k + q],
        ) by {
            assert(with_other_refs(env, group[q].inst, w.insts[k + q]));
            assert(with_other_blocks(env, w.insts[k + q], insts[k + q]));
        }
    }
}

/// The addition is one at the place.
pub open spec fn is_added_at(a: AdditionalInst, at: Ref, position: Insert) -> bool {
    a.insert_at == at && a.position == position
}

proof fn lemma_none_added(additional: Seq<AdditionalInst>, base: nat, at: Ref, position: Insert)
    requires
        forall|j: int|
            0 <= j < additional.len() ==> !is_added_at(#[trigger] additional[j], at, position),
    ensures
        finish::added_at(additional, base, at.0, position) == Seq::<Item>::empty(),
    decreases additional.len(),
{
    if additional.len() > 0 {
        let rest = additional.drop_last();
        assert(forall|j: int| 0 <= j < rest.len() ==> rest[j] == additional[j]);
        lemma_none_added(rest, base, at, position);
        let last = additional[additional.len() - 1];
        assert(!is_added_at(last, at, position));
        assert(last.insert_at.0 != at.0 || last.position != position);
    }
}

/// The instructions added at a place are listed in the order of the calls that added them.
pub proof fn insertions_are_listed_in_order(
    additional: Seq<AdditionalInst>,
    base: nat,
    at: Ref,
    position: Insert,
)
    requires
        base + additional.len() <= u32::MAX,
    ensures
        ({
            let list = finish::added_at(additional, base, at.0, position);
            &&& forall|q: int|
                0 <= q < list.len() ==> {
                    let item = #[trigger] list[q];
                    &&& base <= item.r.0 < base + additional.len()
                    &&& is_added_at(additional[item.r.0 - base], at, position)
                    &&& item.inst == additional[item.r.0 - base].inst
                    &&& item.added
                }
            &&& forall|q: int, s: int|
                0 <= q < s < list.len() ==> (#[trigger] list[q]).r.0 < (#[trigger] list[s]).r.0
            &&& forall|j: int|
                0 <= j < additional.len() && is_added_at(
                    #[trigger] additional[j],
                    at,
                    position,
                ) ==> exists|q: int| 0 <= q < list.len() && (#[trigger] list[q]).r.0 == base + j
        }),
    decreases additional.len(),
{
    if additional.len() > 0 {
        let rest = additional.drop_last();
        insertions_are_listed_in_order(rest, base, at, position);
        let before = finish::added_at(rest, base, at.0, position);
        let list = finish::added_at(additional, base, at.0, position);
        let last = additional[additional.len() - 1];
        assert(last.insert_at == at <==> last.insert_at.0 == at.0);
        assert forall|q: int| 0 <= q < list.len() implies {
            let item = #[trigger] list[q];
            &&& base <= item.r.0 < base + additional.len()
            &&& is_added_at(additional[item.r.0 - base], at, position)
            &&& item.inst == additional[item.r.0 - base].inst
            &&& item.added
        } by {
            if q < before.len() {
                assert(list[q] == before[q]);
                assert(rest[before[q].r.0 - base] == additional[before[q].r.0 - base]);
            }
        }
        assert forall|q: int, s: int| 0 <= q < s < list.len() implies (#[trigger] list[q]).r.0 < (
        #[trigger] list[s]).r.0 by {
            assert(list[q] == before[q]);
            if s < before.len() {
                assert(list[s] == before[s]);
            }
        }
        assert forall|j: int|
            0 <= j < additional.len() && is_added_at(
                #[trigger] additional[j],
                at,
                position,
            ) implies exists|q: int| 0 <= q < list.len() && (#[trigger] list[q]).r.0 == base + j by {
            if j < rest.len() {
                assert(rest[j] == additional[j]);
                let q = choose|q: int|
                    0 <= q < before.len() && (#[trigger] before[q]).r.0 == base + j;
                assert(list[q] == before[q]);
            } else {
                assert(list[before.len() as int].r.0 == base + j);
            }
        }
    }
}

/// Where two instructions were added after another one and nothing else at it, the first
/// stands directly behind that one and the second directly behind the first.
pub proof fn later_insertions_stand_behind_earlier_ones(
    v: ModifyView,
    env: &Environment,
    compress: bool,
    b: BlockId,
    at: Ref,
    first: Ref,
    second: Ref,
)
    requires
        finish::layout_fits(v),
        is_reached(v, env, b, at),
        v.ir.insts.len() <= first.0 < second.0 < v.count(),
        is_added_at(v.additional[first.0 - v.ir.insts.len()], at, Insert::After),
        is_added_at(v.additional[second.0 - v.ir.insts.len()], at, Insert::After),
        forall|j: int|
            0 <= j < v.additional.len() && (#[trigger] v.additional[j]).insert_at == at
                ==> v.ir.insts.len() + j == first.0 || v.ir.insts.len() + j == second.0,
        keeps_its_place(env, Item { r: at, inst: v.inst(at), added: false }),
        keeps_its_place(env, Item { r: first, inst: v.inst(first), added: true }),
        keeps_its_place(env, Item { r: second, inst: v.inst(second), added: true }),
    ensures
        ({
            let insts = finish::finished(v, env, compress).insts;
            exists|k: int|
                #![trigger insts[k]]
                {
                    &&& 0 <= k
                    &&& k + 2 < insts.len()
                    &&& stands_for(env, v.inst(at), insts[k])
                    &&& stands_for(env, v.inst(first), insts[k + 1])
                    &&& stands_for(env, v.inst(second), insts[k + 2])
                }
        }),
{
    let base = v.ir.insts.len();
    let before = finish::added_at(v.additional, base, at.0, Insert::Before);
    let after = finish::added_at(v.additional, base, at.0, Insert::After);
    let i = first.0 - base;
    let j = second.0 - base;
    lemma_none_added(v.additional, base, at, Insert::Before);
    insertions_are_listed_in_order(v.additional, base, at, Insert::After);
    assert(is_added_at(v.additional[i], at, Insert::After));
    assert(is_added_at(v.additional[j], at, Insert::After));
    let qi = choose|q: int| 0 <= q < after.len() && (#[trigger] after[q]).r.0 == base + i;
    let qj = choose|q: int| 0 <= q < after.len() && (#[trigger] after[q]).r.0 == base + j;
    assert forall|q: int| 0 <= q < after.len() implies (#[trigger] after[q]).r == first
        || after[q].r == second by {
        assert(is_added_at(v.additional[after[q].r.0 - base], at, Insert::After));
    }
    assert(qi < qj);
    assert(after.len() == 2) by {
        if after.len() > 2 {
            assert(after[0].r.0 < after[1].r.0);
            assert(after[1].r.0 < after[2].r.0);
        }
    }
    let own = Item { r: at, inst: v.inst(at), added: false };
    assert(at.0 < base) by {
        layout::orders_name_blocks(v.ir.blocks);
        let order = finish::postorder(v.ir.blocks);
        let m = choose|m: int| 0 <= m < order.len() && order[m] == b;
        assert(order[m].0 < v.ir.blocks.len());
        assert(v.ir.blocks[b.0 as int].body_idx + v.ir.blocks[b.0 as int].len <= base);
    }
    let group = finish::items_at(v, at.0 as int, false);
    assert(group =~= seq![
        own,
        Item { r: first, inst: v.inst(first), added: true },
        Item { r: second, inst: v.inst(second), added: true },
    ]);
    insertions_stand_at_their_place(v, env, compress, b, at);
    let insts = finish::finished(v, env, compress).insts;
    let k = choose|k: int| #[trigger] stand_together(env, insts, k, group);
    assert(stands_for(env, group[0].inst, insts[k + 0]));
    assert(stands_for(env, group[1].inst, insts[k + 1]));
    assert(stands_for(env, group[2].inst, insts[k + 2]));
    assert(insts[k] == insts[k + 0]);
}

/// All blocks that there were begin where they began.
pub open spec fn starts_kept(v: ModifyView, after: ModifyView) -> bool {
    &&& v.ir.blocks.len() <= after.ir.blocks.len()
    &&& forall|b: int|
        0 <= b < v.ir.blocks.len() ==> (#[trigger] after.ir.blocks[b]).body_idx
            == v.ir.blocks[b].body_idx
}

/// Adding an instruction keeps the starts of all blocks.
pub proof fn additions_keep_block_starts(
    v: ModifyView,
    env: &Environment,
    function: FunctionId,
    block: BlockId,
    args: Seq<ArgumentView>,
    at: Ref,
    position: Insert,
    inst: Instruction,
)
    requires
        block.0 < v.ir.blocks.len(),
        inst::targets_exist(args, v.ir.blocks.len()),
    ensures
        starts_kept(
            v,
            IrModify::with_args(v, env, function, block, args).add(at, position, inst),
        ),
{
    inst::lemma_add_edges_len(v.ir.blocks, block, args);
}

proof fn lemma_pred_removed(blocks: Seq<BlockView>, targets: Seq<BlockId>, block: BlockId)
    ensures
        modify::remove_pred_of(blocks, targets, block).len() == blocks.len(),
        forall|x: int|
            0 <= x < blocks.len() ==> (#[trigger] modify::remove_pred_of(
                blocks,
                targets,
                block,
            )[x]).body_idx == blocks[x].body_idx,
    decreases targets.len(),
{
    if targets.len() > 0 {
        lemma_pred_removed(blocks, targets.drop_last(), block);
    }
}

/// Replacing an instruction by a value, by another one or by nothing keeps the starts of all
/// blocks.
pub proof fn replacements_keep_block_starts(
    v: ModifyView,
    env: &Environment,
    r: Ref,
    function: FunctionId,
    block: BlockId,
    args: Seq<ArgumentView>,
    inst: Instruction,
)
    requires
        block.0 < v.ir.blocks.len(),
        inst::targets_exist(args, v.ir.blocks.len()),
    ensures
        starts_kept(v, IrModify::replaced(v, env, r, block, inst)),
        starts_kept(
            v,
            IrModify::replaced(
                IrModify::with_args(v, env, function, block, args),
                env,
                r,
                block,
                inst,
            ),
        ),
{
    lemma_removed_edges(v, env, r, block, inst);
    let w = IrModify::with_args(v, env, function, block, args);
    inst::lemma_add_edges_len(v.ir.blocks, block, args);
    lemma_removed_edges(w, env, r, block, inst);
    let t = IrModify::replaced(w, env, r, block, inst);
    assert forall|b: int| 0 <= b < v.ir.blocks.len() implies (
    #[trigger] t.ir.blocks[b]).body_idx == v.ir.blocks[b].body_idx by {
        assert(t.ir.blocks[b].body_idx == w.ir.blocks[b].body_idx);
    }
}

proof fn lemma_removed_edges(
    v: ModifyView,
    env: &Environment,
    r: Ref,
    block: BlockId,
    inst: Instruction,
)
    requires
        block.0 < v.ir.blocks.len(),
    ensures
        starts_kept(v, IrModify::replaced(v, env, r, block, inst)),
{
    let targets = modify::targets_of(v.args(v.inst(r), env));
    let b = block.0 as int;
    let without = v.ir.blocks.update(
        b,
        BlockView {
            succs: modify::remove_targets(v.ir.blocks[b].succs, targets),
            ..v.ir.blocks[b]
        },
    );
    lemma_pred_removed(without, targets, block);
}

/// A new block leaves the starts of the others where they were.
pub proof fn new_blocks_keep_block_starts(v: ModifyView, args: Seq<TypeId>)
    ensures
        starts_kept(v, IrModify::block_added(v, args)),
{
}

/// The first part of a block that is split begins where the block began.
pub proof fn splits_keep_block_starts(v: ModifyView, block: BlockId, r: Ref)
    requires
        block.0 < v.ir.blocks.len(),
    ensures
        starts_kept(v, IrModify::block_split(v, block, r)),
{
    let b = block.0 as int;
    let info = v.ir.blocks[b];
    let new_id = BlockId(v.ir.blocks.len() as u32);
    let shortened = v.ir.blocks.update(
        b,
        BlockView { len: (r.0 - info.body_idx) as u32, succs: Seq::empty(), ..info },
    );
    lemma_redirected_len(shortened, info.succs, block, new_id);
}

proof fn lemma_terminators_keep_blocks(
    f: FunctionView,
    env: &Environment,
    preds: Seq<BlockId>,
    block: BlockId,
    n: u32,
)
    ensures
        block_arg::terminators_extended(f, env, preds, block, n).blocks == f.blocks,
    decreases preds.len(),
{
    if preds.len() > 0 {
        lemma_terminators_keep_blocks(f, env, preds.drop_last(), block, n);
    }
}

/// An argument more for a block keeps the starts of all blocks: it is put in its place only
/// when the function is finished.
pub proof fn block_args_keep_block_starts(
    v: ModifyView,
    env: &Environment,
    block: BlockId,
    ty: TypeId,
)
    requires
        block.0 < v.ir.blocks.len(),
    ensures
        starts_kept(v, IrModify::block_arg_added(v, env, block, ty)),
{
    let info = v.ir.blocks[block.0 as int];
    let counted = FunctionView {
        blocks: v.ir.blocks.update(
            block.0 as int,
            BlockView { arg_count: (info.arg_count + 1) as u32, ..info },
        ),
        ..v.ir
    };
    lemma_terminators_keep_blocks(counted, env, info.preds, block, info.arg_count);
}

} // verus!
