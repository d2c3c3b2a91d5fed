//! Emitting the machine code of a whole function.
use vstd::prelude::*;

use crate::backend::bytes;
use crate::backend::bytes::{bits_of_i32, write_u32};
use crate::backend::emit::{EmitState, Emitter, Relocation};
use crate::ir::dialect;
use crate::ir::dialect::{Dialect, Mc};
use crate::ir::env::Environment;
use crate::ir::function::FunctionIr;
use crate::ir::ids::{BlockId, ModuleId, StackSlot};
use crate::ir::inst;
use crate::ir::inst::{decode_args, Argument, ArgumentView, Instruction, MCReg};
use crate::ir::mc::inst as machine;
use crate::ir::mc::inst::McInst;
use crate::ir::mc::parcopy;
use crate::ir::mc::parcopy::ParcopySolver;
use crate::ir::mc::register::Register;

verus! {

/// Only code was added. Where it refers to blocks that were not emitted yet, it refers to
/// the target.
pub open spec fn appended(s: EmitState, t: EmitState, target: Option<BlockId>) -> bool {
    &&& t.start == s.start
    &&& t.block_queue == s.block_queue
    &&& t.queued_blocks == s.queued_blocks
    &&& t.block_offsets == s.block_offsets
    &&& s.text.len() <= t.text.len()
    &&& t.text.take(s.text.len() as int) == s.text
    &&& s.missing_block_addrs.len() <= t.missing_block_addrs.len()
    &&& t.missing_block_addrs.take(s.missing_block_addrs.len() as int) == s.missing_block_addrs
    &&& forall|i: int|
        s.missing_block_addrs.len() <= i < t.missing_block_addrs.len() ==> {
            &&& (#[trigger] t.missing_block_addrs[i]).0 + 4 <= t.offset()
            &&& target == Some(t.missing_block_addrs[i].1)
        }
}

/// How a machine writes its instructions.
pub trait Emit: McInst {
    /// The register that copies may overwrite.
    spec fn tmp() -> Self::Reg;

    spec fn can_copy(to: Self::Reg, from: Self::Reg) -> bool;

    spec fn copy_code(to: Self::Reg, from: Self::Reg) -> Seq<u8>;

    spec fn can_address(to: Self::Reg, slot: StackSlot) -> bool;

    spec fn address_code(to: Self::Reg, slot: StackSlot) -> Seq<u8>;

    /// The operands can be written in a function with so many blocks.
    spec fn encodes(self, args: Seq<ArgumentView>, blocks: nat) -> bool;

    /// The block that the instruction jumps to.
    spec fn target(self, args: Seq<ArgumentView>) -> Option<BlockId>;

    /// The distances that the instruction writes fit.
    spec fn in_reach(self, s: EmitState, args: Seq<ArgumentView>) -> bool;

    /// The state after the instruction.
    spec fn after(self, s: EmitState, args: Seq<ArgumentView>) -> EmitState;

    fn tmp_register() -> (r: Self::Reg)
        ensures
            r == Self::tmp(),
    ;

    fn implement_copy(text: &mut Vec<u8>, to: Self::Reg, from: Self::Reg)
        requires
            Self::can_copy(to, from),
        ensures
            final(text)@ == old(text)@ + Self::copy_code(to, from),
    ;

    fn implement_stack_addr(text: &mut Vec<u8>, to: Self::Reg, slot: StackSlot)
        requires
            Self::can_address(to, slot),
        ensures
            final(text)@ == old(text)@ + Self::address_code(to, slot),
    ;

    fn reaches(e: &Emitter<Self::Reg>, op: Self, args: &Vec<Argument>) -> (fits: bool)
        requires
            op.encodes(inst::views(args@), e@.block_offsets.len()),
            0 <= e@.offset(),
        ensures
            fits == op.in_reach(e@, inst::views(args@)),
    ;

    fn emit_op(e: &mut Emitter<Self::Reg>, op: Self, args: &Vec<Argument>)
        requires
            op.encodes(inst::views(args@), old(e)@.block_offsets.len()),
            op.in_reach(old(e)@, inst::views(args@)),
        ensures
            final(e)@ == op.after(old(e)@, inst::views(args@)),
    ;

    /// Instructions only add code.
    proof fn code_is_appended(self, s: EmitState, args: Seq<ArgumentView>)
        requires
            self.encodes(args, s.block_offsets.len()),
            self.in_reach(s, args),
        ensures
            appended(s, self.after(s, args), self.target(args)),
            self.target(args) matches Some(t) ==> t.0 < s.block_offsets.len(),
    ;
}

/// What is emitted: a function of machine instructions.
pub struct Emission<'a> {
    pub mc: ModuleId,
    pub isa: ModuleId,
    pub env: &'a Environment,
    pub ir: &'a FunctionIr,
}

impl<'a> Emission<'a> {
    pub open spec fn args(self, i: Instruction) -> Seq<ArgumentView> {
        inst::args_of(
            self.env.def(i.function).params@,
            self.env.def(i.function).varargs,
            i.args,
            self.ir@.extra,
            self.ir@.blocks,
        )
    }

    pub open spec fn blocks(self) -> nat {
        self.ir@.blocks.len()
    }

    pub open spec fn succs(self, b: BlockId) -> Seq<BlockId> {
        self.ir@.blocks[b.0 as int].succs
    }

    /// The `k`-th instruction of a block.
    pub open spec fn inst_of(self, b: BlockId, k: int) -> Instruction {
        self.ir@.insts[self.ir@.blocks[b.0 as int].body_idx + k]
    }
}

/// The physical registers that the operands name.
pub open spec fn regs_of<R: Register>(args: Seq<ArgumentView>) -> Seq<R> {
    args.map_values(|a: ArgumentView| machine::phys_of::<R>(a)->Some_0)
}

/// The operands of a copy are pairs of registers, and the copies that it comes down to can be
/// made.
pub open spec fn copy_fits<I: Emit>(args: Seq<ArgumentView>) -> bool {
    let regs = regs_of::<I::Reg>(args);
    &&& forall|i: int|
        0 <= i < args.len() ==> (#[trigger] args[i]) is MCReg && machine::phys_of::<I::Reg>(
            args[i],
        ) is Some
    &&& parcopy::is_parallel_copy(regs, I::tmp())
    &&& forall|k: int|
        0 <= k < parcopy::solved(regs, I::tmp()).len() ==> {
            let (to, from) = #[trigger] parcopy::solved(regs, I::tmp())[k];
            I::can_copy(to, from)
        }
}

pub open spec fn stack_value_fits<I: Emit>(args: Seq<ArgumentView>) -> bool {
    &&& args.len() == 2
    &&& args[0] is MCReg
    &&& args[1] is Int32
    &&& machine::phys_of::<I::Reg>(args[0]) matches Some(r) && I::can_address(
        r,
        StackSlot(args[1]->Int32_0),
    )
}

/// The instruction of the block can be written.
pub open spec fn inst_fits<I: Emit>(c: Emission, b: BlockId, i: Instruction) -> bool {
    let args = c.args(i);
    &&& c.env.has(i.function)
    &&& c.env.def(i.function).params@.len() <= u32::MAX
    &&& match dialect::spec_as_module::<Mc>(i, c.mc) {
        Some(Mc::IncomingBlockArgs) => true,
        Some(Mc::Copy) => copy_fits::<I>(args),
        Some(Mc::AssignBlockArgs) => copy_fits::<I>(args),
        Some(Mc::StackValue) => stack_value_fits::<I>(args),
        None => match dialect::spec_as_module::<I>(i, c.isa) {
            Some(op) => op.encodes(args, c.blocks()) && (op.target(args) matches Some(t)
                ==> c.succs(b).contains(t)),
            None => false,
        },
    }
}

/// The function begins with a block, its blocks lie within it, and all instructions can be
/// written. Jumps go to blocks that are known to follow.
pub open spec fn can_emit<I: Emit>(c: Emission) -> bool {
    let f = c.ir@;
    &&& 0 < f.blocks.len() <= u32::MAX
    &&& forall|b: int|
        0 <= b < f.blocks.len() ==> {
            let info = #[trigger] f.blocks[b];
            &&& info.body_idx + info.len <= f.insts.len()
            &&& info.body_idx + info.len <= u32::MAX
            &&& forall|j: int| 0 <= j < info.succs.len() ==> (#[trigger] info.succs[j]).0
                < f.blocks.len()
            &&& forall|k: int|
                0 <= k < info.len ==> inst_fits::<I>(
                    c,
                    BlockId(b as u32),
                    #[trigger] c.inst_of(BlockId(b as u32), k),
                )
        }
}

/// The code of copies that are made one after the other.
pub open spec fn copies_code<I: Emit>(copies: Seq<(I::Reg, I::Reg)>) -> Seq<u8>
    decreases copies.len(),
{
    if copies.len() == 0 {
        Seq::empty()
    } else {
        copies_code::<I>(copies.drop_last()) + I::copy_code(copies.last().0, copies.last().1)
    }
}

/// The code of copies at once. They are made one after the other.
pub open spec fn parallel_code<I: Emit>(args: Seq<ArgumentView>) -> Seq<u8> {
    copies_code::<I>(parcopy::solved(regs_of::<I::Reg>(args), I::tmp()))
}

/// The state after the instruction, if its distances fit.
pub open spec fn inst_after<I: Emit>(c: Emission, s: EmitState, i: Instruction) -> Option<EmitState> {
    let args = c.args(i);
    match dialect::spec_as_module::<Mc>(i, c.mc) {
        Some(Mc::IncomingBlockArgs) => Some(s),
        Some(Mc::Copy) => Some(s.with_bytes(parallel_code::<I>(args))),
        Some(Mc::AssignBlockArgs) => Some(s.with_bytes(parallel_code::<I>(args))),
        Some(Mc::StackValue) => Some(
            s.with_bytes(
                I::address_code(
                    machine::phys_of::<I::Reg>(args[0])->Some_0,
                    StackSlot(args[1]->Int32_0),
                ),
            ),
        ),
        None => match dialect::spec_as_module::<I>(i, c.isa) {
            Some(op) if op.in_reach(s, args) => Some(op.after(s, args)),
            _ => None,
        },
    }
}

/// The state after the first `n` instructions of a block, if all distances fit.
pub open spec fn body_after<I: Emit>(c: Emission, s: EmitState, b: BlockId, n: nat) -> Option<
    EmitState,
>
    decreases n,
{
    if n == 0 {
        Some(s)
    } else {
        match body_after::<I>(c, s, b, (n - 1) as nat) {
            Some(mid) => inst_after::<I>(c, mid, c.inst_of(b, n - 1)),
            None => None,
        }
    }
}

/// The queue after blocks were added that never were in it.
pub open spec fn queued(queue: Seq<BlockId>, seen: Seq<bool>, succs: Seq<BlockId>) -> (
    Seq<BlockId>,
    Seq<bool>,
)
    decreases succs.len(),
{
    if succs.len() == 0 {
        (queue, seen)
    } else {
        let (queue1, seen1) = queued(queue, seen, succs.drop_last());
        let succ = succs.last();
        if seen1[succ.0 as int] {
            (queue1, seen1)
        } else {
            (queue1.push(succ), seen1.update(succ.0 as int, true))
        }
    }
}

/// The next block is taken from the queue.
pub open spec fn popped(s: EmitState) -> EmitState {
    EmitState { block_queue: s.block_queue.skip(1), ..s }
}

/// A block begins: it gets its place, and the blocks that follow are queued.
pub open spec fn begun(c: Emission, s: EmitState, b: BlockId) -> EmitState {
    let (queue, seen) = queued(s.block_queue, s.queued_blocks, c.succs(b));
    EmitState {
        block_offsets: s.block_offsets.update(b.0 as int, Some(s.offset() as u32)),
        block_queue: queue,
        queued_blocks: seen,
        ..s
    }
}

/// The state after the next block, if its place and all distances fit. A block that has its
/// place already is not emitted again.
pub open spec fn block_after<I: Emit>(c: Emission, s: EmitState) -> Option<EmitState> {
    let b = s.block_queue[0];
    if s.offset() > u32::MAX {
        None
    } else if s.block_offsets[b.0 as int] is Some {
        Some(popped(s))
    } else {
        body_after::<I>(c, begun(c, popped(s), b), b, c.ir@.blocks[b.0 as int].len as nat)
    }
}

/// The state after at most `n` more blocks.
pub open spec fn blocks_after<I: Emit>(c: Emission, s: EmitState, n: nat) -> Option<EmitState>
    decreases n,
{
    if n == 0 || s.block_queue.len() == 0 {
        Some(s)
    } else {
        match block_after::<I>(c, s) {
            Some(t) => blocks_after::<I>(c, t, (n - 1) as nat),
            None => None,
        }
    }
}

/// Before the first block.
pub open spec fn started(c: Emission, text: Seq<u8>, relocations: Seq<Relocation>) -> EmitState {
    EmitState {
        text,
        relocations,
        start: text.len() as int,
        block_queue: seq![BlockId::entry()],
        queued_blocks: Seq::new(c.blocks(), |b: int| b == 0),
        block_offsets: Seq::new(c.blocks(), |b: int| None),
        missing_block_addrs: Seq::empty(),
    }
}

/// The distance from behind the `i`-th place that is filled in to its block.
pub open spec fn distance(s: EmitState, i: int) -> int {
    let (location, block) = s.missing_block_addrs[i];
    s.block_offsets[block.0 as int]->Some_0 - location - 4
}

/// All distances that are filled in fit.
pub open spec fn distances_fit(s: EmitState) -> bool {
    forall|i: int|
        0 <= i < s.missing_block_addrs.len() ==> bytes::fits_i32(#[trigger] distance(s, i))
}

/// The code with the first `n` distances to blocks filled in that were not known at
/// first.
pub open spec fn filled(s: EmitState, n: int) -> Seq<u8>
    decreases n,
{
    if n <= 0 {
        s.text
    } else {
        let before = filled(s, n - 1);
        let at = s.start + s.missing_block_addrs[n - 1].0;
        before.take(at) + bytes::le_32(bytes::twos_32(distance(s, n - 1))) + before.skip(at + 4)
    }
}

/// The code of a function behind other code, with what the linker fills in. There is none
/// where the place of a block or a distance does not fit into 32 bits.
pub open spec fn emitted<I: Emit>(c: Emission, text: Seq<u8>, relocations: Seq<Relocation>) -> Option<
    (Seq<u8>, Seq<Relocation>),
> {
    match blocks_after::<I>(c, started(c, text, relocations), c.blocks()) {
        Some(s) if distances_fit(s) => Some(
            (filled(s, s.missing_block_addrs.len() as int), s.relocations),
        ),
        _ => None,
    }
}

/// How many blocks were never queued.
pub open spec fn unqueued(seen: Seq<bool>) -> nat
    decreases seen.len(),
{
    if seen.len() == 0 {
        0
    } else {
        unqueued(seen.drop_last()) + if seen.last() {
            0nat
        } else {
            1
        }
    }
}

proof fn lemma_unqueued(seen: Seq<bool>, i: int)
    requires
        0 <= i < seen.len(),
        !seen[i],
    ensures
        unqueued(seen.update(i, true)) + 1 == unqueued(seen),
    decreases seen.len(),
{
    let new = seen.update(i, true);
    if i == seen.len() - 1 {
        assert(new.drop_last() =~= seen.drop_last());
    } else {
        assert(new.drop_last() =~= seen.drop_last().update(i, true));
        lemma_unqueued(seen.drop_last(), i);
    }
}

/// What holds of all states of an emission.
spec fn sound(c: Emission, s: EmitState) -> bool {
    &&& 0 <= s.start <= s.text.len()
    &&& s.block_offsets.len() == c.blocks()
    &&& s.queued_blocks.len() == c.blocks()
    &&& forall|i: int|
        0 <= i < s.block_queue.len() ==> (#[trigger] s.block_queue[i]).0 < c.blocks()
            && s.queued_blocks[s.block_queue[i].0 as int]
    &&& forall|b: int|
        0 <= b < c.blocks() && #[trigger] s.queued_blocks[b] ==> s.block_offsets[b] is Some
            || s.block_queue.contains(BlockId(b as u32))
    &&& forall|i: int|
        0 <= i < s.missing_block_addrs.len() ==> {
            let (location, t) = #[trigger] s.missing_block_addrs[i];
            &&& location + 4 <= s.offset()
            &&& t.0 < c.blocks()
            &&& s.queued_blocks[t.0 as int]
        }
}

proof fn lemma_queued(c: Emission, queue: Seq<BlockId>, seen: Seq<bool>, succs: Seq<BlockId>)
    requires
        seen.len() == c.blocks(),
        forall|j: int| 0 <= j < succs.len() ==> (#[trigger] succs[j]).0 < c.blocks(),
        forall|i: int|
            0 <= i < queue.len() ==> (#[trigger] queue[i]).0 < c.blocks() && seen[queue[i].0 as int],
    ensures
        ({
            let (queue1, seen1) = queued(queue, seen, succs);
            &&& seen1.len() == seen.len()
            &&& unqueued(seen1) + queue1.len() == unqueued(seen) + queue.len()
            &&& queue.len() <= queue1.len()
            &&& queue1.take(queue.len() as int) == queue
            &&& forall|i: int|
                0 <= i < queue1.len() ==> (#[trigger] queue1[i]).0 < c.blocks()
                    && seen1[queue1[i].0 as int]
            &&& forall|b: int| 0 <= b < seen.len() && seen[b] ==> #[trigger] seen1[b]
            &&& forall|b: int|
                0 <= b < seen.len() && #[trigger] seen1[b] && !seen[b] ==> queue1.contains(
                    BlockId(b as u32),
                )
            &&& forall|j: int| 0 <= j < succs.len() ==> seen1[(#[trigger] succs[j]).0 as int]
        }),
    decreases succs.len(),
{
    if succs.len() == 0 {
        assert(queue.take(queue.len() as int) =~= queue);
    } else {
        let rest = succs.drop_last();
        assert(forall|j: int| 0 <= j < rest.len() ==> rest[j] == succs[j]);
        lemma_queued(c, queue, seen, rest);
        let (queue1, seen1) = queued(queue, seen, rest);
        let succ = succs.last();
        assert(succ == succs[succs.len() - 1]);
        let (queue2, seen2) = queued(queue, seen, succs);
        if !seen1[succ.0 as int] {
            lemma_unqueued(seen1, succ.0 as int);
            assert(queue2.take(queue.len() as int) =~= queue1.take(queue.len() as int));
            assert forall|b: int|
                0 <= b < seen.len() && #[trigger] seen2[b] && !seen[b] implies queue2.contains(
                BlockId(b as u32),
            ) by {
                if b == succ.0 {
                    assert(queue2[queue1.len() as int] == BlockId(b as u32));
                } else {
                    assert(seen1[b]);
                    let k = choose|k: int| 0 <= k < queue1.len() && queue1[k] == BlockId(b as u32);
                    assert(queue2[k] == queue1[k]);
                }
            }
        }
        assert forall|j: int| 0 <= j < succs.len() implies seen2[(#[trigger] succs[j]).0 as int] by {
            if j < rest.len() {
                assert(rest[j] == succs[j]);
                assert(seen1[rest[j].0 as int]);
            }
        }
    }
}

proof fn lemma_popped(c: Emission, s: EmitState)
    requires
        c.blocks() <= u32::MAX,
        sound(c, s),
        s.block_queue.len() > 0,
        s.block_offsets[s.block_queue[0].0 as int] is Some,
    ensures
        sound(c, popped(s)),
{
    let t = popped(s);
    assert forall|i: int| 0 <= i < t.block_queue.len() implies (#[trigger] t.block_queue[i]).0
        < c.blocks() && t.queued_blocks[t.block_queue[i].0 as int] by {
        assert(t.block_queue[i] == s.block_queue[i + 1]);
    }
    assert forall|b: int| 0 <= b < c.blocks() && #[trigger] t.queued_blocks[b] implies t.block_offsets[b]
        is Some || t.block_queue.contains(BlockId(b as u32)) by {
        if s.block_offsets[b] is None {
            let k = choose|k: int| 0 <= k < s.block_queue.len() && s.block_queue[k] == BlockId(
                b as u32,
            );
            assert(k != 0);
            assert(t.block_queue[k - 1] == s.block_queue[k]);
        }
    }
}

proof fn lemma_begun<I: Emit>(c: Emission, s: EmitState)
    requires
        can_emit::<I>(c),
        sound(c, s),
        s.block_queue.len() > 0,
        s.block_offsets[s.block_queue[0].0 as int] is None,
    ensures
        ({
            let b = s.block_queue[0];
            let t = begun(c, popped(s), b);
            &&& sound(c, t)
            &&& unqueued(t.queued_blocks) + t.block_queue.len() + 1 == unqueued(s.queued_blocks)
                + s.block_queue.len()
            &&& forall|j: int|
                0 <= j < c.succs(b).len() ==> t.queued_blocks[(#[trigger] c.succs(b)[j]).0 as int]
        }),
{
    let b = s.block_queue[0];
    let p = popped(s);
    let t = begun(c, p, b);
    let info = c.ir@.blocks[b.0 as int];
    assert forall|j: int| 0 <= j < c.succs(b).len() implies (#[trigger] c.succs(b)[j]).0
        < c.blocks() by {
        assert(info.succs[j].0 < c.ir@.blocks.len());
    }
    assert forall|i: int| 0 <= i < p.block_queue.len() implies (#[trigger] p.block_queue[i]).0
        < c.blocks() && p.queued_blocks[p.block_queue[i].0 as int] by {
        assert(p.block_queue[i] == s.block_queue[i + 1]);
    }
    lemma_queued(c, p.block_queue, p.queued_blocks, c.succs(b));
    assert forall|x: int| 0 <= x < c.blocks() && #[trigger] t.queued_blocks[x] implies t.block_offsets[x]
        is Some || t.block_queue.contains(BlockId(x as u32)) by {
        if x != b.0 && s.queued_blocks[x] && s.block_offsets[x] is None {
            let k = choose|k: int| 0 <= k < s.block_queue.len() && s.block_queue[k] == BlockId(
                x as u32,
            );
            assert(k != 0);
            assert(p.block_queue[k - 1] == s.block_queue[k]);
            assert(t.block_queue.take(p.block_queue.len() as int)[k - 1] == p.block_queue[k - 1]);
            assert(t.block_queue[k - 1] == BlockId(x as u32));
        }
    }
    assert forall|i: int| 0 <= i < t.missing_block_addrs.len() implies {
        let (location, m) = #[trigger] t.missing_block_addrs[i];
        &&& location + 4 <= t.offset()
        &&& m.0 < c.blocks()
        &&& t.queued_blocks[m.0 as int]
    } by {
        let (location, m) = s.missing_block_addrs[i];
        assert(s.queued_blocks[m.0 as int]);
    }
}

proof fn lemma_appended(c: Emission, b: BlockId, s: EmitState, t: EmitState, target: Option<BlockId>)
    requires
        sound(c, s),
        appended(s, t, target),
        target matches Some(x) ==> x.0 < c.blocks() && s.queued_blocks[x.0 as int],
    ensures
        sound(c, t),
{
    assert forall|i: int| 0 <= i < t.missing_block_addrs.len() implies {
        let (location, m) = #[trigger] t.missing_block_addrs[i];
        &&& location + 4 <= t.offset()
        &&& m.0 < c.blocks()
        &&& t.queued_blocks[m.0 as int]
    } by {
        if i < s.missing_block_addrs.len() {
            assert(t.missing_block_addrs.take(s.missing_block_addrs.len() as int)[i]
                == t.missing_block_addrs[i]);
            assert(s.missing_block_addrs[i] == t.missing_block_addrs[i]);
        }
    }
}

proof fn lemma_bytes_appended(s: EmitState, code: Seq<u8>)
    ensures
        appended(s, s.with_bytes(code), None),
{
    let t = s.with_bytes(code);
    assert(t.text.take(s.text.len() as int) =~= s.text);
    assert(t.missing_block_addrs.take(s.missing_block_addrs.len() as int)
        =~= s.missing_block_addrs);
}

proof fn lemma_unqueued_but_first(seen: Seq<bool>)
    requires
        seen.len() > 0,
        seen[0],
        forall|b: int| 0 < b < seen.len() ==> !seen[b],
    ensures
        unqueued(seen) + 1 == seen.len(),
    decreases seen.len(),
{
    if seen.len() > 1 {
        lemma_unqueued_but_first(seen.drop_last());
    } else {
        assert(unqueued(seen.drop_last()) == 0);
    }
}

/// The place of a block or a distance within a function does not fit into 32 bits.
#[derive(Clone, Copy, Debug, PartialEq, Eq, Structural)]
pub struct TooLong;

fn phys_regs<R: Register>(args: &Vec<Argument>) -> (regs: Vec<R>)
    requires
        forall|i: int|
            0 <= i < args@.len() ==> (#[trigger] inst::views(args@)[i]) is MCReg && machine::phys_of::<
                R,
            >(inst::views(args@)[i]) is Some,
    ensures
        regs@ == regs_of::<R>(inst::views(args@)),
{
    let ghost views = inst::views(args@);
    let mut regs: Vec<R> = Vec::new();
    let mut i: usize = 0;
    while i < args.len()
        invariant
            i <= args@.len(),
            views == inst::views(args@),
            forall|i: int|
                0 <= i < args@.len() ==> (#[trigger] views[i]) is MCReg && machine::phys_of::<R>(
                    views[i],
                ) is Some,
            regs@ =~= regs_of::<R>(views).take(i as int),
        decreases args.len() - i,
    {
        assert(views[i as int] is MCReg);
        assert(views[i as int] == args@[i as int]@);
        if let Argument::MCReg(_, r) = args[i] {
            if let Some(code) = r.phys_code() {
                regs.push(R::decode(code));
            }
        }
        i += 1;
    }
    assert(regs@ =~= regs_of::<R>(views));
    regs
}

impl<R: Register> Emitter<R> {
    /// Copies registers at once.
    pub fn parcopy<I: Emit<Reg = R>>(&mut self, args: &Vec<Argument>)
        requires
            copy_fits::<I>(inst::views(args@)),
        ensures
            final(self)@ == old(self)@.with_bytes(parallel_code::<I>(inst::views(args@))),
    {
        let ghost before = self@;
        let ghost views = inst::views(args@);
        assert forall|i: int| 0 <= i < args@.len() implies (#[trigger] views[i]) is MCReg
            && machine::phys_of::<R>(views[i]) is Some by {
            assert(views[i] is MCReg);
        }
        let regs: Vec<R> = phys_regs::<R>(args);
        let copies: Vec<(R, R)> = self.parcopy.parcopy(regs.as_slice(), I::tmp_register());
        let mut i: usize = 0;
        assert(copies@.take(0) =~= Seq::empty());
        assert(before.with_bytes(Seq::empty()) =~= before);
        while i < copies.len()
            invariant
                i <= copies@.len(),
                copy_fits::<I>(views),
                regs@ == regs_of::<R>(views),
                copies@ == parcopy::solved(regs@, I::tmp()),
                self@ == before.with_bytes(copies_code::<I>(copies@.take(i as int))),
            decreases copies.len() - i,
        {
            assert(copies@.take(i + 1).drop_last() =~= copies@.take(i as int));
            let (to, from) = copies[i];
            assert(parcopy::solved(regs@, I::tmp())[i as int] == (to, from));
            I::implement_copy(&mut self.text, to, from);
            assert(self@ =~= before.with_bytes(copies_code::<I>(copies@.take(i + 1))));
            i += 1;
        }
        assert(copies@.take(i as int) =~= copies@);
    }

    /// Puts the address of a place in the stack frame into a register.
    pub fn materialize_stack_addr<I: Emit<Reg = R>>(&mut self, reg: MCReg, slot: StackSlot)
        requires
            machine::phys::<R>(reg) matches Some(r) && I::can_address(r, slot),
        ensures
            final(self)@ == old(self)@.with_bytes(
                I::address_code(machine::phys::<R>(reg)->Some_0, slot),
            ),
    {
        let ghost before = self@;
        if let Some(code) = reg.phys_code() {
            let r: R = R::decode(code);
            I::implement_stack_addr(&mut self.text, r, slot);
            assert(self@ =~= before.with_bytes(I::address_code(r, slot)));
        }
    }

    /// Queues blocks that never were in the queue.
    fn queue_all(&mut self, succs: &Vec<BlockId>)
        requires
            forall|j: int|
                0 <= j < succs@.len() ==> (#[trigger] succs@[j]).0 < old(self)@.queued_blocks.len(),
        ensures
            ({
                let (queue, seen) = queued(
                    old(self)@.block_queue,
                    old(self)@.queued_blocks,
                    succs@,
                );
                final(self)@ == (EmitState { block_queue: queue, queued_blocks: seen, ..old(self)@ })
            }),
    {
        let ghost s = self@;
        let mut j: usize = 0;
        assert(succs@.take(0) =~= Seq::empty());
        while j < succs.len()
            invariant
                j <= succs@.len(),
                self@.queued_blocks.len() == s.queued_blocks.len(),
                forall|j: int|
                    0 <= j < succs@.len() ==> (#[trigger] succs@[j]).0 < s.queued_blocks.len(),
                ({
                    let (queue, seen) = queued(
                        s.block_queue,
                        s.queued_blocks,
                        succs@.take(j as int),
                    );
                    self@ == (EmitState { block_queue: queue, queued_blocks: seen, ..s })
                }),
            decreases succs.len() - j,
        {
            assert(succs@.take(j + 1).drop_last() =~= succs@.take(j as int));
            let succ: BlockId = succs[j];
            assert(succs@[j as int].0 < s.queued_blocks.len());
            if !self.queued_blocks[succ.idx()] {
                self.queued_blocks.set(succ.idx(), true);
                self.block_queue.push(succ);
            }
            j += 1;
        }
        assert(succs@.take(j as int) =~= succs@);
    }
}

/// Emits an instruction, if its distances fit.
fn emit_inst<I: Emit>(c: &Emission, e: &mut Emitter<I::Reg>, b: BlockId, i: &Instruction) -> (r:
    Result<(), TooLong>)
    requires
        inst_fits::<I>(*c, b, *i),
        sound(*c, old(e)@),
        forall|j: int|
            0 <= j < c.succs(b).len() ==> old(e)@.queued_blocks[(
            #[trigger] c.succs(b)[j]).0 as int],
    ensures
        match r {
            Ok(()) => {
                &&& inst_after::<I>(*c, old(e)@, *i) == Some(final(e)@)
                &&& sound(*c, final(e)@)
                &&& final(e)@.block_queue == old(e)@.block_queue
                &&& final(e)@.queued_blocks == old(e)@.queued_blocks
                &&& final(e)@.start == old(e)@.start
            },
            Err(_) => inst_after::<I>(*c, old(e)@, *i) is None,
        },
{
    let ghost s = e@;
    let def = c.env.get(i.function);
    let args: Vec<Argument> = decode_args(
        &def.params,
        def.varargs,
        i.args,
        &c.ir.extra,
        &c.ir.blocks,
    );
    let ghost views = c.args(*i);
    assert(inst::views(args@) == views);
    match dialect::as_module::<Mc>(i, c.mc) {
        Some(Mc::IncomingBlockArgs) => {},
        Some(Mc::Copy) | Some(Mc::AssignBlockArgs) => {
            e.parcopy::<I>(&args);
            proof {
                lemma_bytes_appended(s, parallel_code::<I>(views));
                lemma_appended(*c, b, s, e@, None);
            }
        },
        Some(Mc::StackValue) => {
            assert(views[0] == args@[0]@);
            assert(views[1] == args@[1]@);
            if let Argument::MCReg(_, reg) = args[0] {
                if let Argument::Int32(slot) = args[1] {
                    e.materialize_stack_addr::<I>(reg, StackSlot(slot));
                    proof {
                        let r = machine::phys::<I::Reg>(reg)->Some_0;
                        lemma_bytes_appended(s, I::address_code(r, StackSlot(slot)));
                        lemma_appended(*c, b, s, e@, None);
                    }
                }
            }
        },
        None => {
            if let Some(op) = dialect::as_module::<I>(i, c.isa) {
                if !I::reaches(e, op, &args) {
                    return Err(TooLong);
                }
                proof {
                    op.code_is_appended(s, views);
                    if let Some(t) = op.target(views) {
                        let j = choose|j: int| 0 <= j < c.succs(b).len() && c.succs(b)[j] == t;
                        assert(s.queued_blocks[c.succs(b)[j].0 as int]);
                    }
                    lemma_appended(*c, b, s, op.after(s, views), op.target(views));
                }
                I::emit_op(e, op, &args);
            }
        },
    }
    Ok(())
}

/// What does not fit stays so.
proof fn lemma_body_fails<I: Emit>(c: Emission, s: EmitState, b: BlockId, k: nat, n: nat)
    requires
        body_after::<I>(c, s, b, k) is None,
        k <= n,
    ensures
        body_after::<I>(c, s, b, n) is None,
    decreases n,
{
    if k < n {
        lemma_body_fails::<I>(c, s, b, k, (n - 1) as nat);
    }
}

fn emit_body<I: Emit>(c: &Emission, e: &mut Emitter<I::Reg>, b: BlockId) -> (r: Result<(), TooLong>)
    requires
        can_emit::<I>(*c),
        b.0 < c.blocks(),
        sound(*c, old(e)@),
        forall|j: int|
            0 <= j < c.succs(b).len() ==> old(e)@.queued_blocks[(
            #[trigger] c.succs(b)[j]).0 as int],
    ensures
        match r {
            Ok(()) => {
                &&& body_after::<I>(*c, old(e)@, b, c.ir@.blocks[b.0 as int].len as nat) == Some(
                    final(e)@,
                )
                &&& sound(*c, final(e)@)
                &&& final(e)@.block_queue == old(e)@.block_queue
                &&& final(e)@.queued_blocks == old(e)@.queued_blocks
                &&& final(e)@.start == old(e)@.start
            },
            Err(_) => body_after::<I>(*c, old(e)@, b, c.ir@.blocks[b.0 as int].len as nat) is None,
        },
{
    let ghost s = e@;
    let start: usize = c.ir.blocks[b.idx()].body_idx as usize;
    let len: usize = c.ir.blocks[b.idx()].len as usize;
    assert(c.ir@.blocks[b.0 as int] == c.ir.blocks@[b.0 as int]@);
    let ghost info = c.ir@.blocks[b.0 as int];
    let mut k: usize = 0;
    while k < len
        invariant
            k <= len,
            s == old(e)@,
            can_emit::<I>(*c),
            b.0 < c.blocks(),
            info == c.ir@.blocks[b.0 as int],
            start == info.body_idx,
            len == info.len,
            start + len <= c.ir.insts@.len(),
            sound(*c, e@),
            e@.block_queue == s.block_queue,
            e@.queued_blocks == s.queued_blocks,
            e@.start == s.start,
            forall|j: int|
                0 <= j < c.succs(b).len() ==> s.queued_blocks[(#[trigger] c.succs(b)[j]).0 as int],
            body_after::<I>(*c, s, b, k as nat) == Some(e@),
        decreases len - k,
    {
        let at: usize = start + k;
        let ghost before = e@;
        proof {
            assert(BlockId(b.0 as int as u32) == b);
            assert(inst_fits::<I>(*c, BlockId(b.0 as int as u32), c.inst_of(b, k as int)));
        }
        assert(body_after::<I>(*c, s, b, (k + 1) as nat) == inst_after::<I>(
            *c,
            before,
            c.inst_of(b, k as int),
        ));
        match emit_inst::<I>(c, e, b, &c.ir.insts[at]) {
            Ok(()) => {},
            Err(err) => {
                proof {
                    lemma_body_fails::<I>(*c, s, b, (k + 1) as nat, len as nat);
                }
                return Err(err);
            },
        }
        k += 1;
    }
    Ok(())
}

/// Emits the machine code of a function behind other code. Blocks are emitted in the order
/// in which they are reached first.
pub fn emit<I: Emit>(c: &Emission, text: Vec<u8>, relocations: Vec<Relocation>) -> (r: Result<
    (Vec<u8>, Vec<Relocation>),
    TooLong,
>)
    requires
        can_emit::<I>(*c),
    ensures
        match r {
            Ok((text1, relocations1)) => emitted::<I>(*c, text@, relocations@) == Some(
                (text1@, relocations1@),
            ),
            Err(_) => emitted::<I>(*c, text@, relocations@) is None,
        },
{
    let ghost first = started(*c, text@, relocations@);
    let n: usize = c.ir.blocks.len();
    let start: usize = text.len();
    let mut queued_blocks: Vec<bool> = Vec::new();
    let mut block_offsets: Vec<Option<u32>> = Vec::new();
    let mut i: usize = 0;
    while i < n
        invariant
            i <= n,
            queued_blocks@ =~= Seq::new(i as nat, |b: int| b == 0),
            block_offsets@ =~= Seq::new(i as nat, |b: int| None),
        decreases n - i,
    {
        queued_blocks.push(i == 0);
        block_offsets.push(None);
        i += 1;
    }
    let block_queue: Vec<BlockId> = vec![BlockId::entry()];
    let mut e: Emitter<I::Reg> = Emitter {
        text,
        relocations,
        start,
        parcopy: ParcopySolver::new(),
        block_queue,
        queued_blocks,
        block_offsets,
        missing_block_addrs: Vec::new(),
    };
    let ghost mut left: nat = c.blocks();
    proof {
        assert(e@ =~= first);
        assert(first.block_queue[0] == BlockId(0));
        assert(sound(*c, first)) by {
            assert forall|b: int| 0 <= b < c.blocks() && #[trigger] first.queued_blocks[b] implies first.block_offsets[b]
                is Some || first.block_queue.contains(BlockId(b as u32)) by {
                assert(first.block_queue[0] == BlockId(b as u32));
            }
        }
        lemma_unqueued_but_first(first.queued_blocks);
    }
    while e.block_queue.len() > 0
        invariant
            first == started(*c, text@, relocations@),
            can_emit::<I>(*c),
            sound(*c, e@),
            left == unqueued(e@.queued_blocks) + e@.block_queue.len(),
            blocks_after::<I>(*c, e@, left) == blocks_after::<I>(*c, first, c.blocks()),
        decreases left,
    {
        let ghost s = e@;
        let block: BlockId = e.block_queue[0];
        assert(s.block_queue[0].0 < c.blocks());
        if e.text.len() - e.start > u32::MAX as usize {
            return Err(TooLong);
        }
        e.block_queue.remove(0);
        proof {
            assert(e@ =~= popped(s));
        }
        if e.block_offsets[block.idx()].is_some() {
            proof {
                lemma_popped(*c, s);
                assert(block_after::<I>(*c, s) == Some(e@));
                left = (left - 1) as nat;
            }
            continue;
        }
        let current_offset: u32 = e.offset_in_function();
        e.block_offsets.set(block.idx(), Some(current_offset));
        proof {
            let info = c.ir@.blocks[block.0 as int];
            assert(info == c.ir.blocks@[block.0 as int]@);
            assert forall|j: int| 0 <= j < info.succs.len() implies (#[trigger] info.succs[j]).0
                < c.blocks() by {
                assert(c.ir@.blocks[block.0 as int].succs[j].0 < c.ir@.blocks.len());
            }
        }
        e.queue_all(&c.ir.blocks[block.idx()].succs);
        proof {
            assert(e@ =~= begun(*c, popped(s), block));
            lemma_begun::<I>(*c, s);
        }
        match emit_body::<I>(c, &mut e, block) {
            Ok(()) => {
                proof {
                    assert(block_after::<I>(*c, s) == Some(e@));
                    left = (left - 1) as nat;
                }
            },
            Err(err) => {
                assert(block_after::<I>(*c, s) is None);
                return Err(err);
            },
        }
    }
    let ghost last = e@;
    let mut i: usize = 0;
    while i < e.missing_block_addrs.len()
        invariant
            i <= e.missing_block_addrs@.len(),
            sound(*c, last),
            last.block_queue.len() == 0,
            blocks_after::<I>(*c, started(*c, text@, relocations@), c.blocks()) == Some(last),
            forall|j: int| 0 <= j < i ==> bytes::fits_i32(#[trigger] distance(last, j)),
            e.missing_block_addrs@ == last.missing_block_addrs,
            e.block_offsets@ == last.block_offsets,
            e.start == last.start,
            e.relocations@ == last.relocations,
            e.text@.len() == last.text.len(),
            e.text@ == filled(last, i as int),
        decreases e.missing_block_addrs@.len() - i,
    {
        let (offset_location, block) = e.missing_block_addrs[i];
        assert(last.missing_block_addrs[i as int] == (offset_location, block));
        assert(last.queued_blocks[block.0 as int]);
        assert(last.block_offsets[block.0 as int] is Some);
        let block_offset: u32 = e.block_offsets[block.idx()].unwrap();
        let offset: i64 = block_offset as i64 - offset_location as i64 - 4;
        assert(offset == distance(last, i as int));
        if !bytes::is_i32(offset) {
            return Err(TooLong);
        }
        let offset: i32 = offset as i32;
        let len: usize = e.text.len();
        let at: usize = e.start + offset_location as usize;
        proof {
            bytes::le_bytes_len(bytes::twos_32(offset as int) as int, 4);
        }
        write_u32(&mut e.text, at, bits_of_i32(offset));
        i += 1;
    }
    Ok((e.text, e.relocations))
}

/// A distance that was filled in leads from behind it to its block.
pub proof fn filled_distances_lead_to_blocks(location: u32, block_offset: u32)
    requires
        bytes::fits_i32(block_offset - location - 4),
    ensures
        ({
            let written = bytes::twos_32(block_offset - location - 4);
            location + 4 + bytes::signed_32(written) == block_offset
        }),
{
}

} // verus!
