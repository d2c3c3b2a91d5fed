//! Lists of changes to a function.
use vstd::prelude::*;

use crate::ir::env::Environment;
use crate::ir::finish;
use crate::ir::function::{BlockView, FunctionView};
use crate::ir::ids::{BlockId, FunctionId, Ref, TypeId};
use crate::ir::inst;
use crate::ir::inst::{Argument, ArgumentView, Instruction, MCReg};
use crate::ir::modify;
use crate::ir::modify::{Insert, IrModify, ModifyView};

verus! {

/// A change to a function.
#[derive(Debug)]
pub enum Edit {
    /// An instruction is added. It is numbered behind all others.
    Add { at: Ref, position: Insert, function: FunctionId, args: Vec<Argument>, ty: TypeId },
    Replace { at: Ref, function: FunctionId, args: Vec<Argument>, ty: TypeId },
    /// The instruction stands for another value from now on.
    ReplaceWith { at: Ref, new: Ref },
    Delete { at: Ref },
    /// A virtual register of the class is added.
    NewReg { class: u8 },
}

/// The mathematical content of an [`Edit`].
#[verifier::ext_equal]
pub enum EditView {
    Add {
        at: Ref,
        position: Insert,
        function: FunctionId,
        args: Seq<ArgumentView>,
        ty: TypeId,
    },
    Replace { at: Ref, function: FunctionId, args: Seq<ArgumentView>, ty: TypeId },
    ReplaceWith { at: Ref, new: Ref },
    Delete { at: Ref },
    NewReg { class: u8 },
}

impl View for Edit {
    type V = EditView;

    open spec fn view(&self) -> EditView {
        match *self {
            Edit::Add { at, position, function, args, ty } => EditView::Add {
                at,
                position,
                function,
                args: inst::views(args@),
                ty,
            },
            Edit::Replace { at, function, args, ty } => EditView::Replace {
                at,
                function,
                args: inst::views(args@),
                ty,
            },
            Edit::ReplaceWith { at, new } => EditView::ReplaceWith { at, new },
            Edit::Delete { at } => EditView::Delete { at },
            Edit::NewReg { class } => EditView::NewReg { class },
        }
    }
}

pub open spec fn views(edits: Seq<Edit>) -> Seq<EditView> {
    edits.map_values(|e: Edit| e@)
}

/// The block that an instruction placed at `at` belongs to.
pub open spec fn insertion_block(v: ModifyView, at: Ref, position: Insert) -> BlockId {
    choose|b: BlockId| v.is_insertion_block(b, at, position)
}

/// The block that holds an instruction.
pub open spec fn block_of(v: ModifyView, r: Ref) -> BlockId {
    choose|b: BlockId| v.is_block_of(b, r)
}

/// The type of a value.
pub open spec fn type_of(v: ModifyView, r: Ref) -> TypeId {
    if r.spec_is_ref() {
        v.inst(r).ty
    } else {
        TypeId::i1()
    }
}

/// The function after a change.
pub open spec fn applied(v: ModifyView, env: &Environment, e: EditView) -> ModifyView {
    match e {
        EditView::Add { at, position, function, args, ty } => {
            let anchor = v.anchor(at);
            IrModify::with_args(
                v,
                env,
                function,
                insertion_block(v, anchor, position),
                args,
            ).add(anchor, position, IrModify::prepared(v, env, function, args, ty))
        },
        EditView::Replace { at, function, args, ty } => {
            let b = block_of(v, at);
            IrModify::replaced(
                IrModify::with_args(v, env, function, b, args),
                env,
                at,
                b,
                IrModify::prepared(v, env, function, args, ty),
            )
        },
        EditView::ReplaceWith { at, new } => IrModify::replaced(
            v,
            env,
            at,
            block_of(v, at),
            Instruction::spec_copy(new, type_of(v, new)),
        ),
        EditView::Delete { at } => IrModify::replaced(
            v,
            env,
            at,
            block_of(v, at),
            Instruction::spec_nothing(),
        ),
        EditView::NewReg { class } => ModifyView {
            ir: FunctionView { reg_classes: v.ir.reg_classes.push(class), ..v.ir },
            ..v
        },
    }
}

/// The function after all changes.
pub open spec fn all_applied(v: ModifyView, env: &Environment, edits: Seq<EditView>) -> ModifyView
    decreases edits.len(),
{
    if edits.len() == 0 {
        v
    } else {
        applied(all_applied(v, env, edits.drop_last()), env, edits.last())
    }
}

/// Some block takes an instruction at this place.
pub open spec fn has_place(v: ModifyView, at: Ref, position: Insert) -> bool {
    exists|i: int| 0 <= i < v.ir.blocks.len() && #[trigger] v.takes_insertion(i, at, position)
}

/// The change can be made.
pub open spec fn can_apply(v: ModifyView, env: &Environment, e: EditView) -> bool {
    match e {
        EditView::Add { at, position, function, args, ty } => {
            &&& at.0 < v.count()
            &&& v.count() < u32::MAX
            &&& v.blocks_fit()
            &&& v.anchor(at).0 < u32::MAX
            &&& IrModify::can_write(v, env, function, args)
            &&& has_place(v, v.anchor(at), position)
        },
        EditView::Replace { at, function, args, ty } => {
            &&& IrModify::can_remove(v, env, at)
            &&& IrModify::can_write(v, env, function, args)
        },
        EditView::ReplaceWith { at, new } => {
            &&& IrModify::can_remove(v, env, at)
            &&& new.spec_is_ref() ==> new.0 < v.count()
        },
        EditView::Delete { at } => IrModify::can_remove(v, env, at),
        EditView::NewReg { class } => v.ir.reg_classes.len() < 0x4000_0000,
    }
}

/// The changes can be made one after the other.
pub open spec fn can_apply_all(v: ModifyView, env: &Environment, edits: Seq<EditView>) -> bool
    decreases edits.len(),
{
    edits.len() > 0 ==> {
        &&& can_apply_all(v, env, edits.drop_last())
        &&& can_apply(all_applied(v, env, edits.drop_last()), env, edits.last())
    }
}

proof fn lemma_blocks_are_unique(v: ModifyView, at: Ref, position: Insert, r: Ref, b: BlockId)
    ensures
        v.is_insertion_block(b, at, position) ==> insertion_block(v, at, position) == b,
        v.is_block_of(b, r) ==> block_of(v, r) == b,
{
    if v.is_insertion_block(b, at, position) {
        let c = insertion_block(v, at, position);
        assert(v.is_insertion_block(c, at, position));
        if c.0 < b.0 {
            assert(!v.takes_insertion(c.0 as int, at, position));
        } else if b.0 < c.0 {
            assert(!v.takes_insertion(b.0 as int, at, position));
        }
    }
    if v.is_block_of(b, r) {
        let c = block_of(v, r);
        assert(v.is_block_of(c, r));
        if c.0 < b.0 {
            assert(!v.body_has(c.0 as int, v.key(r)));
        } else if b.0 < c.0 {
            assert(!v.body_has(b.0 as int, v.key(r)));
        }
    }
}

/// Makes a change.
pub fn apply(ir: &mut IrModify, env: &Environment, e: &Edit)
    requires
        can_apply(old(ir)@, env, e@),
    ensures
        final(ir)@ == applied(old(ir)@, env, e@),
{
    let ghost v = ir@;
    match e {
        Edit::Add { at, position, function, args, ty } => {
            ir.add_before_or_after(env, *at, *position, *function, args, *ty);
            proof {
                let anchor = v.anchor(*at);
                let b = choose|b: BlockId|
                    #![trigger v.is_insertion_block(b, anchor, *position)]
                    v.is_insertion_block(b, anchor, *position) && ir@ == IrModify::with_args(
                        v,
                        env,
                        *function,
                        b,
                        inst::views(args@),
                    ).add(
                        anchor,
                        *position,
                        IrModify::prepared(v, env, *function, inst::views(args@), *ty),
                    );
                lemma_blocks_are_unique(v, anchor, *position, *at, b);
            }
        },
        Edit::Replace { at, function, args, ty } => {
            ir.replace(env, *at, *function, args, *ty);
            proof {
                let b = choose|b: BlockId| #[trigger]
                    v.is_block_of(b, *at) && ir@ == IrModify::replaced(
                        IrModify::with_args(v, env, *function, b, inst::views(args@)),
                        env,
                        *at,
                        b,
                        IrModify::prepared(v, env, *function, inst::views(args@), *ty),
                    );
                lemma_blocks_are_unique(v, *at, Insert::Before, *at, b);
            }
        },
        Edit::ReplaceWith { at, new } => {
            ir.replace_with(env, *at, *new);
            proof {
                let b = choose|b: BlockId| #[trigger]
                    v.is_block_of(b, *at) && ir@ == IrModify::replaced(
                        v,
                        env,
                        *at,
                        b,
                        Instruction::spec_copy(*new, type_of(v, *new)),
                    );
                lemma_blocks_are_unique(v, *at, Insert::Before, *at, b);
            }
        },
        Edit::Delete { at } => {
            ir.delete(env, *at);
            proof {
                let b = choose|b: BlockId| #[trigger]
                    v.is_block_of(b, *at) && ir@ == IrModify::replaced(
                        v,
                        env,
                        *at,
                        b,
                        Instruction::spec_nothing(),
                    );
                lemma_blocks_are_unique(v, *at, Insert::Before, *at, b);
            }
        },
        Edit::NewReg { class } => {
            ir.new_reg(*class);
        },
    }
}

proof fn lemma_can_apply_prefix(v: ModifyView, env: &Environment, edits: Seq<EditView>, i: int)
    requires
        can_apply_all(v, env, edits),
        0 <= i < edits.len(),
    ensures
        can_apply(all_applied(v, env, edits.take(i)), env, edits[i]),
    decreases edits.len(),
{
    if i == edits.len() - 1 {
        assert(edits.take(i) =~= edits.drop_last());
    } else {
        lemma_can_apply_prefix(v, env, edits.drop_last(), i);
        assert(edits.drop_last().take(i) =~= edits.take(i));
    }
}

/// Makes changes one after the other.
pub fn apply_all(ir: &mut IrModify, env: &Environment, edits: &Vec<Edit>)
    requires
        can_apply_all(old(ir)@, env, views(edits@)),
    ensures
        final(ir)@ == all_applied(old(ir)@, env, views(edits@)),
{
    let ghost v = ir@;
    let ghost all = views(edits@);
    let mut i: usize = 0;
    assert(all.take(0) =~= Seq::empty());
    while i < edits.len()
        invariant
            i <= edits@.len(),
            all == views(edits@),
            can_apply_all(v, env, all),
            ir@ == all_applied(v, env, all.take(i as int)),
        decreases edits.len() - i,
    {
        proof {
            lemma_can_apply_prefix(v, env, all, i as int);
            assert(all.take(i + 1).drop_last() =~= all.take(i as int));
        }
        apply(ir, env, &edits[i]);
        i += 1;
    }
    assert(all.take(i as int) =~= all);
}

/// Making changes in two groups is making them all.
pub proof fn groups_of_changes(
    v: ModifyView,
    env: &Environment,
    a: Seq<EditView>,
    b: Seq<EditView>,
)
    ensures
        all_applied(v, env, a + b) == all_applied(all_applied(v, env, a), env, b),
    decreases b.len(),
{
    if b.len() == 0 {
        assert(a + b =~= a);
    } else {
        groups_of_changes(v, env, a, b.drop_last());
        assert((a + b).drop_last() =~= a + b.drop_last());
    }
}

/// How many instructions the changes add.
pub open spec fn added(edits: Seq<EditView>) -> nat
    decreases edits.len(),
{
    if edits.len() == 0 {
        0
    } else {
        added(edits.drop_last()) + if edits.last() is Add {
            1nat
        } else {
            0
        }
    }
}

/// How many registers the changes add.
pub open spec fn added_regs(edits: Seq<EditView>) -> nat
    decreases edits.len(),
{
    if edits.len() == 0 {
        0
    } else {
        added_regs(edits.drop_last()) + if edits.last() is NewReg {
            1nat
        } else {
            0
        }
    }
}

/// At most how many numbers the arguments are stored in.
pub open spec fn room_of_args(args: Seq<ArgumentView>) -> nat
    decreases args.len(),
{
    if args.len() == 0 {
        0
    } else {
        room_of_args(args.drop_last()) + 2 + match args.last() {
            ArgumentView::BlockTarget(_, refs) => refs.len(),
            _ => 0,
        }
    }
}

/// At most how many numbers the changes store.
pub open spec fn room(edits: Seq<EditView>) -> nat
    decreases edits.len(),
{
    if edits.len() == 0 {
        0
    } else {
        room(edits.drop_last()) + match edits.last() {
            EditView::Add { args, .. } => room_of_args(args),
            EditView::Replace { args, .. } => room_of_args(args),
            _ => 0,
        }
    }
}

/// A function that can be changed: its blocks can be counted and its instructions
/// are known.
pub open spec fn editable(v: ModifyView, env: &Environment) -> bool {
    &&& v.blocks_fit()
    &&& v.ir.insts.len() < u32::MAX
    &&& finish::signatures_fit(env)
    &&& env.has(inst::Builtin::Nothing.spec_function())
    &&& env.has(inst::Builtin::Copy.spec_function())
    &&& forall|i: int|
        0 <= i < v.ir.insts.len() ==> env.has((#[trigger] v.ir.insts[i]).function)
    &&& forall|i: int|
        0 <= i < v.additional.len() ==> env.has((#[trigger] v.additional[i]).inst.function)
}

/// The function is known and takes such arguments.
pub open spec fn known_call(
    v: ModifyView,
    env: &Environment,
    function: FunctionId,
    args: Seq<ArgumentView>,
) -> bool {
    &&& env.has(function)
    &&& inst::args_fit(env.def(function).params@, env.def(function).varargs, args)
    &&& inst::targets_exist(args, v.ir.blocks.len())
}

/// The change concerns an existing instruction, and what it puts there is known.
/// `count` is the number of instructions at that time.
pub open spec fn well_placed(v: ModifyView, env: &Environment, e: EditView, count: nat) -> bool {
    match e {
        EditView::Add { at, position, function, args, ty } => {
            &&& at.0 < v.ir.insts.len()
            &&& has_place(v, at, position)
            &&& known_call(v, env, function, args)
        },
        EditView::Replace { at, function, args, ty } => {
            &&& at.0 < v.ir.insts.len()
            &&& v.in_some_body(at)
            &&& known_call(v, env, function, args)
        },
        EditView::ReplaceWith { at, new } => {
            &&& at.0 < v.ir.insts.len()
            &&& v.in_some_body(at)
            &&& new.spec_is_ref() ==> new.0 < count
        },
        EditView::Delete { at } => at.0 < v.ir.insts.len() && v.in_some_body(at),
        EditView::NewReg { class } => true,
    }
}

/// Every change is well placed.
pub open spec fn all_well_placed(v: ModifyView, env: &Environment, edits: Seq<EditView>) -> bool {
    forall|i: int|
        0 <= i < edits.len() ==> well_placed(
            v,
            env,
            #[trigger] edits[i],
            v.count() + added(edits.take(i)),
        )
}

/// What the changes add can be counted.
pub open spec fn within_limits(v: ModifyView, edits: Seq<EditView>) -> bool {
    &&& v.count() + added(edits) < u32::MAX
    &&& v.ir.extra.len() + room(edits) <= u32::MAX
    &&& v.ir.reg_classes.len() + added_regs(edits) <= 0x4000_0000
}

/// What changes keep of a function.
pub open spec fn same_layout(v: ModifyView, w: ModifyView) -> bool {
    &&& w.ir.insts.len() == v.ir.insts.len()
    &&& w.ir.blocks.len() == v.ir.blocks.len()
    &&& forall|i: int|
        0 <= i < v.ir.blocks.len() ==> {
            let after = #[trigger] w.ir.blocks[i];
            &&& after.arg_count == v.ir.blocks[i].arg_count
            &&& after.args_idx == v.ir.blocks[i].args_idx
            &&& after.body_idx == v.ir.blocks[i].body_idx
            &&& after.len == v.ir.blocks[i].len
        }
}

proof fn lemma_remove_edges_layout(blocks: Seq<BlockView>, block: BlockId, targets: Seq<BlockId>)
    requires
        block.0 < blocks.len(),
    ensures
        modify::remove_edges(blocks, block, targets).len() == blocks.len(),
        forall|i: int|
            0 <= i < blocks.len() ==> {
                let after = #[trigger] modify::remove_edges(blocks, block, targets)[i];
                &&& after.arg_count == blocks[i].arg_count
                &&& after.args_idx == blocks[i].args_idx
                &&& after.body_idx == blocks[i].body_idx
                &&& after.len == blocks[i].len
            },
{
    let b = block.0 as int;
    let first = blocks.update(
        b,
        BlockView { succs: modify::remove_targets(blocks[b].succs, targets), ..blocks[b] },
    );
    lemma_remove_pred_layout(first, targets, block);
}

proof fn lemma_remove_pred_layout(blocks: Seq<BlockView>, targets: Seq<BlockId>, block: BlockId)
    ensures
        modify::remove_pred_of(blocks, targets, block).len() == blocks.len(),
        forall|i: int|
            0 <= i < blocks.len() ==> {
                let after = #[trigger] modify::remove_pred_of(blocks, targets, block)[i];
                &&& after.arg_count == blocks[i].arg_count
                &&& after.args_idx == blocks[i].args_idx
                &&& after.body_idx == blocks[i].body_idx
                &&& after.len == blocks[i].len
            },
    decreases targets.len(),
{
    if targets.len() > 0 {
        lemma_remove_pred_layout(blocks, targets.drop_last(), block);
    }
}

proof fn lemma_room_of_args(args: Seq<ArgumentView>, extra: Seq<u32>)
    ensures
        ({
            let (slots, extra1) = inst::encode_slots(args, extra);
            slots.len() + extra1.len() <= extra.len() + room_of_args(args)
        }),
    decreases args.len(),
{
    if args.len() > 0 {
        lemma_room_of_args(args.drop_last(), extra);
    }
}

proof fn lemma_places_stay(v: ModifyView, w: ModifyView, at: Ref, position: Insert)
    requires
        same_layout(v, w),
        v.ir.blocks.len() <= u32::MAX,
        at.0 < v.ir.insts.len(),
    ensures
        w.anchor(at) == at,
        has_place(v, at, position) ==> has_place(w, at, position),
        v.in_some_body(at) ==> w.in_some_body(at),
        v.blocks_fit() ==> w.blocks_fit(),
        has_place(w, at, position) ==> w.is_insertion_block(
            insertion_block(w, at, position),
            at,
            position,
        ),
        w.in_some_body(at) ==> w.is_block_of(block_of(w, at), at),
{
    if has_place(v, at, position) {
        let i = choose|i: int|
            0 <= i < v.ir.blocks.len() && #[trigger] v.takes_insertion(i, at, position);
        assert(w.takes_insertion(i, at, position));
    }
    if v.in_some_body(at) {
        let i = choose|i: int|
            0 <= i < v.ir.blocks.len() && #[trigger] v.body_has(i, v.key(at));
        assert(w.body_has(i, w.key(at)));
    }
    if has_place(w, at, position) {
        let i = choose|i: int|
            0 <= i < w.ir.blocks.len() && #[trigger] w.takes_insertion(i, at, position);
        lemma_first_place(w, at, position, i);
    }
    if w.in_some_body(at) {
        let i = choose|i: int|
            0 <= i < w.ir.blocks.len() && #[trigger] w.body_has(i, w.key(at));
        lemma_first_body(w, at, i);
    }
}

proof fn lemma_first_place(w: ModifyView, at: Ref, position: Insert, i: int)
    requires
        0 <= i < w.ir.blocks.len(),
        i <= u32::MAX,
        w.takes_insertion(i, at, position),
    ensures
        w.is_insertion_block(insertion_block(w, at, position), at, position),
    decreases i,
{
    if forall|j: int| 0 <= j < i ==> !#[trigger] w.takes_insertion(j, at, position) {
        assert(w.is_insertion_block(BlockId(i as u32), at, position));
    } else {
        let j = choose|j: int| 0 <= j < i && #[trigger] w.takes_insertion(j, at, position);
        lemma_first_place(w, at, position, j);
    }
}

proof fn lemma_first_body(w: ModifyView, r: Ref, i: int)
    requires
        0 <= i < w.ir.blocks.len(),
        i <= u32::MAX,
        w.body_has(i, w.key(r)),
    ensures
        w.is_block_of(block_of(w, r), r),
    decreases i,
{
    if forall|j: int| 0 <= j < i ==> !#[trigger] w.body_has(j, w.key(r)) {
        assert(w.is_block_of(BlockId(i as u32), r));
    } else {
        let j = choose|j: int| 0 <= j < i && #[trigger] w.body_has(j, w.key(r));
        lemma_first_body(w, r, j);
    }
}

/// The state after some of the changes.
spec fn kept(v: ModifyView, w: ModifyView, env: &Environment, edits: Seq<EditView>) -> bool {
    &&& same_layout(v, w)
    &&& editable(w, env)
    &&& w.count() == v.count() + added(edits)
    &&& w.ir.extra.len() <= v.ir.extra.len() + room(edits)
    &&& w.ir.reg_classes.len() == v.ir.reg_classes.len() + added_regs(edits)
}

proof fn lemma_step(
    v: ModifyView,
    w: ModifyView,
    env: &Environment,
    edits: Seq<EditView>,
)
    requires
        edits.len() > 0,
        editable(v, env),
        kept(v, w, env, edits.drop_last()),
        well_placed(v, env, edits.last(), v.count() + added(edits.drop_last())),
        within_limits(v, edits),
    ensures
        can_apply(w, env, edits.last()),
        kept(v, applied(w, env, edits.last()), env, edits),
{
    let e = edits.last();
    let x = applied(w, env, e);
    match e {
        EditView::Add { at, position, function, args, ty } => {
            lemma_places_stay(v, w, at, position);
            let b = insertion_block(w, at, position);
            inst::lemma_add_edges_len(w.ir.blocks, b, args);
            lemma_room_of_args(args, w.ir.extra);
            assert(forall|i: int|
                0 <= i < w.additional.len() ==> x.additional[i] == w.additional[i]);
        },
        EditView::Replace { at, function, args, ty } => {
            lemma_places_stay(v, w, at, Insert::Before);
            let b = block_of(w, at);
            inst::lemma_add_edges_len(w.ir.blocks, b, args);
            lemma_room_of_args(args, w.ir.extra);
            let m = IrModify::with_args(w, env, function, b, args);
            lemma_remove_edges_layout(
                m.ir.blocks,
                b,
                modify::targets_of(m.args(m.inst(at), env)),
            );
        },
        EditView::ReplaceWith { at, new } => {
            lemma_places_stay(v, w, at, Insert::Before);
            lemma_remove_edges_layout(
                w.ir.blocks,
                block_of(w, at),
                modify::targets_of(w.args(w.inst(at), env)),
            );
        },
        EditView::Delete { at } => {
            lemma_places_stay(v, w, at, Insert::Before);
            lemma_remove_edges_layout(
                w.ir.blocks,
                block_of(w, at),
                modify::targets_of(w.args(w.inst(at), env)),
            );
        },
        EditView::NewReg { class } => {},
    }
}

proof fn lemma_prefix_sizes(edits: Seq<EditView>, i: int)
    requires
        0 <= i <= edits.len(),
    ensures
        added(edits.take(i)) <= added(edits),
        room(edits.take(i)) <= room(edits),
        added_regs(edits.take(i)) <= added_regs(edits),
    decreases edits.len(),
{
    if i < edits.len() {
        assert(edits.drop_last().take(i) =~= edits.take(i));
        lemma_prefix_sizes(edits.drop_last(), i);
    } else {
        assert(edits.take(i) =~= edits);
    }
}

/// Well placed changes to a function that can be changed can all be made, within
/// the limits of what can be counted. They leave the layout of blocks as it is, and
/// the function can be finished afterwards.
pub proof fn well_placed_changes_apply(v: ModifyView, env: &Environment, edits: Seq<EditView>)
    requires
        editable(v, env),
        all_well_placed(v, env, edits),
        within_limits(v, edits),
    ensures
        can_apply_all(v, env, edits),
        same_layout(v, all_applied(v, env, edits)),
        editable(all_applied(v, env, edits), env),
        all_applied(v, env, edits).count() == v.count() + added(edits),
        finish::layout_fits(v) ==> IrModify::can_finish(all_applied(v, env, edits), env),
    decreases edits.len(),
{
    lemma_kept(v, env, edits);
    let w = all_applied(v, env, edits);
    if finish::layout_fits(v) {
        assert forall|b: int| 0 <= b < w.ir.blocks.len() implies {
            let info = #[trigger] w.ir.blocks[b];
            if finish::is_new_block(w, b) {
                info.body_idx < u32::MAX
            } else {
                info.body_idx + info.len <= w.ir.insts.len()
            }
        } by {
            let before = v.ir.blocks[b];
            assert(finish::is_new_block(w, b) == finish::is_new_block(v, b));
        }
    }
}

proof fn lemma_kept(v: ModifyView, env: &Environment, edits: Seq<EditView>)
    requires
        editable(v, env),
        all_well_placed(v, env, edits),
        within_limits(v, edits),
    ensures
        can_apply_all(v, env, edits),
        kept(v, all_applied(v, env, edits), env, edits),
    decreases edits.len(),
{
    if edits.len() > 0 {
        let rest = edits.drop_last();
        lemma_prefix_sizes(edits, edits.len() - 1);
        assert(edits.take(edits.len() - 1) =~= rest);
        assert forall|i: int| 0 <= i < rest.len() implies well_placed(
            v,
            env,
            #[trigger] rest[i],
            v.count() + added(rest.take(i)),
        ) by {
            assert(rest[i] == edits[i]);
            assert(rest.take(i) =~= edits.take(i));
        }
        lemma_kept(v, env, rest);
        assert(well_placed(v, env, edits[edits.len() - 1], v.count() + added(rest)));
        lemma_step(v, all_applied(v, env, rest), env, edits);
    }
}

/// The function before any change.
pub open spec fn unchanged(f: FunctionView) -> ModifyView {
    ModifyView { ir: f, additional: Seq::empty() }
}

/// Instructions can be put before this one, and it can be replaced.
pub open spec fn placed(f: FunctionView, r: Ref) -> bool {
    &&& r.0 < f.insts.len()
    &&& unchanged(f).in_some_body(r)
    &&& has_place(unchanged(f), r, Insert::Before)
}

/// Instructions in the bodies of blocks can be changed.
pub proof fn bodies_are_placed(f: FunctionView, b: int, r: Ref)
    requires
        0 <= b < f.blocks.len(),
        f.blocks[b].body_idx <= r.0 < f.blocks[b].body_idx + f.blocks[b].len,
        f.blocks[b].body_idx + f.blocks[b].len <= f.insts.len(),
    ensures
        placed(f, r),
{
    let v = unchanged(f);
    assert(v.body_has(b, v.key(r)));
    assert(v.takes_insertion(b, r, Insert::Before));
}

/// A list of changes that is being put together. The numbers of added instructions and
/// registers are counted along.
#[derive(Debug)]
pub struct Plan {
    pub edits: Vec<Edit>,
    pub next: u32,
    pub next_reg: u32,
}

/// The mathematical content of a [`Plan`].
#[verifier::ext_equal]
pub struct PlanView {
    pub edits: Seq<EditView>,
    pub next: u32,
    pub next_reg: u32,
}

impl View for Plan {
    type V = PlanView;

    open spec fn view(&self) -> PlanView {
        PlanView { edits: views(self.edits@), next: self.next, next_reg: self.next_reg }
    }
}

/// The number behind, starting anew behind the largest.
pub open spec fn following(n: u32) -> u32 {
    if n == u32::MAX {
        0
    } else {
        (n + 1) as u32
    }
}

impl PlanView {
    /// No changes to a function with so many instructions.
    pub open spec fn none(count: u32) -> PlanView {
        Self::none_with_regs(count, 0)
    }

    /// No changes to a function with so many instructions and virtual registers.
    pub open spec fn none_with_regs(count: u32, regs: u32) -> PlanView {
        PlanView { edits: Seq::empty(), next: count, next_reg: regs }
    }

    pub open spec fn with(self, e: EditView) -> PlanView {
        PlanView {
            edits: self.edits.push(e),
            next: if e is Add {
                following(self.next)
            } else {
                self.next
            },
            next_reg: if e is NewReg {
                following(self.next_reg)
            } else {
                self.next_reg
            },
        }
    }

    /// An instruction is added before another.
    pub open spec fn before(
        self,
        at: Ref,
        function: FunctionId,
        args: Seq<ArgumentView>,
        ty: TypeId,
    ) -> PlanView {
        self.with(EditView::Add { at, position: Insert::Before, function, args, ty })
    }

    /// The result of the instruction that is added next.
    pub open spec fn result(self) -> Ref {
        Ref(self.next)
    }
}

impl Plan {
    pub fn new(count: u32) -> (p: Plan)
        ensures
            p@ == PlanView::none(count),
    {
        Self::with_regs(count, 0)
    }

    pub fn with_regs(count: u32, regs: u32) -> (p: Plan)
        ensures
            p@ == PlanView::none_with_regs(count, regs),
    {
        let p = Plan { edits: Vec::new(), next: count, next_reg: regs };
        assert(p@ =~= PlanView::none_with_regs(count, regs));
        p
    }

    /// Adds an instruction.
    pub fn add(
        &mut self,
        at: Ref,
        position: Insert,
        function: FunctionId,
        args: Vec<Argument>,
        ty: TypeId,
    ) -> (r: Ref)
        ensures
            r == old(self)@.result(),
            final(self)@ == old(self)@.with(
                (EditView::Add { at, position, function, args: inst::views(args@), ty }),
            ),
    {
        let ghost before = self@;
        let e = Edit::Add { at, position, function, args, ty };
        let ghost view = e@;
        let r: Ref = Ref(self.next);
        self.edits.push(e);
        self.next = if self.next == u32::MAX {
            0
        } else {
            self.next + 1
        };
        assert(self@ =~= before.with(view));
        r
    }

    /// Adds an instruction before another.
    pub fn add_before(
        &mut self,
        at: Ref,
        function: FunctionId,
        args: Vec<Argument>,
        ty: TypeId,
    ) -> (r: Ref)
        ensures
            r == old(self)@.result(),
            final(self)@ == old(self)@.before(at, function, inst::views(args@), ty),
    {
        self.add(at, Insert::Before, function, args, ty)
    }

    fn push(&mut self, e: Edit)
        requires
            !(e is Add),
            !(e is NewReg),
        ensures
            final(self)@ == old(self)@.with(e@),
    {
        let ghost before = self@;
        let ghost view = e@;
        self.edits.push(e);
        assert(self@ =~= before.with(view));
    }

    pub fn replace(&mut self, at: Ref, function: FunctionId, args: Vec<Argument>, ty: TypeId)
        ensures
            final(self)@ == old(self)@.with(
                (EditView::Replace { at, function, args: inst::views(args@), ty }),
            ),
    {
        self.push(Edit::Replace { at, function, args, ty });
    }

    pub fn replace_with(&mut self, at: Ref, new: Ref)
        ensures
            final(self)@ == old(self)@.with((EditView::ReplaceWith { at, new })),
    {
        self.push(Edit::ReplaceWith { at, new });
    }

    pub fn delete(&mut self, at: Ref)
        ensures
            final(self)@ == old(self)@.with((EditView::Delete { at })),
    {
        self.push(Edit::Delete { at });
    }

    pub fn new_reg(&mut self, class: u8) -> (r: MCReg)
        ensures
            r == MCReg(old(self)@.next_reg),
            final(self)@ == old(self)@.with((EditView::NewReg { class })),
    {
        let ghost before = self@;
        let r: MCReg = MCReg(self.next_reg);
        self.edits.push(Edit::NewReg { class });
        self.next_reg = if self.next_reg == u32::MAX {
            0
        } else {
            self.next_reg + 1
        };
        assert(self@ =~= before.with((EditView::NewReg { class })));
        r
    }
}

} // verus!
