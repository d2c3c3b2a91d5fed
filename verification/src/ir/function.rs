//! Functions as blocks of instructions.
use vstd::prelude::*;

use crate::ir::ids::{BlockId, Refs};
use crate::ir::inst::Instruction;

verus! {

/// A block: its arguments, then its body, both consecutive instructions. Without
/// arguments an instruction that does nothing stands in their place.
#[derive(Debug, PartialEq, Eq)]
pub struct BlockInfo {
    pub arg_count: u32,
    pub args_idx: u32,
    pub body_idx: u32,
    pub len: u32,
    pub preds: Vec<BlockId>,
    pub succs: Vec<BlockId>,
}

#[verifier::ext_equal]
pub struct BlockView {
    pub arg_count: u32,
    pub args_idx: u32,
    pub body_idx: u32,
    pub len: u32,
    pub preds: Seq<BlockId>,
    pub succs: Seq<BlockId>,
}

impl View for BlockInfo {
    type V = BlockView;

    open spec fn view(&self) -> BlockView {
        BlockView {
            arg_count: self.arg_count,
            args_idx: self.args_idx,
            body_idx: self.body_idx,
            len: self.len,
            preds: self.preds@,
            succs: self.succs@,
        }
    }
}

pub open spec fn block_views(blocks: Seq<BlockInfo>) -> Seq<BlockView> {
    blocks.map_values(|b: BlockInfo| b@)
}

/// A function: its instructions, the blocks they form, the arguments that do not
/// fit in the instructions, and the classes of its virtual registers.
#[derive(Debug, PartialEq, Eq)]
pub struct FunctionIr {
    pub insts: Vec<Instruction>,
    pub blocks: Vec<BlockInfo>,
    pub extra: Vec<u32>,
    pub reg_classes: Vec<u8>,
}

#[verifier::ext_equal]
pub struct FunctionView {
    pub insts: Seq<Instruction>,
    pub blocks: Seq<BlockView>,
    pub extra: Seq<u32>,
    pub reg_classes: Seq<u8>,
}

impl View for FunctionIr {
    type V = FunctionView;

    open spec fn view(&self) -> FunctionView {
        FunctionView {
            insts: self.insts@,
            blocks: block_views(self.blocks@),
            extra: self.extra@,
            reg_classes: self.reg_classes@,
        }
    }
}

/// The ids of the first `n` blocks.
pub open spec fn first_blocks(n: nat) -> Seq<BlockId> {
    Seq::new(n, |i: int| BlockId(i as u32))
}

impl FunctionIr {
    pub fn block_ids(&self) -> (ids: Vec<BlockId>)
        requires
            self@.blocks.len() <= u32::MAX,
        ensures
            ids@ == first_blocks(self@.blocks.len()),
    {
        let mut ids: Vec<BlockId> = Vec::new();
        let mut i: usize = 0;
        while i < self.blocks.len()
            invariant
                i <= self.blocks@.len(),
                self.blocks@.len() <= u32::MAX,
                ids@ =~= first_blocks(i as nat),
            decreases self.blocks.len() - i,
        {
            ids.push(BlockId(i as u32));
            i += 1;
        }
        ids
    }

    pub fn get_block_args(&self, block: BlockId) -> (refs: Refs)
        requires
            block.0 < self@.blocks.len(),
        ensures
            refs.idx == self@.blocks[block.0 as int].args_idx,
            refs.count == self@.blocks[block.0 as int].arg_count,
    {
        let info = &self.blocks[block.idx()];
        Refs { idx: info.args_idx, count: info.arg_count }
    }

    pub fn get_block_refs(&self, block: BlockId) -> (refs: Refs)
        requires
            block.0 < self@.blocks.len(),
        ensures
            refs.idx == self@.blocks[block.0 as int].body_idx,
            refs.count == self@.blocks[block.0 as int].len,
    {
        let info = &self.blocks[block.idx()];
        Refs { idx: info.body_idx, count: info.len }
    }
}

/// The list with the first occurrence of one block replaced by another.
pub open spec fn replace_first(list: Seq<BlockId>, old_id: BlockId, new_id: BlockId) -> Seq<BlockId>
    decreases list.len(),
{
    if list.len() == 0 {
        list
    } else if list[0] == old_id {
        list.update(0, new_id)
    } else {
        seq![list[0]] + replace_first(list.skip(1), old_id, new_id)
    }
}

pub proof fn lemma_replace_first(list: Seq<BlockId>, old_id: BlockId, new_id: BlockId, i: int)
    requires
        0 <= i <= list.len(),
        forall|j: int| 0 <= j < i ==> list[j] != old_id,
    ensures
        i < list.len() && list[i] == old_id ==> replace_first(list, old_id, new_id) =~= list.update(
            i,
            new_id,
        ),
        i == list.len() ==> replace_first(list, old_id, new_id) =~= list,
    decreases list.len(),
{
    if i > 0 && list.len() > 0 {
        assert(list.skip(1).len() == list.len() - 1);
        assert forall|j: int| 0 <= j < i - 1 implies list.skip(1)[j] != old_id by {
            assert(list.skip(1)[j] == list[j + 1]);
        }
        lemma_replace_first(list.skip(1), old_id, new_id, i - 1);
    }
}

impl BlockInfo {
    /// Another block takes the place of a predecessor.
    pub fn replace_pred(&mut self, old_id: BlockId, new_id: BlockId)
        ensures
            final(self)@ == (BlockView {
                preds: replace_first(old(self)@.preds, old_id, new_id),
                ..old(self)@
            }),
    {
        let mut i: usize = 0;
        while i < self.preds.len()
            invariant
                i <= self.preds@.len(),
                self@ == old(self)@,
                forall|j: int| 0 <= j < i ==> self.preds@[j] != old_id,
            decreases self.preds.len() - i,
        {
            if self.preds[i] == old_id {
                proof {
                    lemma_replace_first(self.preds@, old_id, new_id, i as int);
                }
                self.preds.set(i, new_id);
                return;
            }
            i += 1;
        }
        proof {
            lemma_replace_first(self.preds@, old_id, new_id, i as int);
        }
    }
}

} // verus!
