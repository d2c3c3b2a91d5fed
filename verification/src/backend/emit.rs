//! Laying out the machine code of a function block by block.
use vstd::prelude::*;

use crate::ir::ids::{BlockId, LocalFunctionId};
use crate::ir::mc::parcopy::ParcopySolver;
use crate::ir::mc::register::Register;

verus! {

/// A place in the code that the linker fills in.
#[derive(Clone, Copy, Debug, PartialEq, Eq, Structural)]
pub enum Relocation {
    FunctionCall(LocalFunctionId, u64),
    FunctionAddr(LocalFunctionId, u64),
    GlobalAddr(u32, u64),
}

/// The code of a function while it is being emitted.
pub struct Emitter<R: Register> {
    pub text: Vec<u8>,
    pub relocations: Vec<Relocation>,
    pub start: usize,
    pub parcopy: ParcopySolver<R>,
    /// Blocks that wait to be emitted, the next one first.
    pub block_queue: Vec<BlockId>,
    pub queued_blocks: Vec<bool>,
    pub block_offsets: Vec<Option<u32>>,
    pub missing_block_addrs: Vec<(u32, BlockId)>,
}

/// What an emitter holds.
#[verifier::ext_equal]
pub struct EmitState {
    pub text: Seq<u8>,
    pub relocations: Seq<Relocation>,
    pub start: int,
    pub block_queue: Seq<BlockId>,
    pub queued_blocks: Seq<bool>,
    pub block_offsets: Seq<Option<u32>>,
    pub missing_block_addrs: Seq<(u32, BlockId)>,
}

impl EmitState {
    /// The number of bytes of the function emitted so far.
    pub open spec fn offset(self) -> int {
        self.text.len() - self.start
    }

    /// The block is the one that is emitted next.
    pub open spec fn next_is(self, block: BlockId) -> bool {
        self.block_queue.len() > 0 && self.block_queue[0] == block
    }

    pub open spec fn with_bytes(self, bytes: Seq<u8>) -> EmitState {
        EmitState { text: self.text + bytes, ..self }
    }
}

impl<R: Register> View for Emitter<R> {
    type V = EmitState;

    open spec fn view(&self) -> EmitState {
        EmitState {
            text: self.text@,
            relocations: self.relocations@,
            start: self.start as int,
            block_queue: self.block_queue@,
            queued_blocks: self.queued_blocks@,
            block_offsets: self.block_offsets@,
            missing_block_addrs: self.missing_block_addrs@,
        }
    }
}

impl<R: Register> Emitter<R> {
    pub fn offset_in_function(&self) -> (offset: u32)
        requires
            0 <= self@.offset() <= u32::MAX,
        ensures
            offset == self@.offset(),
    {
        (self.text.len() - self.start) as u32
    }

    pub fn is_next(&self, block: BlockId) -> (next: bool)
        ensures
            next == self@.next_is(block),
    {
        self.block_queue.len() > 0 && self.block_queue[0] == block
    }

    pub fn block_offset(&self, block: BlockId) -> (offset: Option<u32>)
        requires
            block.0 < self@.block_offsets.len(),
        ensures
            offset == self@.block_offsets[block.0 as int],
    {
        self.block_offsets[block.idx()]
    }
}

} // verus!
