//! Changing a function while references to its instructions stay valid.
use vstd::prelude::*;

use crate::ir::env::Environment;
use crate::ir::function;
use crate::ir::function::{BlockInfo, BlockView, FunctionIr, FunctionView};
use crate::ir::ids::{BlockId, FunctionId, Ref, Refs, TypeId};
use crate::ir::inst;
use crate::ir::inst::{
    decode_args, write_args, Argument, ArgumentView, Instruction, MCReg, Parameter,
};

verus! {

/// Where an instruction goes in relation to another.
#[derive(Clone, Copy, Debug, PartialEq, Eq, PartialOrd, Ord, Structural)]
pub enum Insert {
    Before,
    After,
}

/// An instruction that was added.
#[derive(Clone, Copy, Debug)]
pub struct AdditionalInst {
    pub insert_at: Ref,
    pub position: Insert,
    pub inst: Instruction,
}

/// A function being changed. Added instructions are numbered behind the existing
/// ones and put in their places at the end.
#[derive(Debug)]
pub struct IrModify {
    pub ir: FunctionIr,
    pub additional: Vec<AdditionalInst>,
}

#[verifier::ext_equal]
pub struct ModifyView {
    pub ir: FunctionView,
    pub additional: Seq<AdditionalInst>,
}

impl View for IrModify {
    type V = ModifyView;

    open spec fn view(&self) -> ModifyView {
        ModifyView { ir: self.ir@, additional: self.additional@ }
    }
}

impl ModifyView {
    /// The number of instructions, added ones included.
    pub open spec fn count(self) -> nat {
        self.ir.insts.len() + self.additional.len()
    }

    /// The instruction behind a reference.
    pub open spec fn inst(self, r: Ref) -> Instruction {
        if r.0 < self.ir.insts.len() {
            self.ir.insts[r.0 as int]
        } else {
            self.additional[r.0 - self.ir.insts.len()].inst
        }
    }

    pub open spec fn with_inst(self, r: Ref, inst: Instruction) -> ModifyView {
        if r.0 < self.ir.insts.len() {
            ModifyView {
                ir: FunctionView { insts: self.ir.insts.update(r.0 as int, inst), ..self.ir },
                ..self
            }
        } else {
            let i = r.0 - self.ir.insts.len();
            ModifyView {
                additional: self.additional.update(
                    i,
                    AdditionalInst { inst, ..self.additional[i] },
                ),
                ..self
            }
        }
    }

    pub open spec fn with_blocks(self, blocks: Seq<BlockView>) -> ModifyView {
        ModifyView { ir: FunctionView { blocks, ..self.ir }, ..self }
    }

    /// The existing instruction at which an instruction is placed.
    pub open spec fn anchor(self, r: Ref) -> Ref {
        if r.0 < self.ir.insts.len() {
            r
        } else {
            self.additional[r.0 - self.ir.insts.len()].insert_at
        }
    }

    pub open spec fn add(self, insert_at: Ref, position: Insert, inst: Instruction) -> ModifyView {
        ModifyView {
            additional: self.additional.push(AdditionalInst { insert_at, position, inst }),
            ..self
        }
    }

    /// The body of the block holds the place `at`.
    pub open spec fn body_has(self, b: int, at: Ref) -> bool {
        let info = self.ir.blocks[b];
        info.body_idx <= at.0 < info.body_idx + info.len
    }

    /// There is a place by which the block of the instruction is found.
    pub open spec fn has_key(self, r: Ref) -> bool {
        r.0 < self.ir.insts.len() || r.0 < self.additional.len()
    }

    /// The place by which the block of an instruction is found. For an added instruction it is
    /// looked up under the number of the instruction among all, not among the added ones.
    pub open spec fn key(self, r: Ref) -> Ref {
        if r.0 < self.ir.insts.len() {
            r
        } else {
            self.additional[r.0 as int].insert_at
        }
    }

    /// The block is the first whose body holds the place of the instruction.
    pub open spec fn is_block_of(self, b: BlockId, r: Ref) -> bool {
        &&& b.0 < self.ir.blocks.len()
        &&& self.body_has(b.0 as int, self.key(r))
        &&& forall|i: int| 0 <= i < b.0 ==> !#[trigger] self.body_has(i, self.key(r))
    }

    pub open spec fn in_some_body(self, r: Ref) -> bool {
        &&& self.has_key(r)
        &&& exists|i: int|
            0 <= i < self.ir.blocks.len() && #[trigger] self.body_has(i, self.key(r))
    }

    /// An instruction placed at `at` belongs to the block. A block that was added
    /// has a single place for its body. After a block was split at its start, the
    /// place before the body still takes instructions.
    pub open spec fn takes_insertion(self, b: int, at: Ref, position: Insert) -> bool {
        let info = self.ir.blocks[b];
        if info.body_idx < self.ir.insts.len() {
            position == Insert::After && at.0 + 1 == info.body_idx || self.body_has(b, at)
        } else {
            info.body_idx == at.0
        }
    }

    pub open spec fn is_insertion_block(self, b: BlockId, at: Ref, position: Insert) -> bool {
        &&& b.0 < self.ir.blocks.len()
        &&& self.takes_insertion(b.0 as int, at, position)
        &&& forall|i: int| 0 <= i < b.0 ==> !#[trigger] self.takes_insertion(i, at, position)
    }

    /// The arguments of an instruction.
    pub open spec fn args(self, inst: Instruction, env: &Environment) -> Seq<ArgumentView> {
        inst::args_of(
            env.def(inst.function).params@,
            env.def(inst.function).varargs,
            inst.args,
            self.ir.extra,
            self.ir.blocks,
        )
    }

    /// The indices of blocks can be stored.
    pub open spec fn blocks_fit(self) -> bool {
        self.ir.blocks.len() <= u32::MAX && forall|i: int|
            0 <= i < self.ir.blocks.len() ==> {
                &&& (#[trigger] self.ir.blocks[i]).body_idx + self.ir.blocks[i].len <= u32::MAX
                &&& self.ir.blocks[i].args_idx + self.ir.blocks[i].arg_count <= u32::MAX
            }
    }
}

impl IrModify {
    pub fn new(ir: FunctionIr) -> (m: Self)
        ensures
            m@.ir == ir@,
            m@.additional.len() == 0,
    {
        Self { ir, additional: Vec::new() }
    }

    pub fn inst_count(&self) -> (n: u32)
        requires
            self@.count() <= u32::MAX,
        ensures
            n == self@.count(),
    {
        (self.ir.insts.len() + self.additional.len()) as u32
    }

    /// All instructions, the added ones last.
    pub fn refs(&self) -> (refs: Refs)
        requires
            self@.count() <= u32::MAX,
        ensures
            refs.idx == 0,
            refs.count == self@.count(),
    {
        Refs { idx: 0, count: self.inst_count() }
    }

    pub fn block_ids(&self) -> (ids: Vec<BlockId>)
        requires
            self@.ir.blocks.len() <= u32::MAX,
        ensures
            ids@ == function::first_blocks(self@.ir.blocks.len()),
    {
        self.ir.block_ids()
    }

    pub fn get_ref_ty(&self, r: Ref) -> (ty: TypeId)
        requires
            r.spec_is_ref() ==> r.0 < self@.count(),
        ensures
            ty == if r.spec_is_ref() {
                self@.inst(r).ty
            } else {
                TypeId::i1()
            },
    {
        if !r.is_ref() {
            return TypeId::i1();
        }
        if r.idx() < self.ir.insts.len() {
            self.ir.insts[r.idx()].ty
        } else {
            self.additional[r.idx() - self.ir.insts.len()].inst.ty
        }
    }

    /// The arguments of an instruction.
    pub fn args(&self, inst: &Instruction, env: &Environment) -> (args: Vec<Argument>)
        requires
            env.has(inst.function),
            env.def(inst.function).params@.len() <= u32::MAX,
        ensures
            inst::views(args@) == self@.args(*inst, env),
    {
        let def = env.get(inst.function);
        decode_args(&def.params, def.varargs, inst.args, &self.ir.extra, &self.ir.blocks)
    }

    /// The arguments of an instruction whose signature is at hand.
    pub fn typed_args(
        &self,
        inst: &Instruction,
        params: &Vec<Parameter>,
        varargs: Option<Parameter>,
    ) -> (args: Vec<Argument>)
        requires
            params@.len() <= u32::MAX,
        ensures
            inst::views(args@) == inst::args_of(
                params@,
                varargs,
                inst.args,
                self@.ir.extra,
                self@.ir.blocks,
            ),
    {
        decode_args(params, varargs, inst.args, &self.ir.extra, &self.ir.blocks)
    }

    /// The arguments of an instruction that takes `n` of them.
    pub fn args_n(&self, inst: &Instruction, env: &Environment, n: usize) -> (args: Vec<Argument>)
        requires
            env.has(inst.function),
            env.def(inst.function).params@.len() <= u32::MAX,
            self@.args(*inst, env).len() == n,
        ensures
            inst::views(args@) == self@.args(*inst, env),
            args@.len() == n,
    {
        let args: Vec<Argument> = self.args(inst, env);
        assert(inst::views(args@).len() == args@.len());
        args
    }

    /// The first `n` arguments of an instruction.
    pub fn args_n_ignore_extra(&self, inst: &Instruction, env: &Environment, n: usize) -> (args: Vec<
        Argument,
    >)
        requires
            env.has(inst.function),
            env.def(inst.function).params@.len() <= u32::MAX,
            self@.args(*inst, env).len() >= n,
        ensures
            inst::views(args@) == self@.args(*inst, env).take(n as int),
    {
        let mut args: Vec<Argument> = self.args(inst, env);
        assert(inst::views(args@).len() == args@.len());
        let ghost all = args@;
        args.truncate(n);
        assert(inst::views(args@) =~= inst::views(all).take(n as int));
        args
    }

    pub fn args_iter(&self, inst: &Instruction, env: &Environment) -> (args: Vec<Argument>)
        requires
            env.has(inst.function),
            env.def(inst.function).params@.len() <= u32::MAX,
        ensures
            inst::views(args@) == self@.args(*inst, env),
    {
        self.args(inst, env)
    }

    pub fn get_inst(&self, r: Ref) -> (inst: &Instruction)
        requires
            r.0 < self@.count(),
        ensures
            *inst == self@.inst(r),
    {
        if r.idx() < self.ir.insts.len() {
            &self.ir.insts[r.idx()]
        } else {
            &self.additional[r.idx() - self.ir.insts.len()].inst
        }
    }

    fn set_inst(&mut self, r: Ref, inst: Instruction)
        requires
            r.0 < old(self)@.count(),
        ensures
            final(self)@ == old(self)@.with_inst(r, inst),
    {
        let ghost before = self@;
        if r.idx() < self.ir.insts.len() {
            self.ir.insts.set(r.idx(), inst);
        } else {
            let i: usize = r.idx() - self.ir.insts.len();
            let mut added: AdditionalInst = self.additional[i];
            added.inst = inst;
            self.additional.set(i, added);
        }
        assert(self@ =~= before.with_inst(r, inst));
    }

    pub fn add_inst_before_or_after(
        &mut self,
        insert_at: Ref,
        position: Insert,
        inst: Instruction,
    ) -> (r: Ref)
        requires
            old(self)@.count() < u32::MAX,
        ensures
            r.0 == old(self)@.count(),
            final(self)@ == old(self)@.add(insert_at, position, inst),
    {
        let ghost before = self@;
        let r: Ref = Ref((self.ir.insts.len() + self.additional.len()) as u32);
        self.additional.push(AdditionalInst { insert_at, position, inst });
        assert(self@ =~= before.add(insert_at, position, inst));
        r
    }

    /// The first block that takes an instruction at the given place.
    fn insertion_block(&self, at: Ref, position: Insert) -> (b: BlockId)
        requires
            self@.blocks_fit(),
            exists|i: int|
                0 <= i < self@.ir.blocks.len() && #[trigger] self@.takes_insertion(i, at, position),
            at.0 < u32::MAX,
        ensures
            self@.is_insertion_block(b, at, position),
    {
        let n: usize = self.ir.insts.len();
        let mut i: usize = 0;
        while i < self.ir.blocks.len()
            invariant
                i <= self.ir.blocks@.len(),
                n == self.ir.insts@.len(),
                at.0 < u32::MAX,
                self@.blocks_fit(),
                exists|i: int|
                    0 <= i < self@.ir.blocks.len() && #[trigger] self@.takes_insertion(
                        i,
                        at,
                        position,
                    ),
                forall|j: int| 0 <= j < i ==> !#[trigger] self@.takes_insertion(j, at, position),
            decreases self.ir.blocks.len() - i,
        {
            let info = &self.ir.blocks[i];
            assert(info@ == self@.ir.blocks[i as int]);
            let hit: bool = if (info.body_idx as usize) < n {
                position == Insert::After && at.0 + 1 == info.body_idx || info.body_idx <= at.0
                    && at.0 < info.body_idx + info.len
            } else {
                info.body_idx == at.0
            };
            assert(hit == self@.takes_insertion(i as int, at, position));
            if hit {
                return BlockId(i as u32);
            }
            i += 1;
        }
        assert(false);
        BlockId(0)
    }

    /// The instruction that the arguments make up can be stored in the block.
    pub open spec fn can_write(
        v: ModifyView,
        env: &Environment,
        function: FunctionId,
        args: Seq<ArgumentView>,
    ) -> bool {
        &&& env.has(function)
        &&& inst::args_fit(env.def(function).params@, env.def(function).varargs, args)
        &&& inst::encoding_fits(
            env.def(function).params@,
            env.def(function).varargs,
            args,
            v.ir.extra,
        )
        &&& inst::targets_exist(args, v.ir.blocks.len())
    }

    /// The stored form of the instruction.
    pub open spec fn prepared(
        v: ModifyView,
        env: &Environment,
        function: FunctionId,
        args: Seq<ArgumentView>,
        ty: TypeId,
    ) -> Instruction {
        Instruction {
            function,
            args: inst::encoded_args(
                env.def(function).params@,
                env.def(function).varargs,
                args,
                v.ir.extra,
            ).0,
            ty,
        }
    }

    /// The arguments were stored, and the edges that leave the block entered.
    pub open spec fn with_args(
        v: ModifyView,
        env: &Environment,
        function: FunctionId,
        block: BlockId,
        args: Seq<ArgumentView>,
    ) -> ModifyView {
        ModifyView {
            ir: FunctionView {
                extra: inst::encoded_args(
                    env.def(function).params@,
                    env.def(function).varargs,
                    args,
                    v.ir.extra,
                ).1,
                blocks: inst::add_edges(v.ir.blocks, block, args),
                ..v.ir
            },
            ..v
        }
    }

    /// Stores the arguments of an instruction that is to be placed in the block.
    pub fn prepare_instruction(
        &mut self,
        env: &Environment,
        block: BlockId,
        function: FunctionId,
        args: &Vec<Argument>,
        ty: TypeId,
    ) -> (inst: Instruction)
        requires
            block.0 < old(self)@.ir.blocks.len(),
            Self::can_write(old(self)@, env, function, inst::views(args@)),
        ensures
            inst == Self::prepared(old(self)@, env, function, inst::views(args@), ty),
            final(self)@ == Self::with_args(
                old(self)@,
                env,
                function,
                block,
                inst::views(args@),
            ),
    {
        let ghost before = self@;
        let def = env.get(function);
        let stored: [u32; 2] = write_args(
            &mut self.ir.extra,
            block,
            &mut self.ir.blocks,
            &def.params,
            def.varargs,
            args,
        );
        assert(self@ =~= Self::with_args(before, env, function, block, inst::views(args@)));
        Instruction { function, args: stored, ty }
    }

    pub fn add_before_or_after(
        &mut self,
        env: &Environment,
        insert_at: Ref,
        position: Insert,
        function: FunctionId,
        args: &Vec<Argument>,
        ty: TypeId,
    ) -> (r: Ref)
        requires
            insert_at.0 < old(self)@.count(),
            old(self)@.count() < u32::MAX,
            old(self)@.blocks_fit(),
            old(self)@.anchor(insert_at).0 < u32::MAX,
            Self::can_write(old(self)@, env, function, inst::views(args@)),
            exists|i: int|
                0 <= i < old(self)@.ir.blocks.len() && #[trigger] old(self)@.takes_insertion(
                    i,
                    old(self)@.anchor(insert_at),
                    position,
                ),
        ensures
            r.0 == old(self)@.count(),
            exists|b: BlockId|
                #![trigger old(self)@.is_insertion_block(b, old(self)@.anchor(insert_at), position)]
                old(self)@.is_insertion_block(b, old(self)@.anchor(insert_at), position)
                    && final(self)@ == Self::with_args(
                    old(self)@,
                    env,
                    function,
                    b,
                    inst::views(args@),
                ).add(
                    old(self)@.anchor(insert_at),
                    position,
                    Self::prepared(old(self)@, env, function, inst::views(args@), ty),
                ),
    {
        let at: Ref = if insert_at.idx() < self.ir.insts.len() {
            insert_at
        } else {
            self.additional[insert_at.idx() - self.ir.insts.len()].insert_at
        };
        let block: BlockId = self.insertion_block(at, position);
        let inst: Instruction = self.prepare_instruction(env, block, function, args, ty);
        self.add_inst_before_or_after(at, position, inst)
    }

    pub fn add_before(
        &mut self,
        env: &Environment,
        before: Ref,
        function: FunctionId,
        args: &Vec<Argument>,
        ty: TypeId,
    ) -> (r: Ref)
        requires
            before.0 < old(self)@.count(),
            old(self)@.count() < u32::MAX,
            old(self)@.blocks_fit(),
            old(self)@.anchor(before).0 < u32::MAX,
            Self::can_write(old(self)@, env, function, inst::views(args@)),
            exists|i: int|
                0 <= i < old(self)@.ir.blocks.len() && #[trigger] old(self)@.takes_insertion(
                    i,
                    old(self)@.anchor(before),
                    Insert::Before,
                ),
        ensures
            r.0 == old(self)@.count(),
            exists|b: BlockId|
                #![trigger old(self)@.is_insertion_block(b, old(self)@.anchor(before), Insert::Before)]
                old(self)@.is_insertion_block(b, old(self)@.anchor(before), Insert::Before)
                    && final(self)@ == Self::with_args(
                    old(self)@,
                    env,
                    function,
                    b,
                    inst::views(args@),
                ).add(
                    old(self)@.anchor(before),
                    Insert::Before,
                    Self::prepared(old(self)@, env, function, inst::views(args@), ty),
                ),
    {
        self.add_before_or_after(env, before, Insert::Before, function, args, ty)
    }

    pub fn add_after(
        &mut self,
        env: &Environment,
        after: Ref,
        function: FunctionId,
        args: &Vec<Argument>,
        ty: TypeId,
    ) -> (r: Ref)
        requires
            after.0 < old(self)@.count(),
            old(self)@.count() < u32::MAX,
            old(self)@.blocks_fit(),
            old(self)@.anchor(after).0 < u32::MAX,
            Self::can_write(old(self)@, env, function, inst::views(args@)),
            exists|i: int|
                0 <= i < old(self)@.ir.blocks.len() && #[trigger] old(self)@.takes_insertion(
                    i,
                    old(self)@.anchor(after),
                    Insert::After,
                ),
        ensures
            r.0 == old(self)@.count(),
            exists|b: BlockId|
                #![trigger old(self)@.is_insertion_block(b, old(self)@.anchor(after), Insert::After)]
                old(self)@.is_insertion_block(b, old(self)@.anchor(after), Insert::After)
                    && final(self)@ == Self::with_args(
                    old(self)@,
                    env,
                    function,
                    b,
                    inst::views(args@),
                ).add(
                    old(self)@.anchor(after),
                    Insert::After,
                    Self::prepared(old(self)@, env, function, inst::views(args@), ty),
                ),
    {
        self.add_before_or_after(env, after, Insert::After, function, args, ty)
    }

    /// The first block whose body holds the place of the instruction.
    pub fn inst_block(&self, r: Ref) -> (b: BlockId)
        requires
            self@.blocks_fit(),
            self@.in_some_body(r),
        ensures
            self@.is_block_of(b, r),
    {
        let at: Ref = if r.idx() < self.ir.insts.len() {
            r
        } else {
            self.additional[r.idx()].insert_at
        };
        let mut i: usize = 0;
        while i < self.ir.blocks.len()
            invariant
                i <= self.ir.blocks@.len(),
                at == self@.key(r),
                self@.blocks_fit(),
                self@.in_some_body(r),
                forall|j: int| 0 <= j < i ==> !#[trigger] self@.body_has(j, at),
            decreases self.ir.blocks.len() - i,
        {
            let info = &self.ir.blocks[i];
            assert(info@ == self@.ir.blocks[i as int]);
            let hit: bool = info.body_idx <= at.0 && at.0 < info.body_idx + info.len;
            assert(hit == self@.body_has(i as int, at));
            if hit {
                return BlockId(i as u32);
            }
            i += 1;
        }
        assert(false);
        BlockId(0)
    }

    pub fn get_block(&self, block: BlockId) -> (info: &BlockInfo)
        requires
            block.0 < self@.ir.blocks.len(),
        ensures
            info@ == self@.ir.blocks[block.0 as int],
    {
        &self.ir.blocks[block.idx()]
    }

    /// Gets the Ref to the first instruction in the given block before potential modifications.
    pub fn get_original_block_start(&self, block: BlockId) -> (r: Ref)
        requires
            block.0 < self@.ir.blocks.len(),
        ensures
            r.0 == self@.ir.blocks[block.0 as int].body_idx,
    {
        Ref(self.ir.blocks[block.idx()].body_idx)
    }

    pub fn get_block_args(&self, block: BlockId) -> (refs: Refs)
        requires
            block.0 < self@.ir.blocks.len(),
        ensures
            refs.idx == self@.ir.blocks[block.0 as int].args_idx,
            refs.count == self@.ir.blocks[block.0 as int].arg_count,
    {
        self.ir.get_block_args(block)
    }

    pub fn get_original_block_refs(&self, block: BlockId) -> (refs: Refs)
        requires
            block.0 < self@.ir.blocks.len(),
        ensures
            refs.idx == self@.ir.blocks[block.0 as int].body_idx,
            refs.count == self@.ir.blocks[block.0 as int].len,
    {
        self.ir.get_block_refs(block)
    }

    /// The last instruction of the block, or the place for its first one.
    pub fn get_block_insert_point(&self, block: BlockId) -> (r: Ref)
        requires
            block.0 < self@.ir.blocks.len(),
            self@.blocks_fit(),
        ensures
            r.0 == {
                let info = self@.ir.blocks[block.0 as int];
                if info.len == 0 {
                    info.body_idx as int
                } else {
                    info.body_idx + info.len - 1
                }
            },
    {
        let info = &self.ir.blocks[block.idx()];
        assert(info@ == self@.ir.blocks[block.0 as int]);
        if info.len == 0 {
            Ref(info.body_idx)
        } else {
            Ref(info.body_idx + info.len - 1)
        }
    }

    pub fn is_ref_in_block(&self, r: Ref, block: BlockId) -> (is: bool)
        requires
            block.0 < self@.ir.blocks.len(),
            self@.blocks_fit(),
            r.spec_is_ref() ==> r.0 < self@.count(),
        ensures
            is == (r.spec_is_ref() && {
                let info = self@.ir.blocks[block.0 as int];
                info.args_idx <= self@.anchor(r).0 < info.body_idx + info.len
            }),
    {
        if !r.is_ref() {
            return false;
        }
        let info = &self.ir.blocks[block.idx()];
        assert(info@ == self@.ir.blocks[block.0 as int]);
        let at: Ref = if r.idx() >= self.ir.insts.len() {
            self.additional[r.idx() - self.ir.insts.len()].insert_at
        } else {
            r
        };
        info.args_idx <= at.0 && at.0 < info.body_idx + info.len
    }

    pub fn add_manual_preds(&mut self, block: BlockId, preds: Vec<BlockId>)
        requires
            block.0 < old(self)@.ir.blocks.len(),
        ensures
            final(self)@ == old(self)@.with_blocks(
                old(self)@.ir.blocks.update(
                    block.0 as int,
                    (BlockView {
                        preds: old(self)@.ir.blocks[block.0 as int].preds + preds@,
                        ..old(self)@.ir.blocks[block.0 as int]
                    }),
                ),
            ),
    {
        let ghost before = self@;
        let mut added: Vec<BlockId> = preds;
        self.ir.blocks[block.idx()].preds.append(&mut added);
        assert(self@ =~= before.with_blocks(
            before.ir.blocks.update(
                block.0 as int,
                (BlockView {
                    preds: before.ir.blocks[block.0 as int].preds + preds@,
                    ..before.ir.blocks[block.0 as int]
                }),
            ),
        ));
    }

    pub fn add_manual_succs(&mut self, block: BlockId, succs: Vec<BlockId>)
        requires
            block.0 < old(self)@.ir.blocks.len(),
        ensures
            final(self)@ == old(self)@.with_blocks(
                old(self)@.ir.blocks.update(
                    block.0 as int,
                    (BlockView {
                        succs: old(self)@.ir.blocks[block.0 as int].succs + succs@,
                        ..old(self)@.ir.blocks[block.0 as int]
                    }),
                ),
            ),
    {
        let ghost before = self@;
        let mut added: Vec<BlockId> = succs;
        self.ir.blocks[block.idx()].succs.append(&mut added);
        assert(self@ =~= before.with_blocks(
            before.ir.blocks.update(
                block.0 as int,
                (BlockView {
                    succs: before.ir.blocks[block.0 as int].succs + succs@,
                    ..before.ir.blocks[block.0 as int]
                }),
            ),
        ));
    }

    pub fn new_reg(&mut self, class: u8) -> (r: MCReg)
        requires
            old(self)@.ir.reg_classes.len() < 0x4000_0000,
        ensures
            r.0 == old(self)@.ir.reg_classes.len(),
            !r.spec_is_phys(),
            final(self)@ == (ModifyView {
                ir: FunctionView {
                    reg_classes: old(self)@.ir.reg_classes.push(class),
                    ..old(self)@.ir
                },
                ..old(self)@
            }),
    {
        let r: MCReg = MCReg::from_virt(self.ir.reg_classes.len() as u32);
        self.ir.reg_classes.push(class);
        assert(self@ =~= (ModifyView {
            ir: FunctionView { reg_classes: old(self)@.ir.reg_classes.push(class), ..old(self)@.ir },
            ..old(self)@
        }));
        r
    }

    /// Replaces the class of a virtual register by what `update` makes of it.
    pub fn update_reg_class(&mut self, reg: MCReg, update: impl FnOnce(u8) -> u8)
        requires
            reg.0 < old(self)@.ir.reg_classes.len(),
            call_requires(update, (old(self)@.ir.reg_classes[reg.0 as int],)),
        ensures
            exists|class: u8|
                #![trigger old(self)@.ir.reg_classes.update(reg.0 as int, class)]
                call_ensures(update, (old(self)@.ir.reg_classes[reg.0 as int],), class)
                    && final(self)@ == (ModifyView {
                    ir: FunctionView {
                        reg_classes: old(self)@.ir.reg_classes.update(reg.0 as int, class),
                        ..old(self)@.ir
                    },
                    ..old(self)@
                }),
    {
        let i: usize = reg.0 as usize;
        let class: u8 = update(self.ir.reg_classes[i]);
        self.ir.reg_classes.set(i, class);
        assert(self@ =~= (ModifyView {
            ir: FunctionView {
                reg_classes: old(self)@.ir.reg_classes.update(reg.0 as int, class),
                ..old(self)@.ir
            },
            ..old(self)@
        }));
    }
}

/// The position of the first occurrence.
pub open spec fn first_index(list: Seq<BlockId>, x: BlockId) -> Option<int>
    decreases list.len(),
{
    if list.len() == 0 {
        None
    } else if list[0] == x {
        Some(0)
    } else {
        match first_index(list.skip(1), x) {
            Some(i) => Some(i + 1),
            None => None,
        }
    }
}

proof fn lemma_first_index(list: Seq<BlockId>, x: BlockId, i: int)
    requires
        0 <= i <= list.len(),
        forall|j: int| 0 <= j < i ==> list[j] != x,
    ensures
        i < list.len() && list[i] == x ==> first_index(list, x) == Some(i),
        i == list.len() ==> first_index(list, x) is None,
    decreases list.len(),
{
    if i > 0 && list.len() > 0 {
        assert forall|j: int| 0 <= j < i - 1 implies list.skip(1)[j] != x by {
            assert(list.skip(1)[j] == list[j + 1]);
        }
        lemma_first_index(list.skip(1), x, i - 1);
    }
}

/// The list without the first occurrence; the last element takes its place.
pub open spec fn swap_remove_first(list: Seq<BlockId>, x: BlockId) -> Seq<BlockId> {
    match first_index(list, x) {
        Some(i) => list.update(i, list.last()).drop_last(),
        None => list,
    }
}

fn remove_first(list: &mut Vec<BlockId>, x: BlockId)
    ensures
        final(list)@ == swap_remove_first(old(list)@, x),
{
    let mut i: usize = 0;
    while i < list.len()
        invariant
            i <= list@.len(),
            list@ == old(list)@,
            forall|j: int| 0 <= j < i ==> list@[j] != x,
        decreases list.len() - i,
    {
        if list[i] == x {
            proof {
                lemma_first_index(list@, x, i as int);
            }
            list.swap_remove(i);
            assert(list@ =~= swap_remove_first(old(list)@, x));
            return;
        }
        i += 1;
    }
    proof {
        lemma_first_index(list@, x, i as int);
    }
}

/// The blocks that the arguments name as targets, in order.
pub open spec fn targets_of(args: Seq<ArgumentView>) -> Seq<BlockId>
    decreases args.len(),
{
    if args.len() == 0 {
        Seq::empty()
    } else {
        let rest = targets_of(args.drop_last());
        match args.last() {
            ArgumentView::BlockTarget(b, _) => rest.push(b),
            _ => rest,
        }
    }
}

fn collect_targets(args: &Vec<Argument>) -> (targets: Vec<BlockId>)
    ensures
        targets@ == targets_of(inst::views(args@)),
{
    let mut targets: Vec<BlockId> = Vec::new();
    let ghost all = inst::views(args@);
    let mut i: usize = 0;
    while i < args.len()
        invariant
            i <= args@.len(),
            all == inst::views(args@),
            targets@ =~= targets_of(all.take(i as int)),
        decreases args.len() - i,
    {
        proof {
            assert(all.take(i + 1).drop_last() =~= all.take(i as int));
            assert(all.take(i + 1).last() == args@[i as int]@);
        }
        if let Argument::BlockTarget(b, _) = &args[i] {
            targets.push(*b);
        }
        i += 1;
    }
    assert(all.take(i as int) =~= all);
    targets
}

/// The successors without one occurrence of each target.
pub open spec fn remove_targets(succs: Seq<BlockId>, targets: Seq<BlockId>) -> Seq<BlockId>
    decreases targets.len(),
{
    if targets.len() == 0 {
        succs
    } else {
        swap_remove_first(remove_targets(succs, targets.drop_last()), targets.last())
    }
}

/// The block is no longer a predecessor of the targets.
pub open spec fn remove_pred_of(
    blocks: Seq<BlockView>,
    targets: Seq<BlockId>,
    block: BlockId,
) -> Seq<BlockView>
    decreases targets.len(),
{
    if targets.len() == 0 {
        blocks
    } else {
        let before = remove_pred_of(blocks, targets.drop_last(), block);
        let t = targets.last().0 as int;
        if t < before.len() {
            before.update(
                t,
                BlockView { preds: swap_remove_first(before[t].preds, block), ..before[t] },
            )
        } else {
            before
        }
    }
}

/// The edges that leave the block through an instruction are taken away.
pub open spec fn remove_edges(
    blocks: Seq<BlockView>,
    block: BlockId,
    targets: Seq<BlockId>,
) -> Seq<BlockView> {
    let b = block.0 as int;
    remove_pred_of(
        blocks.update(
            b,
            BlockView { succs: remove_targets(blocks[b].succs, targets), ..blocks[b] },
        ),
        targets,
        block,
    )
}

proof fn lemma_remove_pred_of_len(blocks: Seq<BlockView>, targets: Seq<BlockId>, block: BlockId)
    ensures
        remove_pred_of(blocks, targets, block).len() == blocks.len(),
    decreases targets.len(),
{
    if targets.len() > 0 {
        lemma_remove_pred_of_len(blocks, targets.drop_last(), block);
    }
}

/// The new predecessor takes the place of the old one in all successors but the
/// old one itself.
pub open spec fn redirect_preds(
    blocks: Seq<BlockView>,
    succs: Seq<BlockId>,
    from: BlockId,
    to: BlockId,
) -> Seq<BlockView>
    decreases succs.len(),
{
    if succs.len() == 0 {
        blocks
    } else {
        let before = redirect_preds(blocks, succs.drop_last(), from, to);
        let s = succs.last();
        if s == from || s.0 >= before.len() {
            before
        } else {
            before.update(
                s.0 as int,
                BlockView {
                    preds: function::replace_first(before[s.0 as int].preds, from, to),
                    ..before[s.0 as int]
                },
            )
        }
    }
}

impl IrModify {
    /// The function with an empty block more.
    pub open spec fn block_added(v: ModifyView, args: Seq<TypeId>) -> ModifyView {
        let n = v.count() as int;
        ModifyView {
            additional: v.additional + Seq::new(
                args.len(),
                |i: int|
                    AdditionalInst {
                        insert_at: Ref((n + i) as u32),
                        position: Insert::After,
                        inst: Instruction::spec_block_arg(args[i]),
                    },
            ) + seq![
                AdditionalInst {
                    insert_at: Ref((n + args.len()) as u32),
                    position: Insert::After,
                    inst: Instruction::spec_nothing(),
                },
            ],
            ir: FunctionView {
                blocks: v.ir.blocks.push(
                    BlockView {
                        arg_count: args.len() as u32,
                        args_idx: n as u32,
                        body_idx: (n + args.len()) as u32,
                        len: 0,
                        preds: Seq::empty(),
                        succs: Seq::empty(),
                    },
                ),
                ..v.ir
            },
        }
    }

    /// Adds a block with arguments of the given types. Returns its id, its
    /// arguments and the place for its first instruction.
    pub fn add_block(&mut self, args: &Vec<TypeId>) -> (r: (BlockId, Refs, Ref))
        requires
            old(self)@.count() + args@.len() < u32::MAX,
            old(self)@.ir.blocks.len() < u32::MAX,
        ensures
            final(self)@ == Self::block_added(old(self)@, args@),
            r.0.0 == old(self)@.ir.blocks.len(),
            r.1.idx == old(self)@.count(),
            r.1.count == args@.len(),
            r.2.0 == old(self)@.count() + args@.len(),
    {
        let ghost before = self@;
        let id: BlockId = BlockId(self.ir.blocks.len() as u32);
        let args_idx: u32 = (self.ir.insts.len() + self.additional.len()) as u32;
        let mut i: usize = 0;
        while i < args.len()
            invariant
                i <= args@.len(),
                args_idx == before.count(),
                args_idx + args@.len() < u32::MAX,
                self.ir == old(self).ir,
                self.additional@ =~= before.additional + Seq::new(
                    i as nat,
                    |i: int|
                        AdditionalInst {
                            insert_at: Ref((args_idx + i) as u32),
                            position: Insert::After,
                            inst: Instruction::spec_block_arg(args@[i]),
                        },
                ),
            decreases args.len() - i,
        {
            // all arguments are added "after" the index of themselves so they all get grouped
            // properly with the ability to insert after and before them preserved
            self.additional.push(
                AdditionalInst {
                    insert_at: Ref(args_idx + i as u32),
                    position: Insert::After,
                    inst: Instruction::block_arg(args[i]),
                },
            );
            i += 1;
        }
        let arg_count: u32 = args.len() as u32;
        let body_idx: u32 = args_idx + arg_count;
        self.ir.blocks.push(
            BlockInfo {
                arg_count,
                args_idx,
                body_idx,
                len: 0,
                preds: Vec::new(),
                succs: Vec::new(),
            },
        );
        // insert point instruction
        self.additional.push(
            AdditionalInst {
                insert_at: Ref(body_idx),
                position: Insert::After,
                inst: Instruction::nothing(),
            },
        );
        proof {
            let goal = Self::block_added(before, args@);
            assert(self@.additional =~= goal.additional);
            assert(self@.ir.blocks.last() =~= goal.ir.blocks.last());
            assert(self@.ir.blocks =~= goal.ir.blocks);
            assert(self@ =~= goal);
        }
        (id, Refs { idx: args_idx, count: arg_count }, Ref(body_idx))
    }

    /// Takes away the edges that leave the block through the instruction.
    fn on_inst_remove(&mut self, env: &Environment, r: Ref, block: BlockId)
        requires
            r.0 < old(self)@.count(),
            block.0 < old(self)@.ir.blocks.len(),
            env.has(old(self)@.inst(r).function),
            env.def(old(self)@.inst(r).function).params@.len() <= u32::MAX,
        ensures
            final(self)@ == old(self)@.with_blocks(
                remove_edges(
                    old(self)@.ir.blocks,
                    block,
                    targets_of(old(self)@.args(old(self)@.inst(r), env)),
                ),
            ),
    {
        let ghost before = self@;
        let inst: Instruction = *self.get_inst(r);
        let args: Vec<Argument> = self.args(&inst, env);
        let targets: Vec<BlockId> = collect_targets(&args);
        let ghost all = targets@;
        let b: usize = block.idx();
        let mut i: usize = 0;
        assert(all.take(0) =~= Seq::empty());
        assert(self@.ir.blocks =~= before.ir.blocks.update(
            b as int,
            BlockView {
                succs: remove_targets(before.ir.blocks[b as int].succs, all.take(0)),
                ..before.ir.blocks[b as int]
            },
        ));
        while i < targets.len()
            invariant
                i <= targets@.len(),
                all == targets@,
                b < self.ir.blocks@.len(),
                b < before.ir.blocks.len(),
                self@ == before.with_blocks(self@.ir.blocks),
                self@.ir.blocks =~= before.ir.blocks.update(
                    b as int,
                    BlockView {
                        succs: remove_targets(
                            before.ir.blocks[b as int].succs,
                            all.take(i as int),
                        ),
                        ..before.ir.blocks[b as int]
                    },
                ),
            decreases targets.len() - i,
        {
            proof {
                assert(all.take(i + 1).drop_last() =~= all.take(i as int));
                assert(all.take(i + 1).last() == all[i as int]);
                assert(self.ir.blocks@[b as int]@ == self@.ir.blocks[b as int]);
            }
            let ghost blocks_before = self@.ir.blocks;
            remove_first(&mut self.ir.blocks[b].succs, targets[i]);
            proof {
                assert(self.ir.blocks@[b as int]@ == self@.ir.blocks[b as int]);
                assert(forall|k: int|
                    0 <= k < blocks_before.len() && k != b ==> self@.ir.blocks[k]
                        == blocks_before[k]);
                assert(self@.ir.blocks[b as int] =~= (BlockView {
                    succs: remove_targets(before.ir.blocks[b as int].succs, all.take(i + 1)),
                    ..before.ir.blocks[b as int]
                }));
                let goal = before.ir.blocks.update(
                    b as int,
                    BlockView {
                        succs: remove_targets(before.ir.blocks[b as int].succs, all.take(i + 1)),
                        ..before.ir.blocks[b as int]
                    },
                );
                assert forall|k: int| 0 <= k < goal.len() implies self@.ir.blocks[k] == goal[k] by {
                    if k != b {
                        assert(self@.ir.blocks[k] == blocks_before[k]);
                        assert(blocks_before[k] == before.ir.blocks[k]);
                    }
                }
                assert(self@.ir.blocks =~= goal);
                assert(self@ =~= before.with_blocks(self@.ir.blocks));
            }
            i += 1;
        }
        assert(all.take(i as int) =~= all);
        let ghost middle = self@.ir.blocks;
        let mut i: usize = 0;
        while i < targets.len()
            invariant
                i <= targets@.len(),
                all == targets@,
                self@ == before.with_blocks(self@.ir.blocks),
                self@.ir.blocks =~= remove_pred_of(middle, all.take(i as int), block),
            decreases targets.len() - i,
        {
            proof {
                assert(all.take(i + 1).drop_last() =~= all.take(i as int));
                assert(all.take(i + 1).last() == all[i as int]);
            }
            let t: usize = targets[i].idx();
            if t < self.ir.blocks.len() {
                let ghost blocks_before = self@.ir.blocks;
                assert(self.ir.blocks@[t as int]@ == self@.ir.blocks[t as int]);
                remove_first(&mut self.ir.blocks[t].preds, block);
                proof {
                    assert(self.ir.blocks@[t as int]@ == self@.ir.blocks[t as int]);
                    assert(forall|k: int|
                        0 <= k < blocks_before.len() && k != t ==> self@.ir.blocks[k]
                            == blocks_before[k]);
                    assert(self@ =~= before.with_blocks(self@.ir.blocks));
                }
            }
            i += 1;
        }
        assert(all.take(i as int) =~= all);
    }

    /// The instruction can be taken out of its block.
    pub open spec fn can_remove(v: ModifyView, env: &Environment, r: Ref) -> bool {
        &&& v.blocks_fit()
        &&& v.in_some_body(r)
        &&& env.has(v.inst(r).function)
        &&& env.def(v.inst(r).function).params@.len() <= u32::MAX
    }

    /// The function with another instruction in the place of one, which leaves
    /// the edges of the old one out.
    pub open spec fn replaced(
        v: ModifyView,
        env: &Environment,
        r: Ref,
        block: BlockId,
        inst: Instruction,
    ) -> ModifyView {
        v.with_blocks(
            remove_edges(v.ir.blocks, block, targets_of(v.args(v.inst(r), env))),
        ).with_inst(r, inst)
    }

    /// Lets an instruction stand for another value.
    pub fn replace_with(&mut self, env: &Environment, r: Ref, new: Ref)
        requires
            Self::can_remove(old(self)@, env, r),
            new.spec_is_ref() ==> new.0 < old(self)@.count(),
        ensures
            exists|b: BlockId| #[trigger]
                old(self)@.is_block_of(b, r) && final(self)@ == Self::replaced(
                    old(self)@,
                    env,
                    r,
                    b,
                    Instruction::spec_copy(
                        new,
                        if new.spec_is_ref() {
                            old(self)@.inst(new).ty
                        } else {
                            TypeId::i1()
                        },
                    ),
                ),
    {
        let block: BlockId = self.inst_block(r);
        let ty: TypeId = self.get_ref_ty(new);
        self.on_inst_remove(env, r, block);
        self.set_inst(r, Instruction::copy(new, ty));
    }

    pub fn delete(&mut self, env: &Environment, r: Ref)
        requires
            Self::can_remove(old(self)@, env, r),
        ensures
            exists|b: BlockId| #[trigger]
                old(self)@.is_block_of(b, r) && final(self)@ == Self::replaced(
                    old(self)@,
                    env,
                    r,
                    b,
                    Instruction::spec_nothing(),
                ),
    {
        let block: BlockId = self.inst_block(r);
        self.on_inst_remove(env, r, block);
        self.set_inst(r, Instruction::nothing());
    }

    pub fn replace_with_inst(&mut self, env: &Environment, r: Ref, new_inst: Instruction)
        requires
            Self::can_remove(old(self)@, env, r),
        ensures
            exists|b: BlockId| #[trigger]
                old(self)@.is_block_of(b, r) && final(self)@ == Self::replaced(
                    old(self)@,
                    env,
                    r,
                    b,
                    new_inst,
                ),
    {
        let block: BlockId = self.inst_block(r);
        self.on_inst_remove(env, r, block);
        self.set_inst(r, new_inst);
    }

    /// Replaces an instruction by one with the given arguments.
    pub fn replace(
        &mut self,
        env: &Environment,
        r: Ref,
        function: FunctionId,
        args: &Vec<Argument>,
        ty: TypeId,
    )
        requires
            Self::can_remove(old(self)@, env, r),
            Self::can_write(old(self)@, env, function, inst::views(args@)),
        ensures
            exists|b: BlockId| #[trigger]
                old(self)@.is_block_of(b, r) && final(self)@ == Self::replaced(
                    Self::with_args(old(self)@, env, function, b, inst::views(args@)),
                    env,
                    r,
                    b,
                    Self::prepared(old(self)@, env, function, inst::views(args@), ty),
                ),
    {
        let ghost before = self@;
        let block: BlockId = self.inst_block(r);
        let inst: Instruction = self.prepare_instruction(env, block, function, args, ty);
        proof {
            inst::lemma_add_edges_len(before.ir.blocks, block, inst::views(args@));
        }
        self.on_inst_remove(env, r, block);
        self.set_inst(r, inst);
    }

    /// The function after `block` was split at the instruction `r`.
    pub open spec fn block_split(v: ModifyView, block: BlockId, r: Ref) -> ModifyView {
        let b = block.0 as int;
        let info = v.ir.blocks[b];
        let new_id = BlockId(v.ir.blocks.len() as u32);
        let offset = r.0 - info.body_idx;
        let shortened = v.ir.blocks.update(
            b,
            BlockView { len: offset as u32, succs: Seq::empty(), ..info },
        );
        let new_block = BlockView {
            arg_count: 1,
            args_idx: r.0,
            body_idx: (r.0 + 1) as u32,
            len: (info.len - offset - 1) as u32,
            preds: Seq::empty(),
            succs: info.succs.map_values(
                |s: BlockId|
                    if s == block {
                        new_id
                    } else {
                        s
                    },
            ),
        };
        ModifyView {
            ir: FunctionView {
                insts: v.ir.insts.update(
                    r.0 as int,
                    Instruction::spec_block_arg(v.ir.insts[r.0 as int].ty),
                ),
                blocks: redirect_preds(shortened, info.succs, block, new_id).push(new_block),
                ..v.ir
            },
            ..v
        }
    }

    /// Splits a block into two before at the specified instruction Ref. Converts the given
    /// instruction into the single block arg of the new block.
    /// Returns the id of the new block as well as the insert point at the end of the existing
    /// block. Note that the existing block will be left without a terminator.
    ///
    /// This is mainly used for inlining where a call instruction is made the start of the new
    /// block. The inlined function will Goto the new block when returning, passing is return value
    pub fn split_block_at(&mut self, block: BlockId, r: Ref) -> (res: (BlockId, Ref))
        requires
            block.0 < old(self)@.ir.blocks.len(),
            old(self)@.ir.blocks.len() < u32::MAX,
            old(self)@.blocks_fit(),
            0 < r.0 < old(self)@.ir.insts.len(),
            old(self)@.body_has(block.0 as int, r),
        ensures
            final(self)@ == Self::block_split(old(self)@, block, r),
            res.0.0 == old(self)@.ir.blocks.len(),
            res.1.0 == r.0 - 1,
    {
        let ghost before = self@;
        let new_block_id: BlockId = BlockId(self.ir.blocks.len() as u32);
        let b: usize = block.idx();
        assert(self.ir.blocks@[b as int]@ == before.ir.blocks[b as int]);
        let body_idx: u32 = self.ir.blocks[b].body_idx;
        let len: u32 = self.ir.blocks[b].len;
        let split_offset: u32 = r.0 - body_idx;
        let new_block_idx: u32 = body_idx + split_offset;
        let new_block_len: u32 = len - split_offset - 1;
        self.ir.blocks[b].len = split_offset;
        let insert_point: Ref = Ref(body_idx + split_offset - 1);
        let mut succs: Vec<BlockId> = Vec::new();
        succs.append(&mut self.ir.blocks[b].succs);
        let ghost old_succs = succs@;
        let ghost shortened = self@.ir.blocks;
        proof {
            let goal = before.ir.blocks.update(
                b as int,
                BlockView { len: split_offset, succs: Seq::empty(), ..before.ir.blocks[b as int] },
            );
            assert(self.ir.blocks@[b as int]@ == self@.ir.blocks[b as int]);
            assert(self@.ir.blocks[b as int] =~= goal[b as int]);
            assert(forall|k: int| 0 <= k < goal.len() && k != b ==> shortened[k] == goal[k]);
            assert(shortened =~= goal);
            assert(old_succs.take(0) =~= Seq::empty());
        }
        let mut i: usize = 0;
        while i < succs.len()
            invariant
                i <= succs@.len(),
                succs@.len() == old_succs.len(),
                self@ == before.with_blocks(self@.ir.blocks),
                forall|k: int| i <= k < succs@.len() ==> succs@[k] == old_succs[k],
                forall|k: int|
                    0 <= k < i ==> succs@[k] == if old_succs[k] == block {
                        new_block_id
                    } else {
                        old_succs[k]
                    },
                self@.ir.blocks =~= redirect_preds(
                    shortened,
                    old_succs.take(i as int),
                    block,
                    new_block_id,
                ),
            decreases succs.len() - i,
        {
            proof {
                assert(old_succs.take(i + 1).drop_last() =~= old_succs.take(i as int));
                assert(old_succs.take(i + 1).last() == old_succs[i as int]);
            }
            if succs[i] == block {
                // block has itself as successor, can just replace it directly with the split block id
                succs.set(i, new_block_id);
            } else {
                let s: usize = succs[i].idx();
                if s < self.ir.blocks.len() {
                    let ghost blocks_before = self@.ir.blocks;
                    assert(self.ir.blocks@[s as int]@ == blocks_before[s as int]);
                    self.ir.blocks[s].replace_pred(block, new_block_id);
                    proof {
                        assert(self.ir.blocks@[s as int]@ == self@.ir.blocks[s as int]);
                        assert(forall|k: int|
                            0 <= k < blocks_before.len() && k != s ==> self@.ir.blocks[k]
                                == blocks_before[k]);
                        assert(self@ =~= before.with_blocks(self@.ir.blocks));
                    }
                }
            }
            i += 1;
        }
        let ghost redirected = self@.ir.blocks;
        assert(old_succs.take(i as int) =~= old_succs);
        let ty: TypeId = self.ir.insts[r.idx()].ty;
        self.ir.insts.set(r.idx(), Instruction::block_arg(ty));
        self.ir.blocks.push(
            BlockInfo {
                arg_count: 1,
                args_idx: new_block_idx,
                body_idx: new_block_idx + 1,
                len: new_block_len,
                preds: Vec::new(),
                succs,
            },
        );
        proof {
            let goal = Self::block_split(before, block, r);
            assert(self@.ir.blocks.last().succs =~= goal.ir.blocks.last().succs);
            assert(self@.ir.blocks.last() =~= goal.ir.blocks.last());
            assert(self@.ir.blocks.drop_last() =~= redirected);
            assert(self@.ir.blocks =~= goal.ir.blocks);
            assert(self@ =~= goal);
        }
        (new_block_id, insert_point)
    }
}

} // verus!
