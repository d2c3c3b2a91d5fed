//! Instructions and how their arguments are stored.
use vstd::prelude::*;

use crate::ir::function;
use crate::ir::function::{BlockInfo, BlockView};
use crate::ir::ids::{
    BlockId, FunctionId, GlobalId, LocalFunctionId, ModuleId, Ref, StackSlot, TypeId,
};

verus! {

/// Whether an instruction writes or reads a register.
#[derive(Clone, Copy, Debug, PartialEq, Eq, Hash, Structural)]
pub enum Usage {
    Def,
    Use,
    DefUse,
}

/// The values that fit in an instruction besides a register.
#[derive(Clone, Copy, Debug, PartialEq, Eq, Hash, Structural)]
pub enum Imm {
    I32,
    /// Twelve bits in units of as many bytes.
    Unsigned12(u32),
    /// Seven bits in units of as many bytes.
    Signed7(u32),
}

impl Imm {
    pub open spec fn spec_fits(self, value: u32) -> bool {
        match self {
            Imm::I32 => true,
            Imm::Unsigned12(unit) => unit > 0 && value % unit == 0 && value / unit < 4096,
            Imm::Signed7(unit) => unit > 0 && value % unit == 0 && value / unit < 64,
        }
    }

    pub fn fits(self, value: u32) -> (r: bool)
        ensures
            r == self.spec_fits(value),
    {
        match self {
            Imm::I32 => true,
            Imm::Unsigned12(unit) => unit > 0 && value % unit == 0 && value / unit < 4096,
            Imm::Signed7(unit) => unit > 0 && value % unit == 0 && value / unit < 64,
        }
    }
}

/// The kinds of arguments that instructions take.
#[derive(Clone, Copy, Debug, PartialEq, Eq, Hash, Structural)]
pub enum Parameter {
    Ref,
    BlockId,
    /// A block together with the values of its arguments.
    BlockTarget,
    Int,
    Int32,
    TypeId,
    FunctionId,
    GlobalId,
    MCReg(Usage),
    /// A register that holds an address, with a distance.
    MCRegOffset(Usage, Imm),
}

impl Parameter {
    /// How many numbers an argument of this kind is stored in.
    pub open spec fn spec_slot_count(self) -> nat {
        match self {
            Parameter::BlockTarget
            | Parameter::Int
            | Parameter::FunctionId
            | Parameter::GlobalId
            | Parameter::MCRegOffset(_, _) => 2,
            _ => 1,
        }
    }

    pub fn slot_count(self) -> (n: usize)
        ensures
            n == self.spec_slot_count(),
    {
        match self {
            Parameter::BlockTarget
            | Parameter::Int
            | Parameter::FunctionId
            | Parameter::GlobalId
            | Parameter::MCRegOffset(_, _) => 2,
            _ => 1,
        }
    }
}

/// A register, physical or still to be assigned, or a place in the stack frame.
#[derive(Clone, Copy, Debug, PartialEq, Eq, Hash, Structural)]
pub struct MCReg(pub u32);

impl MCReg {
    /// The highest bit tells physical registers.
    pub open spec fn spec_is_phys(self) -> bool {
        self.0 >= 0x8000_0000
    }

    /// The next bit tells places in the stack frame.
    pub open spec fn spec_is_slot(self) -> bool {
        0x4000_0000 <= self.0 < 0x8000_0000
    }

    /// The number of the physical register.
    pub fn phys_code(self) -> (code: Option<u32>)
        ensures
            code == if self.spec_is_phys() {
                Some((self.0 - 0x8000_0000) as u32)
            } else {
                None
            },
    {
        if self.0 >= 0x8000_0000 {
            Some(self.0 - 0x8000_0000)
        } else {
            None
        }
    }

    pub fn from_phys(code: u32) -> (r: MCReg)
        requires
            code < 0x8000_0000,
        ensures
            r.0 == 0x8000_0000 + code,
            r.spec_is_phys(),
    {
        MCReg(0x8000_0000 + code)
    }

    pub fn from_virt(idx: u32) -> (r: MCReg)
        requires
            idx < 0x4000_0000,
        ensures
            r.0 == idx,
            !r.spec_is_phys(),
            !r.spec_is_slot(),
    {
        MCReg(idx)
    }

    /// The place in the stack frame that is meant.
    pub fn stack_slot(self) -> (slot: Option<StackSlot>)
        ensures
            slot == if self.spec_is_slot() {
                Some(StackSlot((self.0 - 0x4000_0000) as u32))
            } else {
                None
            },
    {
        if 0x4000_0000 <= self.0 && self.0 < 0x8000_0000 {
            Some(StackSlot(self.0 - 0x4000_0000))
        } else {
            None
        }
    }

    pub fn from_slot(slot: StackSlot) -> (r: MCReg)
        requires
            slot.0 < 0x4000_0000,
        ensures
            r.0 == 0x4000_0000 + slot.0,
            r.spec_is_slot(),
    {
        MCReg(0x4000_0000 + slot.0)
    }
}

/// How many arguments are stored in the instruction itself.
pub const INLINE_ARGS: usize = 2;

#[derive(Clone, Copy, Debug, PartialEq, Eq)]
pub struct Instruction {
    pub function: FunctionId,
    pub args: [u32; 2],
    pub ty: TypeId,
}

/// The instructions that every program knows.
#[derive(Clone, Copy, Debug, PartialEq, Eq, Hash, Structural)]
pub enum Builtin {
    /// Does nothing. Marks a place where instructions can be inserted.
    Nothing,
    BlockArg,
    /// Stands for another value.
    Copy,
    /// Any value.
    Undef,
}

impl Builtin {
    pub open spec fn spec_id(self) -> u32 {
        match self {
            Builtin::Nothing => 0,
            Builtin::BlockArg => 1,
            Builtin::Copy => 2,
            Builtin::Undef => 3,
        }
    }

    pub open spec fn spec_function(self) -> FunctionId {
        FunctionId { module: ModuleId::builtins(), function: LocalFunctionId(self.spec_id()) }
    }

    pub fn function(self) -> (f: FunctionId)
        ensures
            f == self.spec_function(),
    {
        let id: u32 = match self {
            Builtin::Nothing => 0,
            Builtin::BlockArg => 1,
            Builtin::Copy => 2,
            Builtin::Undef => 3,
        };
        FunctionId { module: ModuleId::builtins(), function: LocalFunctionId(id) }
    }
}

impl Instruction {
    pub open spec fn spec_nothing() -> Instruction {
        Instruction { function: Builtin::Nothing.spec_function(), args: [0, 0], ty: TypeId::unit() }
    }

    pub fn nothing() -> (i: Instruction)
        ensures
            i == Self::spec_nothing(),
    {
        Instruction { function: Builtin::Nothing.function(), args: [0, 0], ty: TypeId::unit() }
    }

    pub open spec fn spec_block_arg(ty: TypeId) -> Instruction {
        Instruction { function: Builtin::BlockArg.spec_function(), args: [0, 0], ty }
    }

    pub fn block_arg(ty: TypeId) -> (i: Instruction)
        ensures
            i == Self::spec_block_arg(ty),
    {
        Instruction { function: Builtin::BlockArg.function(), args: [0, 0], ty }
    }

    pub open spec fn spec_copy(of: Ref, ty: TypeId) -> Instruction {
        Instruction { function: Builtin::Copy.spec_function(), args: [of.0, 0], ty }
    }

    pub fn copy(of: Ref, ty: TypeId) -> (i: Instruction)
        ensures
            i == Self::spec_copy(of, ty),
    {
        Instruction { function: Builtin::Copy.function(), args: [of.0, 0], ty }
    }

    pub open spec fn is_builtin(self, b: Builtin) -> bool {
        self.function == b.spec_function()
    }

    pub fn is(self, b: Builtin) -> (is: bool)
        ensures
            is == self.is_builtin(b),
    {
        self.function == b.function()
    }
}

/// An argument of an instruction.
#[derive(Debug, PartialEq, Eq)]
pub enum Argument {
    Ref(Ref),
    BlockId(BlockId),
    BlockTarget(BlockId, Vec<Ref>),
    Int(u64),
    Int32(u32),
    TypeId(TypeId),
    FunctionId(FunctionId),
    GlobalId(GlobalId),
    MCReg(Usage, MCReg),
    MCRegOffset(Usage, Imm, MCReg, u32),
}

/// The value of an argument.
pub enum ArgumentView {
    Ref(Ref),
    BlockId(BlockId),
    BlockTarget(BlockId, Seq<Ref>),
    Int(u64),
    Int32(u32),
    TypeId(TypeId),
    FunctionId(FunctionId),
    GlobalId(GlobalId),
    MCReg(Usage, MCReg),
    MCRegOffset(Usage, Imm, MCReg, u32),
}

impl View for Argument {
    type V = ArgumentView;

    open spec fn view(&self) -> ArgumentView {
        match self {
            Argument::Ref(r) => ArgumentView::Ref(*r),
            Argument::BlockId(b) => ArgumentView::BlockId(*b),
            Argument::BlockTarget(b, args) => ArgumentView::BlockTarget(*b, args@),
            Argument::Int(i) => ArgumentView::Int(*i),
            Argument::Int32(i) => ArgumentView::Int32(*i),
            Argument::TypeId(t) => ArgumentView::TypeId(*t),
            Argument::FunctionId(f) => ArgumentView::FunctionId(*f),
            Argument::GlobalId(g) => ArgumentView::GlobalId(*g),
            Argument::MCReg(u, r) => ArgumentView::MCReg(*u, *r),
            Argument::MCRegOffset(u, imm, r, offset) => ArgumentView::MCRegOffset(
                *u,
                *imm,
                *r,
                *offset,
            ),
        }
    }
}

pub open spec fn views(args: Seq<Argument>) -> Seq<ArgumentView> {
    args.map_values(|a: Argument| a@)
}

impl ArgumentView {
    /// The kind of the argument.
    pub open spec fn parameter(self) -> Parameter {
        match self {
            ArgumentView::Ref(_) => Parameter::Ref,
            ArgumentView::BlockId(_) => Parameter::BlockId,
            ArgumentView::BlockTarget(_, _) => Parameter::BlockTarget,
            ArgumentView::Int(_) => Parameter::Int,
            ArgumentView::Int32(_) => Parameter::Int32,
            ArgumentView::TypeId(_) => Parameter::TypeId,
            ArgumentView::FunctionId(_) => Parameter::FunctionId,
            ArgumentView::GlobalId(_) => Parameter::GlobalId,
            ArgumentView::MCReg(u, _) => Parameter::MCReg(u),
            ArgumentView::MCRegOffset(u, imm, _, _) => Parameter::MCRegOffset(u, imm),
        }
    }

    /// The block that the argument names.
    pub open spec fn target(self) -> Option<BlockId> {
        match self {
            ArgumentView::BlockTarget(b, _) => Some(b),
            ArgumentView::BlockId(b) => Some(b),
            _ => None,
        }
    }
}

/// The total number of slots of the parameters.
pub open spec fn slot_total(params: Seq<Parameter>) -> nat
    decreases params.len(),
{
    if params.len() == 0 {
        0
    } else {
        params[0].spec_slot_count() + slot_total(params.skip(1))
    }
}

pub proof fn lemma_slot_total_bound(params: Seq<Parameter>)
    ensures
        params.len() <= slot_total(params) <= 2 * params.len(),
    decreases params.len(),
{
    if params.len() > 0 {
        lemma_slot_total_bound(params.skip(1));
    }
}

/// The arguments are stored in the instruction itself.
pub open spec fn stored_inline(params: Seq<Parameter>, varargs: Option<Parameter>) -> bool {
    slot_total(params) <= INLINE_ARGS && varargs is None
}

pub fn is_stored_inline(params: &Vec<Parameter>, varargs: Option<Parameter>) -> (is: bool)
    ensures
        is == stored_inline(params@, varargs),
{
    if varargs.is_some() {
        return false;
    }
    let mut total: usize = 0;
    let mut i: usize = 0;
    assert(params@.skip(0) =~= params@);
    while i < params.len()
        invariant
            i <= params@.len(),
            total <= INLINE_ARGS,
            slot_total(params@) == total + slot_total(params@.skip(i as int)),
        decreases params.len() - i,
    {
        assert(params@.skip(i as int).skip(1) =~= params@.skip(i + 1));
        total += params[i].slot_count();
        i += 1;
        if total > INLINE_ARGS {
            return false;
        }
    }
    assert(params@.skip(i as int).len() == 0);
    true
}

/// The kinds of all arguments of an instruction: the parameters, then as many
/// variable arguments as the instruction counts.
pub open spec fn full_params(
    params: Seq<Parameter>,
    varargs: Option<Parameter>,
    args: [u32; 2],
) -> Seq<Parameter> {
    match varargs {
        Some(v) => params + Seq::new(args[1] as nat, |i: int| v),
        None => params,
    }
}

pub fn all_params(params: &Vec<Parameter>, varargs: Option<Parameter>, args: [u32; 2]) -> (all: Vec<
    Parameter,
>)
    ensures
        all@ == full_params(params@, varargs, args),
{
    let mut all: Vec<Parameter> = Vec::new();
    let mut i: usize = 0;
    while i < params.len()
        invariant
            i <= params@.len(),
            all@ =~= params@.take(i as int),
        decreases params.len() - i,
    {
        all.push(params[i]);
        i += 1;
    }
    if let Some(v) = varargs {
        let mut k: u32 = 0;
        while k < args[1]
            invariant
                k <= args[1],
                all@ =~= params@ + Seq::new(k as nat, |i: int| v),
            decreases args[1] - k,
        {
            all.push(v);
            k += 1;
        }
    }
    all
}

/// The number at position `k` of the stored arguments. What lies outside the
/// storage reads as 0.
pub open spec fn slot(inline: bool, args: [u32; 2], extra: Seq<u32>, k: int) -> u32 {
    if inline {
        if 0 <= k < 2 {
            args[k]
        } else {
            0
        }
    } else if 0 <= k && args[0] + k < extra.len() {
        extra[args[0] + k]
    } else {
        0
    }
}

pub fn read_slot(inline: bool, args: [u32; 2], extra: &Vec<u32>, k: u64) -> (v: u32)
    requires
        k <= 0xffff_ffff_ffff,
    ensures
        v == slot(inline, args, extra@, k as int),
{
    if inline {
        if k < 2 {
            args[k as usize]
        } else {
            0
        }
    } else {
        let at: u64 = args[0] as u64 + k;
        if at < extra.len() as u64 {
            extra[at as usize]
        } else {
            0
        }
    }
}

/// `n` values that are stored one after the other.
pub open spec fn refs_at(extra: Seq<u32>, start: u32, n: u32) -> Seq<Ref> {
    Seq::new(n as nat, |i: int| Ref(slot(false, [start, 0], extra, i)))
}

/// The number of arguments of a block.
pub open spec fn arg_count_of(blocks: Seq<BlockView>, b: u32) -> u32 {
    if b < blocks.len() {
        blocks[b as int].arg_count
    } else {
        0
    }
}

/// The argument of kind `p` whose first slot is at position `k`.
pub open spec fn decode_one(
    p: Parameter,
    k: int,
    inline: bool,
    args: [u32; 2],
    extra: Seq<u32>,
    blocks: Seq<BlockView>,
) -> ArgumentView {
    let a = slot(inline, args, extra, k);
    let b = slot(inline, args, extra, k + 1);
    match p {
        Parameter::Ref => ArgumentView::Ref(Ref(a)),
        Parameter::BlockId => ArgumentView::BlockId(BlockId(a)),
        Parameter::BlockTarget => ArgumentView::BlockTarget(
            BlockId(a),
            refs_at(extra, b, arg_count_of(blocks, a)),
        ),
        Parameter::Int => ArgumentView::Int((a + 0x1_0000_0000 * b) as u64),
        Parameter::Int32 => ArgumentView::Int32(a),
        Parameter::TypeId => ArgumentView::TypeId(TypeId(a)),
        Parameter::FunctionId => ArgumentView::FunctionId(
            FunctionId { module: ModuleId(a), function: LocalFunctionId(b) },
        ),
        Parameter::GlobalId => ArgumentView::GlobalId(GlobalId { module: ModuleId(a), idx: b }),
        Parameter::MCReg(u) => ArgumentView::MCReg(u, MCReg(a)),
        Parameter::MCRegOffset(u, imm) => ArgumentView::MCRegOffset(u, imm, MCReg(a), b),
    }
}

/// The arguments of the kinds `full` whose slots begin at position `k`.
pub open spec fn decode_from(
    full: Seq<Parameter>,
    k: int,
    inline: bool,
    args: [u32; 2],
    extra: Seq<u32>,
    blocks: Seq<BlockView>,
) -> Seq<ArgumentView>
    decreases full.len(),
{
    if full.len() == 0 {
        Seq::empty()
    } else {
        seq![decode_one(full[0], k, inline, args, extra, blocks)] + decode_from(
            full.skip(1),
            k + full[0].spec_slot_count(),
            inline,
            args,
            extra,
            blocks,
        )
    }
}

/// The arguments of an instruction with the given signature.
pub open spec fn args_of(
    params: Seq<Parameter>,
    varargs: Option<Parameter>,
    args: [u32; 2],
    extra: Seq<u32>,
    blocks: Seq<BlockView>,
) -> Seq<ArgumentView> {
    decode_from(
        full_params(params, varargs, args),
        0,
        stored_inline(params, varargs),
        args,
        extra,
        blocks,
    )
}

/// Reading gives one argument of each kind.
pub proof fn arguments_have_their_kinds(
    full: Seq<Parameter>,
    k: int,
    inline: bool,
    args: [u32; 2],
    extra: Seq<u32>,
    blocks: Seq<BlockView>,
)
    ensures
        decode_from(full, k, inline, args, extra, blocks).len() == full.len(),
        forall|i: int|
            0 <= i < full.len() ==> (#[trigger] decode_from(
                full,
                k,
                inline,
                args,
                extra,
                blocks,
            )[i]).parameter() == full[i],
    decreases full.len(),
{
    if full.len() > 0 {
        arguments_have_their_kinds(
            full.skip(1),
            k + full[0].spec_slot_count(),
            inline,
            args,
            extra,
            blocks,
        );
        let rest = decode_from(
            full.skip(1),
            k + full[0].spec_slot_count(),
            inline,
            args,
            extra,
            blocks,
        );
        let all = decode_from(full, k, inline, args, extra, blocks);
        assert forall|i: int| 0 <= i < full.len() implies (#[trigger] all[i]).parameter()
            == full[i] by {
            if i > 0 {
                assert(all[i] == rest[i - 1]);
                assert(rest[i - 1].parameter() == full.skip(1)[i - 1]);
            }
        }
    }
}

pub(crate) fn decode_target(extra: &Vec<u32>, start: u32, n: u32) -> (refs: Vec<Ref>)
    ensures
        refs@ == refs_at(extra@, start, n),
{
    let mut refs: Vec<Ref> = Vec::new();
    let mut i: u32 = 0;
    while i < n
        invariant
            i <= n,
            refs@ =~= refs_at(extra@, start, i),
        decreases n - i,
    {
        refs.push(Ref(read_slot(false, [start, 0], extra, i as u64)));
        i += 1;
    }
    refs
}

fn decode_arg(
    p: Parameter,
    k: u64,
    inline: bool,
    args: [u32; 2],
    extra: &Vec<u32>,
    blocks: &Vec<BlockInfo>,
) -> (arg: Argument)
    requires
        k < 0xffff_ffff_ffff,
    ensures
        arg@ == decode_one(p, k as int, inline, args, extra@, function::block_views(blocks@)),
{
    let a: u32 = read_slot(inline, args, extra, k);
    let b: u32 = read_slot(inline, args, extra, k + 1);
    match p {
        Parameter::Ref => Argument::Ref(Ref(a)),
        Parameter::BlockId => Argument::BlockId(BlockId(a)),
        Parameter::BlockTarget => {
            let n: u32 = if (a as usize) < blocks.len() {
                blocks[a as usize].arg_count
            } else {
                0
            };
            Argument::BlockTarget(BlockId(a), decode_target(extra, b, n))
        },
        Parameter::Int => Argument::Int(a as u64 + 0x1_0000_0000 * (b as u64)),
        Parameter::Int32 => Argument::Int32(a),
        Parameter::TypeId => Argument::TypeId(TypeId(a)),
        Parameter::FunctionId => Argument::FunctionId(
            FunctionId { module: ModuleId(a), function: LocalFunctionId(b) },
        ),
        Parameter::GlobalId => Argument::GlobalId(GlobalId { module: ModuleId(a), idx: b }),
        Parameter::MCReg(u) => Argument::MCReg(u, MCReg(a)),
        Parameter::MCRegOffset(u, imm) => Argument::MCRegOffset(u, imm, MCReg(a), b),
    }
}

/// Reads the arguments of an instruction with the given signature.
pub fn decode_args(
    params: &Vec<Parameter>,
    varargs: Option<Parameter>,
    args: [u32; 2],
    extra: &Vec<u32>,
    blocks: &Vec<BlockInfo>,
) -> (decoded: Vec<Argument>)
    requires
        params@.len() <= 0xffff_ffff,
    ensures
        views(decoded@) == args_of(params@, varargs, args, extra@, function::block_views(blocks@)),
{
    let inline: bool = is_stored_inline(params, varargs);
    let full: Vec<Parameter> = all_params(params, varargs, args);
    let mut decoded: Vec<Argument> = Vec::new();
    let mut k: u64 = 0;
    let mut i: usize = 0;
    assert(full@.skip(0) =~= full@);
    while i < full.len()
        invariant
            i <= full@.len(),
            full@.len() <= 0x1_ffff_ffff,
            k <= 2 * i,
            args_of(params@, varargs, args, extra@, function::block_views(blocks@)) =~= views(decoded@) + decode_from(
                full@.skip(i as int),
                k as int,
                inline,
                args,
                extra@,
                function::block_views(blocks@),
            ),
        decreases full.len() - i,
    {
        assert(full@.skip(i as int).skip(1) =~= full@.skip(i + 1));
        let ghost before = decoded@;
        decoded.push(decode_arg(full[i], k, inline, args, extra, blocks));
        assert(views(decoded@) =~= views(before).push(decoded@.last()@));
        k += full[i].slot_count() as u64;
        i += 1;
    }
    assert(full@.skip(i as int).len() == 0);
    decoded
}

/// The slots of one argument, and the values stored for the arguments of a block.
pub open spec fn encode_one(a: ArgumentView, extra: Seq<u32>) -> (Seq<u32>, Seq<u32>) {
    match a {
        ArgumentView::Ref(r) => (seq![r.0], extra),
        ArgumentView::BlockId(b) => (seq![b.0], extra),
        ArgumentView::BlockTarget(b, refs) => (
            seq![b.0, extra.len() as u32],
            extra + refs.map_values(|r: Ref| r.0),
        ),
        ArgumentView::Int(i) => (
            seq![(i % 0x1_0000_0000) as u32, (i / 0x1_0000_0000) as u32],
            extra,
        ),
        ArgumentView::Int32(i) => (seq![i], extra),
        ArgumentView::TypeId(t) => (seq![t.0], extra),
        ArgumentView::FunctionId(f) => (seq![f.module.0, f.function.0], extra),
        ArgumentView::GlobalId(g) => (seq![g.module.0, g.idx], extra),
        ArgumentView::MCReg(_, r) => (seq![r.0], extra),
        ArgumentView::MCRegOffset(_, _, r, offset) => (seq![r.0, offset], extra),
    }
}

/// The slots of the first `n` arguments.
pub open spec fn encode_slots(args: Seq<ArgumentView>, extra: Seq<u32>) -> (Seq<u32>, Seq<u32>)
    decreases args.len(),
{
    if args.len() == 0 {
        (Seq::empty(), extra)
    } else {
        let (slots, extra1) = encode_slots(args.drop_last(), extra);
        let (last, extra2) = encode_one(args.last(), extra1);
        (slots + last, extra2)
    }
}

/// The stored form of arguments: what stands in the instruction, and what is
/// stored besides.
pub open spec fn encoded_args(
    params: Seq<Parameter>,
    varargs: Option<Parameter>,
    args: Seq<ArgumentView>,
    extra: Seq<u32>,
) -> ([u32; 2], Seq<u32>) {
    let (slots, extra1) = encode_slots(args, extra);
    if stored_inline(params, varargs) {
        (
            [
                if slots.len() > 0 {
                    slots[0]
                } else {
                    0
                },
                if slots.len() > 1 {
                    slots[1]
                } else {
                    0
                },
            ],
            extra1,
        )
    } else {
        ([extra1.len() as u32, (args.len() - params.len()) as u32], extra1 + slots)
    }
}

/// The arguments have the kinds that the signature asks for.
pub open spec fn args_fit(
    params: Seq<Parameter>,
    varargs: Option<Parameter>,
    args: Seq<ArgumentView>,
) -> bool {
    &&& args.len() >= params.len()
    &&& varargs is None ==> args.len() == params.len()
    &&& forall|i: int| 0 <= i < params.len() ==> (#[trigger] args[i]).parameter() == params[i]
    &&& forall|i: int|
        params.len() <= i < args.len() ==> varargs == Some((#[trigger] args[i]).parameter())
}

/// The stored values stay within what positions can count.
pub open spec fn encoding_fits(
    params: Seq<Parameter>,
    varargs: Option<Parameter>,
    args: Seq<ArgumentView>,
    extra: Seq<u32>,
) -> bool {
    encoded_args(params, varargs, args, extra).1.len() <= u32::MAX
}

/// An edge of the control flow from one block to another.
pub open spec fn add_edge(blocks: Seq<BlockView>, from: BlockId, to: BlockId) -> Seq<BlockView> {
    let with_succ = blocks.update(
        from.0 as int,
        BlockView {
            succs: blocks[from.0 as int].succs.push(to),
            ..blocks[from.0 as int]
        },
    );
    with_succ.update(
        to.0 as int,
        BlockView { preds: with_succ[to.0 as int].preds.push(from), ..with_succ[to.0 as int] },
    )
}

/// The blocks after an instruction with the arguments was put in `block`.
pub open spec fn add_edges(
    blocks: Seq<BlockView>,
    block: BlockId,
    args: Seq<ArgumentView>,
) -> Seq<BlockView>
    decreases args.len(),
{
    if args.len() == 0 {
        blocks
    } else {
        let before = add_edges(blocks, block, args.drop_last());
        match args.last().target() {
            Some(target) => add_edge(before, block, target),
            None => before,
        }
    }
}

/// The blocks that the arguments name exist.
pub open spec fn targets_exist(args: Seq<ArgumentView>, block_count: nat) -> bool {
    forall|i: int|
        0 <= i < args.len() ==> ((#[trigger] args[i]).target() matches Some(b) ==> b.0
            < block_count)
}

pub proof fn lemma_add_edges_len(blocks: Seq<BlockView>, block: BlockId, args: Seq<ArgumentView>)
    requires
        block.0 < blocks.len(),
        targets_exist(args, blocks.len()),
    ensures
        add_edges(blocks, block, args).len() == blocks.len(),
        forall|i: int|
            0 <= i < blocks.len() ==> {
                let after = #[trigger] add_edges(blocks, block, args)[i];
                &&& after.arg_count == blocks[i].arg_count
                &&& after.args_idx == blocks[i].args_idx
                &&& after.body_idx == blocks[i].body_idx
                &&& after.len == blocks[i].len
            },
    decreases args.len(),
{
    if args.len() > 0 {
        let rest = args.drop_last();
        assert(forall|i: int| 0 <= i < rest.len() ==> rest[i] == args[i]);
        lemma_add_edges_len(blocks, block, rest);
        assert(args.last() == args[args.len() - 1]);
    }
}

proof fn lemma_encode_grows(args: Seq<ArgumentView>, extra: Seq<u32>, i: int)
    requires
        0 <= i <= args.len(),
    ensures
        ({
            let (slots_i, extra_i) = encode_slots(args.take(i), extra);
            let (slots, extra1) = encode_slots(args, extra);
            &&& slots_i =~= slots.take(slots_i.len() as int)
            &&& slots_i.len() <= slots.len()
            &&& extra_i =~= extra1.take(extra_i.len() as int)
            &&& extra.len() <= extra_i.len() <= extra1.len()
            &&& i <= slots_i.len()
        }),
    decreases args.len(),
{
    if i == args.len() {
        assert(args.take(i) =~= args);
        if i > 0 {
            lemma_encode_grows(args.drop_last(), extra, i - 1);
            assert(args.drop_last().take(i - 1) =~= args.drop_last());
        }
    } else {
        lemma_encode_grows(args.drop_last(), extra, i);
        assert(args.drop_last().take(i) =~= args.take(i));
    }
}

#[verifier::rlimit(60)]
proof fn lemma_read_back_from(
    full: Seq<Parameter>,
    args: Seq<ArgumentView>,
    extra: Seq<u32>,
    inline: bool,
    stored: [u32; 2],
    extra2: Seq<u32>,
    blocks: Seq<BlockView>,
    i: int,
)
    requires
        0 <= i <= args.len(),
        full.len() == args.len(),
        forall|j: int| 0 <= j < args.len() ==> full[j] == (#[trigger] args[j]).parameter(),
        forall|j: int|
            0 <= j < args.len() ==> ((#[trigger] args[j]) matches ArgumentView::BlockTarget(b, refs)
                ==> refs.len() == arg_count_of(blocks, b.0)),
        extra2.len() <= u32::MAX,
        encode_slots(args, extra).1.len() <= extra2.len(),
        encode_slots(args, extra).1 =~= extra2.take(encode_slots(args, extra).1.len() as int),
        forall|k: int|
            0 <= k < encode_slots(args, extra).0.len() ==> #[trigger] slot(inline, stored, extra2, k)
                == encode_slots(args, extra).0[k],
    ensures
        decode_from(
            full.skip(i),
            encode_slots(args.take(i), extra).0.len() as int,
            inline,
            stored,
            extra2,
            blocks,
        ) =~= args.skip(i),
    decreases args.len() - i,
{
    if i < args.len() {
        let (slots, extra1) = encode_slots(args, extra);
        let (slots_i, extra_i) = encode_slots(args.take(i), extra);
        let (slots_n, extra_n) = encode_slots(args.take(i + 1), extra);
        lemma_encode_grows(args, extra, i);
        lemma_encode_grows(args, extra, i + 1);
        assert(args.take(i + 1).drop_last() =~= args.take(i));
        assert(args.take(i + 1).last() == args[i]);
        let (own, own_extra) = encode_one(args[i], extra_i);
        assert(slots_n =~= slots_i + own);
        let k = slots_i.len() as int;
        assert(own.len() == full[i].spec_slot_count());
        assert forall|m: int| 0 <= m < own.len() implies slots[k + m] == #[trigger] own[m] by {
            assert(slots_n[k + m] == own[m]);
        }
        assert(slot(inline, stored, extra2, k) == own[0]);
        if own.len() > 1 {
            assert(slot(inline, stored, extra2, k + 1) == own[1]);
        }
        if let ArgumentView::BlockTarget(b, refs) = args[i] {
            let start = extra_i.len() as u32;
            assert forall|j: int| 0 <= j < refs.len() implies slot(false, [start, 0], extra2, j)
                == refs[j].0 by {
                assert(extra_n[extra_i.len() + j] == refs[j].0);
                assert(extra1[extra_i.len() + j] == refs[j].0);
            }
            assert(refs_at(extra2, start, arg_count_of(blocks, b.0)) =~= refs);
        }
        assert(decode_one(full[i], k, inline, stored, extra2, blocks) == args[i]);
        lemma_read_back_from(full, args, extra, inline, stored, extra2, blocks, i + 1);
        assert(full.skip(i).skip(1) =~= full.skip(i + 1));
        assert(args.skip(i) =~= seq![args[i]] + args.skip(i + 1));
    } else {
        assert(full.skip(i).len() == 0);
        assert(args.skip(i).len() == 0);
    }
}

proof fn lemma_slots_of_params(args: Seq<ArgumentView>, extra: Seq<u32>, params: Seq<Parameter>)
    requires
        args.len() == params.len(),
        forall|j: int| 0 <= j < args.len() ==> params[j] == (#[trigger] args[j]).parameter(),
    ensures
        encode_slots(args, extra).0.len() == slot_total(params),
    decreases args.len(),
{
    if args.len() > 0 {
        lemma_slots_of_params(args.drop_last(), extra, params.drop_last());
        lemma_slot_total_last(params);
    }
}

proof fn lemma_slot_total_last(params: Seq<Parameter>)
    requires
        params.len() > 0,
    ensures
        slot_total(params) == slot_total(params.drop_last()) + params.last().spec_slot_count(),
    decreases params.len(),
{
    reveal_with_fuel(slot_total, 2);
    if params.len() > 1 {
        lemma_slot_total_last(params.skip(1));
        assert(params.skip(1).drop_last() =~= params.drop_last().skip(1));
    } else {
        assert(params.drop_last().len() == 0);
        assert(params.skip(1).len() == 0);
    }
}

/// Reading the stored form of arguments gives the arguments.
pub proof fn stored_arguments_read_back(
    params: Seq<Parameter>,
    varargs: Option<Parameter>,
    args: Seq<ArgumentView>,
    extra: Seq<u32>,
    blocks: Seq<BlockView>,
)
    requires
        args_fit(params, varargs, args),
        encoding_fits(params, varargs, args, extra),
        forall|j: int|
            0 <= j < args.len() ==> ((#[trigger] args[j]) matches ArgumentView::BlockTarget(b, refs)
                ==> refs.len() == arg_count_of(blocks, b.0)),
    ensures
        ({
            let (stored, extra2) = encoded_args(params, varargs, args, extra);
            args_of(params, varargs, stored, extra2, blocks) == args
        }),
{
    let (stored, extra2) = encoded_args(params, varargs, args, extra);
    let (slots, extra1) = encode_slots(args, extra);
    let full = full_params(params, varargs, stored);
    let inline = stored_inline(params, varargs);
    lemma_encode_grows(args, extra, args.len() as int);
    assert(args.take(args.len() as int) =~= args);
    if inline {
        lemma_slots_of_params(args, extra, params);
        assert(extra2 == extra1);
        assert(extra1 =~= extra2.take(extra1.len() as int));
    } else {
        assert(extra1 =~= extra2.take(extra1.len() as int));
        assert(args.len() <= slots.len());
        assert forall|k: int| 0 <= k < slots.len() implies #[trigger] slot(
            inline,
            stored,
            extra2,
            k,
        ) == slots[k] by {
            assert(extra2[extra1.len() + k] == slots[k]);
        }
    }
    assert(full.len() == args.len());
    lemma_read_back_from(full, args, extra, inline, stored, extra2, blocks, 0);
    assert(args.take(0) =~= Seq::empty());
    assert(full.skip(0) =~= full);
    assert(args.skip(0) =~= args);
}

fn push_edge(blocks: &mut Vec<BlockInfo>, from: BlockId, to: BlockId)
    requires
        from.0 < old(blocks)@.len(),
        to.0 < old(blocks)@.len(),
    ensures
        function::block_views(final(blocks)@) == add_edge(
            function::block_views(old(blocks)@),
            from,
            to,
        ),
{
    blocks[from.idx()].succs.push(to);
    blocks[to.idx()].preds.push(from);
    assert(function::block_views(blocks@) =~= add_edge(
        function::block_views(old(blocks)@),
        from,
        to,
    ));
}

fn encode_arg(arg: &Argument, slots: &mut Vec<u32>, extra: &mut Vec<u32>)
    requires
        old(extra)@.len() <= u32::MAX,
    ensures
        final(slots)@ == old(slots)@ + encode_one(arg@, old(extra)@).0,
        final(extra)@ == encode_one(arg@, old(extra)@).1,
{
    let ghost extra0 = extra@;
    match arg {
        Argument::Ref(r) => slots.push(r.0),
        Argument::BlockId(b) => slots.push(b.0),
        Argument::BlockTarget(b, refs) => {
            slots.push(b.0);
            slots.push(extra.len() as u32);
            let mut i: usize = 0;
            while i < refs.len()
                invariant
                    i <= refs@.len(),
                    extra@ =~= extra0 + refs@.map_values(|r: Ref| r.0).take(i as int),
                decreases refs.len() - i,
            {
                extra.push(refs[i].0);
                i += 1;
            }
        },
        Argument::Int(i) => {
            slots.push((*i % 0x1_0000_0000) as u32);
            slots.push((*i / 0x1_0000_0000) as u32);
        },
        Argument::Int32(i) => slots.push(*i),
        Argument::TypeId(t) => slots.push(t.0),
        Argument::FunctionId(f) => {
            slots.push(f.module.0);
            slots.push(f.function.0);
        },
        Argument::GlobalId(g) => {
            slots.push(g.module.0);
            slots.push(g.idx);
        },
        Argument::MCReg(_, r) => slots.push(r.0),
        Argument::MCRegOffset(_, _, r, offset) => {
            slots.push(r.0);
            slots.push(*offset);
        },
    }
    assert(slots@ =~= old(slots)@ + encode_one(arg@, extra0).0);
    assert(extra@ =~= encode_one(arg@, extra0).1);
}

/// Stores the arguments of an instruction in `block` and enters the blocks that
/// it can go to.
pub fn write_args(
    extra: &mut Vec<u32>,
    block: BlockId,
    blocks: &mut Vec<BlockInfo>,
    params: &Vec<Parameter>,
    varargs: Option<Parameter>,
    args: &Vec<Argument>,
) -> (stored: [u32; 2])
    requires
        args_fit(params@, varargs, views(args@)),
        encoding_fits(params@, varargs, views(args@), old(extra)@),
        block.0 < old(blocks)@.len(),
        targets_exist(views(args@), old(blocks)@.len()),
    ensures
        (stored, final(extra)@) == encoded_args(params@, varargs, views(args@), old(extra)@),
        function::block_views(final(blocks)@) == add_edges(
            function::block_views(old(blocks)@),
            block,
            views(args@),
        ),
{
    let ghost extra0 = extra@;
    let ghost blocks0 = function::block_views(blocks@);
    let ghost all = views(args@);
    let mut slots: Vec<u32> = Vec::new();
    let mut i: usize = 0;
    proof {
        assert(all.take(0) =~= Seq::empty());
    }
    while i < args.len()
        invariant
            i <= args@.len(),
            all == views(args@),
            encoding_fits(params@, varargs, all, extra0),
            block.0 < blocks@.len(),
            targets_exist(all, blocks@.len()),
            (slots@, extra@) == encode_slots(all.take(i as int), extra0),
            function::block_views(blocks@) == add_edges(blocks0, block, all.take(i as int)),
            blocks@.len() == blocks0.len(),
        decreases args.len() - i,
    {
        proof {
            lemma_encode_grows(all, extra0, i as int);
            assert(all.take(i + 1).drop_last() =~= all.take(i as int));
            assert(all.take(i + 1).last() == args@[i as int]@);
            assert(targets_exist(all.take(i + 1), blocks0.len())) by {
                assert(forall|j: int| 0 <= j < i + 1 ==> all.take(i + 1)[j] == all[j]);
            }
            lemma_add_edges_len(blocks0, block, all.take(i + 1));
        }
        encode_arg(&args[i], &mut slots, extra);
        assert(all[i as int] == args@[i as int]@);
        match &args[i] {
            Argument::BlockTarget(target, _) => {
                push_edge(blocks, block, *target);
            },
            Argument::BlockId(target) => {
                push_edge(blocks, block, *target);
            },
            _ => {},
        }
        assert(blocks@.len() == function::block_views(blocks@).len());
        i += 1;
    }
    proof {
        assert(all.take(i as int) =~= all);
    }
    if is_stored_inline(params, varargs) {
        let a: u32 = if slots.len() > 0 {
            slots[0]
        } else {
            0
        };
        let b: u32 = if slots.len() > 1 {
            slots[1]
        } else {
            0
        };
        let stored: [u32; 2] = [a, b];
        assert(stored =~= encoded_args(params@, varargs, all, extra0).0);
        stored
    } else {
        proof {
            lemma_encode_grows(all, extra0, all.len() as int);
        }
        let idx: u32 = extra.len() as u32;
        let count: u32 = (args.len() - params.len()) as u32;
        extra.append(&mut slots);
        let stored: [u32; 2] = [idx, count];
        assert(stored =~= encoded_args(params@, varargs, all, extra0).0);
        stored
    }
}

} // verus!
