//! The selection of instructions for control flow and memory, and for whole functions.
use vstd::prelude::*;

use crate::backend::arguments;
use crate::backend::arguments::{
    get_function, get_global, get_int, get_ref, get_target, get_type,
};
use crate::backend::isel;
use crate::backend::isel::{args_of, arith_class, int_size_of_ref, IselCtx, IselView};
use crate::backend::size::Size;
use crate::backend::state;
use crate::backend::state::round_up_u64;
use crate::backend::x86::abi::systemv;
use crate::backend::x86::abi::systemv::{from_phys, get_pieces};
use crate::backend::x86::isa::{Reg, X86};
use crate::backend::x86::isel as select;
use crate::backend::x86::isel::{
    compare, extend_op, fused_jumps, make_copy, move_by, truncate_op, write_block, write_function,
    write_memory_and_reg, write_one_reg, write_reg_and_function, write_reg_and_global,
    write_reg_and_memory, write_reg_and_number, write_regs_and_number, write_two_regs,
    InstructionSelector,
};
use crate::ir::dialect;
use crate::ir::dialect::{Arith, Cf, Mem, Tuple};
use crate::ir::ids::{BlockId, FunctionId, Ref, TypeId};
use crate::ir::inst::{Argument, Builtin, Instruction, MCReg};
use crate::ir::mc::inst::{Abi, Context};
use crate::ir::slots::Piece;
use crate::ir::types::{Layout, Primitive, Shape, ShapeView};

verus! {

/// The values of the arguments of a block are set by this instruction where they are known.
pub open spec fn passed(s: IselView, c: Context, r: Ref, b: BlockId, args: Seq<Ref>) -> IselView {
    isel::args_passed(s, c, r, b, args, select::machine_op(c, X86::mov_ri8))
}

/// A block is gone to.
pub open spec fn jumped(s: IselView, c: Context, r: Ref, b: BlockId, args: Seq<Ref>) -> IselView {
    passed(s, c, r, b, args).replaced(
        r,
        select::machine_op(c, X86::jmp),
        select::one_block(b),
    )
}

fn jump(ctx: &mut IselCtx, c: &Context, r: Ref, b: BlockId, args: &Vec<Ref>)
    requires
        isel::can_pass(*c, b, args@),
    ensures
        final(ctx)@ == jumped(old(ctx)@, *c, r, b, args@),
        final(ctx)@ == old(ctx)@.planned(final(ctx)@.plan),
{
    ctx.create_args_copy(c, r, b, args, dialect::function(c.isa, X86::mov_ri8));
    ctx.replace(r, dialect::function(c.isa, X86::jmp), write_block(b));
}

/// Two ways to go on, with the jumps that are taken where the condition holds and where it
/// does not. The block that follows is gone to last.
pub open spec fn branched(
    s: IselView,
    c: Context,
    block: BlockId,
    r: Ref,
    b1: (BlockId, Seq<Ref>),
    b2: (BlockId, Seq<Ref>),
    jumps: (X86, X86),
) -> IselView {
    if s.next_blocks[block.0 as int] == Some(b1.0) {
        jumped(
            passed(s, c, r, b2.0, b2.1).put(
                r,
                select::machine_op(c, jumps.1),
                select::one_block(b2.0),
            ),
            c,
            r,
            b1.0,
            b1.1,
        )
    } else {
        jumped(
            passed(s, c, r, b1.0, b1.1).put(
                r,
                select::machine_op(c, jumps.0),
                select::one_block(b1.0),
            ),
            c,
            r,
            b2.0,
            b2.1,
        )
    }
}

fn branch(
    ctx: &mut IselCtx,
    c: &Context,
    block: BlockId,
    r: Ref,
    b1: (BlockId, Vec<Ref>),
    b2: (BlockId, Vec<Ref>),
    cond_jmp: X86,
    inverse_cond_jmp: X86,
)
    requires
        block.0 < old(ctx)@.next_blocks.len(),
        isel::can_pass(*c, b1.0, b1.1@),
        isel::can_pass(*c, b2.0, b2.1@),
    ensures
        final(ctx)@ == branched(
            old(ctx)@,
            *c,
            block,
            r,
            (b1.0, b1.1@),
            (b2.0, b2.1@),
            (cond_jmp, inverse_cond_jmp),
        ),
        final(ctx)@ == old(ctx)@.planned(final(ctx)@.plan),
{
    let set: FunctionId = dialect::function(c.isa, X86::mov_ri8);
    let b1_is_next: bool = match ctx.next_block(block) {
        Some(next) => next == b1.0,
        None => false,
    };
    if b1_is_next {
        // if b1 is the next block, we want to invert the condition to only emit one jump
        ctx.create_args_copy(c, r, b2.0, &b2.1, set);
        ctx.put(r, dialect::function(c.isa, inverse_cond_jmp), write_block(b2.0));
        // the jmp is still emitted (to maintain correct successor info)
        // but will be removed during emit
        jump(ctx, c, r, b1.0, &b1.1);
    } else {
        ctx.create_args_copy(c, r, b1.0, &b1.1, set);
        ctx.put(r, dialect::function(c.isa, cond_jmp), write_block(b1.0));
        jump(ctx, c, r, b2.0, &b2.1);
    }
}

impl InstructionSelector {
    /// The jumps of a comparison whose outcome is only used here.
    pub open spec fn fused(self, s: IselView, c: Context, cond: Ref) -> Option<(X86, X86)> {
        if cond.0 < c.ir@.insts.len() && s.counts[cond.0 as int] == 1 {
            match dialect::spec_as_module::<Arith>(c.ir@.insts[cond.0 as int], self.arith) {
                Some(op) => fused_jumps(op),
                None => None,
            }
        } else {
            None
        }
    }

    fn get_fused(&self, ctx: &IselCtx, c: &Context, cond: Ref) -> (jumps: Option<(X86, X86)>)
        requires
            ctx@.fits(*c),
        ensures
            jumps == self.fused(ctx@, *c, cond),
    {
        if cond.idx() < c.ir.insts.len() && ctx.single_use(cond) {
            match dialect::as_module::<Arith>(&c.ir.insts[cond.idx()], self.arith) {
                Some(op) => fused_jumps(op),
                None => None,
            }
        } else {
            None
        }
    }

    /// What becomes of an instruction of the control flow.
    pub open spec fn cf_selected(
        self,
        s: IselView,
        c: Context,
        block: BlockId,
        r: Ref,
        op: Cf,
    ) -> IselView {
        let args = c.args(r);
        match op {
            Cf::Goto => jumped(
                s,
                c,
                r,
                arguments::target_at(args, 0).0,
                arguments::target_at(args, 0).1,
            ),
            Cf::Branch => {
                let cond = arguments::ref_at(args, 0);
                let b1 = arguments::target_at(args, 1);
                let b2 = arguments::target_at(args, 2);
                match self.fused(s, c, cond) {
                    Some(jumps) => branched(
                        select::compared(
                            s.without_use(c, cond),
                            c,
                            cond,
                            arguments::ref_at(c.args(cond), 0),
                            arguments::ref_at(c.args(cond), 1),
                        ),
                        c,
                        block,
                        r,
                        b1,
                        b2,
                        jumps,
                    ),
                    None => branched(
                        s.put(
                            r,
                            select::machine_op(c, X86::test_rr8),
                            select::two_regs(
                                X86::test_rr8,
                                isel::reg(c, cond),
                                isel::reg(c, cond),
                            ),
                        ),
                        c,
                        block,
                        r,
                        b1,
                        b2,
                        (X86::jne, X86::je),
                    ),
                }
            },
            Cf::Ret => s.planned(self.abi.returned(c, arguments::ref_at(args, 0), r, s.plan)),
        }
    }

    pub open spec fn can_select_cf(
        self,
        s: IselView,
        c: Context,
        block: BlockId,
        r: Ref,
        op: Cf,
    ) -> bool {
        let args = c.args(r);
        match op {
            Cf::Goto => isel::can_pass(
                c,
                arguments::target_at(args, 0).0,
                arguments::target_at(args, 0).1,
            ),
            Cf::Branch => {
                let cond = arguments::ref_at(args, 0);
                &&& block.0 < c.ir@.blocks.len()
                &&& isel::can_pass(c, arguments::target_at(args, 1).0, arguments::target_at(args, 1).1)
                &&& isel::can_pass(c, arguments::target_at(args, 2).0, arguments::target_at(args, 2).1)
                &&& match self.fused(s, c, cond) {
                    Some(_) => isel::is_number(c, arguments::ref_at(c.args(cond), 0))
                        && isel::has_reg(c, arguments::ref_at(c.args(cond), 1)),
                    None => isel::has_reg(c, cond),
                }
            },
            Cf::Ret => self.abi.can_return(c, arguments::ref_at(args, 0), r, s.plan),
        }
    }

    fn select_cf(&self, ctx: &mut IselCtx, c: &Context, block: BlockId, r: Ref, op: Cf)
        requires
            old(ctx)@.fits(*c),
            c.has_call(r),
            self.can_select_cf(old(ctx)@, *c, block, r, op),
        ensures
            final(ctx)@ == self.cf_selected(old(ctx)@, *c, block, r, op),
            final(ctx)@.fits(*c),
    {
        let args: Vec<Argument> = args_of(c, r);
        match op {
            Cf::Goto => {
                let (b, b_args) = get_target(&args, 0);
                jump(ctx, c, r, b, &b_args);
            },
            Cf::Branch => {
                let cond: Ref = get_ref(&args, 0);
                let b1: (BlockId, Vec<Ref>) = get_target(&args, 1);
                let b2: (BlockId, Vec<Ref>) = get_target(&args, 2);
                match self.get_fused(ctx, c, cond) {
                    Some((jump, inverse)) => {
                        ctx.remove_use(c, cond);
                        assert(c.has_call(cond));
                        let operands: Vec<Argument> = args_of(c, cond);
                        compare(ctx, c, cond, get_ref(&operands, 0), get_ref(&operands, 1));
                        branch(ctx, c, block, r, b1, b2, jump, inverse);
                    },
                    None => {
                        let reg: MCReg = c.slots.get_one(cond);
                        let operands: Vec<Argument> = write_two_regs(X86::test_rr8, reg, reg);
                        ctx.put(r, dialect::function(c.isa, X86::test_rr8), operands);
                        branch(ctx, c, block, r, b1, b2, X86::jne, X86::je);
                    },
                }
            },
            Cf::Ret => {
                self.abi.implement_return(c, get_ref(&args, 0), r, &mut ctx.plan);
            },
        }
    }
}

/// Reads a primitive value from memory.
#[verifier::allow_in_spec]
pub fn load_op(p: Primitive) -> X86
    returns
        (match p.byte_size() {
            1 => X86::mov_rm8,
            2 => X86::mov_rm16,
            4 => X86::mov_rm32,
            _ => X86::mov_rm64,
        }),
{
    match p.byte_size() {
        1 => X86::mov_rm8,
        2 => X86::mov_rm16,
        4 => X86::mov_rm32,
        _ => X86::mov_rm64,
    }
}

/// Writes a primitive value to memory.
#[verifier::allow_in_spec]
pub fn store_op(p: Primitive) -> X86
    returns
        (match p.byte_size() {
            1 => X86::mov_mr8,
            2 => X86::mov_mr16,
            4 => X86::mov_mr32,
            _ => X86::mov_mr64,
        }),
{
    match p.byte_size() {
        1 => X86::mov_mr8,
        2 => X86::mov_mr16,
        4 => X86::mov_mr32,
        _ => X86::mov_mr64,
    }
}

/// The primitive value can be read and written.
pub open spec fn can_access(p: Piece) -> bool {
    &&& !p.primitive.is_float()
    &&& p.primitive != Primitive::I128
    &&& p.primitive != Primitive::U128
    &&& p.offset <= u32::MAX
}

pub open spec fn can_access_all(pieces: Seq<Piece>) -> bool {
    forall|i: int| 0 <= i < pieces.len() ==> can_access(#[trigger] pieces[i])
}

/// The pieces of a value are read before an instruction.
pub open spec fn pieces_loaded(
    s: IselView,
    c: Context,
    r: Ref,
    ptr: MCReg,
    pieces: Seq<Piece>,
    n: int,
) -> IselView
    decreases n,
{
    if n <= 0 {
        s
    } else {
        let p = pieces[n - 1];
        let op = load_op(p.primitive);
        pieces_loaded(s, c, r, ptr, pieces, n - 1).put(
            r,
            select::machine_op(c, op),
            select::reg_and_memory(op, p.first, ptr, p.offset as u32),
        )
    }
}

/// The pieces of a value are written before an instruction.
pub open spec fn pieces_stored(
    s: IselView,
    c: Context,
    r: Ref,
    ptr: MCReg,
    pieces: Seq<Piece>,
    n: int,
) -> IselView
    decreases n,
{
    if n <= 0 {
        s
    } else {
        let p = pieces[n - 1];
        let op = store_op(p.primitive);
        pieces_stored(s, c, r, ptr, pieces, n - 1).put(
            r,
            select::machine_op(c, op),
            select::memory_and_reg(op, ptr, p.offset as u32, p.first),
        )
    }
}

fn load_pieces(ctx: &mut IselCtx, c: &Context, r: Ref, ptr: MCReg, pieces: &Vec<Piece>)
    requires
        can_access_all(pieces@),
    ensures
        final(ctx)@ == pieces_loaded(
            old(ctx)@,
            *c,
            r,
            ptr,
            pieces@,
            pieces@.len() as int,
        ),
        final(ctx)@ == old(ctx)@.planned(final(ctx)@.plan),
{
    let ghost start = ctx@;
    let mut i: usize = 0;
    while i < pieces.len()
        invariant
            i <= pieces@.len(),
            can_access_all(pieces@),
            ctx@ == pieces_loaded(start, *c, r, ptr, pieces@, i as int),
            ctx@ == start.planned(ctx@.plan),
        decreases pieces.len() - i,
    {
        let p: Piece = pieces[i];
        assert(can_access(pieces@[i as int]));
        let op: X86 = load_op(p.primitive);
        let args: Vec<Argument> = write_reg_and_memory(op, p.first, ptr, p.offset as u32);
        ctx.put(r, dialect::function(c.isa, op), args);
        i += 1;
    }
}

fn store_pieces(ctx: &mut IselCtx, c: &Context, r: Ref, ptr: MCReg, pieces: &Vec<Piece>)
    requires
        can_access_all(pieces@),
    ensures
        final(ctx)@ == pieces_stored(
            old(ctx)@,
            *c,
            r,
            ptr,
            pieces@,
            pieces@.len() as int,
        ),
        final(ctx)@ == old(ctx)@.planned(final(ctx)@.plan),
{
    let ghost start = ctx@;
    let mut i: usize = 0;
    while i < pieces.len()
        invariant
            i <= pieces@.len(),
            can_access_all(pieces@),
            ctx@ == pieces_stored(start, *c, r, ptr, pieces@, i as int),
            ctx@ == start.planned(ctx@.plan),
        decreases pieces.len() - i,
    {
        let p: Piece = pieces[i];
        assert(can_access(pieces@[i as int]));
        let op: X86 = store_op(p.primitive);
        let args: Vec<Argument> = write_memory_and_reg(op, ptr, p.offset as u32, p.first);
        ctx.put(r, dialect::function(c.isa, op), args);
        i += 1;
    }
}

/// An address at a distance from another.
pub open spec fn offset_added(s: IselView, c: Context, r: Ref, ptr: Ref, offset: u64) -> IselView {
    let t = s.copied(c, r, isel::reg(c, r), isel::reg(c, ptr));
    if offset == 0 {
        t.deleted(r)
    } else {
        t.replaced(
            r,
            select::machine_op(c, X86::add_ri64),
            select::reg_and_number(X86::add_ri64, isel::reg(c, r), offset as u32),
        )
    }
}

fn ptr_offset(ctx: &mut IselCtx, c: &Context, r: Ref, ptr: Ref, offset: u64)
    requires
        isel::has_reg(*c, r),
        isel::has_reg(*c, ptr),
        offset <= u32::MAX,
    ensures
        final(ctx)@ == offset_added(old(ctx)@, *c, r, ptr, offset),
{
    let src: MCReg = c.slots.get_one(ptr);
    let dst: MCReg = c.slots.get_one(r);
    ctx.copy(c, r, dst, src);
    // CODEGEN: more efficient pointer arithmetic special-casing. Can also share code with add
    if offset == 0 {
        ctx.delete(r);
    } else {
        let args: Vec<Argument> = write_reg_and_number(X86::add_ri64, dst, offset as u32);
        ctx.replace(r, dialect::function(c.isa, X86::add_ri64), args);
    }
}

/// The number that gives zero when it is added, within 32 bits.
pub open spec fn minus(n: u32) -> u32 {
    if n == 0 {
        0
    } else {
        (0x1_0000_0000 - n) as u32
    }
}

/// A place in the stack frame below its base.
pub open spec fn declared(s: IselView, c: Context, r: Ref, layout: Layout) -> IselView {
    let offset = state::rounded_up(s.stack_size + layout.size, layout.align as int);
    let t = s.replaced(
        r,
        select::machine_op(c, X86::lea_rm64),
        select::reg_and_memory(
            X86::lea_rm64,
            isel::reg(c, r),
            systemv::phys(Reg::rbp),
            minus(offset as u32),
        ),
    );
    IselView { stack_size: offset as u32, ..t }
}

pub open spec fn can_declare(s: IselView, c: Context, r: Ref, layout: Layout) -> bool {
    &&& isel::has_reg(c, r)
    &&& 0 < layout.align <= u32::MAX
    &&& state::rounded_up(s.stack_size + layout.size, layout.align as int) <= i32::MAX
}

fn declare(ctx: &mut IselCtx, c: &Context, r: Ref, layout: Layout)
    requires
        can_declare(old(ctx)@, *c, r, layout),
    ensures
        final(ctx)@ == declared(old(ctx)@, *c, r, layout),
{
    let ghost before = ctx@;
    let offset: u32 = ctx.state.alloc_stack(layout);
    let distance: u32 = if offset == 0 {
        0
    } else {
        u32::MAX - (offset - 1)
    };
    let args: Vec<Argument> = write_reg_and_memory(
        X86::lea_rm64,
        c.slots.get_one(r),
        from_phys(Reg::rbp),
        distance,
    );
    ctx.replace(r, dialect::function(c.isa, X86::lea_rm64), args);
    assert(ctx@ =~= declared(before, *c, r, layout));
}

/// The distance from one element of an array to the next.
pub open spec fn stride(layout: Layout) -> int {
    state::rounded_up(layout.size as int, layout.align as int)
}

/// The address of an element of an array.
pub open spec fn indexed(
    s: IselView,
    c: Context,
    r: Ref,
    array: Ref,
    layout: Layout,
    index: Ref,
) -> IselView {
    s.put(
        r,
        select::machine_op(c, X86::imul_rri64),
        select::regs_and_number(
            X86::imul_rri64,
            isel::reg(c, r),
            isel::reg(c, index),
            stride(layout) as u32,
        ),
    ).replaced(
        r,
        select::machine_op(c, X86::add_rr64),
        select::two_regs(X86::add_rr64, isel::reg(c, r), isel::reg(c, array)),
    )
}

fn array_index(ctx: &mut IselCtx, c: &Context, r: Ref, array: Ref, layout: Layout, index: Ref)
    requires
        isel::has_reg(*c, r),
        isel::has_reg(*c, array),
        isel::has_reg(*c, index),
        0 < layout.align,
        stride(layout) <= u32::MAX,
    ensures
        final(ctx)@ == indexed(old(ctx)@, *c, r, array, layout, index),
{
    // CODEGEN: use more efficient addressing modes
    let dst: MCReg = c.slots.get_one(r);
    let distance: u32 = round_up_u64(layout.size, layout.align) as u32;
    // dst = idx * stride
    let args: Vec<Argument> = write_regs_and_number(
        X86::imul_rri64,
        dst,
        c.slots.get_one(index),
        distance,
    );
    ctx.put(r, dialect::function(c.isa, X86::imul_rri64), args);
    // dst += array_ptr
    let args: Vec<Argument> = write_two_regs(X86::add_rr64, dst, c.slots.get_one(array));
    ctx.replace(r, dialect::function(c.isa, X86::add_rr64), args);
}

/// The layout of a type.
pub open spec fn layout_in(c: Context, ty: TypeId) -> Layout {
    c.types@[ty.0 as int].layout
}

/// Where an element lies in a tuple.
pub open spec fn member_offset(c: Context, ty: TypeId, i: u64) -> Option<u64> {
    if ty.0 < c.types@.len() {
        match c.types@[ty.0 as int].shape {
            ShapeView::Tuple(elements) => if i < elements.len() {
                Some(elements[i as int].offset)
            } else {
                None
            },
            _ => None,
        }
    } else {
        None
    }
}

fn get_member_offset(c: &Context, ty: TypeId, i: u64) -> (offset: Option<u64>)
    ensures
        offset == member_offset(*c, ty, i),
{
    if (ty.0 as usize) < c.types.types.len() {
        assert(c.types@[ty.0 as int] == c.types.types@[ty.0 as int]@);
        match &c.types.types[ty.0 as usize].shape {
            Shape::Tuple(elements) => if i < elements.len() as u64 {
                Some(elements[i as usize].offset)
            } else {
                None
            },
            _ => None,
        }
    } else {
        None
    }
}

impl InstructionSelector {
    /// What becomes of an instruction that concerns memory.
    pub open spec fn mem_selected(self, s: IselView, c: Context, r: Ref, op: Mem) -> IselView {
        let args = c.args(r);
        let x = arguments::ref_at(args, 0);
        match op {
            Mem::Decl => declared(s, c, r, layout_in(c, arguments::type_at(args, 0))),
            Mem::Load => {
                let pieces = systemv::pieces_of(c, r);
                pieces_loaded(
                    s,
                    c,
                    r,
                    isel::reg(c, x),
                    pieces,
                    pieces.len() as int,
                ).renamed(r)
            },
            Mem::Store => {
                let pieces = systemv::pieces_of(c, arguments::ref_at(args, 1));
                pieces_stored(
                    s,
                    c,
                    r,
                    isel::reg(c, x),
                    pieces,
                    pieces.len() as int,
                ).renamed(r)
            },
            Mem::MemberPtr => offset_added(
                s,
                c,
                r,
                x,
                member_offset(c, arguments::type_at(args, 1), arguments::int_at(args, 2))->Some_0,
            ),
            Mem::ArrayIndex => indexed(
                s,
                c,
                r,
                x,
                layout_in(c, arguments::type_at(args, 1)),
                arguments::ref_at(args, 2),
            ),
            Mem::Offset => offset_added(s, c, r, x, arguments::int_at(args, 1)),
            Mem::IntToPtr => if isel::size_in(c, x) is S64 {
                select::copy_made(s, c, r, x)
            } else {
                select::moved(
                    s,
                    c,
                    r,
                    extend_op(isel::arith_class_in(c, x), isel::size_in(c, x)),
                    x,
                )
            },
            Mem::PtrToInt => if isel::size_in(c, r) is S64 {
                select::copy_made(s, c, r, x)
            } else {
                select::moved(s, c, r, truncate_op(isel::size_in(c, r)), x)
            },
            Mem::FunctionPtr => s.replaced(
                r,
                select::machine_op(c, X86::lea_function),
                select::reg_and_function(
                    X86::lea_function,
                    isel::reg(c, r),
                    arguments::function_at(args, 0),
                ),
            ),
            Mem::Global => s.replaced(
                r,
                select::machine_op(c, X86::lea_global),
                select::reg_and_global(
                    X86::lea_global,
                    isel::reg(c, r),
                    arguments::global_at(args, 0),
                ),
            ),
            Mem::CallPtr => s.planned(self.abi.called(c, r, true, s.plan)).replaced(
                r,
                select::machine_op(c, X86::call_r64),
                select::one_reg(X86::call_r64, isel::reg(c, x)),
            ),
        }
    }

    pub open spec fn can_select_mem(self, s: IselView, c: Context, r: Ref, op: Mem) -> bool {
        let args = c.args(r);
        let x = arguments::ref_at(args, 0);
        match op {
            Mem::Decl => {
                &&& arguments::type_at(args, 0).0 < c.types@.len()
                &&& can_declare(s, c, r, layout_in(c, arguments::type_at(args, 0)))
            },
            Mem::Load => isel::has_reg(c, x) && c.holds(r) && can_access_all(
                systemv::pieces_of(c, r),
            ),
            Mem::Store => {
                let value = arguments::ref_at(args, 1);
                isel::has_reg(c, x) && c.holds(value) && can_access_all(
                    systemv::pieces_of(c, value),
                )
            },
            Mem::MemberPtr => {
                &&& isel::has_reg(c, r)
                &&& isel::has_reg(c, x)
                &&& member_offset(c, arguments::type_at(args, 1), arguments::int_at(args, 2)) matches Some(
                    offset,
                ) && offset <= u32::MAX
            },
            Mem::ArrayIndex => {
                let ty = arguments::type_at(args, 1);
                &&& isel::has_reg(c, r)
                &&& isel::has_reg(c, x)
                &&& isel::has_reg(c, arguments::ref_at(args, 2))
                &&& ty.0 < c.types@.len()
                &&& layout_in(c, ty).align > 0
                &&& stride(layout_in(c, ty)) <= u32::MAX
            },
            Mem::Offset => isel::has_reg(c, r) && isel::has_reg(c, x) && arguments::int_at(
                args,
                1,
            ) <= u32::MAX,
            Mem::IntToPtr => isel::has_reg(c, r) && isel::is_number(c, x),
            Mem::PtrToInt => isel::is_number(c, r) && isel::has_reg(c, x),
            Mem::FunctionPtr | Mem::Global => isel::has_reg(c, r),
            Mem::CallPtr => isel::has_reg(c, x) && self.abi.can_call(c, r, true, s.plan),
        }
    }

    fn select_mem(&self, ctx: &mut IselCtx, c: &Context, r: Ref, op: Mem)
        requires
            old(ctx)@.fits(*c),
            c.has_call(r),
            self.can_select_mem(old(ctx)@, *c, r, op),
        ensures
            final(ctx)@ == self.mem_selected(old(ctx)@, *c, r, op),
            final(ctx)@.fits(*c),
    {
        let args: Vec<Argument> = args_of(c, r);
        let x: Ref = get_ref(&args, 0);
        match op {
            Mem::Decl => {
                let ty: TypeId = get_type(&args, 0);
                assert(c.types@[ty.0 as int] == c.types.types@[ty.0 as int]@);
                declare(ctx, c, r, c.types.types[ty.0 as usize].layout);
            },
            Mem::Load => {
                let pieces: Vec<Piece> = get_pieces(c, r);
                load_pieces(ctx, c, r, c.slots.get_one(x), &pieces);
                ctx.rename(r);
            },
            Mem::Store => {
                let pieces: Vec<Piece> = get_pieces(c, get_ref(&args, 1));
                store_pieces(ctx, c, r, c.slots.get_one(x), &pieces);
                ctx.rename(r);
            },
            Mem::MemberPtr => {
                let offset: Option<u64> = get_member_offset(
                    c,
                    get_type(&args, 1),
                    get_int(&args, 2),
                );
                ptr_offset(ctx, c, r, x, offset.unwrap());
            },
            Mem::ArrayIndex => {
                let ty: TypeId = get_type(&args, 1);
                assert(c.types@[ty.0 as int] == c.types.types@[ty.0 as int]@);
                let layout: Layout = c.types.types[ty.0 as usize].layout;
                array_index(ctx, c, r, x, layout, get_ref(&args, 2));
            },
            Mem::Offset => {
                ptr_offset(ctx, c, r, x, get_int(&args, 1));
            },
            Mem::IntToPtr => {
                let (class, size) = arith_class(c, x);
                match size {
                    Size::S64 => {
                        make_copy(ctx, c, r, x);
                    },
                    _ => {
                        move_by(ctx, c, r, extend_op(class, size), x);
                    },
                }
            },
            Mem::PtrToInt => {
                let size: Size = int_size_of_ref(c, r);
                match size {
                    Size::S64 => {
                        make_copy(ctx, c, r, x);
                    },
                    _ => {
                        move_by(ctx, c, r, truncate_op(size), x);
                    },
                }
            },
            Mem::FunctionPtr => {
                let operands: Vec<Argument> = write_reg_and_function(
                    X86::lea_function,
                    c.slots.get_one(r),
                    get_function(&args, 0),
                );
                ctx.replace(r, dialect::function(c.isa, X86::lea_function), operands);
            },
            Mem::Global => {
                let operands: Vec<Argument> = write_reg_and_global(
                    X86::lea_global,
                    c.slots.get_one(r),
                    get_global(&args, 0),
                );
                ctx.replace(r, dialect::function(c.isa, X86::lea_global), operands);
            },
            Mem::CallPtr => {
                let ptr: MCReg = c.slots.get_one(x);
                self.abi.implement_call(c, r, true, &mut ctx.plan);
                let operands: Vec<Argument> = write_one_reg(X86::call_r64, ptr);
                ctx.replace(r, dialect::function(c.isa, X86::call_r64), operands);
            },
        }
    }

    /// What becomes of an instruction.
    pub open spec fn selected(self, s: IselView, c: Context, block: BlockId, r: Ref) -> IselView {
        let called = c.ir@.insts[r.0 as int];
        if called.function == Builtin::Undef.spec_function() {
            s.renamed(r)
        } else {
            match (
                dialect::spec_as_module::<Arith>(called, self.arith),
                dialect::spec_as_module::<Cf>(called, self.cf),
                dialect::spec_as_module::<Mem>(called, self.mem),
                dialect::spec_as_module::<Tuple>(called, self.tuple),
            ) {
                (Some(op), _, _, _) => self.arith_selected(s, c, r, op),
                (_, Some(op), _, _) => self.cf_selected(s, c, block, r, op),
                (_, _, Some(op), _) => self.mem_selected(s, c, r, op),
                (_, _, _, Some(_)) => s.renamed(r),
                _ => if called.function.module == s.main_module {
                    s.planned(self.abi.called(c, r, false, s.plan)).replaced(
                        r,
                        select::machine_op(c, X86::call_function),
                        select::one_function(called.function),
                    )
                } else {
                    s
                },
            }
        }
    }

    /// The instruction is one that can be selected so far, or one of the machine.
    pub open spec fn can_select(self, s: IselView, c: Context, block: BlockId, r: Ref) -> bool {
        let called = c.ir@.insts[r.0 as int];
        called.function == Builtin::Undef.spec_function() || match (
            dialect::spec_as_module::<Arith>(called, self.arith),
            dialect::spec_as_module::<Cf>(called, self.cf),
            dialect::spec_as_module::<Mem>(called, self.mem),
            dialect::spec_as_module::<Tuple>(called, self.tuple),
        ) {
            (Some(op), _, _, _) => self.can_select_arith(s, c, r, op),
            (_, Some(op), _, _) => self.can_select_cf(s, c, block, r, op),
            (_, _, Some(op), _) => self.can_select_mem(s, c, r, op),
            (_, _, _, Some(_)) => true,
            _ => if called.function.module == s.main_module {
                self.abi.can_call(c, r, false, s.plan)
            } else {
                called.function.module == c.isa
            },
        }
    }

    /// Selects instructions of the machine for one instruction.
    pub fn select(&self, ctx: &mut IselCtx, c: &Context, block: BlockId, r: Ref)
        requires
            old(ctx)@.fits(*c),
            r.0 < c.ir@.insts.len(),
            self.can_select(old(ctx)@, *c, block, r),
        ensures
            final(ctx)@ == self.selected(old(ctx)@, *c, block, r),
            final(ctx)@.fits(*c),
    {
        assert(c.has_call(r));
        let called: Instruction = c.ir.insts[r.idx()];
        if called.function == Builtin::Undef.function() {
            // don't need to do anything, registers are already allocated
            ctx.rename(r);
        } else if let Some(op) = dialect::as_module::<Arith>(&called, self.arith) {
            self.select_arith(ctx, c, r, op);
        } else if let Some(op) = dialect::as_module::<Cf>(&called, self.cf) {
            self.select_cf(ctx, c, block, r, op);
        } else if let Some(op) = dialect::as_module::<Mem>(&called, self.mem) {
            self.select_mem(ctx, c, r, op);
        } else if dialect::as_module::<Tuple>(&called, self.tuple).is_some() {
            // handled by register creation before isel
            ctx.rename(r);
        } else if called.function.module == ctx.main_module {
            self.abi.implement_call(c, r, false, &mut ctx.plan);
            let operands: Vec<Argument> = write_function(called.function);
            ctx.replace(r, dialect::function(c.isa, X86::call_function), operands);
        }
    }
}

} // verus!
