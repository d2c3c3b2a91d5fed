//! The selection of instructions.
use vstd::prelude::*;

use crate::backend::arguments;
use crate::backend::arguments::{get_int, get_ref};
use crate::backend::arm::abi;
use crate::backend::arm::abi::{get_pieces, ArmAbi};
use crate::backend::arm::access;
use crate::backend::arm::access::load_store_reg;
use crate::backend::arm::isa::Arm;
use crate::backend::isel;
use crate::backend::isel::{args_of, int_size_of_ref, IselCtx, IselView};
use crate::backend::placement as place;
use crate::backend::selector::Selector;
use crate::backend::size::Size;
use crate::ir::dialect;
use crate::ir::dialect::{Arith, Cf, Dialect, Mc, Mem};
use crate::ir::edit;
use crate::ir::edit::PlanView;
use crate::ir::function::{FunctionIr, FunctionView};
use crate::ir::ids::{BlockId, FunctionId, ModuleId, Ref, StackSlot};
use crate::ir::inst;
use crate::ir::inst::{Argument, ArgumentView, Builtin, Instruction, MCReg, Usage};
use crate::ir::mc::inst as machine;
use crate::ir::mc::inst::{Abi, Context};
use crate::ir::modify::Insert;
use crate::ir::slots::Piece;

verus! {

/// The modules of the instructions that are replaced, and the convention for calls.
#[derive(Clone, Copy, Debug)]
pub struct InstructionSelector {
    pub arith: ModuleId,
    pub cf: ModuleId,
    pub mem: ModuleId,
    pub abi: ArmAbi,
}

/// The instruction of the machine.
pub open spec fn machine_op(c: Context, op: Arm) -> FunctionId {
    dialect::spec_function(c.isa, op)
}

/// Sixteen bits of a number.
pub open spec fn part(x: u64, hw: u32) -> u32 {
    (match hw {
        0 => x % 0x1_0000,
        1 => x / 0x1_0000 % 0x1_0000,
        2 => x / 0x1_0000_0000 % 0x1_0000,
        _ => x / 0x1_0000_0000_0000 % 0x1_0000,
    }) as u32
}

fn get_part(x: u64, hw: u32) -> (v: u32)
    ensures
        v == part(x, hw),
{
    match hw {
        0 => (x % 0x1_0000) as u32,
        1 => (x / 0x1_0000 % 0x1_0000) as u32,
        2 => (x / 0x1_0000_0000 % 0x1_0000) as u32,
        _ => (x / 0x1_0000_0000_0000 % 0x1_0000) as u32,
    }
}

/// A number is made up of its parts.
#[verifier::spinoff_prover]
#[verifier::rlimit(50)]
pub proof fn parts_make_up_numbers(x: u64)
    ensures
        x == part(x, 0) + 0x1_0000 * part(x, 1) + 0x1_0000_0000 * part(x, 2)
            + 0x1_0000_0000_0000 * part(x, 3),
        x < 0x1_0000_0000 ==> x == part(x, 0) + 0x1_0000 * part(x, 1),
{
    let a = x / 0x1_0000;
    let b = a / 0x1_0000;
    let c = b / 0x1_0000;
    assert(x / 0x1_0000_0000 == b);
    assert(x / 0x1_0000_0000_0000 == c);
    assert(x == a * 0x1_0000 + x % 0x1_0000);
    assert(a == b * 0x1_0000 + a % 0x1_0000);
    assert(b == c * 0x1_0000 + b % 0x1_0000);
}

/// The low bits of a number, continued with its sign.
pub open spec fn sign_extended(x: u64, size: Size) -> u32 {
    match size {
        Size::S8 => if x % 0x100 >= 0x80 {
            (0xffff_ff00 + x % 0x100) as u32
        } else {
            (x % 0x100) as u32
        },
        _ => if x % 0x1_0000 >= 0x8000 {
            (0xffff_0000 + x % 0x1_0000) as u32
        } else {
            (x % 0x1_0000) as u32
        },
    }
}

fn sign_extend(x: u64, size: Size) -> (v: u32)
    ensures
        v == sign_extended(x, size),
{
    match size {
        Size::S8 => if x % 0x100 >= 0x80 {
            0xffff_ff00 + (x % 0x100) as u32
        } else {
            (x % 0x100) as u32
        },
        _ => if x % 0x1_0000 >= 0x8000 {
            0xffff_0000 + (x % 0x1_0000) as u32
        } else {
            (x % 0x1_0000) as u32
        },
    }
}

/// A register, a position and sixteen bits.
pub open spec fn move_args(r: MCReg, hw: u32, imm: u32) -> Seq<ArgumentView> {
    seq![
        ArgumentView::MCReg(Usage::Def, r),
        ArgumentView::Int32(hw),
        ArgumentView::Int32(imm),
    ]
}

fn write_move(r: MCReg, hw: u32, imm: u32) -> (args: Vec<Argument>)
    ensures
        inst::views(args@) == move_args(r, hw, imm),
{
    let args: Vec<Argument> = vec![
        Argument::MCReg(Usage::Def, r),
        Argument::Int32(hw),
        Argument::Int32(imm),
    ];
    assert(inst::views(args@) =~= move_args(r, hw, imm));
    args
}

/// The instruction that sets a register, and that which changes sixteen bits of it.
#[verifier::allow_in_spec]
pub fn move_ops(wide: bool) -> (Arm, Arm)
    returns
        (if wide {
            (Arm::movz64, Arm::movk64)
        } else {
            (Arm::movz32, Arm::movk32)
        }),
{
    if wide {
        (Arm::movz64, Arm::movk64)
    } else {
        (Arm::movz32, Arm::movk32)
    }
}

/// How far a number is put together, and whether nothing was set yet.
#[verifier::ext_equal]
pub struct Setting {
    pub s: IselView,
    pub first: bool,
}

/// The first `n` parts of a number other than zero are set. Parts that are zero are left out.
pub open spec fn parts_set(s: IselView, c: Context, r: Ref, x: u64, wide: bool, n: u32) -> Setting
    decreases n,
{
    if n == 0 {
        Setting { s, first: true }
    } else {
        let hw = (n - 1) as u32;
        let p = parts_set(s, c, r, x, wide, hw);
        let (set, change) = move_ops(wide);
        let args = move_args(isel::reg(c, r), hw, part(x, hw));
        if part(x, hw) == 0 {
            p
        } else if p.first {
            Setting { s: p.s.replaced(r, machine_op(c, set), args), first: false }
        } else {
            Setting { s: p.s.put_after(r, machine_op(c, change), args), first: false }
        }
    }
}

/// A number is put in a register.
pub open spec fn number_set(s: IselView, c: Context, r: Ref, x: u64) -> IselView {
    let size = isel::size_in(c, r);
    let reg = isel::reg(c, r);
    match size {
        Size::S8 | Size::S16 => s.replaced(
            r,
            machine_op(c, Arm::movz32),
            move_args(reg, 0, sign_extended(x, size)),
        ),
        _ => {
            let wide = size is S64;
            if x == 0 {
                s.replaced(r, machine_op(c, move_ops(wide).0), move_args(reg, 0, 0))
            } else {
                parts_set(
                    s,
                    c,
                    r,
                    x,
                    wide,
                    if wide {
                        4
                    } else {
                        2
                    },
                ).s
            }
        },
    }
}

fn set_number(ctx: &mut IselCtx, c: &Context, r: Ref, x: u64)
    requires
        isel::is_number(*c, r),
    ensures
        final(ctx)@ == number_set(old(ctx)@, *c, r, x),
        final(ctx)@ == old(ctx)@.planned(final(ctx)@.plan),
{
    let size: Size = int_size_of_ref(c, r);
    let reg: MCReg = c.slots.get_one(r);
    match size {
        Size::S8 | Size::S16 => {
            let args: Vec<Argument> = write_move(reg, 0, sign_extend(x, size));
            ctx.replace(r, dialect::function(c.isa, Arm::movz32), args);
        },
        _ => {
            let wide: bool = match size {
                Size::S64 => true,
                _ => false,
            };
            let (set, change) = move_ops(wide);
            if x == 0 {
                ctx.replace(r, dialect::function(c.isa, set), write_move(reg, 0, 0));
                return;
            }
            let ghost start = ctx@;
            let hws: u32 = if wide {
                4
            } else {
                2
            };
            let mut first: bool = true;
            let mut hw: u32 = 0;
            while hw < hws
                invariant
                    hw <= hws,
                    reg == isel::reg(*c, r),
                    (set, change) == move_ops(wide),
                    ctx@ == start.planned(ctx@.plan),
                    (Setting { s: ctx@, first }) == parts_set(start, *c, r, x, wide, hw),
                decreases hws - hw,
            {
                let imm: u32 = get_part(x, hw);
                if imm != 0 {
                    let args: Vec<Argument> = write_move(reg, hw, imm);
                    if first {
                        ctx.replace(r, dialect::function(c.isa, set), args);
                    } else {
                        ctx.put_after(r, dialect::function(c.isa, change), args);
                    }
                    first = false;
                }
                hw += 1;
                assert((hw - 1) as u32 == hw - 1);
            }
        },
    }
}

impl InstructionSelector {
    /// The instruction stands for a place in the stack frame.
    pub open spec fn is_decl(self, f: FunctionView, r: Ref) -> bool {
        r.0 < f.insts.len() && dialect::spec_as_module::<Mem>(f.insts[r.0 as int], self.mem)
            == Some(Mem::Decl)
    }

    pub(crate) fn check_decl(&self, ir: &FunctionIr, r: Ref) -> (is: bool)
        ensures
            is == self.is_decl(ir@, r),
    {
        if r.idx() < ir.insts.len() {
            match dialect::as_module::<Mem>(&ir.insts[r.idx()], self.mem) {
                Some(op) => op == Mem::Decl,
                None => false,
            }
        } else {
            false
        }
    }

    /// How many of the first `n` instructions stand for places in the stack frame.
    pub open spec fn decls_before(self, f: FunctionView, n: int) -> int
        decreases n,
    {
        if n <= 0 {
            0
        } else {
            self.decls_before(f, n - 1) + if self.is_decl(f, Ref((n - 1) as u32)) {
                1int
            } else {
                0
            }
        }
    }

    fn count_decls(&self, ir: &FunctionIr, n: u32) -> (count: u32)
        requires
            n <= ir@.insts.len(),
        ensures
            count == self.decls_before(ir@, n as int),
            count <= n,
    {
        let mut count: u32 = 0;
        let mut i: u32 = 0;
        while i < n
            invariant
                i <= n,
                n <= ir@.insts.len(),
                count <= i,
                count == self.decls_before(ir@, i as int),
            decreases n - i,
        {
            if self.check_decl(ir, Ref(i)) {
                count += 1;
            }
            i += 1;
            assert(Ref((i - 1) as u32) == Ref(((i as int) - 1) as u32));
        }
        count
    }

    /// The place in the stack frame that an instruction stands for. Places are numbered in
    /// the order of the instructions.
    pub open spec fn slot_of(self, s: IselView, c: Context, r: Ref) -> int {
        s.stack_slots.len() - self.decls_before(c.ir@, c.ir@.insts.len() as int)
            + self.decls_before(c.ir@, r.0 as int)
    }

    /// The address of a value in memory.
    pub open spec fn address(self, s: IselView, c: Context, ptr: Ref) -> MCReg {
        if self.is_decl(c.ir@, ptr) {
            MCReg((0x4000_0000 + self.slot_of(s, c, ptr)) as u32)
        } else {
            isel::reg(c, ptr)
        }
    }

    /// A value is read from memory or written to it.
    pub open spec fn accessed(
        self,
        s: IselView,
        c: Context,
        r: Ref,
        load: bool,
        value: Ref,
        ptr: Ref,
    ) -> IselView {
        let t = if self.is_decl(c.ir@, ptr) {
            s.without_use(c, ptr)
        } else {
            s
        };
        t.planned(
            access::accessed(
                t.plan,
                r,
                Insert::Before,
                load,
                c.isa,
                abi::pieces_of(c, value),
                self.address(s, c, ptr),
            ),
        ).renamed(r)
    }

    pub open spec fn can_access(
        self,
        s: IselView,
        c: Context,
        value: Ref,
        ptr: Ref,
    ) -> bool {
        &&& c.holds(value)
        &&& forall|i: int|
            0 <= i < abi::pieces_of(c, value).len() ==> access::accessible(
                #[trigger] abi::pieces_of(c, value)[i],
            )
        &&& if self.is_decl(c.ir@, ptr) {
            &&& self.decls_before(c.ir@, c.ir@.insts.len() as int) <= s.stack_slots.len()
            &&& self.slot_of(s, c, ptr) < 0x4000_0000
        } else {
            isel::has_reg(c, ptr)
        }
    }

    fn load_store(
        &self,
        ctx: &mut IselCtx,
        c: &Context,
        r: Ref,
        load: bool,
        value: Ref,
        ptr: Ref,
    )
        requires
            old(ctx)@.fits(*c),
            self.can_access(old(ctx)@, *c, value, ptr),
        ensures
            final(ctx)@ == self.accessed(old(ctx)@, *c, r, load, value, ptr),
            final(ctx)@.fits(*c),
    {
        let address: MCReg = if self.check_decl(c.ir, ptr) {
            let count: u32 = c.ir.insts.len() as u32;
            let all: u32 = self.count_decls(c.ir, count);
            let before: u32 = self.count_decls(c.ir, ptr.0);
            let len: usize = ctx.state.stack_slots.len();
            let slot: u32 = ((len - all as usize) as u64 + before as u64) as u32;
            ctx.remove_use(c, ptr);
            // stack slot reg will be part of a load/store with an MCRegOffset
            MCReg::from_slot(StackSlot(slot))
        } else {
            c.slots.get_one(ptr)
        };
        let pieces: Vec<Piece> = get_pieces(c, value);
        load_store_reg(&mut ctx.plan, r, Insert::Before, load, c.isa, &pieces, address);
        ctx.rename(r);
    }

    /// What becomes of an instruction.
    pub open spec fn selected(self, s: IselView, c: Context, r: Ref) -> IselView {
        let called = c.ir@.insts[r.0 as int];
        let args = c.args(r);
        if called.function == Builtin::Undef.spec_function() {
            s.renamed(r)
        } else {
            match (
                dialect::spec_as_module::<Arith>(called, self.arith),
                dialect::spec_as_module::<Cf>(called, self.cf),
                dialect::spec_as_module::<Mem>(called, self.mem),
            ) {
                (Some(Arith::Int), _, _) => number_set(s, c, r, arguments::int_at(args, 0)),
                (_, Some(Cf::Ret), _) => s.planned(
                    self.abi.returned(c, arguments::ref_at(args, 0), r, s.plan),
                ),
                (_, _, Some(Mem::Load)) => self.accessed(
                    s,
                    c,
                    r,
                    true,
                    r,
                    arguments::ref_at(args, 0),
                ),
                (_, _, Some(Mem::Store)) => self.accessed(
                    s,
                    c,
                    r,
                    false,
                    arguments::ref_at(args, 1),
                    arguments::ref_at(args, 0),
                ),
                _ => if called.function.module == s.main_module {
                    s.planned(self.abi.called(c, r, false, s.plan)).replaced(
                        r,
                        machine_op(c, Arm::bl_function),
                        seq![ArgumentView::FunctionId(called.function)],
                    )
                } else {
                    s
                },
            }
        }
    }

    /// The instruction is one that can be selected so far, or one of the machine.
    pub open spec fn can_select(self, s: IselView, c: Context, r: Ref) -> bool {
        let called = c.ir@.insts[r.0 as int];
        let args = c.args(r);
        called.function == Builtin::Undef.spec_function() || match (
            dialect::spec_as_module::<Arith>(called, self.arith),
            dialect::spec_as_module::<Cf>(called, self.cf),
            dialect::spec_as_module::<Mem>(called, self.mem),
        ) {
            (Some(op), _, _) => op is Int && isel::is_number(c, r),
            (_, Some(op), _) => op is Ret && self.abi.can_return(
                c,
                arguments::ref_at(args, 0),
                r,
                s.plan,
            ),
            (_, _, Some(op)) => match op {
                Mem::Load => self.can_access(s, c, r, arguments::ref_at(args, 0)),
                Mem::Store => self.can_access(
                    s,
                    c,
                    arguments::ref_at(args, 1),
                    arguments::ref_at(args, 0),
                ),
                _ => false,
            },
            _ => if called.function.module == s.main_module {
                self.abi.can_call(c, r, false, s.plan)
            } else {
                called.function.module == c.isa
            },
        }
    }

    /// Selects instructions of the machine for one instruction.
    pub fn select(&self, ctx: &mut IselCtx, c: &Context, r: Ref)
        requires
            old(ctx)@.fits(*c),
            r.0 < c.ir@.insts.len(),
            self.can_select(old(ctx)@, *c, r),
        ensures
            final(ctx)@ == self.selected(old(ctx)@, *c, r),
            final(ctx)@.fits(*c),
    {
        assert(c.has_call(r));
        let called: Instruction = c.ir.insts[r.idx()];
        if called.function == Builtin::Undef.function() {
            ctx.rename(r);
            return;
        }
        let args: Vec<Argument> = args_of(c, r);
        if let Some(op) = dialect::as_module::<Arith>(&called, self.arith) {
            if op == Arith::Int {
                set_number(ctx, c, r, get_int(&args, 0));
            }
        } else if let Some(op) = dialect::as_module::<Cf>(&called, self.cf) {
            if op == Cf::Ret {
                self.abi.implement_return(c, get_ref(&args, 0), r, &mut ctx.plan);
            }
        } else if let Some(op) = dialect::as_module::<Mem>(&called, self.mem) {
            match op {
                Mem::Load => {
                    self.load_store(ctx, c, r, true, r, get_ref(&args, 0));
                },
                Mem::Store => {
                    self.load_store(ctx, c, r, false, get_ref(&args, 1), get_ref(&args, 0));
                },
                _ => {},
            }
        } else if called.function.module == ctx.main_module {
            self.abi.implement_call(c, r, false, &mut ctx.plan);
            let operands: Vec<Argument> = vec![Argument::FunctionId(called.function)];
            assert(inst::views(operands@) =~= seq![ArgumentView::FunctionId(called.function)]);
            ctx.replace(r, dialect::function(c.isa, Arm::bl_function), operands);
        }
    }
}

/// The instructions of the machine and those of all machines are known.
pub open spec fn machine_known(c: Context) -> bool {
    &&& dialect::registered::<Arm>(c.env, c.isa)
    &&& dialect::registered::<Mc>(c.env, c.mc)
}

proof fn lemma_moved(s: IselView, c: Context, at: Ref, op: Arm, args: Seq<ArgumentView>)
    requires
        place::ok(s, c),
        machine_known(c),
        edit::placed(c.ir@, at),
        inst::args_fit(op.spec_params(), None, args),
        inst::targets_exist(args, c.ir@.blocks.len()),
    ensures
        place::ok(s.put_after(at, machine_op(c, op), args), c),
        place::ok(s.replaced(at, machine_op(c, op), args), c),
{
    place::lemma_add::<Arm>(c, s.plan, at, Insert::After, c.isa, op, args);
    place::lemma_replace::<Arm>(c, s.plan, at, c.isa, op, args);
}

proof fn lemma_parts(s: IselView, c: Context, r: Ref, x: u64, wide: bool, n: u32)
    requires
        place::ok(s, c),
        machine_known(c),
        edit::placed(c.ir@, r),
    ensures
        place::ok(parts_set(s, c, r, x, wide, n).s, c),
    decreases n,
{
    if n > 0 {
        let hw = (n - 1) as u32;
        lemma_parts(s, c, r, x, wide, hw);
        let p = parts_set(s, c, r, x, wide, hw);
        let (set, change) = move_ops(wide);
        let args = move_args(isel::reg(c, r), hw, part(x, hw));
        lemma_moved(p.s, c, r, set, args);
        lemma_moved(p.s, c, r, change, args);
    }
}

proof fn lemma_number(s: IselView, c: Context, r: Ref, x: u64)
    requires
        place::ok(s, c),
        machine_known(c),
        edit::placed(c.ir@, r),
    ensures
        place::ok(number_set(s, c, r, x), c),
{
    let size = isel::size_in(c, r);
    let reg = isel::reg(c, r);
    lemma_moved(s, c, r, Arm::movz32, move_args(reg, 0, sign_extended(x, size)));
    lemma_moved(s, c, r, Arm::movz32, move_args(reg, 0, 0));
    lemma_moved(s, c, r, Arm::movz64, move_args(reg, 0, 0));
    lemma_parts(s, c, r, x, true, 4);
    lemma_parts(s, c, r, x, false, 2);
}

proof fn lemma_copied(c: Context, plan: PlanView, at: Ref, position: Insert, regs: Seq<MCReg>)
    requires
        place::all_placed(c.ir@, c.env, plan),
        machine_known(c),
        edit::placed(c.ir@, at),
    ensures
        place::all_placed(c.ir@, c.env, abi::copied(plan, at, position, c.mc, regs)),
{
    place::lemma_read_regs(regs, c.ir@.blocks.len());
    place::lemma_add::<Mc>(c, plan, at, position, c.mc, Mc::Copy, machine::read_regs(regs));
}

proof fn lemma_extracted(
    c: Context,
    plan: PlanView,
    at: Ref,
    position: Insert,
    pieces: Seq<Piece>,
    storage: abi::Storage,
)
    requires
        place::all_placed(c.ir@, c.env, plan),
        machine_known(c),
        edit::placed(c.ir@, at),
    ensures
        place::all_placed(
            c.ir@,
            c.env,
            abi::extracted(plan, at, position, c.mc, pieces, storage),
        ),
    decreases pieces.len(),
{
    match storage {
        abi::Storage::Registers(a, b) => {
            if pieces.len() > 0 {
                lemma_extracted(c, plan, at, position, pieces.drop_last(), storage);
                let before = abi::extracted(
                    plan,
                    at,
                    position,
                    c.mc,
                    pieces.drop_last(),
                    storage,
                );
                let p = pieces.last();
                let one = seq![p.first, abi::phys(abi::half(a, b, p.offset))];
                let two = seq![p.first, abi::phys(a), p.second->Some_0, abi::phys(b)];
                lemma_copied(c, before, at, position, one);
                lemma_copied(c, before, at, position, two);
            }
        },
        abi::Storage::Hfa(_, _, _, _) => {
            let copies = abi::hfa_copies(pieces, storage, pieces.len() as int);
            lemma_copied(c, plan, at, position, copies);
        },
        abi::Storage::Stack(_) => {},
    }
}

proof fn lemma_inserted(
    c: Context,
    plan: PlanView,
    at: Ref,
    pieces: Seq<Piece>,
    a: crate::backend::arm::isa::Reg,
    b: crate::backend::arm::isa::Reg,
)
    requires
        place::all_placed(c.ir@, c.env, plan),
        machine_known(c),
        edit::placed(c.ir@, at),
    ensures
        place::all_placed(c.ir@, c.env, abi::inserted(plan, at, c.mc, pieces, a, b)),
    decreases pieces.len(),
{
    if pieces.len() > 0 {
        lemma_inserted(c, plan, at, pieces.drop_last(), a, b);
        let before = abi::inserted(plan, at, c.mc, pieces.drop_last(), a, b);
        let p = pieces.last();
        let one = seq![abi::phys(abi::half(a, b, p.offset)), p.first];
        let two = seq![abi::phys(a), p.first, abi::phys(b), p.second->Some_0];
        lemma_copied(c, before, at, Insert::Before, one);
        lemma_copied(c, before, at, Insert::Before, two);
    }
}

proof fn lemma_value_inserted(
    c: Context,
    plan: PlanView,
    at: Ref,
    value: Ref,
    storage: abi::Storage,
)
    requires
        place::all_placed(c.ir@, c.env, plan),
        machine_known(c),
        edit::placed(c.ir@, at),
    ensures
        place::all_placed(c.ir@, c.env, abi::value_inserted(c, at, value, storage, plan)),
{
    if let abi::Storage::Registers(a, b) = storage {
        lemma_inserted(c, plan, at, abi::pieces_of(c, value), a, b);
    }
}

proof fn lemma_args(c: Context, plan: PlanView, at: Ref, args: Seq<Ref>, target: ArmAbi)
    requires
        place::all_placed(c.ir@, c.env, plan),
        machine_known(c),
        edit::placed(c.ir@, at),
    ensures
        place::all_placed(c.ir@, c.env, abi::args_inserted(c, at, args, target, plan)),
        place::all_placed(c.ir@, c.env, abi::params_extracted(c, at, args, target, plan)),
    decreases args.len(),
{
    if args.len() > 0 {
        lemma_args(c, plan, at, args.drop_last(), target);
        let storage = abi::storage_of_last(c, args, target);
        lemma_value_inserted(
            c,
            abi::args_inserted(c, at, args.drop_last(), target, plan),
            at,
            args.last(),
            storage,
        );
        lemma_extracted(
            c,
            abi::params_extracted(c, at, args.drop_last(), target, plan),
            at,
            Insert::Before,
            abi::pieces_of(c, args.last()),
            storage,
        );
    }
}

/// What the convention adds for calls, parameters and results is well placed.
pub proof fn calls_are_well_placed(
    target: ArmAbi,
    c: Context,
    at: Ref,
    skip: bool,
    args: Seq<Ref>,
    value: Ref,
    plan: PlanView,
)
    requires
        place::all_placed(c.ir@, c.env, plan),
        machine_known(c),
        edit::placed(c.ir@, at),
    ensures
        place::all_placed(c.ir@, c.env, target.called(c, at, skip, plan)),
        place::all_placed(c.ir@, c.env, target.params_taken(c, at, args, plan)),
        place::all_placed(c.ir@, c.env, target.returned(c, value, at, plan)),
{
    lemma_args(c, plan, at, args, target);
    let given = machine::passed(c.args(at), skip);
    lemma_args(c, plan, at, given, target);
    let storage = abi::ParamAllocator::new().allocated(abi::location_in(c, at), target).1;
    lemma_extracted(
        c,
        abi::args_inserted(c, at, given, target, plan),
        at,
        Insert::After,
        abi::pieces_of(c, at),
        storage,
    );
    let result = abi::ParamAllocator::new().allocated(abi::location_in(c, value), target).1;
    lemma_value_inserted(c, plan, at, value, result);
    let link = seq![
        ArgumentView::MCReg(Usage::Use, abi::phys(crate::backend::arm::isa::Reg::x30)),
    ];
    place::lemma_replace::<Arm>(
        c,
        abi::value_inserted(c, at, value, result, plan),
        at,
        c.isa,
        Arm::ret0,
        link,
    );
}

proof fn lemma_accessed(
    c: Context,
    plan: PlanView,
    at: Ref,
    load: bool,
    pieces: Seq<Piece>,
    ptr: MCReg,
)
    requires
        place::all_placed(c.ir@, c.env, plan),
        machine_known(c),
        edit::placed(c.ir@, at),
        forall|i: int| 0 <= i < pieces.len() ==> access::accessible(#[trigger] pieces[i]),
    ensures
        place::all_placed(
            c.ir@,
            c.env,
            access::accessed(plan, at, Insert::Before, load, c.isa, pieces, ptr),
        ),
    decreases pieces.len(),
{
    if pieces.len() > 0 {
        let rest = pieces.drop_last();
        assert(forall|i: int| 0 <= i < rest.len() ==> rest[i] == pieces[i]);
        lemma_accessed(c, plan, at, load, rest, ptr);
        let p = pieces[pieces.len() - 1];
        access::accesses_are_well_formed(load, p, ptr);
        place::lemma_add::<Arm>(
            c,
            access::accessed(plan, at, Insert::Before, load, c.isa, rest, ptr),
            at,
            Insert::Before,
            c.isa,
            access::access_op(load, p.primitive)->Some_0,
            access::access_args(load, p, ptr),
        );
    }
}

impl InstructionSelector {
    proof fn lemma_memory(
        self,
        s: IselView,
        c: Context,
        r: Ref,
        load: bool,
        value: Ref,
        ptr: Ref,
    )
        requires
            place::ok(s, c),
            place::bodies_hold(c),
            machine_known(c),
            s.fits(c),
            edit::placed(c.ir@, r),
            self.can_access(s, c, value, ptr),
        ensures
            place::ok(self.accessed(s, c, r, load, value, ptr), c),
    {
        place::lemma_use_removed(s, c, ptr, c.ir@.insts.len());
        let t = if self.is_decl(c.ir@, ptr) {
            s.without_use(c, ptr)
        } else {
            s
        };
        let pieces = abi::pieces_of(c, value);
        let address = self.address(s, c, ptr);
        lemma_accessed(c, t.plan, r, load, pieces, address);
        place::lemma_without(
            c,
            access::accessed(t.plan, r, Insert::Before, load, c.isa, pieces, address),
            r,
        );
    }
}

impl Selector for InstructionSelector {
    open spec fn known(&self, c: Context) -> bool {
        machine_known(c)
    }

    open spec fn step(&self, s: IselView, c: Context, block: BlockId, r: Ref) -> IselView {
        self.selected(s, c, r)
    }

    open spec fn can_step(&self, s: IselView, c: Context, block: BlockId, r: Ref) -> bool {
        self.can_select(s, c, r)
    }

    fn select_one(&self, ctx: &mut IselCtx, c: &Context, block: BlockId, r: Ref) {
        self.select(ctx, c, r);
    }

    proof fn known_machines_copy(&self, c: Context) {
    }

    proof fn steps_are_well_placed(&self, s: IselView, c: Context, block: BlockId, r: Ref) {
        let called = c.ir@.insts[r.0 as int];
        let args = c.args(r);
        place::lemma_without(c, s.plan, r);
        if called.function != Builtin::Undef.spec_function() {
            if dialect::spec_as_module::<Arith>(called, self.arith) is Some {
                lemma_number(s, c, r, arguments::int_at(args, 0));
            } else if dialect::spec_as_module::<Cf>(called, self.cf) is Some {
                calls_are_well_placed(
                    self.abi,
                    c,
                    r,
                    false,
                    Seq::empty(),
                    arguments::ref_at(args, 0),
                    s.plan,
                );
            } else if let Some(op) = dialect::spec_as_module::<Mem>(called, self.mem) {
                let ptr = arguments::ref_at(args, 0);
                if op is Load {
                    self.lemma_memory(s, c, r, true, r, ptr);
                } else {
                    self.lemma_memory(s, c, r, false, arguments::ref_at(args, 1), ptr);
                }
            } else {
                calls_are_well_placed(self.abi, c, r, false, Seq::empty(), r, s.plan);
                let t = s.planned(self.abi.called(c, r, false, s.plan));
                let one = seq![ArgumentView::FunctionId(called.function)];
                lemma_moved(t, c, r, Arm::bl_function, one);
            }
        }
    }
}

} // verus!
