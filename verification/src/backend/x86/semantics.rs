//! What the selected instructions do to the registers, and that it is what was selected
//! for.
use vstd::prelude::*;

use crate::backend::arguments;
use crate::backend::bytes;
use crate::backend::isel;
use crate::backend::isel::{ArithClass, IselView};
use crate::backend::size::Size;
use crate::backend::state;
use crate::backend::x86::abi::systemv;
use crate::backend::x86::abi::systemv::AbiClass;
use crate::backend::x86::codegen;
use crate::backend::x86::decode;
use crate::backend::x86::decode::{Condition, Operation};
use crate::backend::x86::isa::{Reg, X86};
use crate::backend::x86::isel as select;
use crate::backend::x86::isel::InstructionSelector;
use crate::ir::dialect;
use crate::ir::dialect::{Arith, Dialect, Mc};
use crate::ir::edit::{EditView, PlanView};
use crate::ir::ids::{FunctionId, Ref, TypeId};
use crate::ir::inst::{ArgumentView, MCReg, Usage};
use crate::ir::mc::inst as machine;
use crate::ir::mc::inst::Context;
use crate::ir::slots::Piece;
use crate::ir::modify::Insert;
use crate::ir::types::{Layout, Leaf, Primitive};

verus! {

/// The registers, what was compared last, what memory held at first, and what was written
/// to it since: where, how wide, and what.
pub struct Machine {
    pub regs: Map<MCReg, int>,
    pub compared: (int, int, Size),
    pub memory: spec_fn(int, Size) -> int,
    pub writes: Seq<(int, Size, int)>,
}

/// How many numbers there are of the size.
pub open spec fn span(size: Size) -> int {
    match size {
        Size::S8 => 0x100,
        Size::S16 => 0x1_0000,
        Size::S32 => 0x1_0000_0000,
        _ => 0x1_0000_0000_0000_0000,
    }
}

/// The low bits of a number.
#[verifier::opaque]
pub open spec fn low(v: int, size: Size) -> int {
    v % span(size)
}

/// The low bits of a number, read with a sign.
#[verifier::opaque]
pub open spec fn signed(v: int, size: Size) -> int {
    if low(v, size) >= span(size) / 2 {
        low(v, size) - span(size)
    } else {
        low(v, size)
    }
}

/// The register after its low bits were written. A write of 32 bits clears those above.
#[verifier::opaque]
pub open spec fn written(before: int, size: Size, v: int) -> int {
    match size {
        Size::S8 | Size::S16 => before - low(before, size) + low(v, size),
        _ => low(v, size),
    }
}

/// The condition holds of what was compared.
pub open spec fn holds(condition: Condition, compared: (int, int, Size)) -> Option<bool> {
    let (x, y, size) = compared;
    let (a, b) = (low(x, size), low(y, size));
    let (s, t) = (signed(x, size), signed(y, size));
    match condition {
        Condition::Equal => Some(a == b),
        Condition::NotEqual => Some(a != b),
        Condition::Carry => Some(a < b),
        Condition::NoCarry => Some(a >= b),
        Condition::BelowOrEqual => Some(a <= b),
        Condition::Above => Some(a > b),
        Condition::Less => Some(s < t),
        Condition::GreaterOrEqual => Some(s >= t),
        Condition::LessOrEqual => Some(s <= t),
        Condition::Greater => Some(s > t),
        _ => None,
    }
}

pub open spec fn reg_at(args: Seq<ArgumentView>, i: int) -> MCReg {
    args[i]->MCReg_1
}

impl Machine {
    pub open spec fn set(self, r: MCReg, v: int) -> Machine {
        Machine { regs: self.regs.insert(r, v), ..self }
    }

    pub open spec fn write(self, r: MCReg, size: Size, v: int) -> Machine {
        self.set(r, written(self.regs[r], size, v))
    }

    /// The value of an operand: a register, or a number that is extended by its sign.
    pub open spec fn operand(self, args: Seq<ArgumentView>, i: int) -> int {
        match args[i] {
            ArgumentView::Int32(n) => bytes::signed_32(n),
            ArgumentView::MCReg(_, r) => self.regs[r],
            _ => 0,
        }
    }

    /// The address that the four operands from `i` on stand for.
    pub open spec fn address(self, args: Seq<ArgumentView>, i: int) -> int {
        let index = reg_at(args, i + 2);
        low(
            self.regs[reg_at(args, i)] + bytes::signed_32(args[i + 1]->Int32_0) + (if index
                == systemv::phys(Reg::none) {
                0
            } else {
                self.regs[index] * args[i + 3]->Int32_0
            }),
            Size::S64,
        )
    }

    /// What an instruction with operands of the size does.
    pub open spec fn operated(
        self,
        operation: Operation,
        size: Size,
        source: Size,
        args: Seq<ArgumentView>,
    ) -> Machine {
        let a = reg_at(args, 0);
        let x = self.operand(args, 0);
        let y = self.operand(args, 1);
        let (u, v) = (low(x, size) as u64, low(y, size) as u64);
        match operation {
            Operation::Add => self.write(a, size, x + y),
            Operation::Sub => self.write(a, size, x - y),
            Operation::Or => self.write(a, size, (u | v) as int),
            Operation::And => self.write(a, size, (u & v) as int),
            Operation::Xor => self.write(a, size, (u ^ v) as int),
            Operation::Neg => self.write(a, size, -x),
            Operation::Shl => self.write(
                a,
                size,
                x * vstd::arithmetic::power2::pow2(y as nat),
            ),
            Operation::Shr => self.write(
                a,
                size,
                low(x, size) / vstd::arithmetic::power2::pow2(y as nat) as int,
            ),
            Operation::Imul => self.write(a, size, y * self.operand(args, 2)),
            Operation::Mov => if args.len() == 2 {
                self.write(a, size, y)
            } else if args[1] is MCReg {
                self.write(a, size, (self.memory)(self.address(args, 1), size))
            } else {
                Machine {
                    writes: self.writes.push(
                        (self.address(args, 0), size, low(self.operand(args, 4), size)),
                    ),
                    ..self
                }
            },
            Operation::Lea => self.write(a, size, self.address(args, 1)),
            Operation::Movzx => self.write(a, size, low(y, source)),
            Operation::Movsx => self.write(a, size, signed(y, source)),
            Operation::Cmp => Machine { compared: (x, y, size), ..self },
            Operation::Test => Machine { compared: ((u & v) as int, 0, size), ..self },
            Operation::SetIf(condition) => self.write(
                a,
                size,
                if holds(condition, self.compared)->Some_0 {
                    1
                } else {
                    0
                },
            ),
            _ => self,
        }
    }

    /// What an instruction does.
    pub open spec fn step(self, c: Context, function: FunctionId, args: Seq<ArgumentView>) -> Machine {
        if function == dialect::spec_function(c.mc, Mc::Copy) {
            self.set(reg_at(args, 0), self.regs[reg_at(args, 1)])
        } else if function.module == c.isa {
            match X86::spec_of_id(function.function.0) {
                Some(op) => self.operated(
                    decode::operation_named(op)->Some_0,
                    decode::size_named(op),
                    decode::source_size(op),
                    args,
                ),
                None => self,
            }
        } else {
            self
        }
    }

    /// What the changes put before an instruction and in its place.
    pub open spec fn run(self, c: Context, edits: Seq<EditView>, r: Ref) -> Machine
        decreases edits.len(),
    {
        if edits.len() == 0 {
            self
        } else {
            let m = self.run(c, edits.drop_last(), r);
            match edits.last() {
                EditView::Add { at, function, args, .. } => if at == r {
                    m.step(c, function, args)
                } else {
                    m
                },
                EditView::Replace { at, function, args, .. } => if at == r {
                    m.step(c, function, args)
                } else {
                    m
                },
                _ => m,
            }
        }
    }

    /// What was added by a selection does.
    pub open spec fn after(self, c: Context, s: IselView, t: IselView, r: Ref) -> Machine {
        self.run(c, t.plan.edits.skip(s.plan.edits.len() as int), r)
    }
}

/// Only the register was changed, and what was compared.
pub open spec fn changes_only(m: Machine, end: Machine, r: MCReg) -> bool {
    &&& forall|q: MCReg| q != r ==> #[trigger] end.regs[q] == m.regs[q]
    &&& end.writes == m.writes
    &&& end.memory == m.memory
}

/// Changes were only added.
pub open spec fn goes_on(s: IselView, t: IselView) -> bool {
    s.plan.edits.len() <= t.plan.edits.len()
}

proof fn lemma_put(
    m: Machine,
    c: Context,
    s: IselView,
    t: IselView,
    r: Ref,
    function: FunctionId,
    args: Seq<ArgumentView>,
)
    requires
        goes_on(s, t),
    ensures
        goes_on(s, t.put(r, function, args)),
        goes_on(s, t.replaced(r, function, args)),
        m.after(c, s, t.put(r, function, args), r) == m.after(c, s, t, r).step(c, function, args),
        m.after(c, s, t.replaced(r, function, args), r) == m.after(c, s, t, r).step(
            c,
            function,
            args,
        ),
{
    let n = s.plan.edits.len() as int;
    let before = t.plan.edits.skip(n);
    let put = t.put(r, function, args).plan.edits.skip(n);
    let replaced = t.replaced(r, function, args).plan.edits.skip(n);
    assert(put.drop_last() =~= before);
    assert(replaced.drop_last() =~= before);
}

/// Instructions that are not needed any more do nothing.
proof fn lemma_quiet(m: Machine, c: Context, s: IselView, t: IselView, at: Ref, r: Ref)
    requires
        goes_on(s, t),
    ensures
        goes_on(s, t.renamed(at)),
        goes_on(s, t.deleted(at)),
        m.after(c, s, t.renamed(at), r) == m.after(c, s, t, r),
        m.after(c, s, t.deleted(at), r) == m.after(c, s, t, r),
{
    let n = s.plan.edits.len() as int;
    assert(t.renamed(at).plan.edits.skip(n).drop_last() =~= t.plan.edits.skip(n));
    assert(t.deleted(at).plan.edits.skip(n).drop_last() =~= t.plan.edits.skip(n));
}

proof fn lemma_use_removed(
    m: Machine,
    c: Context,
    s: IselView,
    t: IselView,
    x: Ref,
    depth: nat,
    r: Ref,
)
    requires
        goes_on(s, t),
    ensures
        goes_on(s, t.use_removed(c, x, depth)),
        m.after(c, s, t.use_removed(c, x, depth), r) == m.after(c, s, t, r),
    decreases depth, 0nat,
{
    if depth > 0 && x.0 < t.counts.len() && t.counts[x.0 as int] != 0 {
        let count = (t.counts[x.0 as int] - 1) as u32;
        let u = IselView { counts: t.counts.update(x.0 as int, count), ..t };
        if count == 0 && c.env.def(c.ir@.insts[x.0 as int].function).pure_ {
            let refs = machine::passed(c.args(x), false);
            lemma_uses_removed(m, c, s, u, refs, (depth - 1) as nat, r);
            lemma_quiet(m, c, s, u.uses_removed(c, refs, (depth - 1) as nat), x, r);
        }
    }
}

proof fn lemma_uses_removed(
    m: Machine,
    c: Context,
    s: IselView,
    t: IselView,
    refs: Seq<Ref>,
    depth: nat,
    r: Ref,
)
    requires
        goes_on(s, t),
    ensures
        goes_on(s, t.uses_removed(c, refs, depth)),
        m.after(c, s, t.uses_removed(c, refs, depth), r) == m.after(c, s, t, r),
    decreases depth, refs.len() + 1,
{
    if refs.len() > 0 {
        lemma_uses_removed(m, c, s, t, refs.drop_last(), depth, r);
        lemma_use_removed(
            m,
            c,
            s,
            t.uses_removed(c, refs.drop_last(), depth),
            refs.last(),
            depth,
            r,
        );
    }
}

proof fn lemma_start(m: Machine, c: Context, s: IselView, r: Ref)
    ensures
        goes_on(s, s),
        m.after(c, s, s, r) == m,
{
    assert(s.plan.edits.skip(s.plan.edits.len() as int) =~= Seq::empty());
}

proof fn lemma_machine_step(m: Machine, c: Context, op: X86, args: Seq<ArgumentView>)
    requires
        c.mc != c.isa,
    ensures
        m.step(c, select::machine_op(c, op), args) == m.operated(
            decode::operation_named(op)->Some_0,
            decode::size_named(op),
            decode::source_size(op),
            args,
        ),
{
    op.ids_are_unique();
}

proof fn lemma_copied(m: Machine, c: Context, s: IselView, t: IselView, r: Ref, to: MCReg, from: MCReg)
    requires
        goes_on(s, t),
    ensures
        goes_on(s, t.copied(c, r, to, from)),
        m.after(c, s, t.copied(c, r, to, from), r) == m.after(c, s, t, r).set(
            to,
            m.after(c, s, t, r).regs[from],
        ),
{
    let args = machine::read_regs(seq![to, from]);
    lemma_put(m, c, s, t, r, dialect::spec_function(c.mc, Mc::Copy), args);
    assert(args[0] == ArgumentView::MCReg(Usage::Use, to));
    assert(args[1] == ArgumentView::MCReg(Usage::Use, from));
}

proof fn lemma_written(before: int, size: Size, v: int)
    ensures
        low(written(before, size, v), size) == low(v, size),
        low(low(v, size), size) == low(v, size),
        size is S32 || size is S64 || size is S128 ==> written(before, size, v) == low(v, size),
        0 <= low(v, size) < span(size),
{
    reveal(low);
    reveal(written);
}

/// The low bits of the low bits are the low bits.
proof fn lemma_narrow(v: int, small: Size, big: Size)
    requires
        span(small) <= span(big),
    ensures
        low(low(v, big), small) == low(v, small),
        low(signed(v, big), small) == low(v, small),
        0 <= low(v, small) < span(small),
        low(low(v, small), big) == low(v, small),
{
    reveal(low);
    reveal(signed);
    let n = span(small);
    let b = span(big);
    let k = b / n;
    assert(b == n * k) by {
        if n == 0x100 {
            assert(b == 0x100 * (b / 0x100));
        } else if n == 0x1_0000 {
            assert(b == 0x1_0000 * (b / 0x1_0000));
        } else if n == 0x1_0000_0000 {
            assert(b == 0x1_0000_0000 * (b / 0x1_0000_0000));
        } else {
            assert(b == n && k == 1);
        }
    }
    vstd::arithmetic::div_mod::lemma_mod_bound(v, n);
    vstd::arithmetic::div_mod::lemma_mod_bound(v, b);
    vstd::arithmetic::div_mod::lemma_mod_mod(v, n, k);
    let w = v % b;
    vstd::arithmetic::div_mod::lemma_mod_multiples_vanish(-k, w, n);
    assert(n * (-k) + w == w - b) by (nonlinear_arith)
        requires
            b == n * k,
    ;
    vstd::arithmetic::div_mod::lemma_small_mod((v % n) as nat, b as nat);
}

proof fn lemma_opposite(w: int, x: int, size: Size)
    requires
        low(w, size) == low(-x, size),
    ensures
        low(w + x, size) == 0,
{
    reveal(low);
}

proof fn lemma_sum(x: int, y: int, z: int, size: Size)
    requires
        low(y, size) == low(z, size),
    ensures
        low(x + y, size) == low(low(x, size) + low(z, size), size),
        low(x - y, size) == low(low(x, size) - low(z, size), size),
{
    reveal(low);
    let n = span(size);
    vstd::arithmetic::div_mod::lemma_add_mod_noop(x, y, n);
    vstd::arithmetic::div_mod::lemma_sub_mod_noop(x, y, n);
}

/// A number that is written in 32 bits, read with its sign.
proof fn lemma_extended(n: u64, size: Size)
    requires
        n <= u32::MAX,
        size is S64 || size is S128 ==> n < 0x8000_0000,
    ensures
        low(bytes::signed_32(n as u32), size) == low(n as int, size),
{
    reveal(low);
}

/// The result of an operation on two numbers.
pub open spec fn result(op: Arith, x: int, y: int) -> int {
    match op {
        Arith::Add => x + y,
        Arith::Sub => x - y,
        Arith::Or => (x as u64 | y as u64) as int,
        Arith::And => (x as u64 & y as u64) as int,
        Arith::Xor => (x as u64 ^ y as u64) as int,
        _ => 0,
    }
}

#[verifier::spinoff_prover]
#[verifier::rlimit(50)]
proof fn lemma_bin_ops(op: Arith, size: Size)
    requires
        !(size is S128),
        select::int_bin_ops(op) is Some,
    ensures
        ({
            let (rr, ri) = select::int_bin_ops(op)->Some_0.of_size(size);
            let operation = match op {
                Arith::Add => Operation::Add,
                Arith::Sub => Operation::Sub,
                Arith::Or => Operation::Or,
                Arith::And => Operation::And,
                _ => Operation::Xor,
            };
            &&& op == Arith::Add || op == Arith::Sub || op == Arith::Or || op == Arith::And || op
                == Arith::Xor
            &&& decode::operation_named(rr) == Some(operation)
            &&& decode::operation_named(ri) == Some(operation)
            &&& decode::size_named(rr) == size
            &&& decode::size_named(ri) == size
        }),
{
}

/// What is selected for an addition, a subtraction or a bitwise operation puts its result
/// in the register of the value, and changes no other register. A number that is added to
/// 64 bits has to be below 2^31: it is extended by its sign.
#[verifier::spinoff_prover]
#[verifier::rlimit(50)]
pub proof fn calculations_have_their_result(
    sel: InstructionSelector,
    s: IselView,
    c: Context,
    r: Ref,
    op: Arith,
    m: Machine,
)
    requires
        c.mc != c.isa,
        select::int_bin_ops(op) is Some,
        sel.can_select_arith(s, c, r, op),
        isel::reg(c, r) != isel::reg(c, arguments::ref_at(c.args(r), 1)) || sel.constant(
            c,
            arguments::ref_at(c.args(r), 1),
        ) is Some,
        isel::size_in(c, r) is S64 ==> (sel.constant(c, arguments::ref_at(c.args(r), 1)) matches Some(
            x,
        ) ==> x < 0x8000_0000),
    ensures
        ({
            let a = arguments::ref_at(c.args(r), 0);
            let b = arguments::ref_at(c.args(r), 1);
            let size = isel::size_in(c, r);
            let end = m.after(c, s, sel.arith_selected(s, c, r, op), r);
            let x = low(m.regs[isel::reg(c, a)], size);
            let y = low(
                match sel.constant(c, b) {
                    Some(n) => n as int,
                    None => m.regs[isel::reg(c, b)],
                },
                size,
            );
            &&& low(end.regs[isel::reg(c, r)], size) == low(result(op, x, y), size)
            &&& changes_only(m, end, isel::reg(c, r))
        }),
{
    let a = arguments::ref_at(c.args(r), 0);
    let b = arguments::ref_at(c.args(r), 1);
    let size = isel::size_in(c, r);
    let ops = select::int_bin_ops(op)->Some_0;
    let (rr, ri) = ops.of_size(size);
    let out = isel::reg(c, r);
    lemma_bin_ops(op, size);
    lemma_start(m, c, s, r);
    let t = s.copied(c, r, out, isel::reg(c, a));
    lemma_copied(m, c, s, s, r, out, isel::reg(c, a));
    let m1 = m.after(c, s, t, r);
    let x = m.regs[isel::reg(c, a)];
    assert(m1 == m.set(out, x));
    match sel.constant(c, b) {
        Some(n) => {
            let args = select::reg_and_number(ri, out, n as u32);
            let u = t.without_use(c, b);
            lemma_use_removed(m, c, s, t, b, c.ir@.insts.len(), r);
            lemma_put(m, c, s, u, r, select::machine_op(c, ri), args);
            lemma_machine_step(m1, c, ri, args);
            let y = bytes::signed_32(n as u32);
            lemma_extended(n, size);
            assert(m1.operand(args, 0) == x);
            assert(m1.operand(args, 1) == y);
            lemma_sum(x, y, n as int, size);
            lemma_results(m1.regs[out], op, x, y, size);
        },
        None => {
            let args = select::two_regs(rr, out, isel::reg(c, b));
            lemma_put(m, c, s, t, r, select::machine_op(c, rr), args);
            lemma_machine_step(m1, c, rr, args);
            let y = m.regs[isel::reg(c, b)];
            assert(m1.operand(args, 0) == x);
            assert(m1.operand(args, 1) == y);
            lemma_sum(x, y, y, size);
            lemma_results(m1.regs[out], op, x, y, size);
        },
    }
}

proof fn lemma_results(before: int, op: Arith, x: int, y: int, size: Size)
    ensures
        low(written(before, size, x + y), size) == low(low(x, size) + low(y, size), size),
        low(written(before, size, x - y), size) == low(low(x, size) - low(y, size), size),
        forall|v: int| low(#[trigger] written(before, size, v), size) == low(v, size),
{
    lemma_sum(x, y, y, size);
    lemma_written(before, size, x + y);
    lemma_written(before, size, x - y);
    assert forall|v: int| low(#[trigger] written(before, size, v), size) == low(v, size) by {
        lemma_written(before, size, v);
    }
}

/// The outcome of a comparison of two numbers.
pub open spec fn outcome(op: Arith, class: ArithClass, x: int, y: int, size: Size) -> bool {
    let (a, b) = if class is Signed {
        (signed(x, size), signed(y, size))
    } else {
        (low(x, size), low(y, size))
    };
    match op {
        Arith::Eq => a == b,
        Arith::NE => a != b,
        Arith::LT => a < b,
        Arith::GT => a > b,
        Arith::LE => a <= b,
        _ => a >= b,
    }
}

#[verifier::spinoff_prover]
#[verifier::rlimit(50)]
proof fn lemma_conditions(op: Arith, class: ArithClass, x: int, y: int, size: Size)
    requires
        select::comparison(op) is Some,
        !(class is Float),
        !(size is S128),
    ensures
        ({
            let set = select::comparison(op)->Some_0.of_class(class);
            &&& decode::operation_named(set) matches Some(Operation::SetIf(condition)) && holds(
                condition,
                (x, y, size),
            ) == Some(outcome(op, class, x, y, size))
            &&& decode::size_named(set) == Size::S8
            &&& decode::operation_named(select::compare_op(size)) == Some(Operation::Cmp)
            &&& decode::size_named(select::compare_op(size)) == size
        }),
{
    assert(signed(x, size) == signed(y, size) <==> low(x, size) == low(y, size)) by {
        reveal(low);
        reveal(signed);
    }
}

/// What is selected for a comparison puts 1 in the register of the value where the
/// comparison holds of the two numbers, and else 0.
#[verifier::spinoff_prover]
#[verifier::rlimit(50)]
pub proof fn comparisons_have_their_outcome(
    sel: InstructionSelector,
    s: IselView,
    c: Context,
    r: Ref,
    op: Arith,
    m: Machine,
)
    requires
        c.mc != c.isa,
        select::comparison(op) is Some,
        sel.can_select_arith(s, c, r, op),
    ensures
        ({
            let a = arguments::ref_at(c.args(r), 0);
            let b = arguments::ref_at(c.args(r), 1);
            let end = m.after(c, s, sel.arith_selected(s, c, r, op), r);
            let holds = outcome(
                op,
                isel::arith_class_in(c, a),
                m.regs[isel::reg(c, a)],
                m.regs[isel::reg(c, b)],
                isel::size_in(c, a),
            );
            &&& low(end.regs[isel::reg(c, r)], Size::S8) == if holds {
                1int
            } else {
                0
            }
            &&& changes_only(m, end, isel::reg(c, r))
        }),
{
    let a = arguments::ref_at(c.args(r), 0);
    let b = arguments::ref_at(c.args(r), 1);
    let size = isel::size_in(c, a);
    let class = isel::arith_class_in(c, a);
    let x = m.regs[isel::reg(c, a)];
    let y = m.regs[isel::reg(c, b)];
    let set = select::comparison(op)->Some_0.of_class(class);
    lemma_conditions(op, class, x, y, size);
    lemma_written(0, Size::S8, 1);
    assert(low(1, Size::S8) == 1 && low(0, Size::S8) == 0) by {
        reveal(low);
    }
    lemma_start(m, c, s, r);
    let cmp_args = select::two_regs(select::compare_op(size), isel::reg(c, a), isel::reg(c, b));
    lemma_put(m, c, s, s, r, select::machine_op(c, select::compare_op(size)), cmp_args);
    lemma_machine_step(m, c, select::compare_op(size), cmp_args);
    let t = select::compared(s, c, r, a, b);
    let m1 = m.after(c, s, t, r);
    assert(m1 == (Machine { compared: (x, y, size), ..m }));
    let args = select::one_reg(set, isel::reg(c, r));
    lemma_put(m, c, s, t, r, select::machine_op(c, set), args);
    lemma_machine_step(m1, c, set, args);
    assert(select::int_bin_ops(op) is None);
    lemma_written(m1.regs[isel::reg(c, r)], Size::S8, 1);
    lemma_written(m1.regs[isel::reg(c, r)], Size::S8, 0);
}

#[verifier::spinoff_prover]
#[verifier::rlimit(50)]
proof fn lemma_number_ops(size: Size)
    requires
        !(size is S128),
    ensures
        decode::operation_named(select::number_op(size)) == Some(Operation::Mov),
        decode::size_named(select::number_op(size)) == size,
        decode::operation_named(select::negate_op(size)) == Some(Operation::Neg),
        decode::size_named(select::negate_op(size)) == size,
        decode::operation_named(X86::xor_ri8) == Some(Operation::Xor),
        decode::size_named(X86::xor_ri8) == Size::S8,
        decode::operation_named(X86::imul_rri16) == Some(Operation::Imul),
        decode::size_named(X86::imul_rri16) == Size::S16,
        decode::operation_named(X86::imul_rri64) == Some(Operation::Imul),
        decode::size_named(X86::imul_rri64) == Size::S64,
        decode::operation_named(X86::add_rr64) == Some(Operation::Add),
        decode::size_named(X86::add_rr64) == Size::S64,
        decode::operation_named(X86::add_ri64) == Some(Operation::Add),
        decode::size_named(X86::add_ri64) == Size::S64,
        decode::operation_named(X86::lea_rm64) == Some(Operation::Lea),
        decode::size_named(X86::lea_rm64) == Size::S64,
        decode::operation_named(X86::test_rr8) == Some(Operation::Test),
        decode::size_named(X86::test_rr8) == Size::S8,
{
}

/// What is selected for a number puts it in the register of the value. A number of 64 bits
/// has to be below 2^31.
#[verifier::spinoff_prover]
#[verifier::rlimit(50)]
pub proof fn numbers_are_set(
    sel: InstructionSelector,
    s: IselView,
    c: Context,
    r: Ref,
    m: Machine,
)
    requires
        c.mc != c.isa,
        sel.can_select_arith(s, c, r, Arith::Int),
        isel::size_in(c, r) is S64 ==> arguments::int_at(c.args(r), 0) < 0x8000_0000,
    ensures
        ({
            let end = m.after(c, s, sel.arith_selected(s, c, r, Arith::Int), r);
            let size = isel::size_in(c, r);
            &&& low(end.regs[isel::reg(c, r)], size) == low(
                arguments::int_at(c.args(r), 0) as int,
                size,
            )
            &&& changes_only(m, end, isel::reg(c, r))
        }),
{
    let size = isel::size_in(c, r);
    let x = arguments::int_at(c.args(r), 0);
    let op = select::number_op(size);
    let n = select::low_bits(x, size);
    let args = select::reg_and_number(op, isel::reg(c, r), n);
    lemma_number_ops(size);
    lemma_start(m, c, s, r);
    lemma_put(m, c, s, s, r, select::machine_op(c, op), args);
    lemma_machine_step(m, c, op, args);
    lemma_written(m.regs[isel::reg(c, r)], size, bytes::signed_32(n));
    assert(low(bytes::signed_32(n), size) == low(x as int, size)) by {
        reveal(low);
    }
}

/// What is selected for the negation of a number of 8 or 16 bits puts its negative in the
/// register of the value.
#[verifier::spinoff_prover]
#[verifier::rlimit(50)]
pub proof fn small_numbers_are_negated(
    sel: InstructionSelector,
    s: IselView,
    c: Context,
    r: Ref,
    m: Machine,
)
    requires
        c.mc != c.isa,
        sel.can_select_arith(s, c, r, Arith::Neg),
        isel::size_in(c, r) is S8 || isel::size_in(c, r) is S16,
    ensures
        ({
            let a = arguments::ref_at(c.args(r), 0);
            let end = m.after(c, s, sel.arith_selected(s, c, r, Arith::Neg), r);
            let size = isel::size_in(c, r);
            &&& low(end.regs[isel::reg(c, r)] + m.regs[isel::reg(c, a)], size) == 0
            &&& changes_only(m, end, isel::reg(c, r))
        }),
{
    let a = arguments::ref_at(c.args(r), 0);
    let size = isel::size_in(c, r);
    let op = select::negate_op(size);
    let out = isel::reg(c, r);
    let args = select::one_reg(op, out);
    lemma_number_ops(size);
    lemma_start(m, c, s, r);
    lemma_copied(m, c, s, s, r, out, isel::reg(c, a));
    let t = s.copied(c, r, out, isel::reg(c, a));
    let m1 = m.after(c, s, t, r);
    lemma_put(m, c, s, t, r, select::machine_op(c, op), args);
    lemma_machine_step(m1, c, op, args);
    assert(m1.operand(args, 0) == m.regs[isel::reg(c, a)]);
    lemma_written(m1.regs[out], size, -m.regs[isel::reg(c, a)]);
    lemma_opposite(
        m1.operated(Operation::Neg, size, size, args).regs[out],
        m.regs[isel::reg(c, a)],
        size,
    );
}

proof fn lemma_flipped(u: u64)
    requires
        u <= 1,
    ensures
        u ^ 1 == 1 - u,
{
    assert(u <= 1 ==> u ^ 1 == 1 - u) by (bit_vector);
}

/// What is selected for the opposite of a truth value puts 1 in the register of the value
/// for 0, and 0 for 1.
#[verifier::spinoff_prover]
#[verifier::rlimit(50)]
pub proof fn truth_values_are_inverted(
    sel: InstructionSelector,
    s: IselView,
    c: Context,
    r: Ref,
    m: Machine,
)
    requires
        c.mc != c.isa,
        sel.can_select_arith(s, c, r, Arith::Not),
        low(m.regs[isel::reg(c, arguments::ref_at(c.args(r), 0))], Size::S8) <= 1,
    ensures
        ({
            let a = arguments::ref_at(c.args(r), 0);
            let end = m.after(c, s, sel.arith_selected(s, c, r, Arith::Not), r);
            &&& low(end.regs[isel::reg(c, r)], Size::S8) == 1 - low(
                m.regs[isel::reg(c, a)],
                Size::S8,
            )
            &&& changes_only(m, end, isel::reg(c, r))
        }),
{
    let a = arguments::ref_at(c.args(r), 0);
    let out = isel::reg(c, r);
    let args = select::reg_and_number(X86::xor_ri8, out, 1);
    lemma_number_ops(Size::S8);
    lemma_start(m, c, s, r);
    lemma_copied(m, c, s, s, r, out, isel::reg(c, a));
    let t = s.copied(c, r, out, isel::reg(c, a));
    let m1 = m.after(c, s, t, r);
    lemma_put(m, c, s, t, r, select::machine_op(c, X86::xor_ri8), args);
    lemma_machine_step(m1, c, X86::xor_ri8, args);
    lemma_written(0, Size::S8, m.regs[isel::reg(c, a)]);
    assert(low(1, Size::S8) == 1 && low(0, Size::S8) == 0) by {
        reveal(low);
    }
    let u = low(m.regs[isel::reg(c, a)], Size::S8) as u64;
    assert(m1.operand(args, 0) == m.regs[isel::reg(c, a)]);
    assert(m1.operand(args, 1) == 1);
    lemma_flipped(u);
    lemma_written(m1.regs[out], Size::S8, (u ^ 1) as int);
}

/// What is selected for a product puts it in the register of the value: it is taken of 16
/// bits, which is enough for 8 too.
#[verifier::spinoff_prover]
#[verifier::rlimit(50)]
pub proof fn products_have_their_value(
    sel: InstructionSelector,
    s: IselView,
    c: Context,
    r: Ref,
    m: Machine,
)
    requires
        c.mc != c.isa,
        sel.can_select_arith(s, c, r, Arith::Mul),
    ensures
        ({
            let a = arguments::ref_at(c.args(r), 0);
            let b = arguments::ref_at(c.args(r), 1);
            let end = m.after(c, s, sel.arith_selected(s, c, r, Arith::Mul), r);
            let size = isel::size_in(c, r);
            &&& low(end.regs[isel::reg(c, r)], size) == low(
                m.regs[isel::reg(c, a)] * sel.constant(c, b)->Some_0,
                size,
            )
            &&& changes_only(m, end, isel::reg(c, r))
        }),
{
    let a = arguments::ref_at(c.args(r), 0);
    let b = arguments::ref_at(c.args(r), 1);
    let k = sel.constant(c, b)->Some_0 as int;
    let n = (sel.constant(c, b)->Some_0 % 0x1_0000_0000) as u32;
    let out = isel::reg(c, r);
    let op = X86::imul_rri16;
    let args = select::regs_and_number(op, out, isel::reg(c, a), n);
    let size = isel::size_in(c, r);
    lemma_number_ops(Size::S16);
    lemma_start(m, c, s, r);
    lemma_put(m, c, s, s, r, select::machine_op(c, op), args);
    lemma_machine_step(m, c, op, args);
    lemma_quiet(m, c, s, s.put(r, select::machine_op(c, op), args), r, r);
    let x = m.regs[isel::reg(c, a)];
    let y = bytes::signed_32(n);
    assert(m.operand(args, 1) == x);
    assert(m.operand(args, 2) == y);
    lemma_written(m.regs[out], Size::S16, x * y);
    assert(k % 0x1_0000 == y % 0x1_0000);
    vstd::arithmetic::div_mod::lemma_mul_mod_noop_right(x, y, 0x1_0000);
    vstd::arithmetic::div_mod::lemma_mul_mod_noop_right(x, k, 0x1_0000);
    assert(low(x * y, Size::S16) == low(x * k, Size::S16)) by {
        reveal(low);
    }
    assert(size is S8 || size is S16);
    let w = written(m.regs[out], Size::S16, x * y);
    lemma_narrow(w, Size::S8, Size::S16);
    lemma_narrow(x * k, Size::S8, Size::S16);
}

/// The cast goes from signed 16 bits to 32, where only the lowest byte is taken.
pub open spec fn loses_bits(class: ArithClass, from: Size, to: Size) -> bool {
    class is Signed && from is S16 && to is S32
}

#[verifier::spinoff_prover]
#[verifier::rlimit(80)]
proof fn lemma_casts(class: ArithClass, from: Size, to: Size, before: int, x: int)
    requires
        !(class is Float),
        !(from is S128),
        !(to is S128),
        !loses_bits(class, from, to),
    ensures
        ({
            let op = select::cast_op(class, from, to);
            let size = decode::size_named(op);
            let source = decode::source_size(op);
            let v = match decode::operation_named(op)->Some_0 {
                Operation::Movzx => low(x, source),
                Operation::Movsx => signed(x, source),
                _ => x,
            };
            &&& decode::operation_named(op) == Some(Operation::Mov) || decode::operation_named(op)
                == Some(Operation::Movzx) || decode::operation_named(op) == Some(Operation::Movsx)
            &&& low(written(before, size, v), to) == low(
                if class is Signed {
                    signed(x, from)
                } else {
                    low(x, from)
                },
                to,
            )
        }),
{
    let op = select::cast_op(class, from, to);
    let source = decode::source_size(op);
    let size = decode::size_named(op);
    let v = match decode::operation_named(op)->Some_0 {
        Operation::Movzx => low(x, source),
        Operation::Movsx => signed(x, source),
        _ => x,
    };
    lemma_written(before, size, v);
    if span(to) <= span(from) {
        lemma_narrow(x, to, from);
    } else {
        lemma_narrow(x, from, Size::S32);
        lemma_narrow(x, from, Size::S64);
        lemma_narrow(v, to, Size::S64);
        if !(to is S64) {
            lemma_narrow(v, to, Size::S32);
        }
    }
}

/// What is selected for a cast puts the number in the register of the value, cut to the new
/// size or extended to it by zeros or by its sign.
#[verifier::spinoff_prover]
#[verifier::rlimit(50)]
pub proof fn casts_keep_the_number(
    sel: InstructionSelector,
    s: IselView,
    c: Context,
    r: Ref,
    m: Machine,
)
    requires
        c.mc != c.isa,
        sel.can_select_arith(s, c, r, Arith::CastInt),
        !loses_bits(
            isel::arith_class_in(c, arguments::ref_at(c.args(r), 0)),
            isel::size_in(c, arguments::ref_at(c.args(r), 0)),
            isel::size_in(c, r),
        ),
    ensures
        ({
            let a = arguments::ref_at(c.args(r), 0);
            let end = m.after(c, s, sel.arith_selected(s, c, r, Arith::CastInt), r);
            let x = m.regs[isel::reg(c, a)];
            &&& low(end.regs[isel::reg(c, r)], isel::size_in(c, r)) == low(
                if isel::arith_class_in(c, a) is Signed {
                    signed(x, isel::size_in(c, a))
                } else {
                    low(x, isel::size_in(c, a))
                },
                isel::size_in(c, r),
            )
            &&& changes_only(m, end, isel::reg(c, r))
        }),
{
    let a = arguments::ref_at(c.args(r), 0);
    let (class, from, to) = (
        isel::arith_class_in(c, a),
        isel::size_in(c, a),
        isel::size_in(c, r),
    );
    let op = select::cast_op(class, from, to);
    let args = select::two_regs(op, isel::reg(c, r), isel::reg(c, a));
    lemma_casts(class, from, to, m.regs[isel::reg(c, r)], m.regs[isel::reg(c, a)]);
    lemma_start(m, c, s, r);
    lemma_put(m, c, s, s, r, select::machine_op(c, op), args);
    lemma_machine_step(m, c, op, args);
    assert(m.operand(args, 1) == m.regs[isel::reg(c, a)]);
}

/// A branch that is not taken by the outcome of a comparison goes by a truth value: the jump
/// for its first way is taken where it is not 0, and the other one where it is.
pub proof fn truth_values_decide_branches(c: Context, cond: MCReg, m: Machine)
    requires
        c.mc != c.isa,
    ensures
        ({
            let end = m.step(
                c,
                select::machine_op(c, X86::test_rr8),
                select::two_regs(X86::test_rr8, cond, cond),
            );
            let value = low(m.regs[cond], Size::S8);
            &&& end.regs == m.regs
            &&& taken(X86::jne, end) == Some(value != 0)
            &&& taken(X86::je, end) == Some(value == 0)
        }),
{
    lemma_number_ops(Size::S8);
    let args = select::two_regs(X86::test_rr8, cond, cond);
    lemma_machine_step(m, c, X86::test_rr8, args);
    let value = low(m.regs[cond], Size::S8);
    lemma_written(0, Size::S8, m.regs[cond]);
    let u = value as u64;
    assert(m.operand(args, 0) == m.regs[cond]);
    assert(m.operand(args, 1) == m.regs[cond]);
    assert(u & u == u) by (bit_vector);
    assert(low(0, Size::S8) == 0) by {
        reveal(low);
    }
}

/// The jump is taken.
pub open spec fn taken(jump: X86, m: Machine) -> Option<bool> {
    match decode::jump_named(jump) {
        Some(Operation::JumpIf(condition)) => holds(condition, m.compared),
        _ => None,
    }
}

/// A branch that is taken by the outcome of a comparison of signed numbers, or by whether two
/// numbers are equal, goes by that outcome: the jump for its first way is taken where the
/// comparison holds, and the other one where it does not.
#[verifier::spinoff_prover]
#[verifier::rlimit(50)]
pub proof fn comparisons_decide_branches(
    c: Context,
    op: Arith,
    s: IselView,
    before: Ref,
    a: Ref,
    b: Ref,
    m: Machine,
)
    requires
        c.mc != c.isa,
        select::fused_jumps(op) is Some,
        isel::is_number(c, a),
        isel::arith_class_in(c, a) is Signed || op is Eq,
    ensures
        ({
            let end = m.after(c, s, select::compared(s, c, before, a, b), before);
            let (jump, inverse) = select::fused_jumps(op)->Some_0;
            let holds = outcome(
                op,
                isel::arith_class_in(c, a),
                m.regs[isel::reg(c, a)],
                m.regs[isel::reg(c, b)],
                isel::size_in(c, a),
            );
            &&& end.regs == m.regs
            &&& taken(jump, end) == Some(holds)
            &&& taken(inverse, end) == Some(!holds)
        }),
{
    let size = isel::size_in(c, a);
    let class = isel::arith_class_in(c, a);
    let x = m.regs[isel::reg(c, a)];
    let y = m.regs[isel::reg(c, b)];
    lemma_conditions(op, class, x, y, size);
    assert(signed(x, size) == signed(y, size) <==> low(x, size) == low(y, size)) by {
        reveal(low);
        reveal(signed);
    }
    lemma_start(m, c, s, before);
    let args = select::two_regs(select::compare_op(size), isel::reg(c, a), isel::reg(c, b));
    lemma_put(m, c, s, s, before, select::machine_op(c, select::compare_op(size)), args);
    lemma_machine_step(m, c, select::compare_op(size), args);
}

/// An address at a distance from another is their sum.
#[verifier::spinoff_prover]
#[verifier::rlimit(50)]
pub proof fn distances_are_added(s: IselView, c: Context, r: Ref, ptr: Ref, offset: u64, m: Machine)
    requires
        c.mc != c.isa,
        offset < 0x8000_0000,
    ensures
        ({
            let end = m.after(c, s, codegen::offset_added(s, c, r, ptr, offset), r);
            &&& low(end.regs[isel::reg(c, r)], Size::S64) == low(
                m.regs[isel::reg(c, ptr)] + offset,
                Size::S64,
            )
            &&& changes_only(m, end, isel::reg(c, r))
        }),
{
    let out = isel::reg(c, r);
    let t = s.copied(c, r, out, isel::reg(c, ptr));
    let args = select::reg_and_number(X86::add_ri64, out, offset as u32);
    lemma_number_ops(Size::S64);
    lemma_start(m, c, s, r);
    lemma_copied(m, c, s, s, r, out, isel::reg(c, ptr));
    let m1 = m.after(c, s, t, r);
    lemma_quiet(m, c, s, t, r, r);
    lemma_put(m, c, s, t, r, select::machine_op(c, X86::add_ri64), args);
    lemma_machine_step(m1, c, X86::add_ri64, args);
    assert(m1.operand(args, 0) == m.regs[isel::reg(c, ptr)]);
    assert(m1.operand(args, 1) == offset);
    lemma_written(m1.regs[out], Size::S64, m.regs[isel::reg(c, ptr)] + offset);
}

/// The address of an element of an array lies as many times the distance between elements
/// behind the array as its index says.
#[verifier::spinoff_prover]
#[verifier::rlimit(50)]
pub proof fn elements_follow_each_other(
    s: IselView,
    c: Context,
    r: Ref,
    array: Ref,
    layout: Layout,
    index: Ref,
    m: Machine,
)
    requires
        c.mc != c.isa,
        0 <= codegen::stride(layout) < 0x8000_0000,
        isel::reg(c, r) != isel::reg(c, array),
    ensures
        ({
            let end = m.after(c, s, codegen::indexed(s, c, r, array, layout, index), r);
            &&& low(end.regs[isel::reg(c, r)], Size::S64) == low(
                m.regs[isel::reg(c, array)] + m.regs[isel::reg(c, index)] * codegen::stride(layout),
                Size::S64,
            )
            &&& changes_only(m, end, isel::reg(c, r))
        }),
{
    let out = isel::reg(c, r);
    let n = codegen::stride(layout);
    let args = select::regs_and_number(X86::imul_rri64, out, isel::reg(c, index), n as u32);
    lemma_number_ops(Size::S64);
    lemma_start(m, c, s, r);
    lemma_put(m, c, s, s, r, select::machine_op(c, X86::imul_rri64), args);
    lemma_machine_step(m, c, X86::imul_rri64, args);
    let t = s.put(r, select::machine_op(c, X86::imul_rri64), args);
    let m1 = m.after(c, s, t, r);
    let product = m.regs[isel::reg(c, index)] * n;
    assert(m.operand(args, 1) == m.regs[isel::reg(c, index)]);
    assert(m.operand(args, 2) == n);
    lemma_written(m.regs[out], Size::S64, product);
    let sum_args = select::two_regs(X86::add_rr64, out, isel::reg(c, array));
    lemma_put(m, c, s, t, r, select::machine_op(c, X86::add_rr64), sum_args);
    lemma_machine_step(m1, c, X86::add_rr64, sum_args);
    let base = m.regs[isel::reg(c, array)];
    assert(m1.operand(sum_args, 0) == low(product, Size::S64));
    assert(m1.operand(sum_args, 1) == base);
    lemma_written(m1.regs[out], Size::S64, low(product, Size::S64) + base);
    lemma_written(0, Size::S64, product);
    lemma_sum(low(product, Size::S64), base, base, Size::S64);
    lemma_sum(product, base, base, Size::S64);
    assert(product + base == base + product);
}

/// The size of a primitive value that one register holds.
pub open spec fn size_of(p: Primitive) -> Size {
    if p.byte_size() == 1 {
        Size::S8
    } else if p.byte_size() == 2 {
        Size::S16
    } else if p.byte_size() == 4 {
        Size::S32
    } else {
        Size::S64
    }
}

#[verifier::spinoff_prover]
#[verifier::rlimit(50)]
proof fn lemma_memory_ops(p: Primitive)
    ensures
        decode::operation_named(codegen::load_op(p)) == Some(Operation::Mov),
        decode::operation_named(codegen::store_op(p)) == Some(Operation::Mov),
        decode::size_named(codegen::load_op(p)) == size_of(p),
        decode::size_named(codegen::store_op(p)) == size_of(p),
{
}

/// Where a piece of a value lies.
pub open spec fn place_of(m: Machine, ptr: MCReg, p: Piece) -> int {
    low(m.regs[ptr] + p.offset, Size::S64)
}

/// Each piece of a value that is read is put in its register, from where it lies behind the
/// address.
#[verifier::spinoff_prover]
#[verifier::rlimit(50)]
pub proof fn pieces_are_read(
    s: IselView,
    c: Context,
    r: Ref,
    ptr: MCReg,
    pieces: Seq<Piece>,
    n: int,
    m: Machine,
)
    requires
        c.mc != c.isa,
        0 <= n <= pieces.len(),
        forall|i: int|
            0 <= i < pieces.len() ==> (#[trigger] pieces[i]).offset < 0x8000_0000 && pieces[i].first
                != ptr,
        forall|i: int, j: int|
            0 <= i < j < pieces.len() ==> (#[trigger] pieces[i]).first != (
            #[trigger] pieces[j]).first,
    ensures
        ({
            let t = codegen::pieces_loaded(s, c, r, ptr, pieces, n);
            let end = m.after(c, s, t, r);
            &&& goes_on(s, t)
            &&& end.regs[ptr] == m.regs[ptr]
            &&& end.memory == m.memory
            &&& end.writes == m.writes
            &&& forall|i: int|
                0 <= i < n ==> low(
                    end.regs[(#[trigger] pieces[i]).first],
                    size_of(pieces[i].primitive),
                ) == low(
                    (m.memory)(place_of(m, ptr, pieces[i]), size_of(pieces[i].primitive)),
                    size_of(pieces[i].primitive),
                )
        }),
    decreases n,
{
    lemma_start(m, c, s, r);
    if n > 0 {
        pieces_are_read(s, c, r, ptr, pieces, n - 1, m);
        let p = pieces[n - 1];
        let op = codegen::load_op(p.primitive);
        let t = codegen::pieces_loaded(s, c, r, ptr, pieces, n - 1);
        let args = select::reg_and_memory(op, p.first, ptr, p.offset as u32);
        let m1 = m.after(c, s, t, r);
        lemma_memory_ops(p.primitive);
        lemma_put(m, c, s, t, r, select::machine_op(c, op), args);
        lemma_machine_step(m1, c, op, args);
        let size = size_of(p.primitive);
        let place = place_of(m, ptr, p);
        assert(m1.address(args, 1) == place);
        lemma_written(m1.regs[p.first], size, (m.memory)(place, size));
        let end = m.after(c, s, t.put(r, select::machine_op(c, op), args), r);
        assert forall|i: int| 0 <= i < n implies low(
            end.regs[(#[trigger] pieces[i]).first],
            size_of(pieces[i].primitive),
        ) == low(
            (m.memory)(place_of(m, ptr, pieces[i]), size_of(pieces[i].primitive)),
            size_of(pieces[i].primitive),
        ) by {
            if i < n - 1 {
                assert(pieces[i].first != pieces[n - 1].first);
            }
        }
    }
}

/// Each piece of a value that is written goes from its register to where it lies behind the
/// address, in the order of the pieces.
#[verifier::spinoff_prover]
#[verifier::rlimit(50)]
pub proof fn pieces_are_written(
    s: IselView,
    c: Context,
    r: Ref,
    ptr: MCReg,
    pieces: Seq<Piece>,
    n: int,
    m: Machine,
)
    requires
        c.mc != c.isa,
        0 <= n <= pieces.len(),
        forall|i: int| 0 <= i < pieces.len() ==> (#[trigger] pieces[i]).offset < 0x8000_0000,
    ensures
        ({
            let t = codegen::pieces_stored(s, c, r, ptr, pieces, n);
            let end = m.after(c, s, t, r);
            &&& goes_on(s, t)
            &&& end.regs == m.regs
            &&& end.writes =~= m.writes + Seq::new(
                n as nat,
                |i: int|
                    (
                        place_of(m, ptr, pieces[i]),
                        size_of(pieces[i].primitive),
                        low(m.regs[pieces[i].first], size_of(pieces[i].primitive)),
                    ),
            )
        }),
    decreases n,
{
    lemma_start(m, c, s, r);
    if n > 0 {
        pieces_are_written(s, c, r, ptr, pieces, n - 1, m);
        let p = pieces[n - 1];
        let op = codegen::store_op(p.primitive);
        let t = codegen::pieces_stored(s, c, r, ptr, pieces, n - 1);
        let args = select::memory_and_reg(op, ptr, p.offset as u32, p.first);
        let m1 = m.after(c, s, t, r);
        lemma_memory_ops(p.primitive);
        lemma_put(m, c, s, t, r, select::machine_op(c, op), args);
        lemma_machine_step(m1, c, op, args);
        assert(m1.address(args, 0) == place_of(m, ptr, p));
        assert(m1.operand(args, 4) == m.regs[p.first]);
    }
}

/// A variable lies below the base of the frame, as far as the frame reaches with it, and
/// above what was in the frame before. Its address is a multiple of its alignment away from
/// the base.
#[verifier::spinoff_prover]
#[verifier::rlimit(50)]
pub proof fn variables_have_room(s: IselView, c: Context, r: Ref, layout: Layout, m: Machine)
    requires
        c.mc != c.isa,
        codegen::can_declare(s, c, r, layout),
    ensures
        ({
            let t = codegen::declared(s, c, r, layout);
            let end = m.after(c, s, t, r);
            &&& low(end.regs[isel::reg(c, r)], Size::S64) == low(
                m.regs[systemv::phys(Reg::rbp)] - t.stack_size,
                Size::S64,
            )
            &&& t.stack_size >= s.stack_size + layout.size
            &&& t.stack_size as int % layout.align as int == 0
            &&& t.stack_size < s.stack_size + layout.size + layout.align
            &&& changes_only(m, end, isel::reg(c, r))
        }),
{
    let t = codegen::declared(s, c, r, layout);
    let offset = state::rounded_up(
        s.stack_size + layout.size,
        layout.align as int,
    );
    state::rounding_up(s.stack_size + layout.size, layout.align as int);
    let args = select::reg_and_memory(
        X86::lea_rm64,
        isel::reg(c, r),
        systemv::phys(Reg::rbp),
        codegen::minus(offset as u32),
    );
    lemma_number_ops(Size::S64);
    lemma_start(m, c, s, r);
    lemma_put(m, c, s, s, r, select::machine_op(c, X86::lea_rm64), args);
    lemma_machine_step(m, c, X86::lea_rm64, args);
    assert(t.plan == s.replaced(r, select::machine_op(c, X86::lea_rm64), args).plan);
    assert(bytes::signed_32(codegen::minus(offset as u32)) == -offset);
    lemma_written(m.regs[isel::reg(c, r)], Size::S64, m.address(args, 1));
    lemma_narrow(m.regs[systemv::phys(Reg::rbp)] - offset, Size::S64, Size::S64);
}

impl Machine {
    /// What was added to a plan does.
    pub open spec fn carried_out(self, c: Context, before: PlanView, after: PlanView, r: Ref) -> Machine {
        self.run(c, after.edits.skip(before.edits.len() as int), r)
    }
}

proof fn lemma_add(
    m: Machine,
    c: Context,
    before: PlanView,
    plan: PlanView,
    r: Ref,
    position: Insert,
    function: FunctionId,
    args: Seq<ArgumentView>,
    ty: TypeId,
)
    requires
        before.edits.len() <= plan.edits.len(),
    ensures
        ({
            let e = EditView::Add { at: r, position, function, args, ty };
            m.carried_out(c, before, plan.with(e), r) == m.carried_out(c, before, plan, r).step(
                c,
                function,
                args,
            )
        }),
{
    let e = EditView::Add { at: r, position, function, args, ty };
    let n = before.edits.len() as int;
    assert(plan.with(e).edits.skip(n).drop_last() =~= plan.edits.skip(n));
}

#[verifier::spinoff_prover]
#[verifier::rlimit(50)]
proof fn lemma_shift_ops()
    ensures
        decode::operation_named(X86::mov_rr64) == Some(Operation::Mov),
        decode::size_named(X86::mov_rr64) == Size::S64,
        decode::operation_named(X86::or_rr64) == Some(Operation::Or),
        decode::size_named(X86::or_rr64) == Size::S64,
        decode::operation_named(X86::shl_ri64) == Some(Operation::Shl),
        decode::size_named(X86::shl_ri64) == Size::S64,
        decode::operation_named(X86::shr_ri64) == Some(Operation::Shr),
        decode::size_named(X86::shr_ri64) == Size::S64,
{
}

/// How many values a number of bytes has.
pub open spec fn byte_values(n: int) -> int {
    vstd::arithmetic::power2::pow2((8 * n) as nat) as int
}

/// A piece of a value that was passed in a register is what stands in the register from the byte
/// on where the piece lies.
#[verifier::spinoff_prover]
#[verifier::rlimit(50)]
pub proof fn pieces_are_taken_from_their_bytes(
    plan: PlanView,
    c: Context,
    r: Ref,
    position: Insert,
    to: MCReg,
    from: Reg,
    n: int,
    m: Machine,
)
    requires
        c.mc != c.isa,
        0 <= n < 8,
    ensures
        ({
            let after = systemv::extracted(plan, c, r, position, to, from, n);
            let end = m.carried_out(c, plan, after, r);
            &&& low(end.regs[to], Size::S64) == low(m.regs[systemv::phys(from)], Size::S64)
                / byte_values(n)
            &&& changes_only(m, end, to)
        }),
{
    let x = m.regs[systemv::phys(from)];
    lemma_shift_ops();
    vstd::arithmetic::power2::lemma2_to64();
    vstd::arithmetic::power2::lemma_pow2_pos((8 * n) as nat);
    lemma_written(0, Size::S64, x);
    assert(plan.edits.skip(plan.edits.len() as int) =~= Seq::empty());
    if n == 0 {
        let args = machine::read_regs(seq![to, systemv::phys(from)]);
        lemma_add(
            m,
            c,
            plan,
            plan,
            r,
            position,
            dialect::spec_function(c.mc, Mc::Copy),
            args,
            TypeId::unit(),
        );
        assert(args[0] == ArgumentView::MCReg(Usage::Use, to));
        assert(args[1] == ArgumentView::MCReg(Usage::Use, systemv::phys(from)));
        assert(byte_values(0) == 1);
    } else {
        let args = seq![
            ArgumentView::MCReg(Usage::Def, to),
            ArgumentView::MCReg(Usage::Use, systemv::phys(from)),
        ];
        let op = dialect::spec_function(c.isa, X86::mov_rr64);
        lemma_add(m, c, plan, plan, r, position, op, args, TypeId::unit());
        lemma_machine_step(m, c, X86::mov_rr64, args);
        assert(m.operand(args, 1) == x);
        lemma_written(m.regs[to], Size::S64, x);
        let moved = systemv::added_rr(
            plan,
            r,
            position,
            c.isa,
            X86::mov_rr64,
            Usage::Def,
            to,
            systemv::phys(from),
        );
        let m1 = m.carried_out(c, plan, moved, r);
        assert(m1 == m.set(to, low(x, Size::S64)));
        let shift_args = seq![
            ArgumentView::MCReg(Usage::DefUse, to),
            ArgumentView::Int32((n * 8) as u32),
        ];
        lemma_add(
            m,
            c,
            plan,
            moved,
            r,
            position,
            dialect::spec_function(c.isa, X86::shr_ri64),
            shift_args,
            TypeId::unit(),
        );
        lemma_machine_step(m1, c, X86::shr_ri64, shift_args);
        assert(m1.operand(shift_args, 0) == low(x, Size::S64));
        assert(m1.operand(shift_args, 1) == 8 * n);
        let v = low(x, Size::S64) / byte_values(n);
        lemma_written(m1.regs[to], Size::S64, v);
        assert(0 <= v <= low(x, Size::S64)) by (nonlinear_arith)
            requires
                v == low(x, Size::S64) / byte_values(n),
                byte_values(n) >= 1,
                0 <= low(x, Size::S64),
        ;
        assert(low(v, Size::S64) == v) by {
            reveal(low);
        }
    }
}

/// The register after a piece is put in it: the first piece fills the register, later ones are put
/// together with what stands there.
pub open spec fn with_piece(before: int, x: int, n: int, first: bool) -> int {
    let moved = low(x * byte_values(n), Size::S64);
    if first {
        moved
    } else {
        (low(before, Size::S64) as u64 | moved as u64) as int
    }
}

/// A piece of a value that is passed in a register is put in the register from the byte on where
/// the piece lies. A register of its own is used to move it there.
#[verifier::spinoff_prover]
#[verifier::rlimit(80)]
pub proof fn pieces_are_put_in_their_bytes(
    plan: PlanView,
    c: Context,
    r: Ref,
    to: Reg,
    from: MCReg,
    n: int,
    first: bool,
    m: Machine,
)
    requires
        c.mc != c.isa,
        0 <= n < 8,
        from != systemv::phys(to),
        MCReg(plan.next_reg) != systemv::phys(to),
        MCReg(plan.next_reg) != from,
    ensures
        ({
            let after = systemv::inserted(plan, c, r, to, from, n, first);
            let end = m.carried_out(c, plan, after, r);
            &&& low(end.regs[systemv::phys(to)], Size::S64) == with_piece(
                m.regs[systemv::phys(to)],
                m.regs[from],
                n,
                first,
            )
            &&& forall|q: MCReg|
                q != systemv::phys(to) && q != MCReg(plan.next_reg) ==> #[trigger] end.regs[q]
                    == m.regs[q]
        }),
{
    let dst = systemv::phys(to);
    let x = m.regs[from];
    let y = m.regs[dst];
    let at = Insert::Before;
    let unit = TypeId::unit();
    let shl = dialect::spec_function(c.isa, X86::shl_ri64);
    let or_op = dialect::spec_function(c.isa, X86::or_rr64);
    let mov = dialect::spec_function(c.isa, X86::mov_rr64);
    let distance = ArgumentView::Int32((n * 8) as u32);
    lemma_shift_ops();
    vstd::arithmetic::power2::lemma2_to64();
    assert(n == 0 ==> byte_values(n) == 1);
    assert(n == 0 ==> x * byte_values(n) == x) by (nonlinear_arith)
        requires
            n == 0 ==> byte_values(n) == 1,
    ;
    let k = byte_values(n);
    assert(low(low(x, Size::S64) * k, Size::S64) == low(x * k, Size::S64)) by {
        reveal(low);
        vstd::arithmetic::div_mod::lemma_mul_mod_noop_left(x, k, 0x1_0000_0000_0000_0000);
    }
    lemma_written(0, Size::S64, x);
    lemma_written(0, Size::S64, x * k);
    lemma_written(0, Size::S64, y);
    assert(plan.edits.skip(plan.edits.len() as int) =~= Seq::empty());
    if first {
        let args = seq![ArgumentView::MCReg(Usage::Def, dst), ArgumentView::MCReg(Usage::Use, from)];
        lemma_add(m, c, plan, plan, r, at, mov, args, unit);
        lemma_machine_step(m, c, X86::mov_rr64, args);
        assert(m.operand(args, 1) == x);
        lemma_written(y, Size::S64, x);
        let moved = systemv::added_rr(plan, r, at, c.isa, X86::mov_rr64, Usage::Def, dst, from);
        let m1 = m.carried_out(c, plan, moved, r);
        assert(m1 == m.set(dst, low(x, Size::S64)));
        let shift_args = seq![ArgumentView::MCReg(Usage::DefUse, dst), distance];
        lemma_add(m, c, plan, moved, r, at, shl, shift_args, unit);
        lemma_machine_step(m1, c, X86::shl_ri64, shift_args);
        assert(m1.operand(shift_args, 0) == low(x, Size::S64));
        assert(m1.operand(shift_args, 1) == 8 * n);
        lemma_written(m1.regs[dst], Size::S64, low(x, Size::S64) * k);
    } else {
        let tmp = MCReg(plan.next_reg);
        let (before, own, v) = if n != 0 {
            let e = EditView::NewReg { class: to.spec_class().spec_code() };
            let made = plan.with(e);
            assert(made.edits.skip(plan.edits.len() as int) =~= seq![e]);
            assert(seq![e].drop_last() =~= Seq::<EditView>::empty());
            reveal_with_fuel(Machine::run, 2);
            assert(m.carried_out(c, plan, made, r) == m);
            let copy_args = machine::read_regs(seq![tmp, from]);
            lemma_add(
                m,
                c,
                plan,
                made,
                r,
                at,
                dialect::spec_function(c.mc, Mc::Copy),
                copy_args,
                unit,
            );
            assert(copy_args[0] == ArgumentView::MCReg(Usage::Use, tmp));
            assert(copy_args[1] == ArgumentView::MCReg(Usage::Use, from));
            let copied = systemv::copied(made, r, at, c.mc, tmp, from);
            let m1 = m.carried_out(c, plan, copied, r);
            assert(m1 == m.set(tmp, x));
            let shift_args = seq![ArgumentView::MCReg(Usage::DefUse, tmp), distance];
            lemma_add(m, c, plan, copied, r, at, shl, shift_args, unit);
            lemma_machine_step(m1, c, X86::shl_ri64, shift_args);
            assert(m1.operand(shift_args, 0) == x);
            assert(m1.operand(shift_args, 1) == 8 * n);
            lemma_written(x, Size::S64, x * k);
            let shifted = systemv::added_ri(
                copied,
                r,
                at,
                c.isa,
                X86::shl_ri64,
                tmp,
                (n * 8) as u32,
            );
            (shifted, tmp, low(x * k, Size::S64))
        } else {
            (plan, from, x)
        };
        let m2 = m.carried_out(c, plan, before, r);
        assert(m2.regs[own] == v && m2.regs[dst] == y);
        lemma_written(0, Size::S64, v);
        let args = seq![ArgumentView::MCReg(Usage::Use, dst), ArgumentView::MCReg(Usage::Use, own)];
        lemma_add(m, c, plan, before, r, at, or_op, args, unit);
        lemma_machine_step(m2, c, X86::or_rr64, args);
        assert(m2.operand(args, 0) == y);
        assert(m2.operand(args, 1) == v);
        let joined = (low(y, Size::S64) as u64 | low(v, Size::S64) as u64) as int;
        lemma_written(y, Size::S64, joined);
        assert(low(joined, Size::S64) == joined) by {
            reveal(low);
        }
    }
}

/// The primitive value counts for the half.
pub open spec fn is_in_half(l: Leaf, high: bool, divided: bool) -> bool {
    divided ==> (l.offset >= 8) == high
}

/// A half of a value is passed with whole numbers if any whole number or address lies in it, else
/// with floating point numbers if any of those lies in it, and else not at all.
pub proof fn halves_are_classified(leaves: Seq<Leaf>, n: int, high: bool, divided: bool)
    requires
        0 <= n <= leaves.len(),
    ensures
        ({
            let class = systemv::class_of(leaves, n, high, divided);
            let whole = exists|i: int|
                0 <= i < n && is_in_half(#[trigger] leaves[i], high, divided)
                    && !leaves[i].primitive.is_float();
            let any = exists|i: int|
                0 <= i < n && is_in_half(#[trigger] leaves[i], high, divided);
            &&& class == AbiClass::Integer <==> whole
            &&& class == AbiClass::Sse <==> any && !whole
            &&& class == AbiClass::Nothing <==> !any
        }),
    decreases n,
{
    if n > 0 {
        halves_are_classified(leaves, n - 1, high, divided);
        let l = leaves[n - 1];
        let before = systemv::class_of(leaves, n - 1, high, divided);
        if is_in_half(l, high, divided) {
            if l.primitive.is_float() {
                assert(systemv::classify_primitive(l.primitive) == AbiClass::Sse);
            } else {
                assert(systemv::classify_primitive(l.primitive) == AbiClass::Integer);
            }
        }
    }
}

/// The registers for whole numbers that are passed, and for those that are returned, in the order
/// of the convention.
pub proof fn registers_are_used_in_order(n: u32)
    ensures
        ({
            let passed = seq![Reg::rdi, Reg::rsi, Reg::rdx, Reg::rcx, Reg::r8, Reg::r9];
            let returned = seq![Reg::rax, Reg::rdx];
            &&& systemv::param_register(n) == if n < passed.len() {
                Some(passed[n as int])
            } else {
                None
            }
            &&& systemv::return_register(n) == if n < returned.len() {
                Some(returned[n as int])
            } else {
                None
            }
        }),
{
}

} // verus!
