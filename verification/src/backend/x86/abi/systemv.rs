//! The calling convention of System V.
use vstd::prelude::*;

use crate::backend::x86::isa;
use crate::backend::x86::isa::{Reg, RegBits, X86};
use crate::ir::dialect;
use crate::ir::dialect::{Dialect, Mc};
use crate::ir::edit::{EditView, Plan, PlanView};
use crate::ir::ids::{ModuleId, Ref, TypeId};
use crate::ir::inst;
use crate::ir::inst::{Argument, ArgumentView, MCReg, Usage};
use crate::ir::mc::inst as machine;
use crate::ir::mc::inst::{parallel_copy, Abi, Context};
use crate::ir::mc::register::Register;
use crate::ir::modify::Insert;
use crate::ir::slots::Piece;
use crate::ir::types::{Leaf, Primitive, TypeInfo, TypeView};

verus! {

#[derive(Clone, Copy, Debug, PartialEq, Eq, Structural)]
pub enum AbiClass {
    Nothing,
    Integer,
    Sse,
    Memory,
}

impl AbiClass {
    /// The class of two values that are passed together.
    #[verifier::allow_in_spec]
    pub fn join(self, other: AbiClass) -> AbiClass
        returns
            (match (self, other) {
                (AbiClass::Memory, _) => AbiClass::Memory,
                (_, AbiClass::Memory) => AbiClass::Memory,
                (AbiClass::Integer, _) => AbiClass::Integer,
                (_, AbiClass::Integer) => AbiClass::Integer,
                (AbiClass::Nothing, AbiClass::Nothing) => AbiClass::Nothing,
                _ => AbiClass::Sse,
            }),
    {
        match (self, other) {
            (AbiClass::Memory, _) => AbiClass::Memory,
            (_, AbiClass::Memory) => AbiClass::Memory,
            (AbiClass::Integer, _) => AbiClass::Integer,
            (_, AbiClass::Integer) => AbiClass::Integer,
            (AbiClass::Nothing, AbiClass::Nothing) => AbiClass::Nothing,
            _ => AbiClass::Sse,
        }
    }
}

/// The order in which values are joined does not matter, and nothing adds nothing.
pub proof fn join_is_a_semilattice(a: AbiClass, b: AbiClass, c: AbiClass)
    ensures
        a.join(b) == b.join(a),
        a.join(b.join(c)) == a.join(b).join(c),
        a.join(a) == a,
        a.join(AbiClass::Nothing) == a,
{
}

#[verifier::allow_in_spec]
pub fn classify_primitive(p: Primitive) -> AbiClass
    returns
        (match p {
            Primitive::F32 | Primitive::F64 => AbiClass::Sse,
            _ => AbiClass::Integer,
        }),
{
    match p {
        Primitive::F32 | Primitive::F64 => AbiClass::Sse,
        _ => AbiClass::Integer,
    }
}

/// The class of those of the first `n` primitive values that lie in one half of the value.
pub open spec fn class_of(leaves: Seq<Leaf>, n: int, high: bool, divided: bool) -> AbiClass
    decreases n,
{
    if n <= 0 {
        AbiClass::Nothing
    } else {
        let before = class_of(leaves, n - 1, high, divided);
        let l = leaves[n - 1];
        if divided && (l.offset >= 8) != high {
            before
        } else {
            before.join(classify_primitive(l.primitive))
        }
    }
}

/// The classes of the two halves that a value is passed in.
pub open spec fn classified(t: TypeView) -> (AbiClass, AbiClass) {
    let n = t.leaves.len() as int;
    if t.layout.size <= 8 {
        (class_of(t.leaves, n, false, false), AbiClass::Nothing)
    } else if t.layout.size <= 16 {
        (class_of(t.leaves, n, false, true), class_of(t.leaves, n, true, true))
    } else {
        (AbiClass::Memory, AbiClass::Nothing)
    }
}

/// Primitive values are never passed in memory by themselves.
pub proof fn small_values_are_passed_in_registers(leaves: Seq<Leaf>, n: int, high: bool, divided: bool)
    ensures
        class_of(leaves, n, high, divided) != AbiClass::Memory,
    decreases n,
{
    if n > 0 {
        small_values_are_passed_in_registers(leaves, n - 1, high, divided);
    }
}

/// Finds the classes of the two halves that a value is passed in.
pub fn classify(t: &TypeInfo) -> (classes: (AbiClass, AbiClass))
    ensures
        classes == classified(t@),
{
    if t.layout.size > 16 {
        return (AbiClass::Memory, AbiClass::Nothing);
    }
    let divided: bool = t.layout.size > 8;
    let mut a: AbiClass = AbiClass::Nothing;
    let mut b: AbiClass = AbiClass::Nothing;
    let mut i: usize = 0;
    while i < t.leaves.len()
        invariant
            i <= t.leaves@.len(),
            a == class_of(t.leaves@, i as int, false, divided),
            divided ==> b == class_of(t.leaves@, i as int, true, divided),
            !divided ==> b == AbiClass::Nothing,
        decreases t.leaves.len() - i,
    {
        let class: AbiClass = classify_primitive(t.leaves[i].primitive);
        if divided && t.leaves[i].offset >= 8 {
            b = b.join(class);
        } else {
            a = a.join(class);
        }
        i += 1;
    }
    proof {
        small_values_are_passed_in_registers(t.leaves@, t.leaves@.len() as int, false, divided);
        small_values_are_passed_in_registers(t.leaves@, t.leaves@.len() as int, true, divided);
    }
    (a, b)
}

/// The registers for arguments, in their order.
#[verifier::allow_in_spec]
pub fn param_register(n: u32) -> Option<Reg>
    returns
        (match n {
            0 => Some(Reg::rdi),
            1 => Some(Reg::rsi),
            2 => Some(Reg::rdx),
            3 => Some(Reg::rcx),
            4 => Some(Reg::r8),
            5 => Some(Reg::r9),
            _ => None,
        }),
{
    match n {
        0 => Some(Reg::rdi),
        1 => Some(Reg::rsi),
        2 => Some(Reg::rdx),
        3 => Some(Reg::rcx),
        4 => Some(Reg::r8),
        5 => Some(Reg::r9),
        _ => None,
    }
}

/// The registers for results, in their order.
#[verifier::allow_in_spec]
pub fn return_register(n: u32) -> Option<Reg>
    returns
        (match n {
            0 => Some(Reg::rax),
            1 => Some(Reg::rdx),
            _ => None,
        }),
{
    match n {
        0 => Some(Reg::rax),
        1 => Some(Reg::rdx),
        _ => None,
    }
}

/// The registers of the two halves of a value when so many are used up.
pub open spec fn registers_for(used: int, classes: (AbiClass, AbiClass), result: bool) -> (
    Option<Reg>,
    Option<Reg>,
) {
    let b_at = used + registers_in((classes.0, AbiClass::Nothing));
    (half_register(used, classes.0, result), half_register(b_at, classes.1, result))
}

pub open spec fn half_register(n: int, class: AbiClass, result: bool) -> Option<Reg> {
    if class != AbiClass::Integer {
        None
    } else if result {
        return_register(n as u32)
    } else {
        param_register(n as u32)
    }
}

/// How many registers a value takes.
pub open spec fn registers_in(classes: (AbiClass, AbiClass)) -> int {
    (if classes.0 == AbiClass::Integer {
        1int
    } else {
        0
    }) + if classes.1 == AbiClass::Integer {
        1int
    } else {
        0
    }
}

/// Only whole numbers are passed so far.
pub open spec fn supported(classes: (AbiClass, AbiClass)) -> bool {
    (classes.0 is Nothing || classes.0 is Integer) && (classes.1 is Nothing
        || classes.1 is Integer)
}

fn next_register(used: &mut u32, class: AbiClass, result: bool) -> (r: Option<Reg>)
    requires
        *old(used) < u32::MAX,
    ensures
        r == half_register(*old(used) as int, class, result),
        *final(used) == *old(used) + registers_in((class, AbiClass::Nothing)),
{
    match class {
        AbiClass::Integer => {
            let r: Option<Reg> = if result {
                return_register(*used)
            } else {
                param_register(*used)
            };
            *used = *used + 1;
            r
        },
        _ => None,
    }
}

/// The register as an operand.
pub open spec fn phys(r: Reg) -> MCReg {
    MCReg((0x8000_0000 + r.spec_code()) as u32)
}

pub fn from_phys(r: Reg) -> (m: MCReg)
    ensures
        m == phys(r),
{
    proof {
        isa::register_code_round_trip(r, 0);
    }
    MCReg::from_phys(r.encode())
}

/// An instruction with two registers.
pub open spec fn added_rr(
    plan: PlanView,
    at: Ref,
    position: Insert,
    x86: ModuleId,
    op: X86,
    usage: Usage,
    a: MCReg,
    b: MCReg,
) -> PlanView {
    plan.with(
        EditView::Add {
            at,
            position,
            function: dialect::spec_function(x86, op),
            args: seq![ArgumentView::MCReg(usage, a), ArgumentView::MCReg(Usage::Use, b)],
            ty: TypeId::unit(),
        },
    )
}

pub fn add_rr(
    plan: &mut Plan,
    at: Ref,
    position: Insert,
    x86: ModuleId,
    op: X86,
    usage: Usage,
    a: MCReg,
    b: MCReg,
)
    ensures
        final(plan)@ == added_rr(old(plan)@, at, position, x86, op, usage, a, b),
{
    let args: Vec<Argument> = vec![Argument::MCReg(usage, a), Argument::MCReg(Usage::Use, b)];
    assert(inst::views(args@) =~= seq![
        ArgumentView::MCReg(usage, a),
        ArgumentView::MCReg(Usage::Use, b),
    ]);
    plan.add(at, position, dialect::function(x86, op), args, TypeId::unit());
}

/// An instruction that changes a register by a number.
pub open spec fn added_ri(
    plan: PlanView,
    at: Ref,
    position: Insert,
    x86: ModuleId,
    op: X86,
    a: MCReg,
    imm: u32,
) -> PlanView {
    plan.with(
        EditView::Add {
            at,
            position,
            function: dialect::spec_function(x86, op),
            args: seq![ArgumentView::MCReg(Usage::DefUse, a), ArgumentView::Int32(imm)],
            ty: TypeId::unit(),
        },
    )
}

pub fn add_ri(
    plan: &mut Plan,
    at: Ref,
    position: Insert,
    x86: ModuleId,
    op: X86,
    a: MCReg,
    imm: u32,
)
    ensures
        final(plan)@ == added_ri(old(plan)@, at, position, x86, op, a, imm),
{
    let args: Vec<Argument> = vec![Argument::MCReg(Usage::DefUse, a), Argument::Int32(imm)];
    assert(inst::views(args@) =~= seq![
        ArgumentView::MCReg(Usage::DefUse, a),
        ArgumentView::Int32(imm),
    ]);
    plan.add(at, position, dialect::function(x86, op), args, TypeId::unit());
}

/// A copy of one register.
pub open spec fn copied(
    plan: PlanView,
    at: Ref,
    position: Insert,
    mc: ModuleId,
    to: MCReg,
    from: MCReg,
) -> PlanView {
    plan.with(
        EditView::Add {
            at,
            position,
            function: dialect::spec_function(mc, Mc::Copy),
            args: machine::read_regs(seq![to, from]),
            ty: TypeId::unit(),
        },
    )
}

pub fn copy(plan: &mut Plan, at: Ref, position: Insert, mc: ModuleId, to: MCReg, from: MCReg)
    ensures
        final(plan)@ == copied(old(plan)@, at, position, mc, to, from),
{
    let regs: Vec<MCReg> = vec![to, from];
    assert(regs@ =~= seq![to, from]);
    let (function, args, ty) = parallel_copy(mc, &regs);
    plan.add(at, position, function, args, ty);
}

/// The distance within the register of its half.
pub open spec fn within_half(offset: u64) -> int {
    if offset >= 8 {
        (offset - 8) % 0x100
    } else {
        offset as int
    }
}

pub open spec fn half(a: Option<Reg>, b: Option<Reg>, offset: u64) -> Option<Reg> {
    if offset >= 8 {
        b
    } else {
        a
    }
}

/// The bytes of a register from the given one on are moved to another register. The
/// higher bits of what is moved do not matter.
pub open spec fn extracted(
    plan: PlanView,
    c: Context,
    at: Ref,
    position: Insert,
    to: MCReg,
    from: Reg,
    byte_offset: int,
) -> PlanView {
    if byte_offset == 0 {
        copied(plan, at, position, c.mc, to, phys(from))
    } else {
        added_ri(
            added_rr(plan, at, position, c.isa, X86::mov_rr64, Usage::Def, to, phys(from)),
            at,
            position,
            c.isa,
            X86::shr_ri64,
            to,
            (byte_offset * 8) as u32,
        )
    }
}

fn extract(
    plan: &mut Plan,
    c: &Context,
    at: Ref,
    position: Insert,
    to: MCReg,
    from: Reg,
    byte_offset: u8,
)
    ensures
        final(plan)@ == extracted(old(plan)@, *c, at, position, to, from, byte_offset as int),
{
    if byte_offset == 0 {
        copy(plan, at, position, c.mc, to, from_phys(from));
        return;
    }
    // always interpret the target register as 64 bits first, mov the src in and shift it down.
    // Further uses will only use the lower bits.
    add_rr(plan, at, position, c.isa, X86::mov_rr64, Usage::Def, to, from_phys(from));
    add_ri(plan, at, position, c.isa, X86::shr_ri64, to, byte_offset as u32 * 8);
}

/// The piece lies in a register that was handed out.
pub open spec fn can_move(p: Piece, a: Option<Reg>, b: Option<Reg>) -> bool {
    match p.second {
        None => half(a, b, p.offset) is Some && within_half(p.offset) < 32,
        Some(_) => p.offset == 0 && a is Some && b is Some,
    }
}

pub open spec fn can_move_all(pieces: Seq<Piece>, a: Option<Reg>, b: Option<Reg>) -> bool {
    forall|i: int| 0 <= i < pieces.len() ==> can_move(#[trigger] pieces[i], a, b)
}

/// A value is moved out of the registers that it was passed in, piece by piece.
pub open spec fn all_extracted(
    plan: PlanView,
    c: Context,
    at: Ref,
    position: Insert,
    pieces: Seq<Piece>,
    a: Option<Reg>,
    b: Option<Reg>,
) -> PlanView
    decreases pieces.len(),
{
    if pieces.len() == 0 {
        plan
    } else {
        let before = all_extracted(plan, c, at, position, pieces.drop_last(), a, b);
        let p = pieces.last();
        match p.second {
            None => extracted(
                before,
                c,
                at,
                position,
                p.first,
                half(a, b, p.offset)->Some_0,
                within_half(p.offset),
            ),
            Some(second) => extracted(
                extracted(before, c, at, position, p.first, a->Some_0, 0),
                c,
                at,
                position,
                second,
                b->Some_0,
                0,
            ),
        }
    }
}

fn low_byte(v: u64) -> (b: u8)
    ensures
        b == v % 0x100,
{
    (v % 0x100) as u8
}

fn extract_regs(
    plan: &mut Plan,
    c: &Context,
    at: Ref,
    position: Insert,
    pieces: &Vec<Piece>,
    a_reg: Option<Reg>,
    b_reg: Option<Reg>,
)
    requires
        can_move_all(pieces@, a_reg, b_reg),
    ensures
        final(plan)@ == all_extracted(old(plan)@, *c, at, position, pieces@, a_reg, b_reg),
{
    let ghost start = plan@;
    let mut i: usize = 0;
    assert(pieces@.take(0) =~= Seq::empty());
    while i < pieces.len()
        invariant
            i <= pieces@.len(),
            can_move_all(pieces@, a_reg, b_reg),
            plan@ == all_extracted(start, *c, at, position, pieces@.take(i as int), a_reg, b_reg),
        decreases pieces.len() - i,
    {
        assert(pieces@.take(i + 1).drop_last() =~= pieces@.take(i as int));
        assert(can_move(pieces@[i as int], a_reg, b_reg));
        let p: Piece = pieces[i];
        match p.second {
            None => {
                let (src, reg_offset) = if p.offset >= 8 {
                    (b_reg, low_byte(p.offset - 8))
                } else {
                    (a_reg, low_byte(p.offset))
                };
                extract(plan, c, at, position, p.first, src.unwrap(), reg_offset);
            },
            Some(second) => {
                // any 128-bit primitive has to be exactly at offset 0 since the param
                // would have been passed in memory otherwise
                extract(plan, c, at, position, p.first, a_reg.unwrap(), 0);
                extract(plan, c, at, position, second, b_reg.unwrap(), 0);
            },
        }
        i += 1;
    }
    assert(pieces@.take(i as int) =~= pieces@);
}

/// A register is put into another from the given byte on. What was put there before stays
/// unless it is the first.
pub open spec fn inserted(
    plan: PlanView,
    c: Context,
    before: Ref,
    to: Reg,
    from: MCReg,
    byte_offset: int,
    first_inserted: bool,
) -> PlanView {
    let at = Insert::Before;
    if first_inserted {
        let moved = added_rr(plan, before, at, c.isa, X86::mov_rr64, Usage::Def, phys(to), from);
        if byte_offset != 0 {
            added_ri(
                moved,
                before,
                at,
                c.isa,
                X86::shl_ri64,
                phys(to),
                (byte_offset * 8) as u32,
            )
        } else {
            moved
        }
    } else if byte_offset != 0 {
        let tmp = MCReg(plan.next_reg);
        let made = plan.with(EditView::NewReg { class: to.spec_class().spec_code() });
        let shifted = added_ri(
            copied(made, before, at, c.mc, tmp, from),
            before,
            at,
            c.isa,
            X86::shl_ri64,
            tmp,
            (byte_offset * 8) as u32,
        );
        added_rr(shifted, before, at, c.isa, X86::or_rr64, Usage::Use, phys(to), tmp)
    } else {
        added_rr(plan, before, at, c.isa, X86::or_rr64, Usage::Use, phys(to), from)
    }
}

fn insert(
    plan: &mut Plan,
    c: &Context,
    before: Ref,
    to: Reg,
    from: MCReg,
    byte_offset: u8,
    first_inserted: bool,
)
    ensures
        final(plan)@ == inserted(
            old(plan)@,
            *c,
            before,
            to,
            from,
            byte_offset as int,
            first_inserted,
        ),
{
    let at: Insert = Insert::Before;
    let dst: MCReg = from_phys(to);
    if first_inserted {
        add_rr(plan, before, at, c.isa, X86::mov_rr64, Usage::Def, dst, from);
        if byte_offset != 0 {
            add_ri(plan, before, at, c.isa, X86::shl_ri64, dst, byte_offset as u32 * 8);
        }
    } else {
        let shifted: MCReg = if byte_offset != 0 {
            // we need to copy to a tmp variable, shift it to the right place and then or it in
            let tmp: MCReg = plan.new_reg(to.class().code());
            copy(plan, before, at, c.mc, tmp, from);
            add_ri(plan, before, at, c.isa, X86::shl_ri64, tmp, byte_offset as u32 * 8);
            tmp
        } else {
            // no shift needed, we can or it in directly
            from
        };
        add_rr(plan, before, at, c.isa, X86::or_rr64, Usage::Use, dst, shifted);
    }
}

/// The changes, and whether nothing was put in the two registers yet.
#[verifier::ext_equal]
pub struct Inserting {
    pub plan: PlanView,
    pub first_a: bool,
    pub first_b: bool,
}

/// A value is moved into the registers that it is passed in, piece by piece.
pub open spec fn all_inserted(
    plan: PlanView,
    c: Context,
    before: Ref,
    pieces: Seq<Piece>,
    a: Option<Reg>,
    b: Option<Reg>,
) -> Inserting
    decreases pieces.len(),
{
    if pieces.len() == 0 {
        Inserting { plan, first_a: true, first_b: true }
    } else {
        let s = all_inserted(plan, c, before, pieces.drop_last(), a, b);
        let p = pieces.last();
        match p.second {
            None => if p.offset >= 8 {
                Inserting {
                    plan: inserted(
                        s.plan,
                        c,
                        before,
                        b->Some_0,
                        p.first,
                        within_half(p.offset),
                        s.first_b,
                    ),
                    first_a: s.first_a,
                    first_b: false,
                }
            } else {
                Inserting {
                    plan: inserted(
                        s.plan,
                        c,
                        before,
                        a->Some_0,
                        p.first,
                        within_half(p.offset),
                        s.first_a,
                    ),
                    first_a: false,
                    first_b: s.first_b,
                }
            },
            Some(second) => Inserting {
                plan: inserted(
                    inserted(s.plan, c, before, a->Some_0, p.first, 0, false),
                    c,
                    before,
                    b->Some_0,
                    second,
                    0,
                    s.first_b,
                ),
                first_a: false,
                first_b: false,
            },
        }
    }
}

fn insert_regs(
    plan: &mut Plan,
    c: &Context,
    before: Ref,
    pieces: &Vec<Piece>,
    a_reg: Option<Reg>,
    b_reg: Option<Reg>,
)
    requires
        can_move_all(pieces@, a_reg, b_reg),
    ensures
        final(plan)@ == all_inserted(old(plan)@, *c, before, pieces@, a_reg, b_reg).plan,
{
    let ghost start = plan@;
    let mut first_inserted_a: bool = true;
    let mut first_inserted_b: bool = true;
    let mut i: usize = 0;
    assert(pieces@.take(0) =~= Seq::empty());
    while i < pieces.len()
        invariant
            i <= pieces@.len(),
            can_move_all(pieces@, a_reg, b_reg),
            all_inserted(start, *c, before, pieces@.take(i as int), a_reg, b_reg) == (Inserting {
                plan: plan@,
                first_a: first_inserted_a,
                first_b: first_inserted_b,
            }),
        decreases pieces.len() - i,
    {
        assert(pieces@.take(i + 1).drop_last() =~= pieces@.take(i as int));
        assert(can_move(pieces@[i as int], a_reg, b_reg));
        let p: Piece = pieces[i];
        let (dst, reg_offset, first) = if p.offset >= 8 {
            let first: bool = first_inserted_b;
            first_inserted_b = false;
            (b_reg, low_byte(p.offset - 8), first)
        } else {
            let first: bool = first_inserted_a;
            first_inserted_a = false;
            (a_reg, low_byte(p.offset), first)
        };
        match p.second {
            None => {
                insert(plan, c, before, dst.unwrap(), p.first, reg_offset, first);
            },
            Some(second) => {
                // any 128-bit primitive has to be exactly at offset 0 since the param
                // would have been passed in memory otherwise
                insert(plan, c, before, a_reg.unwrap(), p.first, 0, first_inserted_a);
                insert(plan, c, before, b_reg.unwrap(), second, 0, first_inserted_b);
                first_inserted_a = false;
                first_inserted_b = false;
            },
        }
        i += 1;
    }
    assert(pieces@.take(i as int) =~= pieces@);
}

pub open spec fn pieces_of(c: Context, r: Ref) -> Seq<Piece> {
    c.slots@.pieces(r, c.leaves(r))
}

pub fn get_pieces(c: &Context, r: Ref) -> (pieces: Vec<Piece>)
    requires
        c.holds(r),
    ensures
        pieces@ == pieces_of(*c, r),
{
    let ty: TypeId = c.get_type(r);
    assert(c.types@[ty.0 as int] == c.types.types@[ty.0 as int]@);
    c.slots.pieces(r, &c.types.types[ty.0 as usize].leaves)
}

pub open spec fn classes_in(c: Context, r: Ref) -> (AbiClass, AbiClass) {
    classified(c.types@[c.type_of(r).0 as int])
}

fn classes_of(c: &Context, r: Ref) -> (classes: (AbiClass, AbiClass))
    requires
        c.knows(r),
    ensures
        classes == classes_in(*c, r),
{
    let ty: TypeId = c.get_type(r);
    assert(c.types@[ty.0 as int] == c.types.types@[ty.0 as int]@);
    classify(&c.types.types[ty.0 as usize])
}

/// How many registers the values take.
pub open spec fn used_by(c: Context, values: Seq<Ref>) -> int
    decreases values.len(),
{
    if values.len() == 0 {
        0
    } else {
        used_by(c, values.drop_last()) + registers_in(classes_in(c, values.last()))
    }
}

/// The registers of the last of the values.
pub open spec fn registers_of_last(c: Context, values: Seq<Ref>) -> (Option<Reg>, Option<Reg>) {
    registers_for(used_by(c, values.drop_last()), classes_in(c, values.last()), false)
}

/// The values are passed in registers.
pub open spec fn can_pass(c: Context, values: Seq<Ref>) -> bool {
    &&& values.len() < 0x4000_0000
    &&& forall|i: int|
        0 < i <= values.len() ==> {
            let now = #[trigger] values.take(i);
            &&& c.holds(now.last())
            &&& supported(classes_in(c, now.last()))
            &&& can_move_all(
                pieces_of(c, now.last()),
                registers_of_last(c, now).0,
                registers_of_last(c, now).1,
            )
        }
}

proof fn lemma_used_by(c: Context, values: Seq<Ref>)
    ensures
        0 <= used_by(c, values) <= 2 * values.len(),
    decreases values.len(),
{
    if values.len() > 0 {
        lemma_used_by(c, values.drop_last());
    }
}

pub open spec fn params_extracted(c: Context, at: Ref, args: Seq<Ref>, plan: PlanView) -> PlanView
    decreases args.len(),
{
    if args.len() == 0 {
        plan
    } else {
        let (a, b) = registers_of_last(c, args);
        all_extracted(
            params_extracted(c, at, args.drop_last(), plan),
            c,
            at,
            Insert::Before,
            pieces_of(c, args.last()),
            a,
            b,
        )
    }
}

pub open spec fn args_inserted(c: Context, at: Ref, args: Seq<Ref>, plan: PlanView) -> PlanView
    decreases args.len(),
{
    if args.len() == 0 {
        plan
    } else {
        let (a, b) = registers_of_last(c, args);
        all_inserted(
            args_inserted(c, at, args.drop_last(), plan),
            c,
            at,
            pieces_of(c, args.last()),
            a,
            b,
        ).plan
    }
}

/// The function takes any number of arguments.
pub open spec fn is_variadic(c: Context, call: Ref) -> bool {
    c.env.def(c.ir@.insts[call.0 as int].function).varargs is Some
}

/// The convention that is used on Linux.
#[derive(Clone, Copy, Debug, PartialEq, Eq, Structural)]
pub struct SystemV;

/// The registers that a function may overwrite.
pub open spec fn is_caller_saved(index: u8) -> bool {
    index == Reg::rax.spec_index() || index == Reg::rcx.spec_index() || index
        == Reg::rdx.spec_index() || index == Reg::rsi.spec_index() || index
        == Reg::rdi.spec_index() || index == Reg::r8.spec_index() || index == Reg::r9.spec_index()
        || index == Reg::r10.spec_index() || index == Reg::r11.spec_index()
}

/// The registers that a function keeps for its caller.
pub open spec fn is_callee_saved(index: u8) -> bool {
    index == Reg::rbx.spec_index() || index == Reg::rbp.spec_index() || index
        == Reg::rsp.spec_index() || index == Reg::r12.spec_index() || index
        == Reg::r13.spec_index() || index == Reg::r14.spec_index() || index
        == Reg::r15.spec_index()
}

impl Abi for SystemV {
    type RegisterBits = RegBits;

    open spec fn spec_has(bits: RegBits, index: u8) -> bool {
        bits.has_index(index)
    }

    open spec fn can_take_params(&self, c: Context, args: Seq<Ref>, plan: PlanView) -> bool {
        can_pass(c, args)
    }

    open spec fn params_taken(&self, c: Context, at: Ref, args: Seq<Ref>, plan: PlanView) -> PlanView {
        params_extracted(c, at, args, plan)
    }

    fn implement_params(&self, c: &Context, at: Ref, args: &Vec<Ref>, plan: &mut Plan) {
        let ghost start = plan@;
        let mut used: u32 = 0;
        let mut i: usize = 0;
        assert(args@.take(0) =~= Seq::empty());
        while i < args.len()
            invariant
                i <= args@.len(),
                can_pass(*c, args@),
                used == used_by(*c, args@.take(i as int)),
                plan@ == params_extracted(*c, at, args@.take(i as int), start),
            decreases args.len() - i,
        {
            let arg: Ref = args[i];
            let ghost now = args@.take(i + 1);
            assert(now.drop_last() =~= args@.take(i as int));
            assert(now.last() == arg);
            proof {
                lemma_used_by(*c, args@.take(i as int));
            }
            let (a, b) = classes_of(c, arg);
            let a_reg: Option<Reg> = next_register(&mut used, a, false);
            let b_reg: Option<Reg> = next_register(&mut used, b, false);
            let pieces: Vec<Piece> = get_pieces(c, arg);
            extract_regs(plan, c, at, Insert::Before, &pieces, a_reg, b_reg);
            i += 1;
        }
        assert(args@.take(i as int) =~= args@);
    }

    open spec fn can_call(&self, c: Context, call: Ref, skip_first_arg: bool, plan: PlanView) -> bool {
        let (a, b) = registers_for(0, classes_in(c, call), true);
        &&& c.has_call(call)
        &&& machine::only_values(c.args(call), 0)
        &&& can_pass(c, machine::passed(c.args(call), skip_first_arg))
        &&& c.holds(call)
        &&& supported(classes_in(c, call))
        &&& can_move_all(pieces_of(c, call), a, b)
    }

    open spec fn called(&self, c: Context, call: Ref, skip_first_arg: bool, plan: PlanView) -> PlanView {
        let passed = args_inserted(c, call, machine::passed(c.args(call), skip_first_arg), plan);
        let marked = if is_variadic(c, call) {
            added_rr(
                passed,
                call,
                Insert::Before,
                c.isa,
                X86::xor_rr32,
                Usage::DefUse,
                phys(Reg::eax),
                phys(Reg::eax),
            )
        } else {
            passed
        };
        let (a, b) = registers_for(0, classes_in(c, call), true);
        all_extracted(marked, c, call, Insert::After, pieces_of(c, call), a, b)
    }

    fn implement_call(&self, c: &Context, call_inst: Ref, skip_first_arg: bool, plan: &mut Plan) {
        let ghost start = plan@;
        // first insert values into call registers
        let args: Vec<Ref> = c.call_args(call_inst, skip_first_arg);
        let mut used: u32 = 0;
        let mut i: usize = 0;
        assert(args@.take(0) =~= Seq::empty());
        while i < args.len()
            invariant
                i <= args@.len(),
                can_pass(*c, args@),
                used == used_by(*c, args@.take(i as int)),
                plan@ == args_inserted(*c, call_inst, args@.take(i as int), start),
            decreases args.len() - i,
        {
            let arg: Ref = args[i];
            let ghost now = args@.take(i + 1);
            assert(now.drop_last() =~= args@.take(i as int));
            assert(now.last() == arg);
            proof {
                lemma_used_by(*c, args@.take(i as int));
            }
            let (a, b) = classes_of(c, arg);
            let a_reg: Option<Reg> = next_register(&mut used, a, false);
            let b_reg: Option<Reg> = next_register(&mut used, b, false);
            let pieces: Vec<Piece> = get_pieces(c, arg);
            insert_regs(plan, c, call_inst, &pieces, a_reg, b_reg);
            i += 1;
        }
        assert(args@.take(i as int) =~= args@);
        if c.env.get(c.ir.insts[call_inst.idx()].function).varargs.is_some() {
            // al stores the number of vector registers used, zero it out since we don't currently
            // support them
            let eax: MCReg = from_phys(Reg::eax);
            add_rr(
                plan,
                call_inst,
                Insert::Before,
                c.isa,
                X86::xor_rr32,
                Usage::DefUse,
                eax,
                eax,
            );
        }
        // extract return value into value registers after the call
        let mut used: u32 = 0;
        let (a, b) = classes_of(c, call_inst);
        let a_reg: Option<Reg> = next_register(&mut used, a, true);
        let b_reg: Option<Reg> = next_register(&mut used, b, true);
        let pieces: Vec<Piece> = get_pieces(c, call_inst);
        extract_regs(plan, c, call_inst, Insert::After, &pieces, a_reg, b_reg);
    }

    open spec fn can_return(&self, c: Context, value: Ref, r: Ref, plan: PlanView) -> bool {
        value != Ref::unit() ==> {
            let (a, b) = registers_for(0, classes_in(c, value), true);
            &&& c.holds(value)
            &&& supported(classes_in(c, value))
            &&& can_move_all(pieces_of(c, value), a, b)
        }
    }

    open spec fn returned(&self, c: Context, value: Ref, r: Ref, plan: PlanView) -> PlanView {
        let replaced = |op: X86|
            plan.with(
                EditView::Replace {
                    at: r,
                    function: dialect::spec_function(c.isa, op),
                    args: Seq::empty(),
                    ty: TypeId::unit(),
                },
            );
        if value == Ref::unit() {
            replaced(X86::ret0)
        } else {
            let classes = classes_in(c, value);
            let (a, b) = registers_for(0, classes, true);
            let op = if classes.1 == AbiClass::Nothing {
                X86::ret64
            } else {
                X86::ret128
            };
            all_inserted(replaced(op), c, r, pieces_of(c, value), a, b).plan
        }
    }

    fn implement_return(&self, c: &Context, value: Ref, r: Ref, plan: &mut Plan) {
        let args: Vec<Argument> = Vec::new();
        assert(inst::views(args@) =~= Seq::empty());
        if value == Ref::unit() {
            plan.replace(r, dialect::function(c.isa, X86::ret0), args, TypeId::unit());
            return;
        }
        let (a, b) = classes_of(c, value);
        let mut used: u32 = 0;
        let a_reg: Option<Reg> = next_register(&mut used, a, true);
        let op: X86 = if b == AbiClass::Nothing {
            X86::ret64
        } else {
            X86::ret128
        };
        plan.replace(r, dialect::function(c.isa, op), args, TypeId::unit());
        let b_reg: Option<Reg> = next_register(&mut used, b, true);
        let pieces: Vec<Piece> = get_pieces(c, value);
        insert_regs(plan, c, r, &pieces, a_reg, b_reg);
    }

    open spec fn keeps(&self, index: u8) -> bool {
        is_callee_saved(index)
    }

    fn callee_saved(&self) -> RegBits {
        Reg::rbx.bit().bitor(Reg::rbp.bit()).bitor(Reg::rsp.bit()).bitor(Reg::r12.bit()).bitor(
            Reg::r13.bit(),
        ).bitor(Reg::r14.bit()).bitor(Reg::r15.bit())
    }

    open spec fn clobbers(&self, index: u8) -> bool {
        is_caller_saved(index)
    }

    fn caller_saved(&self) -> RegBits {
        Reg::rax.bit().bitor(Reg::rcx.bit()).bitor(Reg::rdx.bit()).bitor(Reg::rsi.bit()).bitor(
            Reg::rdi.bit(),
        ).bitor(Reg::r8.bit()).bitor(Reg::r9.bit()).bitor(Reg::r10.bit()).bitor(Reg::r11.bit())
    }

    open spec fn returns_in(&self, value_count: u32, index: u8) -> bool {
        value_count > 0 && index == Reg::rax.spec_index() || value_count > 1 && index
            == Reg::rdx.spec_index()
    }

    fn return_regs(&self, value_count: u32) -> RegBits {
        let mut bits: RegBits = RegBits::new();
        if value_count > 0 {
            bits = bits.bitor(Reg::rax.bit());
        }
        if value_count > 1 {
            bits = bits.bitor(Reg::rdx.bit());
        }
        bits
    }
}

/// Each general register is either kept for the caller or may be overwritten, and results
/// and arguments are passed in registers that a call may overwrite.
pub proof fn saved_registers_are_apart(abi: SystemV, index: u8, value_count: u32, n: u32)
    ensures
        !(abi.keeps(index) && abi.clobbers(index)),
        index < 16 ==> abi.keeps(index) || abi.clobbers(index),
        abi.returns_in(value_count, index) ==> abi.clobbers(index),
        param_register(n) matches Some(r) ==> abi.clobbers(r.spec_index()),
        return_register(n) matches Some(r) ==> abi.clobbers(r.spec_index()),
{
}

/// No two arguments are passed in the same register.
pub proof fn arguments_have_their_own_registers(n: u32, m: u32)
    requires
        n != m,
        param_register(n) is Some,
        param_register(m) is Some,
    ensures
        param_register(n)->Some_0.spec_index() != param_register(m)->Some_0.spec_index(),
{
}

} // verus!
