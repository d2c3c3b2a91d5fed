//! The virtual registers of the values of a function.
use vstd::prelude::*;

use crate::backend::arguments;
use crate::backend::arguments::{get_int, get_ref, read_args};
use crate::backend::x86::isa::RegClass;
use crate::backend::x86::isel::InstructionSelector;
use crate::ir::dialect;
use crate::ir::dialect::Tuple;
use crate::ir::edit::{EditView, Plan, PlanView};
use crate::ir::env::Environment;
use crate::ir::function::{FunctionIr, FunctionView};
use crate::ir::ids::{Ref, TypeId};
use crate::ir::inst;
use crate::ir::inst::{Argument, MCReg};
use crate::ir::slots;
use crate::ir::slots::{Slots, SlotsView};
use crate::ir::types::{Element, Leaf, Primitive, Shape, ShapeView, TypeView, Types};

verus! {

/// The registers that hold a primitive value.
#[verifier::allow_in_spec]
pub fn register_class(p: Primitive) -> RegClass
    returns
        (match p {
            Primitive::I1 | Primitive::I8 | Primitive::U8 => RegClass::GP8,
            Primitive::I16 | Primitive::U16 => RegClass::GP16,
            Primitive::I32 | Primitive::U32 => RegClass::GP32,
            Primitive::F32 => RegClass::F32,
            Primitive::F64 => RegClass::F64,
            _ => RegClass::GP64,
        }),
{
    match p {
        Primitive::I1 | Primitive::I8 | Primitive::U8 => RegClass::GP8,
        Primitive::I16 | Primitive::U16 => RegClass::GP16,
        Primitive::I32 | Primitive::U32 => RegClass::GP32,
        Primitive::F32 => RegClass::F32,
        Primitive::F64 => RegClass::F64,
        _ => RegClass::GP64,
    }
}

/// The registers of all values, and the changes that add them.
#[verifier::ext_equal]
pub struct Assigned {
    pub slots: Seq<MCReg>,
    pub plan: PlanView,
}

/// The first `n` primitive values get registers of their own.
pub open spec fn fresh(a: Assigned, at: int, leaves: Seq<Leaf>, n: int) -> Assigned
    decreases n,
{
    if n <= 0 {
        a
    } else {
        let b = fresh(a, at, leaves, n - 1);
        Assigned {
            slots: b.slots.update(
                at + slots::slots_before(leaves, n - 1),
                MCReg(b.plan.next_reg),
            ),
            plan: b.plan.with(
                EditView::NewReg { class: register_class(leaves[n - 1].primitive).spec_code() },
            ),
        }
    }
}

/// A range of registers is taken over.
pub open spec fn taken_over(s: Seq<MCReg>, from: int, to: int, n: int) -> Seq<MCReg> {
    Seq::new(
        s.len(),
        |k: int|
            if to <= k < to + n {
                s[from + (k - to)]
            } else {
                s[k]
            },
    )
}

/// How many registers values of the type take.
pub open spec fn width(types: Seq<TypeView>, ty: TypeId) -> int {
    slots::slot_count(slots::leaves_of(types, ty))
}

/// How many registers the first `n` elements take.
pub open spec fn elements_before(types: Seq<TypeView>, elements: Seq<Element>, n: int) -> int
    decreases n,
{
    if n <= 0 {
        0
    } else {
        elements_before(types, elements, n - 1) + width(types, elements[n - 1].ty)
    }
}

/// The elements of a tuple type.
pub open spec fn elements_of(types: Seq<TypeView>, ty: TypeId) -> Option<Seq<Element>> {
    if ty.0 < types.len() {
        match types[ty.0 as int].shape {
            ShapeView::Tuple(elements) => Some(elements),
            _ => None,
        }
    } else {
        None
    }
}

/// The first `n` elements of a tuple get the registers of another tuple, but the `i`-th those
/// of a value.
pub open spec fn elements_taken(
    s: Seq<MCReg>,
    types: Seq<TypeView>,
    elements: Seq<Element>,
    to: int,
    tuple: int,
    value: int,
    i: u64,
    n: int,
) -> Seq<MCReg>
    decreases n,
{
    if n <= 0 {
        s
    } else {
        let t = elements_taken(s, types, elements, to, tuple, value, i, n - 1);
        let off = elements_before(types, elements, n - 1);
        taken_over(
            t,
            if n - 1 == i {
                value
            } else {
                tuple + off
            },
            to + off,
            width(types, elements[n - 1].ty),
        )
    }
}

impl InstructionSelector {
    /// A value gets its registers. What is taken from a tuple or put in one is not copied.
    pub open spec fn assigned_one(
        self,
        f: FunctionView,
        env: &Environment,
        types: Seq<TypeView>,
        map: Seq<u32>,
        a: Assigned,
        r: Ref,
    ) -> Assigned {
        let called = f.insts[r.0 as int];
        let args = arguments::args_in(f, env, r);
        let tuple = arguments::ref_at(args, 0);
        let i = arguments::int_at(args, 1);
        let to = map[r.0 as int] as int;
        match dialect::spec_as_module::<Tuple>(called, self.tuple) {
            Some(Tuple::MemberValue) => {
                let elements = elements_of(types, f.insts[tuple.0 as int].ty)->Some_0;
                Assigned {
                    slots: taken_over(
                        a.slots,
                        map[tuple.0 as int] + elements_before(types, elements, i as int),
                        to,
                        width(types, elements[i as int].ty),
                    ),
                    ..a
                }
            },
            Some(Tuple::InsertMember) => {
                let value = arguments::ref_at(args, 2);
                let elements = elements_of(types, called.ty)->Some_0;
                Assigned {
                    slots: elements_taken(
                        a.slots,
                        types,
                        elements,
                        to,
                        map[tuple.0 as int] as int,
                        map[value.0 as int] as int,
                        i,
                        elements.len() as int,
                    ),
                    ..a
                }
            },
            None => {
                let leaves = slots::leaves_of(types, called.ty);
                fresh(a, to, leaves, leaves.len() as int)
            },
        }
    }

    /// The first `n` values get their registers.
    pub open spec fn assigned(
        self,
        f: FunctionView,
        env: &Environment,
        types: Seq<TypeView>,
        s: SlotsView,
        plan: PlanView,
        n: int,
    ) -> Assigned
        decreases n,
    {
        if n <= 0 {
            Assigned { slots: s.slots, plan }
        } else {
            self.assigned_one(
                f,
                env,
                types,
                s.map,
                self.assigned(f, env, types, s, plan, n - 1),
                Ref((n - 1) as u32),
            )
        }
    }

    /// Values are taken from tuples that have them and put where they fit. Numbers of 128
    /// bits have no registers so far.
    pub open spec fn can_assign(
        self,
        f: FunctionView,
        env: &Environment,
        types: Seq<TypeView>,
        r: Ref,
    ) -> bool {
        let called = f.insts[r.0 as int];
        let args = arguments::args_in(f, env, r);
        let tuple = arguments::ref_at(args, 0);
        let i = arguments::int_at(args, 1);
        match dialect::spec_as_module::<Tuple>(called, self.tuple) {
            Some(Tuple::MemberValue) => {
                &&& tuple.0 < f.insts.len()
                &&& fits_elements(types, f.insts[tuple.0 as int].ty)
                &&& i < elements_of(types, f.insts[tuple.0 as int].ty)->Some_0.len()
                &&& width(
                    types,
                    elements_of(types, f.insts[tuple.0 as int].ty)->Some_0[i as int].ty,
                ) == width(types, called.ty)
            },
            Some(Tuple::InsertMember) => {
                let value = arguments::ref_at(args, 2);
                &&& tuple.0 < f.insts.len()
                &&& value.0 < f.insts.len()
                &&& fits_elements(types, called.ty)
                &&& width(types, f.insts[tuple.0 as int].ty) == width(types, called.ty)
                &&& i < elements_of(types, called.ty)->Some_0.len() ==> width(
                    types,
                    elements_of(types, called.ty)->Some_0[i as int].ty,
                ) == width(types, f.insts[value.0 as int].ty)
            },
            None => {
                let leaves = slots::leaves_of(types, called.ty);
                forall|k: int|
                    0 <= k < leaves.len() ==> (#[trigger] leaves[k]).primitive
                        != Primitive::I128 && leaves[k].primitive != Primitive::U128
            },
        }
    }

    /// All values can get registers.
    pub open spec fn can_assign_all(
        self,
        f: FunctionView,
        env: &Environment,
        types: Seq<TypeView>,
    ) -> bool {
        forall|i: int|
            0 <= i < f.insts.len() ==> {
                &&& env.has((#[trigger] f.insts[i]).function)
                &&& env.def(f.insts[i].function).params@.len() <= u32::MAX
                &&& self.can_assign(f, env, types, Ref(i as u32))
            }
    }
}

/// The type is a tuple whose registers are those of its elements.
pub open spec fn fits_elements(types: Seq<TypeView>, ty: TypeId) -> bool {
    match elements_of(types, ty) {
        Some(elements) => {
            &&& forall|k: int|
                0 <= k < elements.len() ==> (#[trigger] elements[k]).ty.0 < types.len()
            &&& elements_before(types, elements, elements.len() as int) == width(types, ty)
        },
        None => false,
    }
}

proof fn lemma_width(types: Seq<TypeView>, ty: TypeId)
    ensures
        width(types, ty) >= 0,
{
    let leaves = slots::leaves_of(types, ty);
    slots::lemma_slots_before(leaves, 0, leaves.len() as int);
}

proof fn lemma_elements_before(types: Seq<TypeView>, elements: Seq<Element>, n: int, m: int)
    requires
        0 <= n <= m,
    ensures
        0 <= elements_before(types, elements, n) <= elements_before(types, elements, m),
    decreases m,
{
    if m > 0 {
        lemma_width(types, elements[m - 1].ty);
        if n < m {
            lemma_elements_before(types, elements, n, m - 1);
        } else {
            lemma_elements_before(types, elements, n - 1, m - 1);
        }
    }
}

fn count_slots(leaves: &Vec<Leaf>, limit: usize) -> (n: usize)
    requires
        slots::slot_count(leaves@) <= limit,
    ensures
        n == slots::slot_count(leaves@),
{
    let mut n: usize = 0;
    let mut i: usize = 0;
    while i < leaves.len()
        invariant
            i <= leaves@.len(),
            slots::slot_count(leaves@) <= limit,
            n == slots::slots_before(leaves@, i as int),
        decreases leaves.len() - i,
    {
        proof {
            slots::lemma_slots_before(leaves@, i + 1, leaves@.len() as int);
        }
        n += leaves[i].primitive.slot_count() as usize;
        i += 1;
    }
    n
}

/// How many registers values of the type take.
fn get_width(types: &Types, ty: TypeId, limit: usize) -> (n: usize)
    requires
        ty.0 < types@.len(),
        width(types@, ty) <= limit,
    ensures
        n == width(types@, ty),
{
    assert(types@[ty.0 as int] == types.types@[ty.0 as int]@);
    count_slots(&types.types[ty.0 as usize].leaves, limit)
}

/// Takes over a range of registers.
fn take_over(slots: &mut Vec<MCReg>, from: usize, to: usize, n: usize)
    requires
        from + n <= old(slots)@.len(),
        to + n <= old(slots)@.len(),
    ensures
        final(slots)@ == taken_over(old(slots)@, from as int, to as int, n as int),
{
    let ghost before = slots@;
    let len: usize = slots.len();
    let mut regs: Vec<MCReg> = Vec::new();
    let mut i: usize = 0;
    while i < n
        invariant
            i <= n,
            slots@ == before,
            len == before.len(),
            from + n <= before.len(),
            regs@ =~= before.subrange(from as int, from + i),
        decreases n - i,
    {
        regs.push(slots[from + i]);
        i += 1;
    }
    i = 0;
    while i < n
        invariant
            i <= n,
            len == before.len(),
            from + n <= before.len(),
            to + n <= before.len(),
            regs@ == before.subrange(from as int, from + n),
            slots@ =~= taken_over(before, from as int, to as int, i as int),
        decreases n - i,
    {
        slots.set(to + i, regs[i]);
        i += 1;
    }
}

fn get_elements(types: &Types, ty: TypeId) -> (elements: Option<&Vec<Element>>)
    ensures
        elements_of(types@, ty) == match elements {
            Some(e) => Some(e@),
            None => None,
        },
{
    if (ty.0 as usize) < types.types.len() {
        assert(types@[ty.0 as int] == types.types@[ty.0 as int]@);
        match &types.types[ty.0 as usize].shape {
            Shape::Tuple(elements) => Some(elements),
            _ => None,
        }
    } else {
        None
    }
}

fn take_elements(
    slots: &mut Vec<MCReg>,
    types: &Types,
    elements: &Vec<Element>,
    to: usize,
    tuple: usize,
    value: usize,
    i: u64,
)
    requires
        forall|k: int| 0 <= k < elements@.len() ==> (#[trigger] elements@[k]).ty.0 < types@.len(),
        to + elements_before(types@, elements@, elements@.len() as int) <= old(slots)@.len(),
        tuple + elements_before(types@, elements@, elements@.len() as int) <= old(slots)@.len(),
        i < elements@.len() ==> value + width(types@, elements@[i as int].ty)
            <= old(slots)@.len(),
    ensures
        final(slots)@ == elements_taken(
            old(slots)@,
            types@,
            elements@,
            to as int,
            tuple as int,
            value as int,
            i,
            elements@.len() as int,
        ),
        final(slots)@.len() == old(slots)@.len(),
{
    let ghost before = slots@;
    let len: usize = slots.len();
    let mut off: usize = 0;
    let mut j: usize = 0;
    while j < elements.len()
        invariant
            j <= elements@.len(),
            len == before.len(),
            slots@.len() == before.len(),
            forall|k: int|
                0 <= k < elements@.len() ==> (#[trigger] elements@[k]).ty.0 < types@.len(),
            to + elements_before(types@, elements@, elements@.len() as int) <= before.len(),
            tuple + elements_before(types@, elements@, elements@.len() as int) <= before.len(),
            i < elements@.len() ==> value + width(types@, elements@[i as int].ty) <= before.len(),
            off == elements_before(types@, elements@, j as int),
            slots@ == elements_taken(
                before,
                types@,
                elements@,
                to as int,
                tuple as int,
                value as int,
                i,
                j as int,
            ),
        decreases elements.len() - j,
    {
        proof {
            lemma_elements_before(types@, elements@, j + 1, elements@.len() as int);
            lemma_elements_before(types@, elements@, 0, j as int);
            assert(elements@[j as int].ty.0 < types@.len());
        }
        let n: usize = get_width(types, elements[j].ty, len);
        if j as u64 == i {
            take_over(slots, value, to + off, n);
        } else {
            take_over(slots, tuple + off, to + off, n);
        }
        off += n;
        j += 1;
    }
}

fn elements_width(types: &Types, elements: &Vec<Element>, count: usize, limit: usize) -> (n: usize)
    requires
        count <= elements@.len(),
        forall|k: int| 0 <= k < elements@.len() ==> (#[trigger] elements@[k]).ty.0 < types@.len(),
        elements_before(types@, elements@, count as int) <= limit,
    ensures
        n == elements_before(types@, elements@, count as int),
{
    let mut n: usize = 0;
    let mut j: usize = 0;
    while j < count
        invariant
            j <= count,
            count <= elements@.len(),
            forall|k: int|
                0 <= k < elements@.len() ==> (#[trigger] elements@[k]).ty.0 < types@.len(),
            elements_before(types@, elements@, count as int) <= limit,
            n == elements_before(types@, elements@, j as int),
        decreases count - j,
    {
        proof {
            lemma_elements_before(types@, elements@, j + 1, count as int);
            lemma_elements_before(types@, elements@, 0, j as int);
            assert(elements@[j as int].ty.0 < types@.len());
        }
        n += get_width(types, elements[j].ty, limit);
        j += 1;
    }
    n
}

fn assign_fresh(slots: &mut Vec<MCReg>, plan: &mut Plan, at: usize, leaves: &Vec<Leaf>)
    requires
        at + slots::slot_count(leaves@) <= old(slots)@.len(),
    ensures
        (Assigned { slots: final(slots)@, plan: final(plan)@ }) == fresh(
            (Assigned { slots: old(slots)@, plan: old(plan)@ }),
            at as int,
            leaves@,
            leaves@.len() as int,
        ),
        final(slots)@.len() == old(slots)@.len(),
{
    let ghost start = Assigned { slots: slots@, plan: plan@ };
    let len: usize = slots.len();
    let mut k: usize = at;
    let mut i: usize = 0;
    while i < leaves.len()
        invariant
            i <= leaves@.len(),
            len == slots@.len(),
            at + slots::slot_count(leaves@) <= len,
            k == at + slots::slots_before(leaves@, i as int),
            (Assigned { slots: slots@, plan: plan@ }) == fresh(
                start,
                at as int,
                leaves@,
                i as int,
            ),
        decreases leaves.len() - i,
    {
        proof {
            slots::lemma_slots_before(leaves@, i + 1, leaves@.len() as int);
            slots::lemma_slots_before(leaves@, 0, i as int);
        }
        let p: Primitive = leaves[i].primitive;
        let r: MCReg = plan.new_reg(register_class(p).code());
        slots.set(k, r);
        k += p.slot_count() as usize;
        i += 1;
    }
}

impl InstructionSelector {
    fn take_member(
        &self,
        ir: &FunctionIr,
        env: &Environment,
        types: &Types,
        map: &Vec<u32>,
        slots: &mut Vec<MCReg>,
        r: Ref,
        args: &Vec<Argument>,
    )
        requires
            r.0 < ir@.insts.len(),
            slots::in_order((SlotsView { map: map@, slots: old(slots)@ }), ir@, types@),
            self.can_assign(ir@, env, types@, r),
            inst::views(args@) == arguments::args_in(ir@, env, r),
            dialect::spec_as_module::<Tuple>(ir@.insts[r.0 as int], self.tuple) == Some(
                Tuple::MemberValue,
            ),
        ensures
            forall|plan: PlanView|
                (Assigned { slots: final(slots)@, plan }) == #[trigger] self.assigned_one(
                    ir@,
                    env,
                    types@,
                    map@,
                    (Assigned { slots: old(slots)@, plan }),
                    r,
                ),
            final(slots)@.len() == old(slots)@.len(),
    {
        let ghost s = SlotsView { map: map@, slots: slots@ };
        let tuple: Ref = get_ref(args, 0);
        let i: u64 = get_int(args, 1);
        proof {
            slots::lemma_holds(s, ir@, types@, r);
            slots::lemma_holds(s, ir@, types@, tuple);
        }
        let len: usize = slots.len();
        let elements: &Vec<Element> = get_elements(types, ir.insts[tuple.idx()].ty).unwrap();
        let count: usize = elements.len();
        assert(i < count);
        let at: usize = i as usize;
        proof {
            lemma_elements_before(types@, elements@, i as int, i + 1);
            lemma_elements_before(types@, elements@, i + 1, elements@.len() as int);
            assert(elements@[i as int].ty.0 < types@.len());
        }
        let off: usize = elements_width(types, elements, at, len);
        let n: usize = get_width(types, elements[at].ty, len);
        let from: usize = map[tuple.idx()] as usize + off;
        take_over(slots, from, map[r.idx()] as usize, n);
    }

    fn take_with_member(
        &self,
        ir: &FunctionIr,
        env: &Environment,
        types: &Types,
        map: &Vec<u32>,
        slots: &mut Vec<MCReg>,
        r: Ref,
        args: &Vec<Argument>,
    )
        requires
            r.0 < ir@.insts.len(),
            slots::in_order((SlotsView { map: map@, slots: old(slots)@ }), ir@, types@),
            self.can_assign(ir@, env, types@, r),
            inst::views(args@) == arguments::args_in(ir@, env, r),
            dialect::spec_as_module::<Tuple>(ir@.insts[r.0 as int], self.tuple) == Some(
                Tuple::InsertMember,
            ),
        ensures
            forall|plan: PlanView|
                (Assigned { slots: final(slots)@, plan }) == #[trigger] self.assigned_one(
                    ir@,
                    env,
                    types@,
                    map@,
                    (Assigned { slots: old(slots)@, plan }),
                    r,
                ),
            final(slots)@.len() == old(slots)@.len(),
    {
        let ghost s = SlotsView { map: map@, slots: slots@ };
        let tuple: Ref = get_ref(args, 0);
        let i: u64 = get_int(args, 1);
        let value: Ref = get_ref(args, 2);
        proof {
            slots::lemma_holds(s, ir@, types@, r);
            slots::lemma_holds(s, ir@, types@, tuple);
            slots::lemma_holds(s, ir@, types@, value);
        }
        let elements: &Vec<Element> = get_elements(types, ir.insts[r.idx()].ty).unwrap();
        take_elements(
            slots,
            types,
            elements,
            map[r.idx()] as usize,
            map[tuple.idx()] as usize,
            map[value.idx()] as usize,
            i,
        );
    }

    fn assign_one(
        &self,
        ir: &FunctionIr,
        env: &Environment,
        types: &Types,
        map: &Vec<u32>,
        slots: &mut Vec<MCReg>,
        plan: &mut Plan,
        r: Ref,
    )
        requires
            r.0 < ir@.insts.len(),
            ir@.insts[r.0 as int].ty.0 < types@.len(),
            slots::in_order((SlotsView { map: map@, slots: old(slots)@ }), ir@, types@),
            env.has(ir@.insts[r.0 as int].function),
            env.def(ir@.insts[r.0 as int].function).params@.len() <= u32::MAX,
            self.can_assign(ir@, env, types@, r),
        ensures
            (Assigned { slots: final(slots)@, plan: final(plan)@ }) == self.assigned_one(
                ir@,
                env,
                types@,
                map@,
                (Assigned { slots: old(slots)@, plan: old(plan)@ }),
                r,
            ),
            final(slots)@.len() == old(slots)@.len(),
    {
        let called = &ir.insts[r.idx()];
        let args: Vec<Argument> = read_args(ir, env, r);
        match dialect::as_module::<Tuple>(called, self.tuple) {
            Some(Tuple::MemberValue) => {
                self.take_member(ir, env, types, map, slots, r, &args);
            },
            Some(Tuple::InsertMember) => {
                self.take_with_member(ir, env, types, map, slots, r, &args);
            },
            None => {
                let ghost s = SlotsView { map: map@, slots: slots@ };
                proof {
                    slots::lemma_holds(s, ir@, types@, r);
                    assert(types@[called.ty.0 as int] == types.types@[called.ty.0 as int]@);
                }
                assign_fresh(
                    slots,
                    plan,
                    map[r.idx()] as usize,
                    &types.types[called.ty.0 as usize].leaves,
                );
            },
        }
    }

    /// Gives all values their registers.
    pub fn assign_registers(
        &self,
        ir: &FunctionIr,
        env: &Environment,
        types: &Types,
        slots: &mut Slots,
        plan: &mut Plan,
    )
        requires
            ir@.insts.len() <= u32::MAX,
            slots::types_known(ir@, types@),
            slots::in_order(old(slots)@, ir@, types@),
            self.can_assign_all(ir@, env, types@),
        ensures
            final(slots)@.map == old(slots)@.map,
            (Assigned { slots: final(slots)@.slots, plan: final(plan)@ }) == self.assigned(
                ir@,
                env,
                types@,
                old(slots)@,
                old(plan)@,
                ir@.insts.len() as int,
            ),
            slots::in_order(final(slots)@, ir@, types@),
    {
        let ghost s = slots@;
        let ghost start = plan@;
        let n: usize = ir.insts.len();
        let mut i: usize = 0;
        while i < n
            invariant
                i <= n,
                n == ir@.insts.len(),
                n <= u32::MAX,
                slots::types_known(ir@, types@),
                slots::in_order(slots@, ir@, types@),
                self.can_assign_all(ir@, env, types@),
                slots@.map == s.map,
                (Assigned { slots: slots@.slots, plan: plan@ }) == self.assigned(
                    ir@,
                    env,
                    types@,
                    s,
                    start,
                    i as int,
                ),
            decreases n - i,
        {
            assert(self.can_assign(ir@, env, types@, Ref(i as int as u32))) by {
                assert(env.has(ir@.insts[i as int].function));
            }
            self.assign_one(
                ir,
                env,
                types,
                &slots.slot_map,
                &mut slots.slots,
                plan,
                Ref(i as u32),
            );
            i += 1;
        }
    }
}

/// What is taken from a tuple has the registers that it had there.
pub proof fn members_share_registers(
    m: InstructionSelector,
    f: FunctionView,
    env: &Environment,
    types: Seq<TypeView>,
    s: SlotsView,
    a: Assigned,
    r: Ref,
    k: int,
)
    requires
        slots::in_order((SlotsView { map: s.map, slots: a.slots }), f, types),
        r.0 < f.insts.len(),
        m.can_assign(f, env, types, r),
        dialect::spec_as_module::<Tuple>(f.insts[r.0 as int], m.tuple) == Some(Tuple::MemberValue),
        0 <= k < width(types, f.insts[r.0 as int].ty),
    ensures
        ({
            let tuple = arguments::ref_at(arguments::args_in(f, env, r), 0);
            let i = arguments::int_at(arguments::args_in(f, env, r), 1);
            let elements = elements_of(types, f.insts[tuple.0 as int].ty)->Some_0;
            let b = m.assigned_one(f, env, types, s.map, a, r);
            b.slots[s.map[r.0 as int] + k] == a.slots[s.map[tuple.0 as int] + elements_before(
                types,
                elements,
                i as int,
            ) + k]
        }),
{
    slots::lemma_holds(SlotsView { map: s.map, slots: a.slots }, f, types, r);
}

} // verus!
