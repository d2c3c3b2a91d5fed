//! Scalar replacement of aggregates: variables whose parts are only read and written
//! are divided into scalar variables.
use vstd::prelude::*;

use crate::ir::dialect;
use crate::ir::dialect::{as_module, Arith, Mem, Tuple};
use crate::ir::edit::{EditView, Plan, PlanView};
use crate::ir::env::Environment;
use crate::ir::finish;
use crate::ir::function::{FunctionIr, FunctionView};
use crate::ir::ids::{FunctionId, ModuleId, Ref, TypeId};
use crate::ir::inst;
use crate::ir::inst::{Argument, ArgumentView, Builtin, Instruction};
use crate::ir::optimize::partition;
use crate::ir::optimize::partition::{
    find_subrange, make_partition, subdecl_ty, Access, AccessType, SubType, Subrange,
};
use crate::ir::optimize::scan;
use crate::ir::optimize::scan::{get_int32, get_ref, typed_args, Entry, EntryView, ScanView};
use crate::ir::types;
use crate::ir::types::{Primitive, TypeView, Types};

verus! {

/// The pass. It needs to know the modules of the dialects.
#[derive(Clone, Copy, Debug, PartialEq, Eq, Structural)]
pub struct SROA {
    pub arith: ModuleId,
    pub mem: ModuleId,
    pub tuple: ModuleId,
}

/// Changes together with the types that they use.
#[derive(Debug)]
pub struct Output {
    pub plan: Plan,
    pub types: Types,
}

/// The mathematical content of an [`Output`].
#[verifier::ext_equal]
pub struct Out {
    pub plan: PlanView,
    pub types: Seq<TypeView>,
}

impl View for Output {
    type V = Out;

    open spec fn view(&self) -> Out {
        Out { plan: self.plan@, types: self.types@ }
    }
}

impl Out {
    pub open spec fn with_type(self, p: Primitive) -> Out {
        Out { types: self.types.push(types::primitive_type(p)), ..self }
    }

    /// The type that is added next.
    pub open spec fn type_result(self) -> TypeId {
        TypeId(self.types.len() as u32)
    }

    pub open spec fn before(
        self,
        at: Ref,
        function: FunctionId,
        args: Seq<ArgumentView>,
        ty: TypeId,
    ) -> Out {
        Out { plan: self.plan.before(at, function, args, ty), ..self }
    }

    pub open spec fn with(self, e: EditView) -> Out {
        Out { plan: self.plan.with(e), ..self }
    }

    pub open spec fn result(self) -> Ref {
        self.plan.result()
    }
}

impl Output {
    fn add_type(&mut self, p: Primitive) -> (ty: TypeId)
        ensures
            ty == old(self)@.type_result(),
            final(self)@ == old(self)@.with_type(p),
    {
        self.types.add(p)
    }

    fn add_before(&mut self, at: Ref, function: FunctionId, args: Vec<Argument>, ty: TypeId) -> (r:
        Ref)
        ensures
            r == old(self)@.result(),
            final(self)@ == old(self)@.before(at, function, inst::views(args@), ty),
    {
        self.plan.add_before(at, function, args, ty)
    }

    /// Adds an instruction that takes one value.
    fn add_unary(&mut self, at: Ref, function: FunctionId, a: Ref, ty: TypeId) -> (r: Ref)
        ensures
            r == old(self)@.result(),
            final(self)@ == old(self)@.before(at, function, seq![ArgumentView::Ref(a)], ty),
    {
        let mut args: Vec<Argument> = Vec::new();
        args.push(Argument::Ref(a));
        assert(inst::views(args@) =~= seq![ArgumentView::Ref(a)]);
        self.add_before(at, function, args, ty)
    }

    /// Adds an instruction that takes two values.
    fn add_binary(&mut self, at: Ref, function: FunctionId, a: Ref, b: Ref, ty: TypeId) -> (r: Ref)
        ensures
            r == old(self)@.result(),
            final(self)@ == old(self)@.before(
                at,
                function,
                seq![ArgumentView::Ref(a), ArgumentView::Ref(b)],
                ty,
            ),
    {
        let mut args: Vec<Argument> = Vec::new();
        args.push(Argument::Ref(a));
        args.push(Argument::Ref(b));
        assert(inst::views(args@) =~= seq![ArgumentView::Ref(a), ArgumentView::Ref(b)]);
        self.add_before(at, function, args, ty)
    }

    /// Adds a number.
    fn add_int(&mut self, at: Ref, function: FunctionId, i: u64, ty: TypeId) -> (r: Ref)
        ensures
            r == old(self)@.result(),
            final(self)@ == old(self)@.before(at, function, seq![ArgumentView::Int(i)], ty),
    {
        let mut args: Vec<Argument> = Vec::new();
        args.push(Argument::Int(i));
        assert(inst::views(args@) =~= seq![ArgumentView::Int(i)]);
        self.add_before(at, function, args, ty)
    }
}

/// How many values `n` bytes can hold.
pub open spec fn byte_values(n: int) -> int {
    if n <= 0 {
        1
    } else if n == 1 {
        0x100
    } else if n == 2 {
        0x1_0000
    } else if n == 3 {
        0x100_0000
    } else if n == 4 {
        0x1_0000_0000
    } else if n == 5 {
        0x100_0000_0000
    } else if n == 6 {
        0x1_0000_0000_0000
    } else if n == 7 {
        0x100_0000_0000_0000
    } else {
        0x1_0000_0000_0000_0000
    }
}

fn count_byte_values(n: u64) -> (v: u128)
    ensures
        v == byte_values(n as int),
{
    if n == 0 {
        1
    } else if n == 1 {
        0x100
    } else if n == 2 {
        0x1_0000
    } else if n == 3 {
        0x100_0000
    } else if n == 4 {
        0x1_0000_0000
    } else if n == 5 {
        0x100_0000_0000
    } else if n == 6 {
        0x1_0000_0000_0000
    } else if n == 7 {
        0x100_0000_0000_0000
    } else {
        0x1_0000_0000_0000_0000
    }
}

/// All bits of a scalar of `width` bytes, except those of `size` bytes at `offset`.
pub open spec fn keep_mask(width: int, offset: int, size: int) -> int {
    byte_values(width) - 1 - (byte_values(size) - 1) * byte_values(offset)
}

proof fn lemma_byte_values(a: int, b: int)
    requires
        0 <= a,
        0 <= b,
        a + b <= 8,
    ensures
        byte_values(a + b) == byte_values(a) * byte_values(b),
{
    let x = byte_values(a);
    let y = byte_values(b);
    if a == 0 {
        assert(x * y == 1 * y) by (nonlinear_arith)
            requires
                x == 1,
        ;
    }
    if a == 1 {
        assert(x * y == 0x100 * y) by (nonlinear_arith)
            requires
                x == 0x100,
        ;
    }
    if a == 2 {
        assert(x * y == 0x1_0000 * y) by (nonlinear_arith)
            requires
                x == 0x1_0000,
        ;
    }
    if a == 3 {
        assert(x * y == 0x100_0000 * y) by (nonlinear_arith)
            requires
                x == 0x100_0000,
        ;
    }
    if a == 4 {
        assert(x * y == 0x1_0000_0000 * y) by (nonlinear_arith)
            requires
                x == 0x1_0000_0000,
        ;
    }
    if a == 5 {
        assert(x * y == 0x100_0000_0000 * y) by (nonlinear_arith)
            requires
                x == 0x100_0000_0000,
        ;
    }
    if a == 6 {
        assert(x * y == 0x1_0000_0000_0000 * y) by (nonlinear_arith)
            requires
                x == 0x1_0000_0000_0000,
        ;
    }
    if a == 7 {
        assert(x * y == 0x100_0000_0000_0000 * y) by (nonlinear_arith)
            requires
                x == 0x100_0000_0000_0000,
        ;
    }
    if a == 8 {
        assert(x * y == 0x1_0000_0000_0000_0000 * y) by (nonlinear_arith)
            requires
                x == 0x1_0000_0000_0000_0000,
        ;
    }
}

/// The mask keeps the bits below the stored bytes and those above.
pub proof fn mask_keeps_the_rest(width: int, offset: int, size: int)
    requires
        0 <= offset,
        0 < size,
        offset + size <= width <= 8,
    ensures
        0 <= keep_mask(width, offset, size) < byte_values(width),
        keep_mask(width, offset, size) % byte_values(offset) == byte_values(offset) - 1,
        keep_mask(width, offset, size) / byte_values(offset) % byte_values(size) == 0,
        keep_mask(width, offset, size) / byte_values(offset + size) == byte_values(
            width - offset - size,
        ) - 1,
{
    let k = keep_mask(width, offset, size);
    let o = byte_values(offset);
    let s = byte_values(size);
    let h = byte_values(width - offset - size);
    lemma_byte_values(offset, size);
    lemma_byte_values(offset + size, width - offset - size);
    assert(k == (h - 1) * (o * s) + (o - 1)) by (nonlinear_arith)
        requires
            k == o * s * h - 1 - (s - 1) * o,
    ;
    assert((h - 1) * (o * s) == ((h - 1) * s) * o) by (nonlinear_arith);
    assert(0 <= (h - 1) * (o * s) && o - 1 < o * s) by (nonlinear_arith)
        requires
            o >= 1,
            s > 1,
            h >= 1,
    ;
    assert((s - 1) * o >= 0) by (nonlinear_arith)
        requires
            o >= 1,
            s >= 1,
    ;
    vstd::arithmetic::div_mod::lemma_fundamental_div_mod_converse(k, o, (h - 1) * s, o - 1);
    vstd::arithmetic::div_mod::lemma_fundamental_div_mod_converse((h - 1) * s, s, h - 1, 0);
    vstd::arithmetic::div_mod::lemma_fundamental_div_mod_converse(k, o * s, h - 1, o - 1);
}

fn make_keep_mask(width: u64, offset: u64, size: u64) -> (mask: u64)
    requires
        0 < size,
        offset + size <= width <= 8,
    ensures
        mask == keep_mask(width as int, offset as int, size as int),
{
    proof {
        mask_keeps_the_rest(width as int, offset as int, size as int);
        let s = byte_values(size as int) - 1;
        let o = byte_values(offset as int);
        assert(0 <= s * o < 0x1_0000_0000_0000_0000 * 0x1_0000_0000_0000_0000) by (nonlinear_arith)
            requires
                0 <= s < 0x1_0000_0000_0000_0000,
                0 < o < 0x1_0000_0000_0000_0000,
        ;
    }
    let all: u128 = count_byte_values(width) - 1;
    let stored: u128 = (count_byte_values(size) - 1) * count_byte_values(offset);
    (all - stored) as u64
}

pub open spec fn convertible(src: Primitive, dst: Primitive) -> bool {
    src != dst ==> !src.is_float() && !dst.is_float()
}

/// The instruction that converts between types.
pub open spec fn conversion(m: SROA, src: Primitive, dst: Primitive) -> FunctionId {
    if dst == Primitive::Ptr {
        dialect::spec_function(m.mem, Mem::IntToPtr)
    } else if src == Primitive::Ptr {
        dialect::spec_function(m.mem, Mem::PtrToInt)
    } else {
        dialect::spec_function(m.arith, Arith::CastInt)
    }
}

/// The value as another type.
pub open spec fn converted(
    m: SROA,
    o: Out,
    value: Ref,
    src: Primitive,
    dst: Primitive,
    before: Ref,
) -> (Out, Ref) {
    if src == dst {
        (o, value)
    } else {
        let typed = o.with_type(dst);
        (
            typed.before(
                before,
                conversion(m, src, dst),
                seq![ArgumentView::Ref(value)],
                o.type_result(),
            ),
            o.result(),
        )
    }
}

/// The loaded scalar with the accessed bytes moved to its start, and the type that it
/// then has.
pub open spec fn shifted_down(
    m: SROA,
    o: Out,
    loaded: Ref,
    ty: Primitive,
    offset: int,
    before: Ref,
) -> (Out, Ref, Primitive) {
    if offset == 0 {
        (o, loaded, ty)
    } else {
        let unsigned = ty.into_unsigned();
        let typed = o.with_type(unsigned);
        let id = o.type_result();
        let (cast, value) = if ty.is_unsigned_int() {
            (typed, loaded)
        } else if ty.is_int() {
            (
                typed.before(
                    before,
                    dialect::spec_function(m.arith, Arith::CastInt),
                    seq![ArgumentView::Ref(loaded)],
                    id,
                ),
                typed.result(),
            )
        } else {
            (
                typed.before(
                    before,
                    dialect::spec_function(m.mem, Mem::PtrToInt),
                    seq![ArgumentView::Ref(loaded)],
                    id,
                ),
                typed.result(),
            )
        };
        let distance = cast.before(
            before,
            dialect::spec_function(m.arith, Arith::Int),
            seq![ArgumentView::Int((offset * 8) as u64)],
            id,
        );
        (
            distance.before(
                before,
                dialect::spec_function(m.arith, Arith::Shr),
                seq![ArgumentView::Ref(value), ArgumentView::Ref(cast.result())],
                id,
            ),
            distance.result(),
            unsigned,
        )
    }
}

/// A read of a part of a variable becomes a read of a scalar. What no store writes
/// has no value.
pub open spec fn loaded(
    m: SROA,
    o: Out,
    ptr: Ref,
    ty: Primitive,
    access: Access,
    offset: int,
) -> (Out, Option<Ref>) {
    if offset >= ty.byte_size() {
        (o, None)
    } else {
        let first = o.with_type(ty).before(
            access.location,
            dialect::spec_function(m.mem, Mem::Load),
            seq![ArgumentView::Ref(ptr)],
            o.type_result(),
        );
        if ty == access.ty {
            (first, Some(o.result()))
        } else {
            let (moved, value, now) = shifted_down(
                m,
                first,
                o.result(),
                ty,
                offset,
                access.location,
            );
            let (done, r) = converted(m, moved, value, now, access.ty, access.location);
            (done, Some(r))
        }
    }
}

/// The value with its bytes moved to where they belong in the scalar.
pub open spec fn shifted_up(
    m: SROA,
    o: Out,
    value: Ref,
    id: TypeId,
    offset: int,
    before: Ref,
) -> (Out, Ref) {
    if offset == 0 {
        (o, value)
    } else {
        let distance = o.before(
            before,
            dialect::spec_function(m.arith, Arith::Int),
            seq![ArgumentView::Int((offset * 8) as u64)],
            id,
        );
        (
            distance.before(
                before,
                dialect::spec_function(m.arith, Arith::Shl),
                seq![ArgumentView::Ref(value), ArgumentView::Ref(o.result())],
                id,
            ),
            distance.result(),
        )
    }
}

/// The value combined with the other bytes of the scalar.
pub open spec fn combined(
    m: SROA,
    o: Out,
    ptr: Ref,
    value: Ref,
    ty: Primitive,
    id: TypeId,
    access: Access,
    offset: int,
) -> (Out, Ref) {
    let existing = o.before(
        access.location,
        dialect::spec_function(m.mem, Mem::Load),
        seq![ArgumentView::Ref(ptr)],
        id,
    );
    let mask = existing.before(
        access.location,
        dialect::spec_function(m.arith, Arith::Int),
        seq![
            ArgumentView::Int(
                keep_mask(
                    ty.byte_size() as int,
                    offset,
                    access.ty.byte_size() as int,
                ) as u64,
            ),
        ],
        id,
    );
    let kept = mask.before(
        access.location,
        dialect::spec_function(m.arith, Arith::And),
        seq![ArgumentView::Ref(o.result()), ArgumentView::Ref(existing.result())],
        id,
    );
    (
        kept.before(
            access.location,
            dialect::spec_function(m.arith, Arith::Or),
            seq![ArgumentView::Ref(mask.result()), ArgumentView::Ref(value)],
            id,
        ),
        kept.result(),
    )
}

/// A write to a part of a variable becomes a write to a scalar.
pub open spec fn stored(
    m: SROA,
    o: Out,
    ptr: Ref,
    ty: Primitive,
    value: Ref,
    access: Access,
    offset: int,
) -> Out {
    let store = dialect::spec_function(m.mem, Mem::Store);
    if ty == access.ty {
        o.before(
            access.location,
            store,
            seq![ArgumentView::Ref(ptr), ArgumentView::Ref(value)],
            TypeId::unit(),
        )
    } else {
        let typed = o.with_type(ty);
        let id = o.type_result();
        let (a, as_scalar) = converted(m, typed, value, access.ty, ty, access.location);
        let (b, moved) = shifted_up(m, a, as_scalar, id, offset, access.location);
        let partial = offset != 0 || access.ty.byte_size() != ty.byte_size();
        let (c, whole) = if partial {
            combined(m, b, ptr, moved, ty, id, access, offset)
        } else {
            (b, moved)
        };
        c.before(
            access.location,
            store,
            seq![ArgumentView::Ref(ptr), ArgumentView::Ref(whole)],
            TypeId::unit(),
        )
    }
}

/// The value that was put in place of an element, where the tuple was made so. At most
/// `fuel` insertions are looked at.
pub open spec fn inserted_value(
    f: FunctionView,
    tuple: ModuleId,
    r: Ref,
    idx: u32,
    fuel: nat,
) -> Option<Ref>
    decreases fuel,
{
    if fuel == 0 || r.0 >= f.insts.len() {
        None
    } else {
        let inst = f.insts[r.0 as int];
        if dialect::spec_as_module::<Tuple>(inst, tuple) == Some(Tuple::InsertMember) {
            let args = scan::op_args(f, inst, Tuple::InsertMember);
            if scan::int32_arg(args, 1) == idx {
                Some(scan::ref_arg(args, 2))
            } else {
                inserted_value(f, tuple, scan::ref_arg(args, 0), idx, (fuel - 1) as nat)
            }
        } else {
            None
        }
    }
}

/// An element of a tuple.
pub open spec fn element(
    m: SROA,
    f: FunctionView,
    o: Out,
    r: Ref,
    idx: u32,
    ty: Primitive,
    before: Ref,
) -> (Out, Ref) {
    match inserted_value(f, m.tuple, r, idx, f.insts.len()) {
        Some(value) => (o, value),
        None => (
            o.with_type(ty).before(
                before,
                dialect::spec_function(m.tuple, Tuple::MemberValue),
                seq![ArgumentView::Ref(r), ArgumentView::Int32(idx)],
                o.type_result(),
            ),
            o.result(),
        ),
    }
}

/// The scalar variables of the first `n` subranges.
pub open spec fn scalars(
    m: SROA,
    o: Out,
    decl: Ref,
    ptr_ty: TypeId,
    subs: Seq<Subrange>,
    n: int,
) -> (Out, Seq<Ref>)
    decreases n,
{
    if n <= 0 {
        (o, Seq::empty())
    } else {
        let (before, refs) = scalars(m, o, decl, ptr_ty, subs, n - 1);
        let ty = partition::spec_subdecl_ty(subs[n - 1]);
        (
            before.with_type(ty).before(
                decl,
                dialect::spec_function(m.mem, Mem::Decl),
                seq![ArgumentView::TypeId(before.type_result())],
                ptr_ty,
            ),
            refs.push(before.result()),
        )
    }
}

/// What has been done for a variable so far: the tuples that are put together for
/// loads, and the stores that are to be removed.
#[verifier::ext_equal]
pub struct Work {
    pub out: Out,
    pub tuples: Seq<(Ref, Ref)>,
    pub stores: Seq<Ref>,
}

/// The index of the tuple for a load, or the number of tuples.
pub open spec fn tuple_index(tuples: Seq<(Ref, Ref)>, location: Ref) -> int
    decreases tuples.len(),
{
    if tuples.len() == 0 {
        0
    } else if tuples[0].0 == location {
        0
    } else {
        1 + tuple_index(tuples.skip(1), location)
    }
}

impl Work {
    /// The tuple for a load exists.
    pub open spec fn with_tuple(self, location: Ref, ty: TypeId) -> Work {
        if tuple_index(self.tuples, location) < self.tuples.len() {
            self
        } else {
            Work {
                out: self.out.before(
                    location,
                    Builtin::Undef.spec_function(),
                    Seq::empty(),
                    ty,
                ),
                tuples: self.tuples.push((location, self.out.result())),
                ..self
            }
        }
    }

    /// An element is put in the tuple for a load.
    pub open spec fn insert(
        self,
        m: SROA,
        location: Ref,
        ty: TypeId,
        index: u32,
        value: Ref,
    ) -> Work {
        let k = tuple_index(self.tuples, location);
        Work {
            out: self.out.before(
                location,
                dialect::spec_function(m.tuple, Tuple::InsertMember),
                seq![
                    ArgumentView::Ref(self.tuples[k].1),
                    ArgumentView::Int32(index),
                    ArgumentView::Ref(value),
                ],
                ty,
            ),
            tuples: self.tuples.update(k, (location, self.out.result())),
            ..self
        }
    }

    /// A read of a part.
    pub open spec fn load(
        self,
        m: SROA,
        f: FunctionView,
        subs: Seq<Subrange>,
        refs: Seq<Ref>,
        a: Access,
    ) -> Work {
        let ty = scan::value_type(f, a.location);
        let (out, value) = match partition::lookup(subs, a.offset as int) {
            Some(k) => loaded(
                m,
                self.out,
                refs[k],
                partition::spec_subdecl_ty(subs[k]),
                a,
                a.offset - subs[k].offset,
            ),
            None => (self.out, None),
        };
        let w = Work { out, ..self };
        match a.index {
            Some(index) => {
                // Note that the tuple is still created even if we don't have a value!
                let made = w.with_tuple(a.location, ty);
                match value {
                    Some(value) => made.insert(m, a.location, ty, index, value),
                    None => made,
                }
            },
            None => match value {
                Some(value) => Work {
                    out: out.with(EditView::ReplaceWith { at: a.location, new: value }),
                    ..w
                },
                None => Work {
                    out: out.with(
                        EditView::Replace {
                            at: a.location,
                            function: Builtin::Undef.spec_function(),
                            args: Seq::empty(),
                            ty,
                        },
                    ),
                    ..w
                },
            },
        }
    }

    /// A write to a part.
    pub open spec fn store(
        self,
        m: SROA,
        f: FunctionView,
        subs: Seq<Subrange>,
        refs: Seq<Ref>,
        a: Access,
    ) -> Work {
        let k = partition::lookup(subs, a.offset as int)->Some_0;
        let args = scan::op_args(f, f.insts[a.location.0 as int], Mem::Store);
        let tuple = scan::ref_arg(args, 1);
        let (out, value) = match a.index {
            Some(index) => element(m, f, self.out, tuple, index, a.ty, a.location),
            None => (self.out, tuple),
        };
        Work {
            out: stored(
                m,
                out,
                refs[k],
                partition::spec_subdecl_ty(subs[k]),
                value,
                a,
                a.offset - subs[k].offset,
            ),
            stores: if self.stores.contains(a.location) {
                self.stores
            } else {
                self.stores.push(a.location)
            },
            ..self
        }
    }

    pub open spec fn access(
        self,
        m: SROA,
        f: FunctionView,
        subs: Seq<Subrange>,
        refs: Seq<Ref>,
        a: Access,
    ) -> Work {
        match a.access {
            AccessType::Load => self.load(m, f, subs, refs, a),
            AccessType::Store => self.store(m, f, subs, refs, a),
        }
    }

    pub open spec fn all(
        self,
        m: SROA,
        f: FunctionView,
        subs: Seq<Subrange>,
        refs: Seq<Ref>,
        accesses: Seq<Access>,
    ) -> Work
        decreases accesses.len(),
    {
        if accesses.len() == 0 {
            self
        } else {
            self.all(m, f, subs, refs, accesses.drop_last()).access(
                m,
                f,
                subs,
                refs,
                accesses.last(),
            )
        }
    }
}

/// The instructions are removed.
pub open spec fn deleted(o: Out, refs: Seq<Ref>) -> Out
    decreases refs.len(),
{
    if refs.len() == 0 {
        o
    } else {
        deleted(o, refs.drop_last()).with(EditView::Delete { at: refs.last() })
    }
}

/// Loads of aggregates stand for the tuples that were put together.
pub open spec fn tuples_replaced(o: Out, tuples: Seq<(Ref, Ref)>) -> Out
    decreases tuples.len(),
{
    if tuples.len() == 0 {
        o
    } else {
        tuples_replaced(o, tuples.drop_last()).with(
            EditView::ReplaceWith { at: tuples.last().0, new: tuples.last().1 },
        )
    }
}

/// A variable with its partition is replaced by scalars.
pub open spec fn divided(
    m: SROA,
    f: FunctionView,
    o: Out,
    e: EntryView,
    subs: Seq<Subrange>,
) -> Out {
    let (made, refs) = scalars(
        m,
        o,
        e.decl,
        scan::value_type(f, e.decl),
        subs,
        subs.len() as int,
    );
    let w = Work { out: made, tuples: Seq::empty(), stores: Seq::empty() }.all(
        m,
        f,
        subs,
        refs,
        e.accesses,
    );
    deleted(tuples_replaced(deleted(w.out, e.uses), w.tuples), w.stores).with(
        EditView::Delete { at: e.decl },
    )
}

/// A variable is replaced by scalars where that is possible.
pub open spec fn replaced(m: SROA, f: FunctionView, o: Out, e: EntryView) -> Out {
    if e.disqualified {
        o
    } else {
        match partition::partition(e.accesses) {
            Some(subs) => divided(m, f, o, e, subs),
            None => o,
        }
    }
}

pub open spec fn all_replaced(m: SROA, f: FunctionView, o: Out, entries: Seq<EntryView>) -> Out
    decreases entries.len(),
{
    if entries.len() == 0 {
        o
    } else {
        replaced(m, f, all_replaced(m, f, o, entries.drop_last()), entries.last())
    }
}

/// What is known of the variables of a function.
pub open spec fn scanned(m: SROA, f: FunctionView, env: &Environment, types: Seq<TypeView>) -> ScanView {
    scan::scan_blocks(f, env, types, m.mem, finish::postorder(f.blocks).reverse())
}

/// All changes that the pass makes, and the types afterwards.
pub open spec fn changes(m: SROA, f: FunctionView, env: &Environment, types: Seq<TypeView>) -> Out {
    let s = scanned(m, f, env, types);
    let o = Out { plan: PlanView::none(f.insts.len() as u32), types };
    all_replaced(m, f, deleted(o, s.zero_sized), s.entries)
}

/// Accesses to scalars that hold their bytes; values are not reinterpreted as
/// floating point numbers.
pub open spec fn access_supported(subs: Seq<Subrange>, a: Access) -> bool {
    match partition::lookup(subs, a.offset as int) {
        Some(k) => {
            let ty = partition::spec_subdecl_ty(subs[k]);
            a.offset - subs[k].offset < ty.byte_size() ==> convertible(ty, a.ty)
        },
        None => true,
    }
}

/// No variable that is divided holds floating point numbers and other values in the
/// same bytes.
pub open spec fn supported(entries: Seq<EntryView>) -> bool {
    forall|i: int|
        0 <= i < entries.len() && !(#[trigger] entries[i]).disqualified ==> (partition::partition(
            entries[i].accesses,
        ) matches Some(subs) ==> forall|j: int|
            0 <= j < entries[i].accesses.len() ==> access_supported(
                subs,
                #[trigger] entries[i].accesses[j],
            ))
}

impl SROA {
    pub fn new(arith: ModuleId, mem: ModuleId, tuple: ModuleId) -> (s: Self)
        ensures
            s == (SROA { arith, mem, tuple }),
    {
        SROA { arith, mem, tuple }
    }

    fn convert_primitive(
        &self,
        o: &mut Output,
        value: Ref,
        src: Primitive,
        dst: Primitive,
        before: Ref,
    ) -> (r: Ref)
        requires
            convertible(src, dst),
        ensures
            (final(o)@, r) == converted(*self, old(o)@, value, src, dst, before),
    {
        if src == dst {
            return value;
        }
        let dst_ty: TypeId = o.add_type(dst);
        let function: FunctionId = if dst == Primitive::Ptr {
            dialect::function(self.mem, Mem::IntToPtr)
        } else if src == Primitive::Ptr {
            dialect::function(self.mem, Mem::PtrToInt)
        } else {
            dialect::function(self.arith, Arith::CastInt)
        };
        o.add_unary(before, function, value, dst_ty)
    }

    fn shift_down(
        &self,
        o: &mut Output,
        value: Ref,
        ty: Primitive,
        offset: u64,
        before: Ref,
    ) -> (r: (Ref, Primitive))
        requires
            !ty.is_float(),
            offset < 16,
        ensures
            (final(o)@, r.0, r.1) == shifted_down(
                *self,
                old(o)@,
                value,
                ty,
                offset as int,
                before,
            ),
    {
        if offset == 0 {
            return (value, ty);
        }
        let unsigned: Primitive = ty.into_unsigned();
        let id: TypeId = o.add_type(unsigned);
        let loaded: Ref = if ty.is_unsigned_int() {
            value
        } else if ty.is_int() {
            o.add_unary(before, dialect::function(self.arith, Arith::CastInt), value, id)
        } else {
            o.add_unary(before, dialect::function(self.mem, Mem::PtrToInt), value, id)
        };
        let distance: Ref = o.add_int(
            before,
            dialect::function(self.arith, Arith::Int),
            offset * 8,
            id,
        );
        let r: Ref = o.add_binary(
            before,
            dialect::function(self.arith, Arith::Shr),
            loaded,
            distance,
            id,
        );
        (r, unsigned)
    }

    fn load_access(
        &self,
        o: &mut Output,
        ptr: Ref,
        ty: Primitive,
        access: &Access,
        offset: u64,
    ) -> (r: Option<Ref>)
        requires
            offset < ty.byte_size() ==> convertible(ty, access.ty),
        ensures
            (final(o)@, r) == loaded(*self, old(o)@, ptr, ty, *access, offset as int),
    {
        if offset >= ty.byte_size() {
            // loading fully undefined memory (no stores write to it)
            return None;
        }
        let id: TypeId = o.add_type(ty);
        let first: Ref = o.add_unary(
            access.location,
            dialect::function(self.mem, Mem::Load),
            ptr,
            id,
        );
        if ty == access.ty {
            // simplest case: we have the right type and don't need to reconstruct a tuple
            // so we can replace the access directly
            return Some(first);
        }
        let (value, now) = self.shift_down(o, first, ty, offset, access.location);
        Some(self.convert_primitive(o, value, now, access.ty, access.location))
    }

    fn store_access(
        &self,
        o: &mut Output,
        ptr: Ref,
        ty: Primitive,
        value: Ref,
        access: &Access,
        offset: u64,
    )
        requires
            convertible(ty, access.ty),
            ty != access.ty ==> offset + access.ty.byte_size() <= ty.byte_size() <= 8,
        ensures
            final(o)@ == stored(*self, old(o)@, ptr, ty, value, *access, offset as int),
    {
        let store: FunctionId = dialect::function(self.mem, Mem::Store);
        if ty == access.ty {
            o.add_binary(access.location, store, ptr, value, TypeId::unit());
            return;
        }
        let id: TypeId = o.add_type(ty);
        let partial: bool = offset != 0 || access.ty.byte_size() != ty.byte_size();
        let mut value: Ref = self.convert_primitive(o, value, access.ty, ty, access.location);
        if offset != 0 {
            let distance: Ref = o.add_int(
                access.location,
                dialect::function(self.arith, Arith::Int),
                offset * 8,
                id,
            );
            value = o.add_binary(
                access.location,
                dialect::function(self.arith, Arith::Shl),
                value,
                distance,
                id,
            );
        }
        if partial {
            // load the previous value, mask out the existing bits and combine it with the new
            // value
            let existing: Ref = o.add_unary(
                access.location,
                dialect::function(self.mem, Mem::Load),
                ptr,
                id,
            );
            let mask: u64 = make_keep_mask(ty.byte_size(), offset, access.ty.byte_size());
            let not_mask: Ref = o.add_int(
                access.location,
                dialect::function(self.arith, Arith::Int),
                mask,
                id,
            );
            let kept: Ref = o.add_binary(
                access.location,
                dialect::function(self.arith, Arith::And),
                existing,
                not_mask,
                id,
            );
            value = o.add_binary(
                access.location,
                dialect::function(self.arith, Arith::Or),
                kept,
                value,
                id,
            );
        }
        o.add_binary(access.location, store, ptr, value, TypeId::unit());
    }

    fn get_or_extract_index(
        &self,
        f: &FunctionIr,
        o: &mut Output,
        r: Ref,
        idx: u32,
        ty: Primitive,
        insert_before: Ref,
    ) -> (value: Ref)
        ensures
            (final(o)@, value) == element(*self, f@, old(o)@, r, idx, ty, insert_before),
    {
        // try to look through InsertMember ops first to see if the value was inserted before
        let mut current: Ref = r;
        let mut fuel: usize = f.insts.len();
        let ghost start = o@;
        let mut going: bool = true;
        while going && fuel > 0
            invariant
                fuel <= f@.insts.len(),
                o@ == start,
                going ==> inserted_value(f@, self.tuple, r, idx, f@.insts.len()) == inserted_value(
                    f@,
                    self.tuple,
                    current,
                    idx,
                    fuel as nat,
                ),
                !going ==> inserted_value(f@, self.tuple, r, idx, f@.insts.len()) is None,
            decreases fuel,
                if going {
                    1int
                } else {
                    0
                },
        {
            if current.idx() >= f.insts.len() {
                going = false;
            } else {
                let inst: &Instruction = &f.insts[current.idx()];
                let op: Option<Tuple> = as_module::<Tuple>(inst, self.tuple);
                if let Some(Tuple::InsertMember) = op {
                    let args: Vec<Argument> = typed_args(f, inst, Tuple::InsertMember);
                    if get_int32(&args, 1) == idx {
                        return get_ref(&args, 2);
                    }
                    current = get_ref(&args, 0);
                    fuel = fuel - 1;
                } else {
                    going = false;
                }
            }
        }
        let id: TypeId = o.add_type(ty);
        let mut args: Vec<Argument> = Vec::new();
        args.push(Argument::Ref(r));
        args.push(Argument::Int32(idx));
        assert(inst::views(args@) =~= seq![ArgumentView::Ref(r), ArgumentView::Int32(idx)]);
        o.add_before(
            insert_before,
            dialect::function(self.tuple, Tuple::MemberValue),
            args,
            id,
        )
    }

    fn make_scalars(&self, o: &mut Output, decl: Ref, ptr_ty: TypeId, subs: &Vec<Subrange>) -> (refs:
        Vec<Ref>)
        requires
            forall|i: int|
                0 <= i < subs@.len() ==> ((#[trigger] subs@[i]).ty == SubType::Int ==> 1
                    <= subs@[i].size <= 8),
        ensures
            (final(o)@, refs@) == scalars(
                *self,
                old(o)@,
                decl,
                ptr_ty,
                subs@,
                subs@.len() as int,
            ),
            refs@.len() == subs@.len(),
    {
        let ghost start = o@;
        let mut refs: Vec<Ref> = Vec::new();
        let mut i: usize = 0;
        while i < subs.len()
            invariant
                i <= subs@.len(),
                refs@.len() == i,
                forall|i: int|
                    0 <= i < subs@.len() ==> ((#[trigger] subs@[i]).ty == SubType::Int ==> 1
                        <= subs@[i].size <= 8),
                (o@, refs@) == scalars(*self, start, decl, ptr_ty, subs@, i as int),
            decreases subs.len() - i,
        {
            let ty: Primitive = subdecl_ty(subs[i]);
            let id: TypeId = o.add_type(ty);
            let mut args: Vec<Argument> = Vec::new();
            args.push(Argument::TypeId(id));
            assert(inst::views(args@) =~= seq![ArgumentView::TypeId(id)]);
            let r: Ref = o.add_before(decl, dialect::function(self.mem, Mem::Decl), args, ptr_ty);
            refs.push(r);
            i += 1;
        }
        refs
    }
}

/// Work on a variable.
struct Task {
    tuples: Vec<(Ref, Ref)>,
    stores: Vec<Ref>,
}

spec fn work(o: Output, t: Task) -> Work {
    Work { out: o@, tuples: t.tuples@, stores: t.stores@ }
}

proof fn lemma_tuple_index_is(tuples: Seq<(Ref, Ref)>, location: Ref, k: int)
    requires
        0 <= k <= tuples.len(),
        forall|i: int| 0 <= i < k ==> (#[trigger] tuples[i]).0 != location,
        k < tuples.len() ==> tuples[k].0 == location,
    ensures
        tuple_index(tuples, location) == k,
    decreases tuples.len(),
{
    if k > 0 {
        assert(tuples[0].0 != location);
        assert forall|i: int| 0 <= i < k - 1 implies (#[trigger] tuples.skip(1)[i]).0
            != location by {
            assert(tuples.skip(1)[i] == tuples[i + 1]);
        }
        lemma_tuple_index_is(tuples.skip(1), location, k - 1);
    }
}

pub proof fn lemma_tuple_index(tuples: Seq<(Ref, Ref)>, location: Ref)
    ensures
        0 <= tuple_index(tuples, location) <= tuples.len(),
        tuple_index(tuples, location) < tuples.len() ==> tuples[tuple_index(
            tuples,
            location,
        )].0 == location,
    decreases tuples.len(),
{
    if tuples.len() > 0 && tuples[0].0 != location {
        lemma_tuple_index(tuples.skip(1), location);
    }
}

impl Task {
    fn find_tuple(&self, location: Ref) -> (k: usize)
        ensures
            k == tuple_index(self.tuples@, location),
            k <= self.tuples@.len(),
    {
        let mut k: usize = 0;
        while k < self.tuples.len() && self.tuples[k].0 != location
            invariant
                k <= self.tuples@.len(),
                forall|i: int| 0 <= i < k ==> (#[trigger] self.tuples@[i]).0 != location,
            decreases self.tuples.len() - k,
        {
            k += 1;
        }
        proof {
            lemma_tuple_index_is(self.tuples@, location, k as int);
        }
        k
    }

    fn with_tuple(&mut self, o: &mut Output, location: Ref, ty: TypeId)
        ensures
            work(*final(o), *final(self)) == work(*old(o), *old(self)).with_tuple(location, ty),
            tuple_index(final(self).tuples@, location) < final(self).tuples@.len(),
    {
        let ghost before = work(*o, *self);
        let k: usize = self.find_tuple(location);
        if k == self.tuples.len() {
            let args: Vec<Argument> = Vec::new();
            assert(inst::views(args@) =~= Seq::empty());
            let r: Ref = o.add_before(location, Builtin::Undef.function(), args, ty);
            proof {
                lemma_tuple_index(self.tuples@, location);
                lemma_before_tuple(self.tuples@, location);
            }
            let ghost tuples = self.tuples@;
            self.tuples.push((location, r));
            proof {
                assert forall|i: int| 0 <= i < k implies (#[trigger] self.tuples@[i]).0
                    != location by {
                    assert(self.tuples@[i] == tuples[i]);
                }
                lemma_tuple_index_is(self.tuples@, location, k as int);
            }
        }
    }

    fn insert(
        &mut self,
        m: &SROA,
        o: &mut Output,
        location: Ref,
        ty: TypeId,
        index: u32,
        value: Ref,
    )
        requires
            tuple_index(old(self).tuples@, location) < old(self).tuples@.len(),
        ensures
            work(*final(o), *final(self)) == work(*old(o), *old(self)).insert(
                *m,
                location,
                ty,
                index,
                value,
            ),
    {
        let k: usize = self.find_tuple(location);
        let tuple: Ref = self.tuples[k].1;
        let mut args: Vec<Argument> = Vec::new();
        args.push(Argument::Ref(tuple));
        args.push(Argument::Int32(index));
        args.push(Argument::Ref(value));
        assert(inst::views(args@) =~= seq![
            ArgumentView::Ref(tuple),
            ArgumentView::Int32(index),
            ArgumentView::Ref(value),
        ]);
        let r: Ref = o.add_before(
            location,
            dialect::function(m.tuple, Tuple::InsertMember),
            args,
            ty,
        );
        self.tuples.set(k, (location, r));
    }

    fn load(
        &mut self,
        m: &SROA,
        f: &FunctionIr,
        o: &mut Output,
        subs: &Vec<Subrange>,
        refs: &Vec<Ref>,
        a: &Access,
    )
        requires
            partition::ordered(subs@),
            refs@.len() == subs@.len(),
            a.offset < u64::MAX,
            access_supported(subs@, *a),
            forall|i: int|
                0 <= i < subs@.len() ==> ((#[trigger] subs@[i]).ty == SubType::Int ==> 1
                    <= subs@[i].size <= 8),
        ensures
            work(*final(o), *final(self)) == work(*old(o), *old(self)).load(
                *m,
                f@,
                subs@,
                refs@,
                *a,
            ),
    {
        let value: Option<Ref> = match find_subrange(subs, a.offset) {
            Some(k) => {
                let ty: Primitive = subdecl_ty(subs[k]);
                m.load_access(o, refs[k], ty, a, a.offset - subs[k].offset)
            },
            None => None,
        };
        let location: Ref = a.location;
        let ty: TypeId = if location.is_ref() && location.idx() < f.insts.len() {
            f.insts[location.idx()].ty
        } else {
            TypeId::i1()
        };
        if let Some(index) = a.index {
            self.with_tuple(o, location, ty);
            if let Some(value) = value {
                self.insert(m, o, location, ty, index, value);
            }
        } else if let Some(value) = value {
            o.plan.replace_with(location, value);
        } else {
            let args: Vec<Argument> = Vec::new();
            assert(inst::views(args@) =~= Seq::empty());
            o.plan.replace(location, Builtin::Undef.function(), args, ty);
        }
    }

    fn store(
        &mut self,
        m: &SROA,
        f: &FunctionIr,
        o: &mut Output,
        subs: &Vec<Subrange>,
        refs: &Vec<Ref>,
        a: &Access,
    )
        requires
            partition::ordered(subs@),
            partition::sizes_match(subs@),
            refs@.len() == subs@.len(),
            partition::access_fits(*a),
            partition::store_is_covered(subs@, *a),
            access_supported(subs@, *a),
            a.location.0 < f@.insts.len(),
            forall|i: int|
                0 <= i < subs@.len() ==> ((#[trigger] subs@[i]).ty == SubType::Int ==> 1
                    <= subs@[i].size <= 8),
        ensures
            work(*final(o), *final(self)) == work(*old(o), *old(self)).store(
                *m,
                f@,
                subs@,
                refs@,
                *a,
            ),
    {
        let ghost before = work(*o, *self);
        let location: Ref = a.location;
        let found: Option<usize> = find_subrange(subs, a.offset);
        // subranges are defined by stores so there is always one here
        if let Some(k) = found {
            let offset: u64 = a.offset - subs[k].offset;
            let ty: Primitive = subdecl_ty(subs[k]);
            let args: Vec<Argument> = typed_args(f, &f.insts[location.idx()], Mem::Store);
            let mut value: Ref = get_ref(&args, 1);
            let mut known: bool = false;
            let mut i: usize = 0;
            while i < self.stores.len()
                invariant
                    i <= self.stores@.len(),
                    known == self.stores@.take(i as int).contains(location),
                decreases self.stores.len() - i,
            {
                proof {
                    let t = self.stores@.take(i as int);
                    let n = self.stores@.take(i + 1);
                    assert(n =~= t.push(self.stores@[i as int]));
                    if t.contains(location) {
                        let j = choose|j: int| 0 <= j < t.len() && t[j] == location;
                        assert(n[j] == location);
                    }
                    if self.stores@[i as int] == location {
                        assert(n[i as int] == location);
                    }
                    if n.contains(location) && !t.contains(location) {
                        let j = choose|j: int| 0 <= j < n.len() && n[j] == location;
                        if j < i {
                            assert(t[j] == location);
                        }
                    }
                }
                if self.stores[i] == location {
                    known = true;
                }
                i += 1;
            }
            assert(self.stores@.take(i as int) =~= self.stores@);
            if !known {
                self.stores.push(location);
            }
            if let Some(idx) = a.index {
                value = m.get_or_extract_index(f, o, value, idx, a.ty, location);
            }
            proof {
                let sub = subs@[k as int];
                assert(a.offset + a.size <= sub.end());
            }
            m.store_access(o, refs[k], ty, value, a, offset);
        }
    }

    fn accesses(
        &mut self,
        m: &SROA,
        f: &FunctionIr,
        o: &mut Output,
        subs: &Vec<Subrange>,
        refs: &Vec<Ref>,
        accesses: &Vec<Access>,
    )
        requires
            partition::all_fit(accesses@),
            partition::partition(accesses@) == Some(subs@),
            refs@.len() == subs@.len(),
            forall|j: int|
                0 <= j < accesses@.len() ==> access_supported(subs@, #[trigger] accesses@[j]),
            forall|j: int|
                0 <= j < accesses@.len() ==> (#[trigger] accesses@[j]).location.0 < f@.insts.len(),
        ensures
            work(*final(o), *final(self)) == work(*old(o), *old(self)).all(
                *m,
                f@,
                subs@,
                refs@,
                accesses@,
            ),
    {
        let ghost before = work(*o, *self);
        let ghost all = accesses@;
        let mut i: usize = 0;
        proof {
            assert(all.take(0) =~= Seq::empty());
            partition::partitions_cover_stores(all);
            assert forall|i: int| 0 <= i < subs@.len() && (#[trigger] subs@[i]).ty
                == SubType::Int implies 1 <= subs@[i].size <= 8 by {
                assert(subs@[i].size > 0);
            }
        }
        while i < accesses.len()
            invariant
                i <= accesses@.len(),
                all == accesses@,
                partition::all_fit(all),
                partition::ordered(subs@),
                partition::sizes_match(subs@),
                partition::stores_are_covered(subs@, all),
                refs@.len() == subs@.len(),
                forall|i: int|
                    0 <= i < subs@.len() ==> ((#[trigger] subs@[i]).ty == SubType::Int ==> 1
                        <= subs@[i].size <= 8),
                forall|j: int| 0 <= j < all.len() ==> access_supported(subs@, #[trigger] all[j]),
                forall|j: int|
                    0 <= j < all.len() ==> (#[trigger] all[j]).location.0 < f@.insts.len(),
                work(*o, *self) == before.all(*m, f@, subs@, refs@, all.take(i as int)),
            decreases accesses.len() - i,
        {
            assert(all.take(i + 1).drop_last() =~= all.take(i as int));
            let a: Access = accesses[i];
            assert(partition::access_fits(all[i as int]));
            assert(access_supported(subs@, all[i as int]));
            match a.access {
                AccessType::Load => self.load(m, f, o, subs, refs, &a),
                AccessType::Store => self.store(m, f, o, subs, refs, &a),
            }
            i += 1;
        }
        assert(all.take(i as int) =~= all);
    }
}

/// The tuple for a load is found once it was added.
pub proof fn lemma_pushed_index(tuples: Seq<(Ref, Ref)>, location: Ref, value: Ref)
    requires
        tuple_index(tuples, location) >= tuples.len(),
    ensures
        tuple_index(tuples.push((location, value)), location) == tuples.len(),
{
    lemma_tuple_index(tuples, location);
    lemma_before_tuple(tuples, location);
    let new = tuples.push((location, value));
    assert forall|i: int| 0 <= i < tuples.len() implies (#[trigger] new[i]).0 != location by {
        assert(new[i] == tuples[i]);
    }
    lemma_tuple_index_is(new, location, tuples.len() as int);
}

proof fn lemma_before_tuple(tuples: Seq<(Ref, Ref)>, location: Ref)
    ensures
        forall|i: int|
            0 <= i < tuple_index(tuples, location) ==> (#[trigger] tuples[i]).0 != location,
    decreases tuples.len(),
{
    if tuples.len() > 0 && tuples[0].0 != location {
        lemma_before_tuple(tuples.skip(1), location);
        lemma_tuple_index(tuples.skip(1), location);
        assert forall|i: int| 0 <= i < tuple_index(tuples, location) implies (#[trigger] tuples[i]).0
            != location by {
            if i > 0 {
                assert(tuples.skip(1)[i - 1] == tuples[i]);
            }
        }
    }
}

pub fn delete_all(o: &mut Output, refs: &Vec<Ref>)
    ensures
        final(o)@ == deleted(old(o)@, refs@),
{
    let ghost start = o@;
    let ghost all = refs@;
    let mut i: usize = 0;
    assert(all.take(0) =~= Seq::empty());
    while i < refs.len()
        invariant
            i <= refs@.len(),
            all == refs@,
            o@ == deleted(start, all.take(i as int)),
        decreases refs.len() - i,
    {
        assert(all.take(i + 1).drop_last() =~= all.take(i as int));
        o.plan.delete(refs[i]);
        i += 1;
    }
    assert(all.take(i as int) =~= all);
}

fn replace_tuples(o: &mut Output, tuples: &Vec<(Ref, Ref)>)
    ensures
        final(o)@ == tuples_replaced(old(o)@, tuples@),
{
    let ghost start = o@;
    let ghost all = tuples@;
    let mut i: usize = 0;
    assert(all.take(0) =~= Seq::empty());
    while i < tuples.len()
        invariant
            i <= tuples@.len(),
            all == tuples@,
            o@ == tuples_replaced(start, all.take(i as int)),
        decreases tuples.len() - i,
    {
        assert(all.take(i + 1).drop_last() =~= all.take(i as int));
        o.plan.replace_with(tuples[i].0, tuples[i].1);
        i += 1;
    }
    assert(all.take(i as int) =~= all);
}

/// The accesses of a variable can be worked on.
pub open spec fn entry_fits(f: FunctionView, e: EntryView) -> bool {
    &&& partition::all_fit(e.accesses)
    &&& forall|j: int|
        0 <= j < e.accesses.len() ==> (#[trigger] e.accesses[j]).location.0 < f.insts.len()
    &&& !e.disqualified ==> (partition::partition(e.accesses) matches Some(subs) ==> forall|j: int|
        0 <= j < e.accesses.len() ==> access_supported(subs, #[trigger] e.accesses[j]))
}

impl SROA {
    fn replace_decl(&self, f: &FunctionIr, o: &mut Output, e: &Entry)
        requires
            entry_fits(f@, e@),
        ensures
            final(o)@ == replaced(*self, f@, old(o)@, e@),
    {
        if e.disqualified {
            return;
        }
        if let Some(subs) = make_partition(&e.accesses) {
            proof {
                partition::partitions_cover_stores(e.accesses@);
                assert forall|i: int| 0 <= i < subs@.len() && (#[trigger] subs@[i]).ty
                    == SubType::Int implies 1 <= subs@[i].size <= 8 by {
                    assert(subs@[i].size > 0);
                }
            }
            let ptr_ty: TypeId = if e.decl.is_ref() && e.decl.idx() < f.insts.len() {
                f.insts[e.decl.idx()].ty
            } else {
                TypeId::i1()
            };
            // we decided on a partitioning of the Decl, create the new decls now
            let refs: Vec<Ref> = self.make_scalars(o, e.decl, ptr_ty, &subs);
            let mut task = Task { tuples: Vec::new(), stores: Vec::new() };
            let ghost first = work(*o, task);
            assert(first =~= Work { out: o@, tuples: Seq::empty(), stores: Seq::empty() });
            task.accesses(self, f, o, &subs, &refs, &e.accesses);
            delete_all(o, &e.uses);
            // replace aggregate loads with the final tuple values
            replace_tuples(o, &task.tuples);
            // delete all old stores that weren't replaced immediately
            delete_all(o, &task.stores);
            // delete the Decl that was divided
            o.plan.delete(e.decl);
        }
    }

    pub fn replace_decls(&self, f: &FunctionIr, o: &mut Output, entries: &Vec<Entry>)
        requires
            forall|i: int| 0 <= i < entries@.len() ==> entry_fits(f@, (#[trigger] entries@[i])@),
        ensures
            final(o)@ == all_replaced(*self, f@, old(o)@, scan::entry_views(entries@)),
    {
        let ghost start = o@;
        let ghost all = scan::entry_views(entries@);
        let mut i: usize = 0;
        assert(all.take(0) =~= Seq::empty());
        while i < entries.len()
            invariant
                i <= entries@.len(),
                all == scan::entry_views(entries@),
                forall|i: int|
                    0 <= i < entries@.len() ==> entry_fits(f@, (#[trigger] entries@[i])@),
                o@ == all_replaced(*self, f@, start, all.take(i as int)),
            decreases entries.len() - i,
        {
            proof {
                assert(all.take(i + 1).drop_last() =~= all.take(i as int));
                assert(all.take(i + 1).last() == entries@[i as int]@);
                assert(entry_fits(f@, entries@[i as int]@));
            }
            self.replace_decl(f, o, &entries[i]);
            i += 1;
        }
        assert(all.take(i as int) =~= all);
    }
}

} // verus!
