//! What the instructions of the pass compute, and that variables divided into scalars
//! are read and written as before.
use vstd::prelude::*;

use crate::ir::dialect;
use crate::ir::dialect::{Arith, Mem, Tuple};
use crate::ir::edit::EditView;
use crate::ir::function::FunctionView;
use crate::ir::ids::{FunctionId, ModuleId, Ref, TypeId};
use crate::ir::inst::ArgumentView;
use crate::ir::modify::Insert;
use crate::ir::optimize::partition::Access;
use crate::ir::optimize::scan;
use crate::ir::optimize::sroa;
use crate::ir::optimize::sroa::{Out, SROA};
use crate::ir::types::{Primitive, ShapeView, TypeView};

verus! {

/// The members of tuples are those that were inserted: an insertion changes the member
/// with its index and no other.
pub open spec fn insertions_hold<V>(
    f: FunctionView,
    tuple: ModuleId,
    value: spec_fn(Ref) -> V,
    member: spec_fn(Ref, u32) -> V,
) -> bool {
    forall|r: Ref|
        #![trigger f.insts[r.0 as int]]
        r.0 < f.insts.len() && dialect::spec_as_module::<Tuple>(f.insts[r.0 as int], tuple) == Some(
            Tuple::InsertMember,
        ) ==> {
            let args = scan::op_args(f, f.insts[r.0 as int], Tuple::InsertMember);
            let (before, index, new) = (
                scan::ref_arg(args, 0),
                scan::int32_arg(args, 1),
                scan::ref_arg(args, 2),
            );
            forall|k: u32| #[trigger]
                member(r, k) == if k == index {
                    value(new)
                } else {
                    member(before, k)
                }
        }
}

/// Instructions that were added to read a member have its value.
pub open spec fn reads_hold<V>(
    o: Out,
    from: int,
    next: u32,
    tuple: ModuleId,
    value: spec_fn(Ref) -> V,
    member: spec_fn(Ref, u32) -> V,
) -> bool {
    forall|i: int|
        from <= i < o.plan.edits.len() ==> {
            (#[trigger] o.plan.edits[i]) matches EditView::Add { function, args, .. } ==> (function
                == dialect::spec_function(tuple, Tuple::MemberValue) && args.len() == 2 ==> {
                args[0] matches ArgumentView::Ref(t) ==> {
                    args[1] matches ArgumentView::Int32(k) ==> value(
                        Ref((next + (i - from)) as u32),
                    ) == member(t, k)
                }
            })
        }
}

/// The value that is found for a member by looking through insertions is the value of
/// that member, whatever the values are.
pub proof fn inserted_values_are_members<V>(
    f: FunctionView,
    tuple: ModuleId,
    r: Ref,
    idx: u32,
    fuel: nat,
    value: spec_fn(Ref) -> V,
    member: spec_fn(Ref, u32) -> V,
)
    requires
        insertions_hold(f, tuple, value, member),
    ensures
        sroa::inserted_value(f, tuple, r, idx, fuel) matches Some(v) ==> value(v) == member(r, idx),
    decreases fuel,
{
    if fuel > 0 && r.0 < f.insts.len() {
        let inst = f.insts[r.0 as int];
        if dialect::spec_as_module::<Tuple>(inst, tuple) == Some(Tuple::InsertMember) {
            let args = scan::op_args(f, inst, Tuple::InsertMember);
            assert(member(r, idx) == if idx == scan::int32_arg(args, 1) {
                value(scan::ref_arg(args, 2))
            } else {
                member(scan::ref_arg(args, 0), idx)
            });
            inserted_values_are_members(
                f,
                tuple,
                scan::ref_arg(args, 0),
                idx,
                (fuel - 1) as nat,
                value,
                member,
            );
        }
    }
}

/// The element of a tuple that is stored in place of a part is the member with the
/// index of the part, whether it was found or is read from the tuple.
pub proof fn elements_are_members<V>(
    m: SROA,
    f: FunctionView,
    o: Out,
    r: Ref,
    idx: u32,
    ty: Primitive,
    before: Ref,
    value: spec_fn(Ref) -> V,
    member: spec_fn(Ref, u32) -> V,
)
    requires
        insertions_hold(f, m.tuple, value, member),
        reads_hold(
            sroa::element(m, f, o, r, idx, ty, before).0,
            o.plan.edits.len() as int,
            o.plan.next,
            m.tuple,
            value,
            member,
        ),
    ensures
        value(sroa::element(m, f, o, r, idx, ty, before).1) == member(r, idx),
{
    inserted_values_are_members(f, m.tuple, r, idx, f.insts.len(), value, member);
    let (after, v) = sroa::element(m, f, o, r, idx, ty, before);
    if sroa::inserted_value(f, m.tuple, r, idx, f.insts.len()) is None {
        assert(after.plan.edits[o.plan.edits.len() as int] is Add);
    }
}

/// The values of instructions and of scalar variables.
#[verifier::ext_equal]
pub struct State {
    pub values: Map<Ref, int>,
    pub variables: Map<Ref, int>,
}

/// The type is an integer or a pointer of at most eight bytes, and no boolean.
pub open spec fn is_plain(p: Primitive) -> bool {
    p.byte_size() <= 8 && !p.is_float() && p != Primitive::I1
}

/// The value of the type with the same low bits.
pub open spec fn wrapped(p: Primitive, v: int) -> int {
    let n = sroa::byte_values(p.byte_size() as int);
    if p.is_int() && !p.is_unsigned_int() && v % n >= n / 2 {
        v % n - n
    } else {
        v % n
    }
}

/// The value is one of the type.
pub open spec fn is_of(p: Primitive, v: int) -> bool {
    wrapped(p, v) == v
}

/// The bytes of a value as a number.
pub open spec fn bits(p: Primitive, v: int) -> int {
    v % sroa::byte_values(p.byte_size() as int)
}

impl State {
    pub open spec fn with(self, r: Ref, v: int) -> State {
        State { values: self.values.insert(r, v), ..self }
    }
}

pub open spec fn primitive_of(types: Seq<TypeView>, ty: TypeId) -> Primitive {
    types[ty.0 as int].shape->Primitive_0
}

/// What an added instruction does.
pub open spec fn done(m: SROA, types: Seq<TypeView>, s: State, r: Ref, e: EditView) -> State {
    match e {
        EditView::Add { function, args, ty, .. } => {
            let p = primitive_of(types, ty);
            let a = s.values[scan::ref_arg(args, 0)];
            let b = s.values[scan::ref_arg(args, 1)];
            if function == dialect::spec_function(m.mem, Mem::Load) {
                s.with(r, s.variables[scan::ref_arg(args, 0)])
            } else if function == dialect::spec_function(m.mem, Mem::Store) {
                State { variables: s.variables.insert(scan::ref_arg(args, 0), b), ..s }
            } else if function == dialect::spec_function(m.arith, Arith::Int) {
                s.with(r, args[0]->Int_0 as int)
            } else if function == dialect::spec_function(m.arith, Arith::CastInt) || function
                == dialect::spec_function(m.mem, Mem::IntToPtr) || function
                == dialect::spec_function(m.mem, Mem::PtrToInt) {
                s.with(r, wrapped(p, a))
            } else if function == dialect::spec_function(m.arith, Arith::Shl) {
                s.with(r, wrapped(p, a * vstd::arithmetic::power2::pow2(b as nat)))
            } else if function == dialect::spec_function(m.arith, Arith::Shr) {
                s.with(r, a / vstd::arithmetic::power2::pow2(b as nat) as int)
            } else if function == dialect::spec_function(m.arith, Arith::And) {
                s.with(r, (a as u64 & b as u64) as int)
            } else if function == dialect::spec_function(m.arith, Arith::Or) {
                s.with(r, (a as u64 | b as u64) as int)
            } else {
                s
            }
        },
        _ => s,
    }
}

/// What added instructions do one after the other. The results are numbered from
/// `next` on.
pub open spec fn run(
    m: SROA,
    types: Seq<TypeView>,
    edits: Seq<EditView>,
    next: int,
    s: State,
) -> State
    decreases edits.len(),
{
    if edits.len() == 0 {
        s
    } else {
        done(
            m,
            types,
            run(m, types, edits.drop_last(), next, s),
            Ref((next + edits.len() - 1) as u32),
            edits.last(),
        )
    }
}

/// What was added since `o`.
pub open spec fn added(o: Out, after: Out) -> Seq<EditView> {
    after.plan.edits.skip(o.plan.edits.len() as int)
}

/// The instructions added from one state of the changes to a later one.
spec fn effect(m: SROA, types: Seq<TypeView>, o: Out, after: Out, s: State) -> State {
    run(m, types, added(o, after), o.plan.next as int, s)
}

spec fn follows(o: Out, after: Out) -> bool {
    &&& o.plan.edits.len() <= after.plan.edits.len()
    &&& after.plan.next == o.plan.next + (after.plan.edits.len() - o.plan.edits.len())
}

proof fn lemma_add(
    m: SROA,
    types: Seq<TypeView>,
    o: Out,
    x: Out,
    s: State,
    at: Ref,
    function: FunctionId,
    args: Seq<ArgumentView>,
    ty: TypeId,
)
    requires
        follows(o, x),
        x.plan.next < u32::MAX,
    ensures
        follows(o, x.before(at, function, args, ty)),
        effect(m, types, o, x.before(at, function, args, ty), s) == done(
            m,
            types,
            effect(m, types, o, x, s),
            x.result(),
            (EditView::Add { at, position: Insert::Before, function, args, ty }),
        ),
{
    let y = x.before(at, function, args, ty);
    assert(added(o, y).drop_last() =~= added(o, x));
    assert(added(o, y).last() == y.plan.edits.last());
}

proof fn lemma_type(m: SROA, types: Seq<TypeView>, o: Out, x: Out, s: State, p: Primitive)
    ensures
        effect(m, types, o, x.with_type(p), s) == effect(m, types, o, x, s),
        follows(o, x) ==> follows(o, x.with_type(p)),
{
}

proof fn lemma_powers(k: int)
    requires
        0 <= k <= 8,
    ensures
        vstd::arithmetic::power2::pow2((8 * k) as nat) == sroa::byte_values(k),
{
    vstd::arithmetic::power2::lemma2_to64();
    vstd::arithmetic::power2::lemma2_to64_rest();
}

/// Both halves of a conjunction and of a disjunction are taken for themselves.
proof fn lemma_halves(x: u64, y: u64, k: int)
    requires
        0 <= k <= 7,
    ensures
        ({
            let b = sroa::byte_values(k) as u64;
            &&& (x & y) % b == (x % b) & (y % b)
            &&& (x & y) / b == (x / b) & (y / b)
            &&& (x | y) % b == (x % b) | (y % b)
            &&& (x | y) / b == (x / b) | (y / b)
            &&& x < b ==> x & ((b - 1) as u64) == x
        }),
{
    assert((x & y) % 1 == (x % 1) & (y % 1) && (x & y) / 1 == (x / 1) & (y / 1) && (x | y) % 1 == (x
        % 1) | (y % 1) && (x | y) / 1 == (x / 1) | (y / 1) && (x < 1 ==> x & 0 == x)) by (bit_vector);
    assert((x & y) % 0x100 == (x % 0x100) & (y % 0x100) && (x & y) / 0x100 == (x / 0x100) & (y
        / 0x100) && (x | y) % 0x100 == (x % 0x100) | (y % 0x100) && (x | y) / 0x100 == (x / 0x100)
        | (y / 0x100) && (x < 0x100 ==> x & 0xff == x)) by (bit_vector);
    assert((x & y) % 0x1_0000 == (x % 0x1_0000) & (y % 0x1_0000) && (x & y) / 0x1_0000 == (x
        / 0x1_0000) & (y / 0x1_0000) && (x | y) % 0x1_0000 == (x % 0x1_0000) | (y % 0x1_0000) && (x
        | y) / 0x1_0000 == (x / 0x1_0000) | (y / 0x1_0000) && (x < 0x1_0000 ==> x & 0xffff == x))
        by (bit_vector);
    assert((x & y) % 0x100_0000 == (x % 0x100_0000) & (y % 0x100_0000) && (x & y) / 0x100_0000 == (x
        / 0x100_0000) & (y / 0x100_0000) && (x | y) % 0x100_0000 == (x % 0x100_0000) | (y
        % 0x100_0000) && (x | y) / 0x100_0000 == (x / 0x100_0000) | (y / 0x100_0000) && (x
        < 0x100_0000 ==> x & 0xff_ffff == x)) by (bit_vector);
    assert((x & y) % 0x1_0000_0000 == (x % 0x1_0000_0000) & (y % 0x1_0000_0000) && (x & y)
        / 0x1_0000_0000 == (x / 0x1_0000_0000) & (y / 0x1_0000_0000) && (x | y) % 0x1_0000_0000 == (
    x % 0x1_0000_0000) | (y % 0x1_0000_0000) && (x | y) / 0x1_0000_0000 == (x / 0x1_0000_0000) | (y
        / 0x1_0000_0000) && (x < 0x1_0000_0000 ==> x & 0xffff_ffff == x)) by (bit_vector);
    assert((x & y) % 0x100_0000_0000 == (x % 0x100_0000_0000) & (y % 0x100_0000_0000) && (x & y)
        / 0x100_0000_0000 == (x / 0x100_0000_0000) & (y / 0x100_0000_0000) && (x | y)
        % 0x100_0000_0000 == (x % 0x100_0000_0000) | (y % 0x100_0000_0000) && (x | y)
        / 0x100_0000_0000 == (x / 0x100_0000_0000) | (y / 0x100_0000_0000) && (x < 0x100_0000_0000
        ==> x & 0xff_ffff_ffff == x)) by (bit_vector);
    assert((x & y) % 0x1_0000_0000_0000 == (x % 0x1_0000_0000_0000) & (y % 0x1_0000_0000_0000) && (x
        & y) / 0x1_0000_0000_0000 == (x / 0x1_0000_0000_0000) & (y / 0x1_0000_0000_0000) && (x | y)
        % 0x1_0000_0000_0000 == (x % 0x1_0000_0000_0000) | (y % 0x1_0000_0000_0000) && (x | y)
        / 0x1_0000_0000_0000 == (x / 0x1_0000_0000_0000) | (y / 0x1_0000_0000_0000) && (x
        < 0x1_0000_0000_0000 ==> x & 0xffff_ffff_ffff == x)) by (bit_vector);
    assert((x & y) % 0x100_0000_0000_0000 == (x % 0x100_0000_0000_0000) & (y
        % 0x100_0000_0000_0000) && (x & y) / 0x100_0000_0000_0000 == (x / 0x100_0000_0000_0000) & (y
        / 0x100_0000_0000_0000) && (x | y) % 0x100_0000_0000_0000 == (x % 0x100_0000_0000_0000) | (y
        % 0x100_0000_0000_0000) && (x | y) / 0x100_0000_0000_0000 == (x / 0x100_0000_0000_0000) | (y
        / 0x100_0000_0000_0000) && (x < 0x100_0000_0000_0000 ==> x & 0xff_ffff_ffff_ffff == x))
        by (bit_vector);
}

/// Masking and combining puts the new bytes in place of the old ones and keeps the
/// rest.
#[verifier::spinoff_prover]
#[verifier::rlimit(60)]
proof fn lemma_combined(x: int, v: int, width: int, offset: int, size: int)
    requires
        0 <= offset,
        0 < size,
        offset + size <= width <= 8,
        0 <= x < sroa::byte_values(width),
        0 <= v < sroa::byte_values(size),
    ensures
        ({
            let mask = sroa::keep_mask(width, offset, size);
            let moved = v * sroa::byte_values(offset);
            let whole = ((x as u64 & mask as u64) | moved as u64) as int;
            &&& 0 <= moved < sroa::byte_values(width)
            &&& 0 <= whole < sroa::byte_values(width)
            &&& whole % sroa::byte_values(offset) == x % sroa::byte_values(offset)
            &&& whole / sroa::byte_values(offset) % sroa::byte_values(size) == v
            &&& whole / sroa::byte_values(offset + size) == x / sroa::byte_values(offset + size)
        }),
{
    let mask = sroa::keep_mask(width, offset, size);
    let o = sroa::byte_values(offset);
    let n = sroa::byte_values(size);
    let h = sroa::byte_values(width - offset - size);
    let moved = v * o;
    sroa::mask_keeps_the_rest(width, offset, size);
    lemma_products(offset, size);
    lemma_products(offset + size, width - offset - size);
    assert(0 <= v * o <= (n - 1) * o) by (nonlinear_arith)
        requires
            0 <= v <= n - 1,
            o >= 1,
    ;
    assert((n - 1) * o < n * o) by (nonlinear_arith)
        requires
            o >= 1,
    ;
    assert(o * n <= o * n * h) by (nonlinear_arith)
        requires
            o >= 1,
            n >= 1,
            h >= 1,
    ;
    assert(n * o == o * n) by (nonlinear_arith);
    assert(sroa::byte_values(width) <= 0x1_0000_0000_0000_0000);
    let a = x as u64;
    let m = mask as u64;
    let b = moved as u64;
    let kept = a & m;
    let whole = kept | b;
    assert(moved % o == 0 && moved / o == v) by {
        vstd::arithmetic::div_mod::lemma_fundamental_div_mod_converse(moved, o, v, 0);
    }
    assert(moved / (o * n) == 0) by {
        vstd::arithmetic::div_mod::lemma_fundamental_div_mod_converse(moved, o * n, 0, moved);
    }
    assert(x / (o * n) < h) by {
        vstd::arithmetic::div_mod::lemma_fundamental_div_mod(x, o * n);
        let q = x / (o * n);
        if q >= h {
            assert(o * n * q >= o * n * h) by (nonlinear_arith)
                requires
                    q >= h,
                    o >= 1,
                    n >= 1,
            ;
        }
    }
    // below
    if offset <= 7 {
        lemma_halves(a, m, offset);
        lemma_halves(kept, b, offset);
        lemma_halves((x % o) as u64, 0, offset);
        assert(((x % o) as u64) | 0 == (x % o) as u64) by {
            lemma_zero((x % o) as u64);
        }
    }
    // above
    let q = (x / (o * n)) as u64;
    lemma_zero(q);
    if offset + size <= 7 {
        lemma_halves(a, m, offset + size);
        lemma_halves(kept, b, offset + size);
        if width - offset - size <= 7 {
            lemma_halves(q, 0, width - offset - size);
        }
        assert(whole as int / (o * n) == q);
    } else {
        assert(o * n == 0x1_0000_0000_0000_0000);
    }
    // the bytes themselves
    let middle = (x / o) as u64;
    let low_mask = (mask / o) as u64;
    let up = (middle & low_mask) as u64;
    assert(whole as int / o == (up | v as u64) as int);
    if size <= 7 {
        lemma_halves(middle, low_mask, size);
        lemma_halves(up, v as u64, size);
        lemma_zero((middle % (n as u64)) as u64);
        lemma_zero(v as u64);
        vstd::arithmetic::div_mod::lemma_small_mod(v as nat, n as nat);
    } else {
        assert(offset == 0 && width == 8);
        assert(mask == 0);
        lemma_zero(a);
        lemma_zero(b);
    }
    assert(whole as int / o % n == v);
    // the whole is no larger than the scalar
    assert((whole as int) < sroa::byte_values(width)) by {
        if offset + size <= 7 {
            vstd::arithmetic::div_mod::lemma_fundamental_div_mod(whole as int, o * n);
            assert(o * n * (whole as int / (o * n)) + o * n <= o * n * h) by (nonlinear_arith)
                requires
                    whole as int / (o * n) <= h - 1,
                    o * n >= 1,
            ;
        }
    }
}

proof fn lemma_zero(x: u64)
    ensures
        x & 0 == 0,
        0 & x == 0,
        x | 0 == x,
        0 | x == x,
{
    assert(x & 0 == 0 && 0 & x == 0 && x | 0 == x && 0 | x == x) by (bit_vector);
}

proof fn lemma_products(a: int, b: int)
    requires
        0 <= a,
        0 <= b,
        a + b <= 8,
    ensures
        sroa::byte_values(a + b) == sroa::byte_values(a) * sroa::byte_values(b),
        sroa::byte_values(a) >= 1,
        sroa::byte_values(b) >= 1,
{
    lemma_powers(a);
    lemma_powers(b);
    lemma_powers(a + b);
    vstd::arithmetic::power2::lemma_pow2_adds((8 * a) as nat, (8 * b) as nat);
}

/// The results of instructions so far stay what they were.
pub open spec fn keeps(s: State, end: State, next: u32) -> bool {
    forall|r: Ref| r.0 < next ==> #[trigger] end.values[r] == s.values[r]
}

spec fn has_type(types: Seq<TypeView>, id: TypeId, p: Primitive) -> bool {
    id.0 < types.len() && types[id.0 as int].shape == ShapeView::Primitive(p)
}

#[verifier::spinoff_prover]
#[verifier::rlimit(60)]
proof fn lemma_wrapped(p: Primitive, q: Primitive, v: int)
    requires
        is_plain(p),
        is_plain(q),
        q.byte_size() <= p.byte_size(),
    ensures
        bits(q, wrapped(p, v)) == bits(q, v),
        0 <= bits(q, v) < sroa::byte_values(q.byte_size() as int),
        p.is_unsigned_int() || p == Primitive::Ptr ==> wrapped(p, v) == bits(p, v),
        wrapped(q, wrapped(p, v)) == wrapped(q, v),
{
    let n = sroa::byte_values(p.byte_size() as int);
    let k = sroa::byte_values(q.byte_size() as int);
    let d = sroa::byte_values(p.byte_size() - q.byte_size());
    lemma_products(q.byte_size() as int, p.byte_size() - q.byte_size());
    assert(n == k * d);
    let w = wrapped(p, v);
    vstd::arithmetic::div_mod::lemma_fundamental_div_mod(v, n);
    let t = if w == v % n {
        v / n
    } else {
        v / n + 1
    };
    assert(v == n * t + w) by (nonlinear_arith)
        requires
            v == n * (v / n) + v % n,
            w == v % n && t == v / n || w == v % n - n && t == v / n + 1,
    ;
    assert(n * t == k * (d * t)) by (nonlinear_arith)
        requires
            n == k * d,
    ;
    vstd::arithmetic::div_mod::lemma_mod_multiples_vanish(d * t, w, k);
}

/// A store to a part of a variable changes the bytes of the part in the scalar to those
/// of the value, and no other bytes, no other variable and no value. A negative value
/// keeps the other bytes only where it takes up the whole scalar: it is extended by
/// its sign.
#[verifier::rlimit(60)]
#[verifier::spinoff_prover]
pub proof fn stores_write_their_bytes(
    m: SROA,
    o: Out,
    ptr: Ref,
    ty: Primitive,
    value: Ref,
    access: Access,
    offset: int,
    s: State,
)
    requires
        m.mem != m.arith,
        ptr.0 < o.plan.next,
        value.0 < o.plan.next,
        o.plan.next + 16 <= u32::MAX,
        o.types.len() + 16 <= u32::MAX,
        ty != access.ty ==> {
            &&& ty.is_unsigned_int()
            &&& is_plain(ty)
            &&& is_plain(access.ty)
            &&& 0 <= offset
            &&& offset + access.ty.byte_size() <= ty.byte_size()
            &&& is_of(ty, s.variables[ptr])
            &&& is_of(access.ty, s.values[value])
            &&& s.values[value] >= 0 || access.ty.byte_size() == ty.byte_size()
        },
    ensures
        ({
            let after = sroa::stored(m, o, ptr, ty, value, access, offset);
            let end = run(m, after.types, added(o, after), o.plan.next as int, s);
            let x = s.variables[ptr];
            let y = end.variables[ptr];
            let v = s.values[value];
            let size = access.ty.byte_size() as int;
            &&& forall|p: Ref| p != ptr ==> #[trigger] end.variables[p] == s.variables[p]
            &&& keeps(s, end, o.plan.next)
            &&& ty == access.ty ==> y == v
            &&& ty != access.ty ==> {
                &&& is_of(ty, y)
                &&& y % sroa::byte_values(offset) == x % sroa::byte_values(offset)
                &&& y / sroa::byte_values(offset) % sroa::byte_values(size) == bits(access.ty, v)
                &&& y / sroa::byte_values(offset + size) == x / sroa::byte_values(offset + size)
            }
        }),
{
    let after = sroa::stored(m, o, ptr, ty, value, access, offset);
    let types = after.types;
    let at = access.location;
    let store = dialect::spec_function(m.mem, Mem::Store);
    let x = s.variables[ptr];
    let v = s.values[value];
    assert(added(o, o) =~= Seq::empty());
    assert(effect(m, types, o, o, s) == s);
    if ty == access.ty {
        lemma_add(
            m,
            types,
            o,
            o,
            s,
            at,
            store,
            seq![ArgumentView::Ref(ptr), ArgumentView::Ref(value)],
            TypeId::unit(),
        );
    } else {
        let size = access.ty.byte_size() as int;
        let width = ty.byte_size() as int;
        let typed = o.with_type(ty);
        let id = o.type_result();
        let int_op = dialect::spec_function(m.arith, Arith::Int);
        lemma_type(m, types, o, o, s, ty);
        let (a, as_scalar) = sroa::converted(m, typed, value, access.ty, ty, at);
        let typed2 = typed.with_type(ty);
        lemma_type(m, types, o, typed, s, ty);
        lemma_add(
            m,
            types,
            o,
            typed2,
            s,
            at,
            sroa::conversion(m, access.ty, ty),
            seq![ArgumentView::Ref(value)],
            typed.type_result(),
        );
        let s1 = effect(m, types, o, a, s);
        let (b, moved) = sroa::shifted_up(m, a, as_scalar, id, offset, at);
        let partial = offset != 0 || access.ty.byte_size() != ty.byte_size();
        let (c, whole) = if partial {
            sroa::combined(m, b, ptr, moved, ty, id, access, offset)
        } else {
            (b, moved)
        };
        assert(types.len() == o.types.len() + 2);
        assert(has_type(types, id, ty));
        assert(has_type(types, typed.type_result(), ty));
        let u = wrapped(ty, v);
        assert(s1 == s.with(as_scalar, u));
        lemma_wrapped(ty, ty, v);
        lemma_wrapped(ty, access.ty, v);
        lemma_wrapped(access.ty, access.ty, v);
        lemma_powers(offset);
        lemma_products(offset, size);
        lemma_products(offset + size, width - offset - size);
        let o_values = sroa::byte_values(offset);
        let n = sroa::byte_values(size);
        if partial {
            assert(v % n == v && u == v) by {
                assert(n <= sroa::byte_values(width));
                if v >= 0 {
                    assert(v % n == v);
                    assert(v < n);
                    assert(v % sroa::byte_values(width) == v);
                }
            }
            lemma_combined(x, v, width, offset, size);
        }
        if offset != 0 {
            lemma_add(m, types, o, a, s, at, int_op, seq![ArgumentView::Int((offset * 8) as u64)], id);
            let distance = a.before(at, int_op, seq![ArgumentView::Int((offset * 8) as u64)], id);
            lemma_add(
                m,
                types,
                o,
                distance,
                s,
                at,
                dialect::spec_function(m.arith, Arith::Shl),
                seq![ArgumentView::Ref(as_scalar), ArgumentView::Ref(a.result())],
                id,
            );
            assert(8 * offset == offset * 8);
            assert(v * o_values % sroa::byte_values(width) == v * o_values) by {
                vstd::arithmetic::div_mod::lemma_small_mod(
                    (v * o_values) as nat,
                    sroa::byte_values(width) as nat,
                );
            }
        } else {
            assert(v * o_values == v) by (nonlinear_arith)
                requires
                    o_values == 1,
            ;
        }
        let s2 = effect(m, types, o, b, s);
        assert(follows(o, b));
        assert(s2.variables == s.variables);
        assert(partial ==> s2.values[moved] == v * o_values);
        assert(!partial ==> s2.values[moved] == u);
        assert(keeps(s, s2, o.plan.next));
        assert(o.plan.next <= moved.0 < b.plan.next);
        if partial {
            let load = dialect::spec_function(m.mem, Mem::Load);
            let mask = sroa::keep_mask(width, offset, size) as u64;
            sroa::mask_keeps_the_rest(width, offset, size);
            lemma_add(m, types, o, b, s, at, load, seq![ArgumentView::Ref(ptr)], id);
            let existing = b.before(at, load, seq![ArgumentView::Ref(ptr)], id);
            lemma_add(m, types, o, existing, s, at, int_op, seq![ArgumentView::Int(mask)], id);
            let masked = existing.before(at, int_op, seq![ArgumentView::Int(mask)], id);
            let and_op = dialect::spec_function(m.arith, Arith::And);
            let and_args = seq![
                ArgumentView::Ref(b.result()),
                ArgumentView::Ref(existing.result()),
            ];
            lemma_add(m, types, o, masked, s, at, and_op, and_args, id);
            let kept = masked.before(at, and_op, and_args, id);
            let or_args = seq![ArgumentView::Ref(masked.result()), ArgumentView::Ref(moved)];
            lemma_add(
                m,
                types,
                o,
                kept,
                s,
                at,
                dialect::spec_function(m.arith, Arith::Or),
                or_args,
                id,
            );
            let s3 = effect(m, types, o, existing, s);
            assert(s3.values[b.result()] == x);
            assert(s3.values[moved] == v * o_values);
            let s4 = effect(m, types, o, masked, s);
            assert(s4.values[existing.result()] == mask);
            assert(s4.values[b.result()] == x);
            let s5 = effect(m, types, o, kept, s);
            assert(s5.values[masked.result()] == (x as u64 & mask) as int);
            assert(s5.values[moved] == v * o_values);
        }
        let s6 = effect(m, types, o, c, s);
        assert(s6.variables == s.variables);
        assert(keeps(s, s6, o.plan.next));
        let y = s6.values[whole];
        assert(partial ==> y == ((x as u64 & sroa::keep_mask(width, offset, size) as u64) | (v
            * o_values) as u64) as int);
        lemma_add(
            m,
            types,
            o,
            c,
            s,
            at,
            store,
            seq![ArgumentView::Ref(ptr), ArgumentView::Ref(whole)],
            TypeId::unit(),
        );
        if partial {
            assert(bits(access.ty, v) == v);
            assert(is_of(ty, y)) by {
                vstd::arithmetic::div_mod::lemma_small_mod(
                    y as nat,
                    sroa::byte_values(width) as nat,
                );
            }
        } else {
            assert(y == u);
            assert(size == width && offset == 0);
            assert(0 <= y < n && 0 <= x < n);
        }
    }
}

/// A load of a part of a variable has the bytes of the part in the scalar, and changes
/// no variable and no value. Only what lies behind the scalar has no value.
#[verifier::rlimit(60)]
#[verifier::spinoff_prover]
pub proof fn loads_read_their_bytes(
    m: SROA,
    o: Out,
    ptr: Ref,
    ty: Primitive,
    access: Access,
    offset: int,
    s: State,
)
    requires
        m.mem != m.arith,
        ptr.0 < o.plan.next,
        o.plan.next + 16 <= u32::MAX,
        o.types.len() + 16 <= u32::MAX,
        0 <= offset,
        ty != access.ty && offset < ty.byte_size() ==> {
            &&& is_plain(ty)
            &&& is_plain(access.ty)
            &&& offset + access.ty.byte_size() <= ty.byte_size()
            &&& is_of(ty, s.variables[ptr])
        },
    ensures
        ({
            let (after, r) = sroa::loaded(m, o, ptr, ty, access, offset);
            let end = run(m, after.types, added(o, after), o.plan.next as int, s);
            let x = s.variables[ptr];
            &&& r is Some <==> offset < ty.byte_size()
            &&& end.variables == s.variables
            &&& keeps(s, end, o.plan.next)
            &&& r matches Some(r) ==> end.values[r] == if ty == access.ty {
                x
            } else {
                wrapped(access.ty, bits(ty, x) / sroa::byte_values(offset))
            }
        }),
{
    let (after, r) = sroa::loaded(m, o, ptr, ty, access, offset);
    let types = after.types;
    let at = access.location;
    let x = s.variables[ptr];
    assert(added(o, o) =~= Seq::empty());
    assert(effect(m, types, o, o, s) == s);
    if offset < ty.byte_size() {
        let load = dialect::spec_function(m.mem, Mem::Load);
        let typed = o.with_type(ty);
        lemma_type(m, types, o, o, s, ty);
        lemma_add(m, types, o, typed, s, at, load, seq![ArgumentView::Ref(ptr)], o.type_result());
        let first = typed.before(at, load, seq![ArgumentView::Ref(ptr)], o.type_result());
        let s1 = effect(m, types, o, first, s);
        assert(s1 == s.with(o.result(), x));
        if ty != access.ty {
            let unsigned = ty.into_unsigned();
            let (moved, value, now) = sroa::shifted_down(m, first, o.result(), ty, offset, at);
            lemma_wrapped(ty, ty, x);
            lemma_wrapped(unsigned, unsigned, x);
            lemma_powers(offset);
            let u = bits(ty, x);
            if offset != 0 {
                let typed2 = first.with_type(unsigned);
                let id = first.type_result();
                lemma_type(m, types, o, first, s, unsigned);
                let (cast, loaded) = if ty.is_unsigned_int() {
                    (typed2, o.result())
                } else {
                    let op = if ty.is_int() {
                        dialect::spec_function(m.arith, Arith::CastInt)
                    } else {
                        dialect::spec_function(m.mem, Mem::PtrToInt)
                    };
                    lemma_add(
                        m,
                        types,
                        o,
                        typed2,
                        s,
                        at,
                        op,
                        seq![ArgumentView::Ref(o.result())],
                        id,
                    );
                    (
                        typed2.before(at, op, seq![ArgumentView::Ref(o.result())], id),
                        typed2.result(),
                    )
                };
                assert(has_type(types, id, unsigned));
                assert(ty.is_unsigned_int() ==> x == u);
                let s2 = effect(m, types, o, cast, s);
                assert(s2.values[loaded] == u);
                let int_op = dialect::spec_function(m.arith, Arith::Int);
                let int_args = seq![ArgumentView::Int((offset * 8) as u64)];
                lemma_add(m, types, o, cast, s, at, int_op, int_args, id);
                let distance = cast.before(at, int_op, int_args, id);
                lemma_add(
                    m,
                    types,
                    o,
                    distance,
                    s,
                    at,
                    dialect::spec_function(m.arith, Arith::Shr),
                    seq![ArgumentView::Ref(loaded), ArgumentView::Ref(cast.result())],
                    id,
                );
                assert(8 * offset == offset * 8);
                let s3 = effect(m, types, o, distance, s);
                assert(s3.values[cast.result()] == 8 * offset);
                assert(s3.values[loaded] == u);
            }
            let s4 = effect(m, types, o, moved, s);
            assert(follows(o, moved));
            assert(s4.variables == s.variables);
            assert(keeps(s, s4, o.plan.next));
            assert(o.plan.next <= value.0 < moved.plan.next);
            let w = s4.values[value];
            assert(offset != 0 ==> w == u / sroa::byte_values(offset));
            assert(offset == 0 ==> w == x);
            if now != access.ty {
                lemma_type(m, types, o, moved, s, access.ty);
                let typed3 = moved.with_type(access.ty);
                lemma_add(
                    m,
                    types,
                    o,
                    typed3,
                    s,
                    at,
                    sroa::conversion(m, now, access.ty),
                    seq![ArgumentView::Ref(value)],
                    moved.type_result(),
                );
                assert(has_type(types, moved.type_result(), access.ty));
            }
            if offset == 0 {
                assert(u / sroa::byte_values(0) == u);
                lemma_wrapped(unsigned, access.ty, x);
            } else if now == access.ty {
                // no bytes would be left below the part
                assert(false);
            }
        }
    }
}

} // verus!
