//! What generated code calculates, and that it is what was asked for.
use vstd::prelude::*;

use crate::compiler::callconv::CallConv;
use crate::compiler::irgen::call;
use crate::compiler::irgen::call::ParamVar;
use crate::compiler::irgen::intrinsics;
use crate::compiler::irgen::Dialects;
use crate::ir::builder::{BuilderView, BuiltView};
use crate::ir::dialect;
use crate::ir::dialect::{Arith, Dialect, Mem, Tuple};
use crate::ir::ids::{Ref, Refs, TypeId};
use crate::ir::inst::{ArgumentView, Builtin};
use crate::ir::types::{TypeInfo, TypeView};
use crate::target::Os;

verus! {

/// A number, or what is known of the members of a tuple.
pub enum Value {
    Number(u64),
    Members(Map<int, Value>),
}

/// The values that were calculated, and what was stored where pointers lead.
pub struct Values {
    pub results: Map<Ref, Value>,
    pub memory: Map<Ref, Value>,
}

/// The bits move up by some places, and those that fall out come in from below.
pub open spec fn rotated_up(x: u64, places: int, width: int) -> int {
    let unit = vstd::arithmetic::power2::pow2((places % width) as nat) as int;
    let all = vstd::arithmetic::power2::pow2(width as nat) as int;
    x * unit % all + x as int / (all / unit)
}

/// What a calculation with two values gives.
pub open spec fn combined(op: Arith, a: Value, b: Value, width: int) -> Value {
    let x = a->Number_0;
    let y = b->Number_0;
    match op {
        Arith::Eq => Value::Number(
            if a == b {
                1
            } else {
                0
            },
        ),
        Arith::Xor => Value::Number(x ^ y),
        Arith::Rol => Value::Number(rotated_up(x, y as int, width) as u64),
        Arith::Ror => Value::Number(rotated_up(x, -(y as int), width) as u64),
        _ => Value::Members(Map::empty()),
    }
}

impl Values {
    pub open spec fn value(self, args: Seq<ArgumentView>, i: int) -> Value {
        self.results[args[i]->Ref_0]
    }

    /// The result of an instruction.
    pub open spec fn result_of(self, d: Dialects, types: Seq<TypeView>, i: BuiltView) -> Value {
        if i.function.module == d.arith {
            match Arith::spec_of_id(i.function.function.0) {
                Some(Arith::Int) => Value::Number(i.args[0]->Int_0),
                Some(op) => combined(
                    op,
                    self.value(i.args, 0),
                    self.value(i.args, 1),
                    8 * types[i.ty.0 as int].layout.size,
                ),
                None => Value::Members(Map::empty()),
            }
        } else if i.function == dialect::spec_function(d.tuple, Tuple::MemberValue) {
            self.value(i.args, 0)->Members_0[i.args[1]->Int32_0 as int]
        } else if i.function == dialect::spec_function(d.tuple, Tuple::InsertMember) {
            Value::Members(
                self.value(i.args, 0)->Members_0.insert(
                    i.args[1]->Int32_0 as int,
                    self.value(i.args, 2),
                ),
            )
        } else {
            Value::Members(Map::empty())
        }
    }

    pub open spec fn step(self, d: Dialects, types: Seq<TypeView>, i: BuiltView, r: Ref) -> Values {
        Values {
            results: self.results.insert(r, self.result_of(d, types, i)),
            memory: if i.function == dialect::spec_function(d.mem, Mem::Store) {
                self.memory.insert(i.args[0]->Ref_0, self.value(i.args, 1))
            } else {
                self.memory
            },
        }
    }

    /// What the instructions from `from` up to `to` do.
    pub open spec fn run(self, d: Dialects, b: BuilderView, from: int, to: int) -> Values
        decreases to - from,
    {
        if to <= from {
            self
        } else {
            self.run(d, b, from, to - 1).step(d, b.types, b.insts[to - 1], Ref((to - 1) as u32))
        }
    }

    /// What was appended to a function does.
    pub open spec fn after(self, d: Dialects, from: BuilderView, to: BuilderView) -> Values {
        self.run(d, to, from.insts.len() as int, to.insts.len() as int)
    }
}

/// The dialects have modules of their own.
pub open spec fn are_apart(d: Dialects) -> bool {
    let builtins = Builtin::Undef.spec_function().module;
    &&& d.arith != d.tuple && d.arith != d.mem && d.tuple != d.mem
    &&& d.arith != builtins && d.tuple != builtins && d.mem != builtins
}

/// The value was calculated before.
pub open spec fn is_older(b: BuilderView, r: Ref) -> bool {
    r.0 < b.insts.len() || !r.spec_is_ref()
}

proof fn lemma_same(m: Values, d: Dialects, b: BuilderView, c: BuilderView, from: int, to: int)
    requires
        0 <= from,
        to <= b.insts.len() <= c.insts.len(),
        b.types == c.types,
        forall|k: int| 0 <= k < to ==> #[trigger] b.insts[k] == c.insts[k],
    ensures
        m.run(d, b, from, to) == m.run(d, c, from, to),
    decreases to - from,
{
    if from < to {
        lemma_same(m, d, b, c, from, to - 1);
        assert(b.insts[to - 1] == c.insts[to - 1]);
    }
}

/// One more instruction.
proof fn lemma_with(m: Values, d: Dialects, from: BuilderView, to: BuilderView, i: BuiltView)
    requires
        from.insts.len() <= to.insts.len(),
    ensures
        m.after(d, from, to.with(i.function, i.args, i.ty)) == m.after(d, from, to).step(
            d,
            to.types,
            i,
            to.result(),
        ),
{
    let n = to.insts.len() as int;
    let c = to.with(i.function, i.args, i.ty);
    lemma_same(m, d, to, c, from.insts.len() as int, n);
    assert(c.insts[n] == i);
}

proof fn lemma_start(m: Values, d: Dialects, from: BuilderView, t: BuilderView)
    requires
        t.insts.len() == from.insts.len(),
    ensures
        m.after(d, from, t) == m,
{
}

/// The known functions of two values calculate what their names say: whether the values are
/// equal, what bits differ, and the first value turned by the second.
pub proof fn known_functions_have_their_value(
    m: Values,
    b: BuilderView,
    d: Dialects,
    os: Os,
    name: Seq<char>,
    args: Seq<Ref>,
    return_ty: TypeView,
)
    requires
        are_apart(d),
        b.insts.len() < 0xffff_fffd,
        b.types.len() < u32::MAX,
        intrinsics::can_call_intrinsic(b, name, args),
        name == "eq"@ || name == "xor"@ || name == "rotate_left"@ || name == "rotate_right"@,
    ensures
        ({
            let (after, r) = intrinsics::intrinsic_called(b, d, os, name, args, return_ty);
            let end = m.after(d, b, after);
            let x = m.results[args[0]];
            let y = m.results[args[1]];
            let width = 8 * after.types[b.type_of(args[0]).0 as int].layout.size;
            &&& name == "eq"@ ==> (end.results[r] == Value::Number(1) <==> x == y)
            &&& name == "eq"@ ==> (end.results[r] == Value::Number(0) <==> x != y)
            &&& name == "xor"@ ==> end.results[r] == Value::Number(x->Number_0 ^ y->Number_0)
            &&& name == "rotate_left"@ ==> end.results[r] == Value::Number(
                rotated_up(x->Number_0, y->Number_0 as int, width) as u64,
            )
            &&& name == "rotate_right"@ ==> end.results[r] == Value::Number(
                rotated_up(x->Number_0, -(y->Number_0 as int), width) as u64,
            )
            &&& end.memory == m.memory
        }),
{
    reveal_strlit("eq");
    reveal_strlit("xor");
    reveal_strlit("rotate_left");
    reveal_strlit("rotate_right");
    assert("eq"@.len() == 2 && "xor"@.len() == 3);
    assert("rotate_left"@.len() == 11 && "rotate_right"@.len() == 12);
    let op = intrinsics::binary_op(name)->Some_0;
    assert(intrinsics::binary_op(name) == Some(op));
    let (after, r) = intrinsics::intrinsic_called(b, d, os, name, args, return_ty);
    let typed = BuilderView { insts: b.insts, types: after.types };
    assert(after =~= typed.with(
        after.insts.last().function,
        after.insts.last().args,
        after.insts.last().ty,
    ));
    lemma_start(m, d, b, typed);
    lemma_with(m, d, b, typed, after.insts.last());
    Arith::Eq.ids_are_unique();
    Arith::Xor.ids_are_unique();
    Arith::Rol.ids_are_unique();
    Arith::Ror.ids_are_unique();
    let two = intrinsics::two_values(args[0], args[1]);
    assert(after.insts.last().args == two);
    assert(two[0]->Ref_0 == args[0] && two[1]->Ref_0 == args[1]);
    assert(after.insts.last().function == dialect::spec_function(d.arith, op));
    assert(Arith::spec_of_id(op.spec_id()) == Some(op));
    assert(r == typed.result());
    assert(m.after(d, b, after).results[r] == combined(
        op,
        m.results[args[0]],
        m.results[args[1]],
        8 * after.types[after.insts.last().ty.0 as int].layout.size,
    ));
    assert(op != Arith::Eq ==> after.insts.last().ty == b.type_of(args[0]));
    assert(after.insts.last().function != dialect::spec_function(d.mem, Mem::Store));
}

/// The value for a system is a tuple with its number.
pub proof fn systems_are_told_by_their_number(m: Values, b: BuilderView, d: Dialects, os: Os)
    requires
        are_apart(d),
        b.insts.len() < 0xffff_fff0,
        b.types.len() < 0xffff_fff0,
    ensures
        ({
            let (after, r) = intrinsics::os_value(b, d, os);
            let end = m.after(d, b, after);
            end.results[r]->Members_0[0] == Value::Number(
                match os {
                    Os::Unknown => 0u64,
                    Os::Linux => 1u64,
                    Os::Windows => 2u64,
                    Os::Darwin => 3u64,
                },
            )
        }),
{
    let (after, r) = intrinsics::os_value(b, d, os);
    let n = b.insts.len() as int;
    let typed = BuilderView { insts: b.insts, types: after.types };
    let i0 = after.insts[n];
    let i1 = after.insts[n + 1];
    let i2 = after.insts[n + 2];
    let b1 = typed.with(i0.function, i0.args, i0.ty);
    let b2 = b1.with(i1.function, i1.args, i1.ty);
    assert(after =~= b2.with(i2.function, i2.args, i2.ty));
    lemma_start(m, d, b, typed);
    lemma_with(m, d, b, typed, i0);
    lemma_with(m, d, b, b1, i1);
    lemma_with(m, d, b, b2, i2);
    Arith::Int.ids_are_unique();
    let args = intrinsics::insert_args(Ref(n as u32), 0, Ref((n + 1) as u32));
    assert(i2.args == args);
    assert(args[0]->Ref_0 == Ref(n as u32) && args[1]->Int32_0 == 0 && args[2]->Ref_0 == Ref(
        (n + 1) as u32,
    ));
    assert(i1.args[0]->Int_0 == intrinsics::os_ordinal(os));
}

/// The members of a tuple are taken in their order, and what was calculated before stays.
#[verifier::spinoff_prover]
#[verifier::rlimit(50)]
pub proof fn members_are_taken_in_order(
    m: Values,
    b: BuilderView,
    d: Dialects,
    refs: Seq<Ref>,
    tuple: Ref,
    types: Seq<TypeId>,
    n: int,
)
    requires
        are_apart(d),
        b.insts.len() + n < 0xffff_fffd,
        0 <= n <= types.len(),
        is_older(b, tuple),
    ensures
        ({
            let t = call::members_taken(b, d, refs, tuple, types, n);
            let end = m.after(d, b, t.b);
            &&& t.b.insts.len() == b.insts.len() + n
            &&& t.b.types == b.types
            &&& t.refs.len() == refs.len() + n
            &&& forall|k: int| 0 <= k < refs.len() ==> #[trigger] t.refs[k] == refs[k]
            &&& forall|k: int|
                refs.len() <= k < t.refs.len() ==> {
                    &&& end.results[#[trigger] t.refs[k]] == m.results[tuple]->Members_0[k
                        - refs.len()]
                    &&& b.insts.len() <= t.refs[k].0 < t.b.insts.len()
                }
            &&& forall|r: Ref| is_older(b, r) ==> #[trigger] end.results[r] == m.results[r]
            &&& end.memory == m.memory
        }),
    decreases n,
{
    if n <= 0 {
        lemma_start(m, d, b, b);
    } else {
        members_are_taken_in_order(m, b, d, refs, tuple, types, n - 1);
        let before = call::members_taken(b, d, refs, tuple, types, n - 1);
        let after = call::members_taken(b, d, refs, tuple, types, n);
        let args = call::member_args(tuple, (n - 1) as u32);
        let i = BuiltView {
            function: dialect::spec_function(d.tuple, Tuple::MemberValue),
            args,
            ty: types[n - 1],
        };
        lemma_with(m, d, b, before.b, i);
        assert(args[0]->Ref_0 == tuple && args[1]->Int32_0 == n - 1);
        let s = m.after(d, b, before.b);
        assert(s.results[tuple] == m.results[tuple]);
    }
}

/// A function that takes a tuple of arguments is passed the members of the tuple one by one, in
/// their order, behind the function itself unless that is the unit value. Other functions are
/// passed the values as they are.
pub proof fn arguments_are_passed_in_order(
    m: Values,
    b: BuilderView,
    d: Dialects,
    values: Seq<Ref>,
    types: Seq<TypeId>,
)
    requires
        are_apart(d),
        values.len() == 2,
        b.insts.len() + types.len() < 0xffff_fffd,
        is_older(b, values[0]),
        is_older(b, values[1]),
    ensures
        ({
            let t = call::args_passed(b, d, Seq::empty(), values, types, CallConv::FnTrait);
            let end = m.after(d, b, t.b);
            let first = if values[0] == Ref::unit() {
                0int
            } else {
                1int
            };
            &&& t.refs.len() == types.len() + first
            &&& first == 1 ==> end.results[t.refs[0]] == m.results[values[0]]
            &&& forall|k: int|
                0 <= k < types.len() ==> #[trigger] end.results[t.refs[k + first]]
                    == m.results[values[1]]->Members_0[k]
        }),
        call::args_passed(b, d, Seq::empty(), values, types, CallConv::Eye).refs == values,
{
    assert(Seq::<Ref>::empty() + values =~= values);
    let refs = if values[0] == Ref::unit() {
        Seq::empty()
    } else {
        Seq::<Ref>::empty().push(values[0])
    };
    members_are_taken_in_order(m, b, d, refs, values[1], types, types.len() as int);
    let t = call::args_passed(b, d, Seq::empty(), values, types, CallConv::FnTrait);
    assert(t == call::members_taken(b, d, refs, values[1], types, types.len() as int));
    if values[0] != Ref::unit() {
        assert(t.refs[0] == refs[0]);
    }
}

/// The parameters behind the first are put into a tuple in their order.
#[verifier::spinoff_prover]
#[verifier::rlimit(50)]
pub proof fn parameters_are_packed_in_order(
    m: Values,
    b: BuilderView,
    d: Dialects,
    params: Refs,
    ty: TypeId,
    n: int,
)
    requires
        are_apart(d),
        0 <= n,
        b.insts.len() + n + 1 < 0xffff_fffd,
        params.idx + n < b.insts.len(),
    ensures
        ({
            let p = call::packed(b, d, params, ty, n);
            let end = m.after(d, b, p.b);
            &&& p.b.insts.len() == b.insts.len() + n + 1
            &&& p.b.types == b.types
            &&& p.tuple == Ref((b.insts.len() + n) as u32)
            &&& forall|k: int|
                0 <= k < n ==> #[trigger] end.results[p.tuple]->Members_0[k] == m.results[Ref(
                    (params.idx + k + 1) as u32,
                )]
            &&& forall|r: Ref| r.0 < b.insts.len() ==> #[trigger] end.results[r] == m.results[r]
            &&& end.memory == m.memory
        }),
    decreases n,
{
    if n <= 0 {
        let i = BuiltView {
            function: Builtin::Undef.spec_function(),
            args: Seq::empty(),
            ty,
        };
        lemma_start(m, d, b, b);
        lemma_with(m, d, b, b, i);
    } else {
        parameters_are_packed_in_order(m, b, d, params, ty, n - 1);
        let p = call::packed(b, d, params, ty, n - 1);
        let value = call::nth(params, n);
        let args = intrinsics::insert_args(p.tuple, (n - 1) as u32, value);
        let i = BuiltView {
            function: dialect::spec_function(d.tuple, Tuple::InsertMember),
            args,
            ty,
        };
        lemma_with(m, d, b, p.b, i);
        assert(args[0]->Ref_0 == p.tuple && args[1]->Int32_0 == n - 1 && args[2]->Ref_0 == value);
        let s = m.after(d, b, p.b);
        assert(s.results[value] == m.results[value]);
    }
}

/// Each parameter is stored where its variable is. What a closure captured is not stored.
#[verifier::spinoff_prover]
#[verifier::rlimit(50)]
pub proof fn parameters_are_stored(
    m: Values,
    b: BuilderView,
    d: Dialects,
    params: Refs,
    vars: Seq<ParamVar>,
    n: int,
)
    requires
        are_apart(d),
        0 <= n <= vars.len(),
        b.insts.len() + n < 0xffff_fffd,
        params.idx + n <= b.insts.len(),
        forall|i: int, j: int| 0 <= i < j < vars.len() ==> vars[i].ptr != vars[j].ptr,
    ensures
        ({
            let c = call::params_stored(b, d, params, vars, n);
            let end = m.after(d, b, c);
            &&& b.insts.len() <= c.insts.len() <= b.insts.len() + n
            &&& c.types == b.types
            &&& forall|k: int|
                0 <= k < n ==> end.memory[(#[trigger] vars[k]).ptr] == (if vars[k].is_captures {
                    m.memory[vars[k].ptr]
                } else {
                    m.results[Ref((params.idx + k) as u32)]
                })
            &&& forall|k: int|
                n <= k < vars.len() ==> end.memory[(#[trigger] vars[k]).ptr]
                    == m.memory[vars[k].ptr]
            &&& forall|r: Ref| r.0 < b.insts.len() ==> #[trigger] end.results[r] == m.results[r]
        }),
    decreases n,
{
    if n <= 0 {
        lemma_start(m, d, b, b);
    } else {
        parameters_are_stored(m, b, d, params, vars, n - 1);
        let before = call::params_stored(b, d, params, vars, n - 1);
        let v = vars[n - 1];
        if !v.is_captures {
            let value = call::nth(params, n - 1);
            let args = call::store_args(v.ptr, value);
            let i = BuiltView {
                function: dialect::spec_function(d.mem, Mem::Store),
                args,
                ty: TypeId::unit(),
            };
            lemma_with(m, d, b, before, i);
            assert(args[0]->Ref_0 == v.ptr && args[1]->Ref_0 == value);
            let s = m.after(d, b, before);
            assert(s.results[value] == m.results[value]);
            assert forall|k: int| 0 <= k < vars.len() && k != n - 1 implies (
            #[trigger] vars[k]).ptr != v.ptr by {
                if k < n - 1 {
                    assert(vars[k].ptr != vars[n - 1].ptr);
                } else {
                    assert(vars[n - 1].ptr != vars[k].ptr);
                }
            }
        }
    }
}

/// With a tuple of arguments, the first parameter is stored in the first variable, and a tuple
/// of the others in the second.
#[verifier::spinoff_prover]
#[verifier::rlimit(50)]
pub proof fn tuples_of_parameters_are_stored(
    m: Values,
    b: BuilderView,
    d: Dialects,
    params: Refs,
    vars: Seq<ParamVar>,
    tuple_ty: TypeInfo,
)
    requires
        are_apart(d),
        vars.len() >= 2,
        vars[0].ptr != vars[1].ptr,
        params.count >= 1,
        b.insts.len() + params.count + 3 < 0xffff_fffd,
        params.idx + params.count <= b.insts.len(),
    ensures
        ({
            let c = call::args_assigned(b, d, params, vars, tuple_ty, CallConv::FnTrait);
            let end = m.after(d, b, c);
            &&& end.memory[vars[0].ptr] == m.results[Ref(params.idx)]
            &&& forall|k: int|
                0 <= k < params.count - 1 ==> #[trigger] end.memory[vars[1].ptr]->Members_0[k]
                    == m.results[Ref((params.idx + k + 1) as u32)]
        }),
{
    let c = call::args_assigned(b, d, params, vars, tuple_ty, CallConv::FnTrait);
    let n = params.count - 1;
    let store = dialect::spec_function(d.mem, Mem::Store);
    let first_args = call::store_args(vars[0].ptr, call::nth(params, 0));
    let i0 = BuiltView { function: store, args: first_args, ty: TypeId::unit() };
    let first = call::stored(b, d, vars[0].ptr, call::nth(params, 0));
    let typed = first.with_type(tuple_ty@);
    let p = call::packed(typed, d, params, first.next_type(), n);
    let last_args = call::store_args(vars[1].ptr, p.tuple);
    let i1 = BuiltView { function: store, args: last_args, ty: TypeId::unit() };
    let start = BuilderView { insts: b.insts, types: typed.types };
    assert(typed =~= start.with(i0.function, i0.args, i0.ty));
    lemma_start(m, d, b, start);
    lemma_with(m, d, b, start, i0);
    let s = m.after(d, b, typed);
    assert(first_args[0]->Ref_0 == vars[0].ptr && first_args[1]->Ref_0 == call::nth(params, 0));
    assert(last_args[0]->Ref_0 == vars[1].ptr && last_args[1]->Ref_0 == p.tuple);
    parameters_are_packed_in_order(s, typed, d, params, first.next_type(), n);
    lemma_split(m, d, p.b, b.insts.len() as int, typed.insts.len() as int, p.b.insts.len() as int);
    lemma_packed_keeps(typed, d, params, first.next_type(), n);
    lemma_same(m, d, typed, p.b, b.insts.len() as int, typed.insts.len() as int);
    assert(m.after(d, b, p.b) == s.after(d, typed, p.b));
    lemma_with(m, d, b, p.b, i1);
    assert forall|k: int| 0 <= k < n implies #[trigger] s.results[Ref((params.idx + k + 1) as u32)]
        == m.results[Ref((params.idx + k + 1) as u32)] by {}
}

proof fn lemma_packed_keeps(b: BuilderView, d: Dialects, params: Refs, ty: TypeId, n: int)
    ensures
        b.insts.len() <= call::packed(b, d, params, ty, n).b.insts.len(),
        forall|k: int|
            0 <= k < b.insts.len() ==> #[trigger] call::packed(b, d, params, ty, n).b.insts[k]
                == b.insts[k],
    decreases n,
{
    if n > 0 {
        lemma_packed_keeps(b, d, params, ty, n - 1);
    }
}

proof fn lemma_split(m: Values, d: Dialects, b: BuilderView, from: int, mid: int, to: int)
    requires
        from <= mid <= to,
    ensures
        m.run(d, b, from, to) == m.run(d, b, from, mid).run(d, b, mid, to),
    decreases to - mid,
{
    if mid < to {
        lemma_split(m, d, b, from, mid, to - 1);
    }
}

} // verus!
