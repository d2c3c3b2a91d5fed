//! Functions that the compiler knows.
use vstd::prelude::*;

use crate::compiler::irgen::call;
use crate::compiler::irgen::call::take_members;
use crate::compiler::irgen::Dialects;
use crate::ir::builder::{BuilderView, IrBuilder};
use crate::ir::dialect;
use crate::ir::dialect::{Arith, Mem, Tuple};
use crate::ir::ids::{FunctionId, Ref, TypeId};
use crate::ir::inst;
use crate::ir::inst::{Argument, ArgumentView};
use crate::ir::types;
use crate::ir::types::{Element, Layout, Leaf, Primitive, Shape, ShapeView, TypeInfo, TypeView};
use crate::target::Os;
use crate::text::str_eq;

verus! {

/// The number of a system among the variants of the enum that programs know it by.
#[verifier::allow_in_spec]
pub fn os_ordinal(os: Os) -> u64
    returns
        (match os {
            Os::Unknown => 0u64,
            Os::Linux => 1u64,
            Os::Windows => 2u64,
            Os::Darwin => 3u64,
        }),
{
    match os {
        Os::Unknown => 0,
        Os::Linux => 1,
        Os::Windows => 2,
        Os::Darwin => 3,
    }
}

/// Systems have different numbers.
pub proof fn os_ordinals_are_unique(a: Os, b: Os)
    ensures
        os_ordinal(a) == os_ordinal(b) ==> a == b,
{
}

/// A tuple of one byte.
pub open spec fn ordinal_tuple(ty: TypeId) -> TypeView {
    TypeView {
        shape: ShapeView::Tuple(seq![Element { ty, offset: 0 }]),
        layout: Layout { size: 1, align: 1 },
        leaves: seq![Leaf { primitive: Primitive::U8, offset: 0 }],
    }
}

/// The arguments of an instruction that puts a value in a tuple.
pub open spec fn insert_args(tuple: Ref, i: u32, value: Ref) -> Seq<ArgumentView> {
    seq![ArgumentView::Ref(tuple), ArgumentView::Int32(i), ArgumentView::Ref(value)]
}

pub(crate) fn write_insert(tuple: Ref, i: u32, value: Ref) -> (args: Vec<Argument>)
    ensures
        inst::views(args@) == insert_args(tuple, i, value),
{
    let args: Vec<Argument> = vec![
        Argument::Ref(tuple),
        Argument::Int32(i),
        Argument::Ref(value),
    ];
    assert(inst::views(args@) =~= insert_args(tuple, i, value));
    args
}

/// The instruction that calculates an intrinsic of two values.
pub open spec fn binary_op(name: Seq<char>) -> Option<Arith> {
    if name == "eq"@ {
        Some(Arith::Eq)
    } else if name == "xor"@ {
        Some(Arith::Xor)
    } else if name == "rotate_left"@ {
        Some(Arith::Rol)
    } else if name == "rotate_right"@ {
        Some(Arith::Ror)
    } else {
        None
    }
}

fn get_binary_op(name: &str) -> (op: Option<Arith>)
    ensures
        op == binary_op(name@),
{
    if str_eq(name, "eq") {
        Some(Arith::Eq)
    } else if str_eq(name, "xor") {
        Some(Arith::Xor)
    } else if str_eq(name, "rotate_left") {
        Some(Arith::Rol)
    } else if str_eq(name, "rotate_right") {
        Some(Arith::Ror)
    } else {
        None
    }
}

pub open spec fn two_values(a: Ref, b: Ref) -> Seq<ArgumentView> {
    seq![ArgumentView::Ref(a), ArgumentView::Ref(b)]
}

/// The value for the system that the program is compiled for.
pub open spec fn os_value(b: BuilderView, d: Dialects, os: Os) -> (BuilderView, Ref) {
    let ordinal_ty = b.next_type();
    let with_ordinal = b.with_type(types::primitive_type(Primitive::U8));
    let tuple_ty = with_ordinal.next_type();
    let typed = with_ordinal.with_type(ordinal_tuple(ordinal_ty));
    let undef = typed.with_undef(tuple_ty);
    let numbered = undef.with_op(
        d.arith,
        Arith::Int,
        seq![ArgumentView::Int(os_ordinal(os))],
        ordinal_ty,
    );
    (
        numbered.with_op(
            d.tuple,
            Tuple::InsertMember,
            insert_args(typed.result(), 0, undef.result()),
            tuple_ty,
        ),
        numbered.result(),
    )
}

/// The types of the elements of a tuple type.
pub open spec fn element_types(elements: Seq<Element>) -> Seq<TypeId> {
    elements.map_values(|e: Element| e.ty)
}

/// The elements of the type of a value.
pub open spec fn elements_of(b: BuilderView, r: Ref) -> Option<Seq<Element>> {
    if b.has_value(r) && b.type_of(r).0 < b.types.len() {
        match b.types[b.type_of(r).0 as int].shape {
            ShapeView::Tuple(elements) => Some(elements),
            _ => None,
        }
    } else {
        None
    }
}

/// A call of a function that a value points to, with a tuple of arguments.
pub open spec fn pointer_called(
    b: BuilderView,
    d: Dialects,
    ptr: Ref,
    args_tuple: Ref,
    return_ty: TypeView,
) -> (BuilderView, Ref) {
    let list = element_types(elements_of(b, args_tuple)->Some_0);
    let t = call::members_taken(b, d, seq![ptr], args_tuple, list, list.len() as int);
    let typed = t.b.with_type(return_ty);
    (
        typed.with_op(d.mem, Mem::CallPtr, call::value_args(t.refs), t.b.next_type()),
        typed.result(),
    )
}

/// The code of an intrinsic and its value.
pub open spec fn intrinsic_called(
    b: BuilderView,
    d: Dialects,
    os: Os,
    name: Seq<char>,
    args: Seq<Ref>,
    return_ty: TypeView,
) -> (BuilderView, Ref) {
    match binary_op(name) {
        Some(Arith::Eq) => {
            let typed = b.with_type(types::primitive_type(Primitive::I1));
            (
                typed.with_op(d.arith, Arith::Eq, two_values(args[0], args[1]), b.next_type()),
                typed.result(),
            )
        },
        Some(op) => (
            b.with_op(d.arith, op, two_values(args[0], args[1]), b.type_of(args[0])),
            b.result(),
        ),
        None => if name == "os"@ {
            os_value(b, d, os)
        } else {
            pointer_called(b, d, args[0], args[1], return_ty)
        },
    }
}

/// The intrinsic is known and takes such arguments.
pub open spec fn can_call_intrinsic(b: BuilderView, name: Seq<char>, args: Seq<Ref>) -> bool {
    if binary_op(name) is Some {
        args.len() >= 2 && b.has_value(args[0])
    } else if name == "os"@ {
        true
    } else {
        name == "call_ptr"@ && args.len() == 2 && (elements_of(b, args[1]) matches Some(elements)
            && elements.len() < u32::MAX)
    }
}

fn append_os(b: &mut IrBuilder, d: Dialects, os: Os) -> (value: Ref)
    ensures
        (final(b)@, value) == os_value(old(b)@, d, os),
{
    let ghost start = b@;
    let ordinal_ty: TypeId = b.types.add(Primitive::U8);
    assert(b@ =~= start.with_type(types::primitive_type(Primitive::U8)));
    let ghost with_ordinal = b@;
    let elements: Vec<Element> = vec![Element { ty: ordinal_ty, offset: 0 }];
    let leaves: Vec<Leaf> = vec![Leaf { primitive: Primitive::U8, offset: 0 }];
    assert(elements@ =~= seq![Element { ty: ordinal_ty, offset: 0 }]);
    assert(leaves@ =~= seq![Leaf { primitive: Primitive::U8, offset: 0 }]);
    let info = TypeInfo {
        shape: Shape::Tuple(elements),
        layout: Layout { size: 1, align: 1 },
        leaves,
    };
    assert(info@ =~= ordinal_tuple(ordinal_ty));
    let tuple_ty: TypeId = b.types.add_type(info);
    assert(b@ =~= with_ordinal.with_type(ordinal_tuple(ordinal_ty)));
    let tuple_value: Ref = b.append_undef(tuple_ty);
    let args: Vec<Argument> = vec![Argument::Int(os_ordinal(os))];
    assert(inst::views(args@) =~= seq![ArgumentView::Int(os_ordinal(os))]);
    let ordinal: Ref = b.append(dialect::function(d.arith, Arith::Int), args, ordinal_ty);
    let args: Vec<Argument> = write_insert(tuple_value, 0, ordinal);
    b.append(dialect::function(d.tuple, Tuple::InsertMember), args, tuple_ty)
}

fn append_pointer_call(
    b: &mut IrBuilder,
    d: Dialects,
    ptr: Ref,
    args_tuple: Ref,
    return_ty: TypeInfo,
) -> (value: Ref)
    requires
        elements_of(old(b)@, args_tuple) matches Some(elements) && elements.len() < u32::MAX,
    ensures
        (final(b)@, value) == pointer_called(old(b)@, d, ptr, args_tuple, return_ty@),
{
    let ghost start = b@;
    let ghost elements_view = elements_of(start, args_tuple)->Some_0;
    let ty: TypeId = b.get_ref_ty(args_tuple);
    let mut list: Vec<TypeId> = Vec::new();
    assert(b@.types[ty.0 as int] == b.types.types@[ty.0 as int]@);
    if let Shape::Tuple(elements) = &b.types.types[ty.0 as usize].shape {
        let mut i: usize = 0;
        while i < elements.len()
            invariant
                i <= elements@.len(),
                list@ =~= element_types(elements@).take(i as int),
            decreases elements.len() - i,
        {
            list.push(elements[i].ty);
            i += 1;
        }
        assert(list@ =~= element_types(elements@));
    }
    assert(list@ =~= element_types(elements_view));
    let mut args: Vec<Ref> = vec![ptr];
    assert(args@ =~= seq![ptr]);
    take_members(b, d, &mut args, args_tuple, &list);
    let call_ptr: FunctionId = dialect::function(d.mem, Mem::CallPtr);
    let ghost taken = b@;
    let return_id: TypeId = b.types.add_type(return_ty);
    assert(b@ =~= taken.with_type(return_ty@));
    b.append(call_ptr, call::write_values(&args), return_id)
}

/// Calls an intrinsic.
pub fn call_intrinsic(
    b: &mut IrBuilder,
    d: Dialects,
    os: Os,
    intrinsic: &str,
    args: &Vec<Ref>,
    return_ty: TypeInfo,
) -> (value: Ref)
    requires
        can_call_intrinsic(old(b)@, intrinsic@, args@),
    ensures
        (final(b)@, value) == intrinsic_called(
            old(b)@,
            d,
            os,
            intrinsic@,
            args@,
            return_ty@,
        ),
{
    let ghost start = b@;
    match get_binary_op(intrinsic) {
        Some(op) => {
            let ty: TypeId = if op == Arith::Eq {
                b.types.add(Primitive::I1)
            } else {
                b.get_ref_ty(args[0])
            };
            assert(op == Arith::Eq ==> b@ =~= start.with_type(
                types::primitive_type(Primitive::I1),
            ));
            let operands: Vec<Argument> = vec![Argument::Ref(args[0]), Argument::Ref(args[1])];
            assert(inst::views(operands@) =~= two_values(args@[0], args@[1]));
            b.append(dialect::function(d.arith, op), operands, ty)
        },
        None => if str_eq(intrinsic, "os") {
            append_os(b, d, os)
        } else {
            append_pointer_call(b, d, args[0], args[1], return_ty)
        },
    }
}

} // verus!
