//! Calls and the arguments of functions.
use vstd::prelude::*;

use crate::compiler::callconv::CallConv;
use crate::compiler::irgen::intrinsics;
use crate::compiler::irgen::intrinsics::call_intrinsic;
use crate::compiler::irgen::{Dialects, Stop, ValueOrPlace};
use crate::ir::builder::{BuilderView, IrBuilder};
use crate::ir::dialect;
use crate::ir::dialect::{Cf, Mem, Tuple};
use crate::ir::ids::{FunctionId, Ref, Refs, TypeId};
use crate::ir::inst;
use crate::ir::inst::{Argument, ArgumentView};
use crate::ir::types::TypeInfo;
use crate::target::Os;

verus! {

/// The arguments of a call after their expressions were turned into instructions.
#[derive(Debug)]
pub struct Args {
    /// The values of the expressions, or none where one of them does not return.
    pub values: Option<Vec<Ref>>,
    /// The types in the tuple of arguments. Only used by `FnTrait`.
    pub tuple_types: Vec<TypeId>,
}

pub open spec fn value_args(refs: Seq<Ref>) -> Seq<ArgumentView> {
    refs.map_values(|r: Ref| ArgumentView::Ref(r))
}

pub(crate) fn write_values(refs: &Vec<Ref>) -> (args: Vec<Argument>)
    ensures
        inst::views(args@) == value_args(refs@),
{
    let mut args: Vec<Argument> = Vec::new();
    let mut i: usize = 0;
    while i < refs.len()
        invariant
            i <= refs@.len(),
            inst::views(args@) =~= value_args(refs@.take(i as int)),
        decreases refs.len() - i,
    {
        let ghost before = args@;
        args.push(Argument::Ref(refs[i]));
        assert(inst::views(args@) =~= inst::views(before).push(args@.last()@));
        i += 1;
    }
    assert(refs@.take(i as int) =~= refs@);
    args
}

/// The arguments of an instruction that takes a member of a tuple.
pub open spec fn member_args(tuple: Ref, i: u32) -> Seq<ArgumentView> {
    seq![ArgumentView::Ref(tuple), ArgumentView::Int32(i)]
}

/// The code, and the values that were taken.
#[verifier::ext_equal]
pub struct Taking {
    pub b: BuilderView,
    pub refs: Seq<Ref>,
}

/// The first `n` members of a tuple are taken.
pub open spec fn members_taken(
    b: BuilderView,
    d: Dialects,
    refs: Seq<Ref>,
    tuple: Ref,
    types: Seq<TypeId>,
    n: int,
) -> Taking
    decreases n,
{
    if n <= 0 {
        Taking { b, refs }
    } else {
        let t = members_taken(b, d, refs, tuple, types, n - 1);
        Taking {
            b: t.b.with_op(
                d.tuple,
                Tuple::MemberValue,
                member_args(tuple, (n - 1) as u32),
                types[n - 1],
            ),
            refs: t.refs.push(t.b.result()),
        }
    }
}

/// Appends the members of a tuple to a list of values.
pub(crate) fn take_members(
    b: &mut IrBuilder,
    d: Dialects,
    refs: &mut Vec<Ref>,
    tuple: Ref,
    types: &Vec<TypeId>,
)
    requires
        types@.len() <= u32::MAX,
    ensures
        (Taking { b: final(b)@, refs: final(refs)@ }) == members_taken(
            old(b)@,
            d,
            old(refs)@,
            tuple,
            types@,
            types@.len() as int,
        ),
{
    let ghost start = b@;
    let ghost held = refs@;
    let mut i: usize = 0;
    while i < types.len()
        invariant
            i <= types@.len(),
            types@.len() <= u32::MAX,
            (Taking { b: b@, refs: refs@ }) == members_taken(
                start,
                d,
                held,
                tuple,
                types@,
                i as int,
            ),
        decreases types.len() - i,
    {
        let args: Vec<Argument> = vec![Argument::Ref(tuple), Argument::Int32(i as u32)];
        assert(inst::views(args@) =~= member_args(tuple, i as u32));
        let r: Ref = b.append(dialect::function(d.tuple, Tuple::MemberValue), args, types[i]);
        refs.push(r);
        i += 1;
    }
}

/// The values that are passed to a function, behind others.
pub open spec fn args_passed(
    b: BuilderView,
    d: Dialects,
    refs: Seq<Ref>,
    values: Seq<Ref>,
    tuple_types: Seq<TypeId>,
    callconv: CallConv,
) -> Taking {
    match callconv {
        CallConv::Eye => Taking { b, refs: refs + values },
        CallConv::FnTrait => members_taken(
            b,
            d,
            if values[0] == Ref::unit() {
                refs
            } else {
                refs.push(values[0])
            },
            values[1],
            tuple_types,
            tuple_types.len() as int,
        ),
    }
}

/// A function with `FnTrait` takes itself and a tuple of arguments.
pub open spec fn args_fit(a: Args, callconv: CallConv) -> bool {
    callconv is FnTrait ==> {
        &&& a.values matches Some(values) ==> values@.len() == 2
        &&& a.tuple_types@.len() <= u32::MAX
    }
}

/// Appends the arguments of a call to `ir_args`.
pub fn gen_args(
    b: &mut IrBuilder,
    d: Dialects,
    ir_args: &mut Vec<Ref>,
    args: &Args,
    callconv: CallConv,
) -> (r: Result<(), Stop>)
    requires
        args_fit(*args, callconv),
    ensures
        match args.values {
            None => {
                &&& r == Err::<(), Stop>(Stop::NoReturn)
                &&& final(b)@ == old(b)@
                &&& final(ir_args)@ == old(ir_args)@
            },
            Some(values) => r is Ok && (Taking { b: final(b)@, refs: final(ir_args)@ })
                == args_passed(
                old(b)@,
                d,
                old(ir_args)@,
                values@,
                args.tuple_types@,
                callconv,
            ),
        },
{
    let values: &Vec<Ref> = match &args.values {
        Some(values) => values,
        None => {
            return Err(Stop::NoReturn);
        },
    };
    match callconv {
        CallConv::Eye => {
            let ghost before = ir_args@;
            let mut i: usize = 0;
            while i < values.len()
                invariant
                    i <= values@.len(),
                    ir_args@ =~= before + values@.take(i as int),
                decreases values.len() - i,
            {
                ir_args.push(values[i]);
                i += 1;
            }
            assert(values@.take(i as int) =~= values@);
        },
        CallConv::FnTrait => {
            // unit self argument is always skipped in fn_trait callconv
            if values[0] != Ref::unit() {
                ir_args.push(values[0]);
            }
            take_members(b, d, ir_args, values[1], &args.tuple_types);
        },
    }
    Ok(())
}

/// What is called.
#[derive(Debug)]
pub enum Callee {
    /// A function of the program, unless it could not be compiled.
    Function { id: Option<FunctionId>, callconv: CallConv },
    /// A function that the compiler knows, by its name. The arguments are those behind the
    /// name.
    Intrinsic(String),
    /// A value that points to a function, or none where it does not return.
    Pointer(Option<Ref>),
}

/// A call of a function with the arguments that were passed.
pub open spec fn called(
    t: Taking,
    function: FunctionId,
    return_ty: TypeInfo,
    return_of_caller: Option<TypeId>,
    d: Dialects,
) -> (BuilderView, Result<ValueOrPlace, Stop>) {
    let typed = t.b.with_type(return_ty@);
    let done = typed.with(function, value_args(t.refs), t.b.next_type());
    match return_of_caller {
        Some(ty) => (
            done.with_undef(ty).with_op(
                d.cf,
                Cf::Ret,
                seq![ArgumentView::Ref(done.result())],
                TypeId::unit(),
            ),
            Err(Stop::NoReturn),
        ),
        None => (done, Ok(ValueOrPlace::Value(typed.result()))),
    }
}

/// The code of a call and its value.
pub open spec fn call_generated(
    b: BuilderView,
    d: Dialects,
    os: Os,
    callee: Callee,
    args: Args,
    return_ty: TypeInfo,
    return_of_caller: Option<TypeId>,
) -> (BuilderView, Result<ValueOrPlace, Stop>) {
    match (callee, args.values) {
        (Callee::Pointer(None), _) => (b, Err(Stop::NoReturn)),
        (_, None) => (b, Err(Stop::NoReturn)),
        (Callee::Intrinsic(name), Some(values)) => {
            let (after, value) = intrinsics::intrinsic_called(b, d, os, name@, values@, return_ty@);
            (after, Ok(ValueOrPlace::Value(value)))
        },
        (Callee::Function { id, callconv }, Some(values)) => {
            let t = args_passed(b, d, Seq::empty(), values@, args.tuple_types@, callconv);
            match id {
                Some(function) => called(t, function, return_ty, return_of_caller, d),
                None => (t.b, Err(Stop::CrashPoint)),
            }
        },
        (Callee::Pointer(Some(ptr)), Some(values)) => called(
            args_passed(b, d, seq![ptr], values@, args.tuple_types@, CallConv::Eye),
            dialect::spec_function(d.mem, Mem::CallPtr),
            return_ty,
            return_of_caller,
            d,
        ),
    }
}

/// Finishes a call with its arguments.
fn finish_call(
    b: &mut IrBuilder,
    d: Dialects,
    function: FunctionId,
    refs: &Vec<Ref>,
    return_ty: TypeInfo,
    return_of_caller: Option<TypeId>,
) -> (r: Result<ValueOrPlace, Stop>)
    ensures
        (final(b)@, r) == called(
            (Taking { b: old(b)@, refs: refs@ }),
            function,
            return_ty,
            return_of_caller,
            d,
        ),
{
    let ghost start = b@;
    let ty: TypeId = b.types.add_type(return_ty);
    assert(b@ =~= start.with_type(return_ty@));
    let res: Ref = b.append(function, write_values(refs), ty);
    match return_of_caller {
        Some(caller_ty) => {
            let ret: Ref = b.append_undef(caller_ty);
            let args: Vec<Argument> = vec![Argument::Ref(ret)];
            assert(inst::views(args@) =~= seq![ArgumentView::Ref(ret)]);
            b.append(dialect::function(d.cf, Cf::Ret), args, TypeId::unit());
            Err(Stop::NoReturn)
        },
        None => Ok(ValueOrPlace::Value(res)),
    }
}

/// Generates a call. Where it does not return, `return_of_caller` is the type that the
/// function around it returns.
pub fn gen_call(
    b: &mut IrBuilder,
    d: Dialects,
    os: Os,
    callee: &Callee,
    args: &Args,
    return_ty: TypeInfo,
    return_of_caller: Option<TypeId>,
) -> (r: Result<ValueOrPlace, Stop>)
    requires
        match *callee {
            Callee::Function { callconv, .. } => args_fit(*args, callconv),
            Callee::Intrinsic(name) => args.values matches Some(values)
                ==> intrinsics::can_call_intrinsic(old(b)@, name@, values@),
            Callee::Pointer(_) => true,
        },
    ensures
        (final(b)@, r) == call_generated(
            old(b)@,
            d,
            os,
            *callee,
            *args,
            return_ty,
            return_of_caller,
        ),
{
    match callee {
        Callee::Intrinsic(name) => match &args.values {
            Some(values) => {
                let value: Ref = call_intrinsic(b, d, os, name.as_str(), values, return_ty);
                Ok(ValueOrPlace::Value(value))
            },
            None => Err(Stop::NoReturn),
        },
        Callee::Function { id, callconv } => {
            let mut arg_refs: Vec<Ref> = Vec::new();
            match gen_args(b, d, &mut arg_refs, args, *callconv) {
                Ok(_) => {},
                Err(stop) => {
                    return Err(stop);
                },
            }
            match id {
                Some(function) => finish_call(
                    b,
                    d,
                    *function,
                    &arg_refs,
                    return_ty,
                    return_of_caller,
                ),
                None => Err(Stop::CrashPoint),
            }
        },
        Callee::Pointer(ptr) => match ptr {
            Some(ptr) => {
                // fn pointers currently can't have different calling conventions
                let mut call_ptr_args: Vec<Ref> = vec![*ptr];
                assert(call_ptr_args@ =~= seq![*ptr]);
                match gen_args(b, d, &mut call_ptr_args, args, CallConv::Eye) {
                    Ok(_) => {},
                    Err(stop) => {
                        return Err(stop);
                    },
                }
                let function: FunctionId = dialect::function(d.mem, Mem::CallPtr);
                finish_call(b, d, function, &call_ptr_args, return_ty, return_of_caller)
            },
            None => Err(Stop::NoReturn),
        },
    }
}

/// A parameter: where it is stored, unless it holds what a closure captured.
#[derive(Clone, Copy, Debug, PartialEq, Eq, Structural)]
pub struct ParamVar {
    pub ptr: Ref,
    pub is_captures: bool,
}

pub open spec fn store_args(ptr: Ref, value: Ref) -> Seq<ArgumentView> {
    seq![ArgumentView::Ref(ptr), ArgumentView::Ref(value)]
}

pub open spec fn stored(b: BuilderView, d: Dialects, ptr: Ref, value: Ref) -> BuilderView {
    b.with_op(d.mem, Mem::Store, store_args(ptr, value), TypeId::unit())
}

fn store(b: &mut IrBuilder, d: Dialects, ptr: Ref, value: Ref)
    ensures
        final(b)@ == stored(old(b)@, d, ptr, value),
{
    let args: Vec<Argument> = vec![Argument::Ref(ptr), Argument::Ref(value)];
    assert(inst::views(args@) =~= store_args(ptr, value));
    b.append(dialect::function(d.mem, Mem::Store), args, TypeId::unit());
}

pub open spec fn nth(params: Refs, i: int) -> Ref {
    Ref((params.idx + i) as u32)
}

/// The first `n` parameters are stored.
pub open spec fn params_stored(
    b: BuilderView,
    d: Dialects,
    params: Refs,
    vars: Seq<ParamVar>,
    n: int,
) -> BuilderView
    decreases n,
{
    if n <= 0 {
        b
    } else {
        let before = params_stored(b, d, params, vars, n - 1);
        if vars[n - 1].is_captures {
            before
        } else {
            stored(before, d, vars[n - 1].ptr, nth(params, n - 1))
        }
    }
}

/// The code, and the tuple that was put together.
#[verifier::ext_equal]
pub struct Packing {
    pub b: BuilderView,
    pub tuple: Ref,
}

/// The first `n` parameters behind the first one are put in a tuple.
pub open spec fn packed(
    b: BuilderView,
    d: Dialects,
    params: Refs,
    ty: TypeId,
    n: int,
) -> Packing
    decreases n,
{
    if n <= 0 {
        Packing { b: b.with_undef(ty), tuple: b.result() }
    } else {
        let p = packed(b, d, params, ty, n - 1);
        Packing {
            b: p.b.with_op(
                d.tuple,
                Tuple::InsertMember,
                intrinsics::insert_args(p.tuple, (n - 1) as u32, nth(params, n)),
                ty,
            ),
            tuple: p.b.result(),
        }
    }
}

/// The parameters are stored in their variables. With `FnTrait` all but the first are one
/// tuple.
pub open spec fn args_assigned(
    b: BuilderView,
    d: Dialects,
    params: Refs,
    vars: Seq<ParamVar>,
    tuple_ty: TypeInfo,
    callconv: CallConv,
) -> BuilderView {
    match callconv {
        CallConv::Eye => params_stored(b, d, params, vars, params.count as int),
        CallConv::FnTrait => {
            let first = stored(b, d, vars[0].ptr, nth(params, 0));
            let p = packed(
                first.with_type(tuple_ty@),
                d,
                params,
                first.next_type(),
                params.count - 1,
            );
            stored(p.b, d, vars[1].ptr, p.tuple)
        },
    }
}

/// Stores the parameters of a function in its variables.
pub fn assign_args_to_vars(
    b: &mut IrBuilder,
    d: Dialects,
    params: Refs,
    vars: &Vec<ParamVar>,
    tuple_ty: TypeInfo,
    callconv: CallConv,
)
    requires
        params.idx + params.count <= u32::MAX,
        match callconv {
            CallConv::Eye => vars@.len() == params.count,
            CallConv::FnTrait => vars@.len() == 2 && params.count >= 1,
        },
    ensures
        final(b)@ == args_assigned(old(b)@, d, params, vars@, tuple_ty, callconv),
{
    let ghost start = b@;
    match callconv {
        CallConv::Eye => {
            let mut i: u32 = 0;
            while i < params.count
                invariant
                    i <= params.count,
                    params.idx + params.count <= u32::MAX,
                    vars@.len() == params.count,
                    b@ == params_stored(start, d, params, vars@, i as int),
                decreases params.count - i,
            {
                let var: ParamVar = vars[i as usize];
                if !var.is_captures {
                    store(b, d, var.ptr, params.nth(i));
                }
                i += 1;
            }
        },
        CallConv::FnTrait => {
            store(b, d, vars[0].ptr, params.nth(0));
            let ghost first = b@;
            let ty: TypeId = b.types.add_type(tuple_ty);
            assert(b@ =~= first.with_type(tuple_ty@));
            let ghost typed = b@;
            let mut args_tuple: Ref = b.append_undef(ty);
            let mut i: u32 = 1;
            while i < params.count
                invariant
                    1 <= i <= params.count,
                    params.idx + params.count <= u32::MAX,
                    (Packing { b: b@, tuple: args_tuple }) == packed(
                        typed,
                        d,
                        params,
                        ty,
                        i - 1,
                    ),
                decreases params.count - i,
            {
                let args: Vec<Argument> = intrinsics::write_insert(
                    args_tuple,
                    i - 1,
                    params.nth(i),
                );
                args_tuple = b.append(dialect::function(d.tuple, Tuple::InsertMember), args, ty);
                i += 1;
            }
            store(b, d, vars[1].ptr, args_tuple);
        },
    }
}

proof fn lemma_members_taken(
    b: BuilderView,
    d: Dialects,
    refs: Seq<Ref>,
    tuple: Ref,
    types: Seq<TypeId>,
    n: int,
)
    requires
        0 <= n,
    ensures
        members_taken(b, d, refs, tuple, types, n).refs.len() == refs.len() + n,
        members_taken(b, d, refs, tuple, types, n).b.insts.len() == b.insts.len() + n,
        members_taken(b, d, refs, tuple, types, n).b.types == b.types,
    decreases n,
{
    if n > 0 {
        lemma_members_taken(b, d, refs, tuple, types, n - 1);
    }
}

/// With `FnTrait` as many values are passed as there are in the tuple, and one more unless
/// the function itself is the unit value. This is what the function takes apart again.
pub proof fn conventions_agree(
    b: BuilderView,
    d: Dialects,
    values: Seq<Ref>,
    tuple_types: Seq<TypeId>,
)
    requires
        values.len() == 2,
    ensures
        args_passed(b, d, Seq::empty(), values, tuple_types, CallConv::FnTrait).refs.len()
            == tuple_types.len() + if values[0] == Ref::unit() {
            0int
        } else {
            1
        },
        args_passed(b, d, Seq::empty(), values, tuple_types, CallConv::Eye).refs == values,
{
    assert(Seq::<Ref>::empty() + values =~= values);
    let refs = if values[0] == Ref::unit() {
        Seq::empty()
    } else {
        Seq::<Ref>::empty().push(values[0])
    };
    lemma_members_taken(b, d, refs, values[1], tuple_types, tuple_types.len() as int);
}

} // verus!
