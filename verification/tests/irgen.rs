use eye::compiler::callconv::CallConv;
use eye::compiler::irgen::call::{
    assign_args_to_vars, gen_args, gen_call, Args, Callee, ParamVar,
};
use eye::compiler::irgen::intrinsics::call_intrinsic;
use eye::compiler::irgen::{Dialects, Stop, ValueOrPlace};
use eye::ir::builder::IrBuilder;
use eye::ir::dialect::{function, Arith, Cf, Mem, Tuple};
use eye::ir::ids::{FunctionId, LocalFunctionId, ModuleId, Ref, Refs, TypeId};
use eye::ir::inst::{Argument, Builtin};
use eye::ir::types::{Element, Layout, Primitive, Shape, TypeInfo, Types};
use eye::target::Os;

const D: Dialects = Dialects {
    arith: ModuleId(1),
    tuple: ModuleId(2),
    mem: ModuleId(3),
    cf: ModuleId(4),
};

fn unit_type() -> TypeInfo {
    TypeInfo {
        shape: Shape::Tuple(vec![]),
        layout: Layout { size: 0, align: 1 },
        leaves: vec![],
    }
}

fn builder() -> IrBuilder {
    let mut types = Types { types: vec![] };
    types.add_type(unit_type());
    types.add(Primitive::I1);
    types.add(Primitive::I32);
    types.add_type(TypeInfo {
        shape: Shape::Tuple(vec![
            Element { ty: TypeId(2), offset: 0 },
            Element { ty: TypeId(1), offset: 4 },
        ]),
        layout: Layout { size: 8, align: 4 },
        leaves: vec![],
    });
    let mut b = IrBuilder { insts: vec![], types };
    b.append_undef(TypeId(2));
    b.append_undef(TypeId(3));
    b
}

fn main_function() -> FunctionId {
    FunctionId { module: ModuleId(9), function: LocalFunctionId(5) }
}

#[test]
fn plain_arguments_are_passed_as_they_are() {
    let mut b = builder();
    let mut refs = vec![];
    let args = Args { values: Some(vec![Ref(0), Ref(1)]), tuple_types: vec![] };
    assert_eq!(gen_args(&mut b, D, &mut refs, &args, CallConv::Eye), Ok(()));
    assert_eq!(refs, vec![Ref(0), Ref(1)]);
    assert_eq!(b.insts.len(), 2);
}

#[test]
fn tuples_of_arguments_are_taken_apart() {
    let mut b = builder();
    let mut refs = vec![];
    let tuple_types = vec![TypeId(2), TypeId(1)];
    let args = Args { values: Some(vec![Ref::unit(), Ref(1)]), tuple_types };
    assert_eq!(gen_args(&mut b, D, &mut refs, &args, CallConv::FnTrait), Ok(()));
    // the unit value is not passed
    assert_eq!(refs, vec![Ref(2), Ref(3)]);
    assert_eq!(b.insts[3].function, function(D.tuple, Tuple::MemberValue));
    assert_eq!(b.insts[3].args, vec![Argument::Ref(Ref(1)), Argument::Int32(1)]);
    assert_eq!(b.insts[3].ty, TypeId(1));
    let args = Args { values: Some(vec![Ref(0), Ref(1)]), tuple_types: vec![] };
    let mut refs = vec![];
    gen_args(&mut b, D, &mut refs, &args, CallConv::FnTrait).unwrap();
    assert_eq!(refs, vec![Ref(0)]);
}

#[test]
fn arguments_that_do_not_return_stop() {
    let mut b = builder();
    let mut refs = vec![];
    let args = Args { values: None, tuple_types: vec![] };
    assert_eq!(gen_args(&mut b, D, &mut refs, &args, CallConv::Eye), Err(Stop::NoReturn));
    let callee = Callee::Function { id: Some(main_function()), callconv: CallConv::Eye };
    let r = gen_call(&mut b, D, Os::Linux, &callee, &args, unit_type(), None);
    assert_eq!(r, Err(Stop::NoReturn));
    assert_eq!(b.insts.len(), 2);
}

#[test]
fn functions_are_called() {
    let mut b = builder();
    let args = Args { values: Some(vec![Ref(0)]), tuple_types: vec![] };
    let callee = Callee::Function { id: Some(main_function()), callconv: CallConv::Eye };
    let r = gen_call(&mut b, D, Os::Linux, &callee, &args, unit_type(), None);
    assert_eq!(r, Ok(ValueOrPlace::Value(Ref(2))));
    assert_eq!(b.insts[2].function, main_function());
    assert_eq!(b.insts[2].args, vec![Argument::Ref(Ref(0))]);
    assert_eq!(b.insts[2].ty, TypeId(4));
    let missing = Callee::Function { id: None, callconv: CallConv::Eye };
    let r = gen_call(&mut b, D, Os::Linux, &missing, &args, unit_type(), None);
    assert_eq!(r, Err(Stop::CrashPoint));
}

#[test]
fn calls_that_do_not_return_end_the_function() {
    let mut b = builder();
    let args = Args { values: Some(vec![]), tuple_types: vec![] };
    let callee = Callee::Function { id: Some(main_function()), callconv: CallConv::Eye };
    let r = gen_call(&mut b, D, Os::Linux, &callee, &args, unit_type(), Some(TypeId(2)));
    assert_eq!(r, Err(Stop::NoReturn));
    assert_eq!(b.insts[3].function, Builtin::Undef.function());
    assert_eq!(b.insts[3].ty, TypeId(2));
    assert_eq!(b.insts[4].function, function(D.cf, Cf::Ret));
    assert_eq!(b.insts[4].args, vec![Argument::Ref(Ref(3))]);
}

#[test]
fn pointers_are_called() {
    let mut b = builder();
    let args = Args { values: Some(vec![Ref(1)]), tuple_types: vec![] };
    let callee = Callee::Pointer(Some(Ref(0)));
    let r = gen_call(&mut b, D, Os::Linux, &callee, &args, unit_type(), None);
    assert_eq!(r, Ok(ValueOrPlace::Value(Ref(2))));
    assert_eq!(b.insts[2].function, function(D.mem, Mem::CallPtr));
    assert_eq!(b.insts[2].args, vec![Argument::Ref(Ref(0)), Argument::Ref(Ref(1))]);
    let r = gen_call(&mut b, D, Os::Linux, &Callee::Pointer(None), &args, unit_type(), None);
    assert_eq!(r, Err(Stop::NoReturn));
}

#[test]
fn intrinsics_become_instructions() {
    let mut b = builder();
    let two = vec![Ref(0), Ref(0)];
    let r = call_intrinsic(&mut b, D, Os::Linux, "eq", &two, unit_type());
    assert_eq!(r, Ref(2));
    assert_eq!(b.insts[2].function, function(D.arith, Arith::Eq));
    assert_eq!(b.types.primitive(b.insts[2].ty), Some(Primitive::I1));
    for (name, op) in
        [("xor", Arith::Xor), ("rotate_left", Arith::Rol), ("rotate_right", Arith::Ror)]
    {
        let r = call_intrinsic(&mut b, D, Os::Linux, name, &two, unit_type());
        assert_eq!(b.insts[r.idx()].function, function(D.arith, op));
        assert_eq!(b.insts[r.idx()].ty, TypeId(2));
    }
}

#[test]
fn the_system_is_a_number() {
    for (os, n) in [(Os::Unknown, 0), (Os::Linux, 1), (Os::Windows, 2), (Os::Darwin, 3)] {
        let mut b = builder();
        let r = call_intrinsic(&mut b, D, os, "os", &vec![], unit_type());
        assert_eq!(r, Ref(4));
        assert_eq!(b.insts[2].function, Builtin::Undef.function());
        assert_eq!(b.insts[3].args, vec![Argument::Int(n)]);
        assert_eq!(
            b.insts[4].args,
            vec![Argument::Ref(Ref(2)), Argument::Int32(0), Argument::Ref(Ref(3))],
        );
    }
}

#[test]
fn pointers_are_called_with_tuples() {
    let mut b = builder();
    let args = Args { values: Some(vec![Ref(0), Ref(1)]), tuple_types: vec![] };
    let callee = Callee::Intrinsic("call_ptr".to_owned());
    let r = gen_call(&mut b, D, Os::Linux, &callee, &args, unit_type(), None);
    assert_eq!(r, Ok(ValueOrPlace::Value(Ref(4))));
    assert_eq!(
        b.insts[4].args,
        vec![Argument::Ref(Ref(0)), Argument::Ref(Ref(2)), Argument::Ref(Ref(3))],
    );
}

#[test]
fn parameters_are_stored() {
    let mut b = builder();
    let vars = vec![
        ParamVar { ptr: Ref(0), is_captures: false },
        ParamVar { ptr: Ref(1), is_captures: true },
    ];
    let params = Refs { idx: 10, count: 2 };
    assign_args_to_vars(&mut b, D, params, &vars, unit_type(), CallConv::Eye);
    assert_eq!(b.insts.len(), 3);
    assert_eq!(b.insts[2].function, function(D.mem, Mem::Store));
    assert_eq!(b.insts[2].args, vec![Argument::Ref(Ref(0)), Argument::Ref(Ref(10))]);
}

#[test]
fn parameters_are_packed() {
    let mut b = builder();
    let vars = vec![
        ParamVar { ptr: Ref(0), is_captures: false },
        ParamVar { ptr: Ref(1), is_captures: false },
    ];
    let params = Refs { idx: 10, count: 3 };
    assign_args_to_vars(&mut b, D, params, &vars, unit_type(), CallConv::FnTrait);
    assert_eq!(b.insts.len(), 7);
    assert_eq!(b.insts[2].args, vec![Argument::Ref(Ref(0)), Argument::Ref(Ref(10))]);
    assert_eq!(b.insts[3].function, Builtin::Undef.function());
    assert_eq!(
        b.insts[5].args,
        vec![Argument::Ref(Ref(4)), Argument::Int32(1), Argument::Ref(Ref(12))],
    );
    assert_eq!(b.insts[6].args, vec![Argument::Ref(Ref(1)), Argument::Ref(Ref(5))]);
}
