//! The arguments of instructions by their positions.
use vstd::prelude::*;

use crate::ir::env::Environment;
use crate::ir::function::{FunctionIr, FunctionView};
use crate::ir::ids::{BlockId, FunctionId, GlobalId, ModuleId, Ref, TypeId};
use crate::ir::inst;
use crate::ir::inst::{decode_args, Argument, ArgumentView, Builtin};

verus! {

/// The arguments of an instruction.
pub open spec fn args_in(f: FunctionView, env: &Environment, r: Ref) -> Seq<ArgumentView> {
    let called = f.insts[r.0 as int];
    inst::args_of(
        env.def(called.function).params@,
        env.def(called.function).varargs,
        called.args,
        f.extra,
        f.blocks,
    )
}

/// Reads the arguments of an instruction.
pub(crate) fn read_args(ir: &FunctionIr, env: &Environment, r: Ref) -> (args: Vec<Argument>)
    requires
        r.0 < ir@.insts.len(),
        env.has(ir@.insts[r.0 as int].function),
        env.def(ir@.insts[r.0 as int].function).params@.len() <= u32::MAX,
    ensures
        inst::views(args@) == args_in(ir@, env, r),
{
    let called = &ir.insts[r.idx()];
    let def = env.get(called.function);
    decode_args(&def.params, def.varargs, called.args, &ir.extra, &ir.blocks)
}

/// The value at this position among the arguments.
pub open spec fn ref_at(args: Seq<ArgumentView>, i: int) -> Ref {
    if 0 <= i < args.len() {
        match args[i] {
            ArgumentView::Ref(r) => r,
            _ => Ref::unit(),
        }
    } else {
        Ref::unit()
    }
}

pub open spec fn int_at(args: Seq<ArgumentView>, i: int) -> u64 {
    if 0 <= i < args.len() {
        match args[i] {
            ArgumentView::Int(v) => v,
            ArgumentView::Int32(v) => v as u64,
            _ => 0,
        }
    } else {
        0
    }
}

pub open spec fn type_at(args: Seq<ArgumentView>, i: int) -> TypeId {
    if 0 <= i < args.len() {
        match args[i] {
            ArgumentView::TypeId(t) => t,
            _ => TypeId::unit(),
        }
    } else {
        TypeId::unit()
    }
}

pub open spec fn target_at(args: Seq<ArgumentView>, i: int) -> (BlockId, Seq<Ref>) {
    if 0 <= i < args.len() {
        match args[i] {
            ArgumentView::BlockTarget(b, values) => (b, values),
            _ => (BlockId::entry(), Seq::empty()),
        }
    } else {
        (BlockId::entry(), Seq::empty())
    }
}

pub open spec fn function_at(args: Seq<ArgumentView>, i: int) -> FunctionId {
    if 0 <= i < args.len() {
        match args[i] {
            ArgumentView::FunctionId(f) => f,
            _ => Builtin::Nothing.spec_function(),
        }
    } else {
        Builtin::Nothing.spec_function()
    }
}

pub open spec fn global_at(args: Seq<ArgumentView>, i: int) -> GlobalId {
    if 0 <= i < args.len() {
        match args[i] {
            ArgumentView::GlobalId(g) => g,
            _ => GlobalId { module: ModuleId::builtins(), idx: 0 },
        }
    } else {
        GlobalId { module: ModuleId::builtins(), idx: 0 }
    }
}

pub(crate) fn get_ref(args: &Vec<Argument>, i: usize) -> (r: Ref)
    ensures
        r == ref_at(inst::views(args@), i as int),
{
    if i < args.len() {
        assert(inst::views(args@)[i as int] == args@[i as int]@);
        match &args[i] {
            Argument::Ref(r) => *r,
            _ => Ref::unit(),
        }
    } else {
        Ref::unit()
    }
}

pub(crate) fn get_int(args: &Vec<Argument>, i: usize) -> (v: u64)
    ensures
        v == int_at(inst::views(args@), i as int),
{
    if i < args.len() {
        assert(inst::views(args@)[i as int] == args@[i as int]@);
        match &args[i] {
            Argument::Int(v) => *v,
            Argument::Int32(v) => *v as u64,
            _ => 0,
        }
    } else {
        0
    }
}

pub(crate) fn get_type(args: &Vec<Argument>, i: usize) -> (t: TypeId)
    ensures
        t == type_at(inst::views(args@), i as int),
{
    if i < args.len() {
        assert(inst::views(args@)[i as int] == args@[i as int]@);
        match &args[i] {
            Argument::TypeId(t) => *t,
            _ => TypeId::unit(),
        }
    } else {
        TypeId::unit()
    }
}

pub(crate) fn copy_refs(refs: &Vec<Ref>) -> (copy: Vec<Ref>)
    ensures
        copy@ == refs@,
{
    let mut copy: Vec<Ref> = Vec::new();
    let mut i: usize = 0;
    while i < refs.len()
        invariant
            i <= refs@.len(),
            copy@ =~= refs@.take(i as int),
        decreases refs.len() - i,
    {
        copy.push(refs[i]);
        i += 1;
    }
    copy
}

pub(crate) fn get_target(args: &Vec<Argument>, i: usize) -> (t: (BlockId, Vec<Ref>))
    ensures
        (t.0, t.1@) == target_at(inst::views(args@), i as int),
{
    if i < args.len() {
        assert(inst::views(args@)[i as int] == args@[i as int]@);
        match &args[i] {
            Argument::BlockTarget(b, values) => (*b, copy_refs(values)),
            _ => (BlockId::entry(), Vec::new()),
        }
    } else {
        (BlockId::entry(), Vec::new())
    }
}

pub(crate) fn get_function(args: &Vec<Argument>, i: usize) -> (f: FunctionId)
    ensures
        f == function_at(inst::views(args@), i as int),
{
    if i < args.len() {
        assert(inst::views(args@)[i as int] == args@[i as int]@);
        match &args[i] {
            Argument::FunctionId(f) => *f,
            _ => Builtin::Nothing.function(),
        }
    } else {
        Builtin::Nothing.function()
    }
}

pub(crate) fn get_global(args: &Vec<Argument>, i: usize) -> (g: GlobalId)
    ensures
        g == global_at(inst::views(args@), i as int),
{
    if i < args.len() {
        assert(inst::views(args@)[i as int] == args@[i as int]@);
        match &args[i] {
            Argument::GlobalId(g) => *g,
            _ => GlobalId { module: ModuleId::builtins(), idx: 0 },
        }
    } else {
        GlobalId { module: ModuleId::builtins(), idx: 0 }
    }
}

} // verus!
