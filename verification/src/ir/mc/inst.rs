//! Instructions of machines and the conventions that functions call each other by.
use vstd::prelude::*;

use crate::ir::dialect;
use crate::ir::dialect::{Dialect, Mc};
use crate::ir::edit::{Plan, PlanView};
use crate::ir::env::Environment;
use crate::ir::finish;
use crate::ir::function::{FunctionIr, FunctionView};
use crate::ir::ids::{FunctionId, ModuleId, Ref, TypeId};
use crate::ir::inst;
use crate::ir::inst::{decode_args, Argument, ArgumentView, MCReg, Usage};
use crate::ir::mc::register::Register;
use crate::ir::modify::{IrModify, ModifyView};
use crate::ir::slots::Slots;
use crate::ir::types::{Leaf, Types};

verus! {

#[derive(Clone, Copy, Debug, PartialEq, Eq, Structural)]
pub enum OpType {
    Non,
    Reg,
    Mem,
    Imm,
    Blk,
    Fun,
}

#[derive(Clone, Copy, Debug, PartialEq, Eq, Structural)]
pub enum OpUsage {
    Def,
    Use,
    DefUse,
}

/// An instruction of a machine.
pub trait McInst: Dialect {
    type Reg: Register;

    type Convention: Abi<RegisterBits = <Self::Reg as Register>::RegisterBits>;

    /// The registers that the instruction writes though they are no operands.
    spec fn defines(self, abi: Self::Convention, index: u8) -> bool;

    /// The registers that the instruction reads though they are no operands.
    spec fn reads(self, abi: Self::Convention, index: u8) -> bool;

    fn implicit_def(self, abi: &Self::Convention) -> (bits: <Self::Reg as Register>::RegisterBits)
        ensures
            forall|i: u8| #[trigger] Self::Reg::spec_has(bits, i) <==> self.defines(*abi, i),
    ;

    fn implicit_use(self, abi: &Self::Convention) -> (bits: <Self::Reg as Register>::RegisterBits)
        ensures
            forall|i: u8| #[trigger] Self::Reg::spec_has(bits, i) <==> self.reads(*abi, i),
    ;
}

/// What is known while a function is turned into machine instructions: the modules of
/// the instructions that are used for it, and the registers of its values.
pub struct Context<'a> {
    pub mc: ModuleId,
    pub isa: ModuleId,
    pub env: &'a Environment,
    pub ir: &'a FunctionIr,
    pub types: &'a Types,
    pub slots: &'a Slots,
}

impl<'a> Context<'a> {
    pub open spec fn f(self) -> FunctionView {
        self.ir@
    }

    /// The type of a value.
    pub open spec fn type_of(self, r: Ref) -> TypeId {
        if r.spec_is_ref() {
            self.ir@.insts[r.0 as int].ty
        } else {
            TypeId::i1()
        }
    }

    pub open spec fn leaves(self, r: Ref) -> Seq<Leaf> {
        self.types@[self.type_of(r).0 as int].leaves
    }

    /// The value comes from an instruction of the function, its type is known and it has
    /// registers.
    pub open spec fn knows(self, r: Ref) -> bool {
        &&& r.spec_is_ref() ==> r.0 < self.ir@.insts.len()
        &&& self.type_of(r).0 < self.types@.len()
    }

    pub open spec fn holds(self, r: Ref) -> bool {
        &&& self.knows(r)
        &&& self.slots@.holds(r, crate::ir::slots::slot_count(self.leaves(r)))
    }

    /// The arguments of an instruction of the function.
    pub open spec fn args(self, r: Ref) -> Seq<ArgumentView> {
        let inst = self.ir@.insts[r.0 as int];
        inst::args_of(
            self.env.def(inst.function).params@,
            self.env.def(inst.function).varargs,
            inst.args,
            self.ir@.extra,
            self.ir@.blocks,
        )
    }

    /// The instruction belongs to the function and its signature is known.
    pub open spec fn has_call(self, r: Ref) -> bool {
        &&& r.0 < self.ir@.insts.len()
        &&& r.spec_is_ref()
        &&& self.env.has(self.ir@.insts[r.0 as int].function)
        &&& self.env.def(self.ir@.insts[r.0 as int].function).params@.len() <= u32::MAX
    }

    pub fn get_type(&self, r: Ref) -> (ty: TypeId)
        requires
            self.knows(r),
        ensures
            ty == self.type_of(r),
    {
        if r.is_ref() {
            self.ir.insts[r.idx()].ty
        } else {
            TypeId::i1()
        }
    }

    /// The values that a call passes.
    pub fn call_args(&self, r: Ref, skip_first: bool) -> (refs: Vec<Ref>)
        requires
            self.has_call(r),
        ensures
            refs@ == passed(self.args(r), skip_first),
    {
        let call = &self.ir.insts[r.idx()];
        let def = self.env.get(call.function);
        let args: Vec<Argument> = decode_args(
            &def.params,
            def.varargs,
            call.args,
            &self.ir.extra,
            &self.ir.blocks,
        );
        let ghost views = inst::views(args@);
        let skip: usize = if skip_first {
            1
        } else {
            0
        };
        let mut refs: Vec<Ref> = Vec::new();
        let mut i: usize = skip;
        assert(values_in(views, skip as int, skip as int) =~= Seq::empty());
        while i < args.len()
            invariant
                skip <= i,
                i <= args@.len() || i == skip,
                views == inst::views(args@),
                refs@ =~= values_in(views, skip as int, i as int),
            decreases args.len() - i,
        {
            assert(views[i as int] == args@[i as int]@);
            if let Argument::Ref(value) = args[i] {
                refs.push(value);
            }
            i += 1;
        }
        assert(args@.len() == views.len());
        refs
    }
}

/// The values among the arguments from `start` on and before `end`.
pub open spec fn values_in(args: Seq<ArgumentView>, start: int, end: int) -> Seq<Ref>
    decreases end - start,
{
    if end <= start {
        Seq::empty()
    } else {
        let before = values_in(args, start, end - 1);
        match args[end - 1] {
            ArgumentView::Ref(r) => before.push(r),
            _ => before,
        }
    }
}

/// The values that a call with these arguments passes.
pub open spec fn passed(args: Seq<ArgumentView>, skip_first: bool) -> Seq<Ref> {
    values_in(
        args,
        if skip_first {
            1
        } else {
            0
        },
        args.len() as int,
    )
}

/// All arguments from `start` on are values.
pub open spec fn only_values(args: Seq<ArgumentView>, start: int) -> bool {
    forall|i: int| start <= i < args.len() ==> #[trigger] args[i] is Ref
}

/// How functions take their arguments, call others and return.
pub trait Abi: Sized {
    type RegisterBits: Copy;

    /// The set of registers holds the index.
    spec fn spec_has(bits: Self::RegisterBits, index: u8) -> bool;

    spec fn can_take_params(&self, c: Context, args: Seq<Ref>, plan: PlanView) -> bool;

    /// The changes that move the arguments of the function into their registers.
    spec fn params_taken(&self, c: Context, at: Ref, args: Seq<Ref>, plan: PlanView) -> PlanView;

    fn implement_params(&self, c: &Context, at: Ref, args: &Vec<Ref>, plan: &mut Plan)
        requires
            self.can_take_params(*c, args@, old(plan)@),
        ensures
            final(plan)@ == self.params_taken(*c, at, args@, old(plan)@),
    ;

    spec fn can_call(&self, c: Context, call: Ref, skip_first_arg: bool, plan: PlanView) -> bool;

    /// The changes that pass the arguments of a call and take its result.
    spec fn called(&self, c: Context, call: Ref, skip_first_arg: bool, plan: PlanView) -> PlanView;

    fn implement_call(&self, c: &Context, call_inst: Ref, skip_first_arg: bool, plan: &mut Plan)
        requires
            self.can_call(*c, call_inst, skip_first_arg, old(plan)@),
        ensures
            final(plan)@ == self.called(*c, call_inst, skip_first_arg, old(plan)@),
    ;

    spec fn can_return(&self, c: Context, value: Ref, r: Ref, plan: PlanView) -> bool;

    /// The changes that hand a result back.
    spec fn returned(&self, c: Context, value: Ref, r: Ref, plan: PlanView) -> PlanView;

    fn implement_return(&self, c: &Context, value: Ref, r: Ref, plan: &mut Plan)
        requires
            self.can_return(*c, value, r, old(plan)@),
        ensures
            final(plan)@ == self.returned(*c, value, r, old(plan)@),
    ;

    /// A function keeps the register for its caller.
    spec fn keeps(&self, index: u8) -> bool;

    fn callee_saved(&self) -> (bits: Self::RegisterBits)
        ensures
            forall|i: u8| #[trigger] Self::spec_has(bits, i) <==> self.keeps(i),
    ;

    /// A function may overwrite the register.
    spec fn clobbers(&self, index: u8) -> bool;

    fn caller_saved(&self) -> (bits: Self::RegisterBits)
        ensures
            forall|i: u8| #[trigger] Self::spec_has(bits, i) <==> self.clobbers(i),
    ;

    /// The register holds one of so many results.
    spec fn returns_in(&self, value_count: u32, index: u8) -> bool;

    fn return_regs(&self, value_count: u32) -> (bits: Self::RegisterBits)
        requires
            value_count <= 2,
        ensures
            forall|i: u8| #[trigger]
                Self::spec_has(bits, i) <==> self.returns_in(value_count, i),
    ;
}

/// Registers as operands that are read.
pub open spec fn read_regs(regs: Seq<MCReg>) -> Seq<ArgumentView> {
    regs.map_values(|r: MCReg| ArgumentView::MCReg(Usage::Use, r))
}

fn reg_args(regs: &Vec<MCReg>) -> (args: Vec<Argument>)
    ensures
        inst::views(args@) == read_regs(regs@),
{
    let mut args: Vec<Argument> = Vec::new();
    let mut i: usize = 0;
    while i < regs.len()
        invariant
            i <= regs@.len(),
            inst::views(args@) =~= read_regs(regs@.take(i as int)),
        decreases regs.len() - i,
    {
        let ghost before = args@;
        args.push(Argument::MCReg(Usage::Use, regs[i]));
        assert(inst::views(args@) =~= inst::views(before).push(args@.last()@));
        i += 1;
    }
    assert(regs@.take(i as int) =~= regs@);
    args
}

/// Copies registers at once. Each first register of a pair gets what the second holds.
pub fn parallel_copy(mc: ModuleId, args: &Vec<MCReg>) -> (r: (FunctionId, Vec<Argument>, TypeId))
    ensures
        r.0 == dialect::spec_function(mc, Mc::Copy),
        inst::views(r.1@) == read_regs(args@),
        r.2 == TypeId::unit(),
{
    (dialect::function(mc, Mc::Copy), reg_args(args), TypeId::unit())
}

/// Copies registers into those of the arguments of a block.
pub fn parallel_copy_args(mc: ModuleId, args: &Vec<MCReg>, unit: TypeId) -> (r: (
    FunctionId,
    Vec<Argument>,
    TypeId,
))
    ensures
        r.0 == dialect::spec_function(mc, Mc::AssignBlockArgs),
        inst::views(r.1@) == read_regs(args@),
        r.2 == unit,
{
    (dialect::function(mc, Mc::AssignBlockArgs), reg_args(args), unit)
}

/// The physical register that an operand names.
pub open spec fn phys_of<R: Register>(a: ArgumentView) -> Option<R> {
    match a {
        ArgumentView::MCReg(_, r) => phys::<R>(r),
        ArgumentView::MCRegOffset(_, _, r, _) => phys::<R>(r),
        _ => None,
    }
}

pub open spec fn phys<R: Register>(r: MCReg) -> Option<R> {
    if r.spec_is_phys() {
        R::spec_of_code((r.0 - 0x8000_0000) as u32)
    } else {
        None
    }
}

/// Physical registers are registers of the machine.
pub open spec fn phys_is_known<R: Register>(a: ArgumentView) -> bool {
    match a {
        ArgumentView::MCReg(_, r) => r.spec_is_phys() ==> phys::<R>(r) is Some,
        ArgumentView::MCRegOffset(_, _, r, _) => r.spec_is_phys() ==> phys::<R>(r) is Some,
        _ => true,
    }
}

/// One of the operands is a register with this index.
pub open spec fn names_index<R: Register>(args: Seq<ArgumentView>, index: u8) -> bool {
    exists|j: int|
        0 <= j < args.len() && (#[trigger] phys_of::<R>(args[j]) matches Some(r) && r.spec_index()
            == index)
}

/// The arguments of the `k`-th instruction.
pub open spec fn args_at(v: ModifyView, env: &Environment, k: int) -> Seq<ArgumentView> {
    v.args(v.inst(Ref(k as u32)), env)
}

/// One of the first `n` instructions names a register with this index.
pub open spec fn used_before<R: Register>(
    v: ModifyView,
    env: &Environment,
    n: int,
    index: u8,
) -> bool {
    exists|k: int| 0 <= k < n && names_index::<R>(#[trigger] args_at(v, env, k), index)
}

/// The instructions are known and name registers of the machine.
pub open spec fn registers_are_known<R: Register>(v: ModifyView, env: &Environment) -> bool {
    &&& v.count() < u32::MAX
    &&& finish::signatures_fit(env)
    &&& forall|k: int|
        0 <= k < v.count() ==> {
            &&& env.has((#[trigger] v.inst(Ref(k as u32))).function)
            &&& forall|j: int|
                0 <= j < args_at(v, env, k).len() ==> phys_is_known::<R>(
                    #[trigger] args_at(v, env, k)[j],
                )
        }
}

/// The registers that the instructions of a function name.
pub fn used_physical_registers<R: Register>(ir: &IrModify, env: &Environment) -> (bits: R::RegisterBits)
    requires
        R::spec_tracked(),
        registers_are_known::<R>(ir@, env),
    ensures
        forall|i: u8| #[trigger]
            R::spec_has(bits, i) <==> used_before::<R>(ir@, env, ir@.count() as int, i),
{
    let mut bits = R::no_bits();
    let count: u32 = ir.inst_count();
    let mut k: u32 = 0;
    while k < count
        invariant
            k <= count,
            count == ir@.count(),
            R::spec_tracked(),
            registers_are_known::<R>(ir@, env),
            forall|i: u8| #[trigger]
                R::spec_has(bits, i) <==> used_before::<R>(ir@, env, k as int, i),
        decreases count - k,
    {
        let r: Ref = Ref(k);
        assert(env.has(ir@.inst(Ref(k as int as u32)).function));
        let called = ir.get_inst(r);
        let args: Vec<Argument> = ir.args_iter(called, env);
        let ghost views = args_at(ir@, env, k as int);
        assert(views == inst::views(args@));
        let ghost before = bits;
        let mut j: usize = 0;
        while j < args.len()
            invariant
                j <= args@.len(),
                views == inst::views(args@),
                R::spec_tracked(),
                forall|j: int| 0 <= j < views.len() ==> phys_is_known::<R>(#[trigger] views[j]),
                forall|i: u8| #[trigger]
                    R::spec_has(bits, i) <==> (R::spec_has(before, i) || names_index::<R>(
                        views.take(j as int),
                        i,
                    )),
            decreases args.len() - j,
        {
            assert(phys_is_known::<R>(views[j as int]));
            assert(views[j as int] == args@[j as int]@);
            let ghost seen = bits;
            let code: Option<u32> = match args[j] {
                Argument::MCReg(_, r) => r.phys_code(),
                Argument::MCRegOffset(_, _, r, _) => r.phys_code(),
                _ => None,
            };
            if let Some(code) = code {
                let r: R = R::decode(code);
                r.set_bit(&mut bits, true);
                assert(phys_of::<R>(views[j as int]) == Some(r));
            }
            proof {
                let old_args = views.take(j as int);
                let new_args = views.take(j + 1);
                assert forall|i: u8|
                    names_index::<R>(new_args, i) <==> (names_index::<R>(old_args, i) || (phys_of::<
                        R,
                    >(views[j as int]) matches Some(r) && r.spec_index() == i)) by {
                    if names_index::<R>(old_args, i) {
                        let m = choose|m: int|
                            0 <= m < old_args.len() && (#[trigger] phys_of::<R>(
                                old_args[m],
                            ) matches Some(r) && r.spec_index() == i);
                        assert(new_args[m] == old_args[m]);
                    }
                    if names_index::<R>(new_args, i) {
                        let m = choose|m: int|
                            0 <= m < new_args.len() && (#[trigger] phys_of::<R>(
                                new_args[m],
                            ) matches Some(r) && r.spec_index() == i);
                        if m < j {
                            assert(old_args[m] == new_args[m]);
                        }
                    }
                    assert(new_args[j as int] == views[j as int]);
                }
                assert forall|i: u8| #[trigger]
                    R::spec_has(bits, i) <==> (R::spec_has(before, i) || names_index::<R>(
                        new_args,
                        i,
                    )) by {
                    assert(R::spec_has(seen, i) <==> (R::spec_has(before, i) || names_index::<R>(
                        old_args,
                        i,
                    )));
                }
            }
            j += 1;
        }
        proof {
            assert(views.take(views.len() as int) =~= views);
            assert forall|i: u8| #[trigger]
                R::spec_has(bits, i) <==> used_before::<R>(ir@, env, k + 1, i) by {
                if used_before::<R>(ir@, env, k as int, i) {
                    let m = choose|m: int|
                        0 <= m < k && names_index::<R>(#[trigger] args_at(ir@, env, m), i);
                    assert(names_index::<R>(args_at(ir@, env, m), i));
                }
                if names_index::<R>(views, i) {
                    assert(names_index::<R>(args_at(ir@, env, k as int), i));
                }
                assert(R::spec_has(before, i) <==> used_before::<R>(ir@, env, k as int, i));
            }
        }
        k += 1;
    }
    bits
}

} // verus!
