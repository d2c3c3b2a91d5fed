//! Functions while they are put together.
use vstd::prelude::*;

use crate::ir::dialect;
use crate::ir::dialect::Dialect;
use crate::ir::ids::{FunctionId, ModuleId, Ref, TypeId};
use crate::ir::inst;
use crate::ir::inst::{Argument, ArgumentView, Builtin};
use crate::ir::types::{TypeView, Types};

verus! {

/// An instruction with its arguments.
#[derive(Debug)]
pub struct Built {
    pub function: FunctionId,
    pub args: Vec<Argument>,
    pub ty: TypeId,
}

/// The mathematical content of [`Built`].
#[verifier::ext_equal]
pub struct BuiltView {
    pub function: FunctionId,
    pub args: Seq<ArgumentView>,
    pub ty: TypeId,
}

impl View for Built {
    type V = BuiltView;

    open spec fn view(&self) -> BuiltView {
        BuiltView { function: self.function, args: inst::views(self.args@), ty: self.ty }
    }
}

/// Puts a function together, one instruction after the other.
#[derive(Debug)]
pub struct IrBuilder {
    pub insts: Vec<Built>,
    pub types: Types,
}

/// The mathematical content of an [`IrBuilder`].
#[verifier::ext_equal]
pub struct BuilderView {
    pub insts: Seq<BuiltView>,
    pub types: Seq<TypeView>,
}

impl View for IrBuilder {
    type V = BuilderView;

    open spec fn view(&self) -> BuilderView {
        BuilderView {
            insts: self.insts@.map_values(|b: Built| b@),
            types: self.types@,
        }
    }
}

impl BuilderView {
    /// The result of the instruction that is appended next.
    pub open spec fn result(self) -> Ref {
        Ref(self.insts.len() as u32)
    }

    pub open spec fn with(
        self,
        function: FunctionId,
        args: Seq<ArgumentView>,
        ty: TypeId,
    ) -> BuilderView {
        BuilderView { insts: self.insts.push(BuiltView { function, args, ty }), ..self }
    }

    /// An instruction of a dialect.
    pub open spec fn with_op<D: Dialect>(
        self,
        module: ModuleId,
        op: D,
        args: Seq<ArgumentView>,
        ty: TypeId,
    ) -> BuilderView {
        self.with(dialect::spec_function(module, op), args, ty)
    }

    /// Any value of the type.
    pub open spec fn with_undef(self, ty: TypeId) -> BuilderView {
        self.with(Builtin::Undef.spec_function(), Seq::empty(), ty)
    }

    pub open spec fn with_type(self, t: TypeView) -> BuilderView {
        BuilderView { types: self.types.push(t), ..self }
    }

    /// The type that is added next.
    pub open spec fn next_type(self) -> TypeId {
        TypeId(self.types.len() as u32)
    }

    /// The type of a value.
    pub open spec fn type_of(self, r: Ref) -> TypeId {
        if r.spec_is_ref() {
            self.insts[r.0 as int].ty
        } else if r == Ref::unit() {
            TypeId::unit()
        } else {
            TypeId::i1()
        }
    }

    /// The value comes from an instruction of the function, or is constant.
    pub open spec fn has_value(self, r: Ref) -> bool {
        r.spec_is_ref() ==> r.0 < self.insts.len()
    }
}

impl IrBuilder {
    /// Appends an instruction.
    pub fn append(&mut self, function: FunctionId, args: Vec<Argument>, ty: TypeId) -> (r: Ref)
        ensures
            r == old(self)@.result(),
            final(self)@ == old(self)@.with(function, inst::views(args@), ty),
    {
        let ghost before = self@;
        let ghost list = inst::views(args@);
        let r: Ref = Ref(self.insts.len() as u32);
        self.insts.push(Built { function, args, ty });
        assert(self@ =~= before.with(function, list, ty));
        r
    }

    pub fn append_undef(&mut self, ty: TypeId) -> (r: Ref)
        ensures
            r == old(self)@.result(),
            final(self)@ == old(self)@.with_undef(ty),
    {
        let args: Vec<Argument> = Vec::new();
        assert(inst::views(args@) =~= Seq::empty());
        self.append(Builtin::Undef.function(), args, ty)
    }

    pub fn get_ref_ty(&self, r: Ref) -> (ty: TypeId)
        requires
            self@.has_value(r),
        ensures
            ty == self@.type_of(r),
    {
        if r.is_ref() {
            assert(self@.insts[r.0 as int] == self.insts@[r.0 as int]@);
            self.insts[r.idx()].ty
        } else if r == Ref::unit() {
            TypeId::unit()
        } else {
            TypeId::i1()
        }
    }
}

} // verus!
