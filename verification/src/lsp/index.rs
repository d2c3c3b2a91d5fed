//! What is known of the definitions in a project.
use vstd::prelude::*;

use crate::parser::ast::{ScopeId, TSpan};

verus! {

#[derive(Clone, Copy, Debug, PartialEq, Eq, Hash, Structural)]
pub struct ModuleId(pub u32);

#[derive(Clone, Copy, Debug, PartialEq, Eq, Hash, Structural)]
pub struct FunctionId(pub u32);

/// The signature of a function with its types as they are displayed.
#[derive(Debug)]
pub struct Signature {
    pub generics: Vec<String>,
    /// The names and types of the parameters.
    pub params: Vec<(String, String)>,
    pub named_params: Vec<(String, String)>,
    pub return_type: String,
}

#[derive(Debug)]
pub struct FunctionInfo {
    /// The name that the function is defined under, or nothing.
    pub associated_name: TSpan,
    /// The span of its scope.
    pub span: TSpan,
    pub signature: Signature,
}

/// A value that is known at compile time.
#[derive(Debug)]
pub enum ConstValue {
    Undefined,
    Unit,
    Int(u64),
    /// A floating point number as it is displayed.
    Float(String),
    Aggregate,
}

#[derive(Debug)]
pub struct GlobalInfo {
    pub span: TSpan,
    pub value: ConstValue,
    pub ty: String,
}

#[derive(Debug)]
pub struct ScopeInfo {
    pub parent: Option<ScopeId>,
    pub definitions: Vec<(String, Def)>,
}

#[derive(Debug)]
pub struct ModuleInfo {
    pub path: String,
    pub root: ModuleId,
    pub functions: Vec<FunctionInfo>,
    pub globals: Vec<GlobalInfo>,
    /// The spans of the scopes of traits.
    pub traits: Vec<TSpan>,
    pub scopes: Vec<ScopeInfo>,
    pub top_level: ScopeId,
}

#[derive(Clone, Copy, Debug, PartialEq, Eq, Structural)]
pub enum BaseKind {
    Builtin,
    Struct,
    Enum,
}

#[derive(Debug)]
pub struct BaseTypeInfo {
    /// Builtin types are defined nowhere.
    pub module: Option<ModuleId>,
    pub name_span: Option<TSpan>,
    pub span: TSpan,
    pub kind: BaseKind,
}

/// What a type is at its outside.
#[derive(Clone, Copy, Debug, PartialEq, Eq, Structural)]
pub enum TypeTarget {
    Instance(u32),
    FunctionItem(ModuleId, FunctionId),
    Tuple,
    Generic,
    Const,
}

#[derive(Clone, Copy, Debug, PartialEq, Eq, Structural)]
pub enum Def {
    Invalid,
    Function(ModuleId, FunctionId),
    BaseType(u32),
    Type(TypeTarget),
    Trait(ModuleId, u32),
    ConstValue(u32),
    Module(ModuleId),
    Global(ModuleId, u32),
}

/// What a name inside a function stands for.
#[derive(Clone, Copy, Debug, PartialEq, Eq, Structural)]
pub enum LocalItem {
    Var(u32),
    Def(Def),
    Invalid,
}

#[derive(Debug)]
pub struct Index {
    pub modules: Vec<ModuleInfo>,
    pub base_types: Vec<BaseTypeInfo>,
    pub const_values: Vec<(ConstValue, String)>,
    /// The module whose definitions are known everywhere.
    pub prelude: ModuleId,
}

impl Index {
    pub open spec fn has_module(self, m: ModuleId) -> bool {
        m.0 < self.modules@.len()
    }

    pub open spec fn has_function(self, m: ModuleId, f: FunctionId) -> bool {
        self.has_module(m) && f.0 < self.modules@[m.0 as int].functions@.len()
    }

    pub open spec fn function(self, m: ModuleId, f: FunctionId) -> FunctionInfo {
        self.modules@[m.0 as int].functions@[f.0 as int]
    }

    pub fn get_function(&self, m: ModuleId, f: FunctionId) -> (info: &FunctionInfo)
        requires
            self.has_function(m, f),
        ensures
            *info == self.function(m, f),
    {
        &self.modules[m.0 as usize].functions[f.0 as usize]
    }

    pub open spec fn has_type(self, t: TypeTarget) -> bool {
        match t {
            TypeTarget::Instance(b) => b < self.base_types@.len(),
            TypeTarget::FunctionItem(m, f) => self.has_function(m, f),
            _ => true,
        }
    }

    /// The definition exists.
    pub open spec fn has_def(self, d: Def) -> bool {
        match d {
            Def::Invalid => true,
            Def::Function(m, f) => self.has_function(m, f),
            Def::BaseType(b) => b < self.base_types@.len(),
            Def::Type(t) => self.has_type(t),
            Def::Trait(m, t) => self.has_module(m) && t < self.modules@[m.0 as int].traits@.len(),
            Def::ConstValue(c) => c < self.const_values@.len(),
            Def::Module(m) => self.has_module(m),
            Def::Global(m, g) => self.has_module(m) && g
                < self.modules@[m.0 as int].globals@.len(),
        }
    }
}

} // verus!
