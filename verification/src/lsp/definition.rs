//! Going to definitions.
use vstd::prelude::*;

use crate::lsp::find_in_ast::{Found, FoundType, ScopeContext};
use crate::lsp::index::{
    BaseTypeInfo, Def, FunctionId, FunctionInfo, Index, LocalItem, ModuleId, TypeTarget,
};
use crate::lsp::server::Lsp;
use crate::parser::ast::{ScopeId, TSpan};

verus! {

/// A place in a module.
#[derive(Clone, Copy, Debug, PartialEq, Eq, Structural)]
pub struct Place {
    pub module: ModuleId,
    pub span: TSpan,
}

/// Where a function is defined: its name, or else its scope.
pub open spec fn place_of_function(ix: Index, m: ModuleId, f: FunctionId) -> Place {
    let info = ix.function(m, f);
    Place {
        module: m,
        span: if info.associated_name.start != info.associated_name.end {
            info.associated_name
        } else {
            info.span
        },
    }
}

fn function(ix: &Index, m: ModuleId, f: FunctionId) -> (p: Place)
    requires
        ix.has_function(m, f),
    ensures
        p == place_of_function(*ix, m, f),
{
    let info: &FunctionInfo = ix.get_function(m, f);
    if info.associated_name.start != info.associated_name.end {
        return Place { module: m, span: info.associated_name };
    }
    Place { module: m, span: info.span }
}

/// Where a type is defined. Builtin types are defined nowhere.
pub open spec fn place_of_base_type(ix: Index, b: u32) -> Option<Place> {
    let info = ix.base_types@[b as int];
    match info.module {
        None => None,
        Some(module) => Some(
            Place {
                module,
                span: match info.name_span {
                    Some(span) => span,
                    None => info.span,
                },
            },
        ),
    }
}

fn base_type(ix: &Index, b: u32) -> (p: Option<Place>)
    requires
        b < ix.base_types@.len(),
    ensures
        p == place_of_base_type(*ix, b),
{
    let info: &BaseTypeInfo = &ix.base_types[b as usize];
    match info.module {
        None => None,
        Some(module) => {
            let span: TSpan = match info.name_span {
                Some(span) => span,
                None => info.span,
            };
            Some(Place { module, span })
        },
    }
}

pub open spec fn place_of_type(ix: Index, t: TypeTarget) -> Option<Place> {
    match t {
        TypeTarget::Instance(b) => place_of_base_type(ix, b),
        TypeTarget::FunctionItem(m, f) => Some(place_of_function(ix, m, f)),
        TypeTarget::Tuple | TypeTarget::Generic | TypeTarget::Const => None,
    }
}

fn goto_type_definition(ix: &Index, t: TypeTarget) -> (p: Option<Place>)
    requires
        ix.has_type(t),
    ensures
        p == place_of_type(*ix, t),
{
    match t {
        TypeTarget::Instance(b) => base_type(ix, b),
        TypeTarget::FunctionItem(m, f) => Some(function(ix, m, f)),
        TypeTarget::Tuple => None,
        TypeTarget::Generic => None,
        TypeTarget::Const => None,
    }
}

pub open spec fn place_of_def(ix: Index, d: Def) -> Option<Place> {
    match d {
        Def::Invalid => None,
        Def::Function(m, f) => Some(place_of_function(ix, m, f)),
        Def::Module(module) => Some(Place { module, span: (TSpan { start: 0, end: 0 }) }),
        Def::Global(module, g) => Some(
            Place { module, span: ix.modules@[module.0 as int].globals@[g as int].span },
        ),
        Def::Trait(module, t) => Some(
            Place { module, span: ix.modules@[module.0 as int].traits@[t as int] },
        ),
        Def::BaseType(b) => place_of_base_type(ix, b),
        Def::Type(t) => place_of_type(ix, t),
        Def::ConstValue(_) => None,
    }
}

/// Finds where something is defined.
pub fn goto_def(ix: &Index, d: Def) -> (p: Option<Place>)
    requires
        ix.has_def(d),
    ensures
        p == place_of_def(*ix, d),
{
    match d {
        Def::Invalid => None,
        Def::Function(m, f) => Some(function(ix, m, f)),
        Def::Module(module) => Some(Place { module, span: TSpan { start: 0, end: 0 } }),
        Def::Global(module, g) => Some(
            Place { module, span: ix.modules[module.0 as usize].globals[g as usize].span },
        ),
        Def::Trait(module, t) => Some(
            Place { module, span: ix.modules[module.0 as usize].traits[t as usize] },
        ),
        Def::BaseType(b) => base_type(ix, b),
        Def::Type(t) => goto_type_definition(ix, t),
        Def::ConstValue(_) => None,
    }
}

/// What has to be found out before a definition can be shown.
#[derive(Clone, Copy, Debug, PartialEq, Eq, Structural)]
pub enum Query {
    /// There is nothing to show.
    Nothing,
    /// The function has to be checked; see [`definition_in_function`].
    Check(ScopeId),
    /// The name has to be looked up in its scope; see [`goto_def`].
    Resolve,
}

/// What has to be found out. Members can only be found inside of functions.
#[verifier::allow_in_spec]
pub fn definition_query(found: Found, context: ScopeContext) -> Query
    returns
        (match (found.ty, context) {
            (FoundType::Ident, ScopeContext::Function(f)) => Query::Check(f),
            (FoundType::Member, ScopeContext::Function(f)) => Query::Check(f),
            (FoundType::Ident, ScopeContext::TopLevel) => Query::Resolve,
            _ => Query::Nothing,
        }),
{
    match (found.ty, context) {
        (FoundType::Ident, ScopeContext::Function(f)) => Query::Check(f),
        (FoundType::Member, ScopeContext::Function(f)) => Query::Check(f),
        (FoundType::Ident, ScopeContext::TopLevel) => Query::Resolve,
        // member not findable outside of function for now
        _ => Query::Nothing,
    }
}

/// Where to go once the function around a name was checked: to what the name stands for,
/// or else to its type. There is no place for variables.
pub open spec fn place_in_function(ix: Index, item: Option<LocalItem>, ty: Option<TypeTarget>) -> Option<
    Place,
> {
    match item {
        Some(LocalItem::Def(d)) => place_of_def(ix, d),
        Some(LocalItem::Var(_)) => None,
        _ => match ty {
            Some(t) => place_of_type(ix, t),
            None => None,
        },
    }
}

pub fn definition_in_function(ix: &Index, item: Option<LocalItem>, ty: Option<TypeTarget>) -> (p:
    Option<Place>)
    requires
        item matches Some(LocalItem::Def(d)) ==> ix.has_def(d),
        ty matches Some(t) ==> ix.has_type(t),
    ensures
        p == place_in_function(*ix, item, ty),
{
    match item {
        Some(LocalItem::Def(d)) => goto_def(ix, d),
        Some(LocalItem::Var(_)) => None,
        Some(LocalItem::Invalid) | None => match ty {
            Some(t) => goto_type_definition(ix, t),
            None => None,
        },
    }
}

/// What the compiler answers.
#[derive(Clone, Copy, Debug, PartialEq, Eq, Structural)]
pub struct Answer {
    /// What the name stands for in the function around it.
    pub item: Option<LocalItem>,
    /// The type of the expression in the function around it.
    pub ty: Option<TypeTarget>,
    /// What the name stands for in its scope.
    pub resolved: Def,
}

/// Where what was found is defined.
pub open spec fn place_of_found(ix: Index, found: Found, context: ScopeContext, answer: Answer) -> Option<
    Place,
> {
    match definition_query(found, context) {
        Query::Nothing => None,
        Query::Check(_) => place_in_function(ix, answer.item, answer.ty),
        Query::Resolve => place_of_def(ix, answer.resolved),
    }
}

impl Lsp {
    /// Finds where what was found is defined.
    pub fn definition(&self, found: Found, context: ScopeContext, answer: Answer) -> (p: Option<
        Place,
    >)
        requires
            answer.item matches Some(LocalItem::Def(d)) ==> self.index.has_def(d),
            answer.ty matches Some(t) ==> self.index.has_type(t),
            self.index.has_def(answer.resolved),
        ensures
            p == place_of_found(self.index, found, context, answer),
    {
        match definition_query(found, context) {
            Query::Nothing => None,
            Query::Check(_) => definition_in_function(&self.index, answer.item, answer.ty),
            Query::Resolve => goto_def(&self.index, answer.resolved),
        }
    }
}

/// Definitions are shown in a module of the project.
pub proof fn places_are_in_the_project(ix: Index, d: Def)
    requires
        ix.has_def(d),
        forall|i: int|
            0 <= i < ix.base_types@.len() ==> ((#[trigger] ix.base_types@[i]).module matches Some(m)
                ==> ix.has_module(m)),
    ensures
        place_of_def(ix, d) matches Some(p) ==> ix.has_module(p.module),
{
}

/// What is found while a function is checked.
#[derive(Clone, Copy, Debug, PartialEq, Eq, Structural)]
pub struct FindHooks {
    pub span: TSpan,
    pub find: FoundType,
    pub local_item: Option<LocalItem>,
    pub ty: Option<u32>,
}

impl FindHooks {
    pub open spec fn spec_new(span: TSpan, find: FoundType) -> FindHooks {
        FindHooks { span, find, local_item: None, ty: None }
    }

    pub fn new(span: TSpan, find: FoundType) -> (h: FindHooks)
        ensures
            h == Self::spec_new(span, find),
    {
        FindHooks { span, find, local_item: None, ty: None }
    }

    /// The expression is the one that is looked for: it has the same span, or it is an
    /// access to a member whose name has.
    pub open spec fn is_expr(self, span: TSpan, member: Option<TSpan>) -> bool {
        self.find == FoundType::Member && member == Some(self.span) || span == self.span
    }

    /// What the name stands for is only asked for identifiers that are no patterns.
    pub open spec fn with_expr(self, item: LocalItem, ty: u32, is_pattern: bool) -> FindHooks {
        FindHooks {
            ty: Some(ty),
            local_item: if self.find == FoundType::Ident && !is_pattern {
                Some(item)
            } else {
                self.local_item
            },
            ..self
        }
    }

    fn handle_found_expr(&mut self, item: LocalItem, ty: u32, is_pattern: bool)
        ensures
            *final(self) == old(self).with_expr(item, ty, is_pattern),
    {
        self.ty = Some(ty);
        if self.find == FoundType::Ident && !is_pattern {
            self.local_item = Some(item);
        }
    }

    /// An expression is checked. `item` is what the name that is looked for stands for there.
    pub fn on_check_expr(&mut self, span: TSpan, member: Option<TSpan>, item: LocalItem, ty: u32)
        ensures
            *final(self) == if old(self).is_expr(span, member) {
                old(self).with_expr(item, ty, false)
            } else {
                *old(self)
            },
    {
        let is_member: bool = match member {
            Some(name) => self.find == FoundType::Member && name == self.span,
            None => false,
        };
        if !is_member && span != self.span {
            return;
        }
        self.handle_found_expr(item, ty, false);
    }

    /// The left side of an assignment was checked.
    pub fn on_checked_lvalue(&mut self, span: TSpan, item: LocalItem, ty: u32)
        ensures
            *final(self) == if span == old(self).span {
                old(self).with_expr(item, ty, false)
            } else {
                *old(self)
            },
    {
        if span != self.span {
            return;
        }
        self.handle_found_expr(item, ty, false);
    }

    pub fn on_check_pattern(&mut self, span: TSpan, item: LocalItem, ty: u32)
        ensures
            *final(self) == if span == old(self).span {
                old(self).with_expr(item, ty, true)
            } else {
                *old(self)
            },
    {
        if span != self.span {
            return;
        }
        self.handle_found_expr(item, ty, true);
    }
}

} // verus!
