//! Finding what stands at a place of the source text.
use vstd::prelude::*;

use crate::compiler::types::Primitive;
use crate::parser::ast::{
    Ast, Definition, Expr, ExprKind, Function, GenericDef, Generics, IdentPath, Impl,
    Keyword, Name, Scope, ScopeId, TSpan, TraitBound, TypeContent, TypeKind, UnresolvedType,
};

verus! {

/// What was found, where it stands, and the scope around it.
#[derive(Clone, Copy, Debug, PartialEq, Eq, Structural)]
pub struct Found {
    pub ty: FoundType,
    pub span: TSpan,
    pub scope: ScopeId,
}

#[derive(Clone, Copy, Debug, PartialEq, Eq, Structural)]
pub enum FoundType {
    Nothing,
    Error,
    Ident,
    Literal,
    EnumLiteral,
    Primitive(Primitive),
    Path(IdentPath),
    TypePlaceholder,
    Underscore,
    RootModule,
    Member,
    ParameterName,
    Keyword,
    Generic,
    Definition,
}

/// The scope that something belongs to.
#[derive(Clone, Copy, Debug, PartialEq, Eq, Structural)]
pub enum ScopeContext {
    TopLevel,
    Function(ScopeId),
}

/// The first result, or else the second.
pub open spec fn or_else(a: Option<Found>, b: Option<Found>) -> Option<Found> {
    match a {
        Some(found) => Some(found),
        None => b,
    }
}

/// What is found where the span contains the place.
pub open spec fn at_span(offset: u32, span: TSpan, ty: FoundType, scope: ScopeId) -> Option<Found> {
    if span.has(offset) {
        Some(Found { ty, span, scope })
    } else {
        None
    }
}

fn find_span(offset: u32, span: TSpan, ty: FoundType, scope: ScopeId) -> (r: Option<Found>)
    ensures
        r == at_span(offset, span, ty, scope),
{
    if span.contains(offset) {
        Some(Found { ty, span, scope })
    } else {
        None
    }
}

/// Where a keyword stands.
pub open spec fn keyword_span(start: u32, keyword: Keyword) -> TSpan {
    TSpan {
        start,
        end: if start + keyword.len() > u32::MAX {
            u32::MAX
        } else {
            (start + keyword.len()) as u32
        },
    }
}

pub open spec fn at_keyword(offset: u32, start: u32, keyword: Keyword, scope: ScopeId) -> Option<
    Found,
> {
    at_span(offset, keyword_span(start, keyword), FoundType::Keyword, scope)
}

fn find_keyword(offset: u32, start: u32, keyword: Keyword, scope: ScopeId) -> (r: Option<Found>)
    ensures
        r == at_keyword(offset, start, keyword, scope),
{
    let end: u32 = if keyword.len() > u32::MAX - start {
        u32::MAX
    } else {
        start + keyword.len()
    };
    find_span(offset, TSpan { start, end }, FoundType::Keyword, scope)
}

/// Paths are also found at the place behind them, so that they can be completed.
pub open spec fn at_path(offset: u32, scope: ScopeId, path: IdentPath) -> Option<Found> {
    if path.span().has_inclusive(offset) {
        Some(Found { ty: FoundType::Path(path), span: path.span(), scope })
    } else {
        None
    }
}

fn find_path(offset: u32, scope: ScopeId, path: IdentPath) -> (r: Option<Found>)
    ensures
        r == at_path(offset, scope, path),
{
    if path.span().contains_inclusive(offset) {
        Some(Found { ty: FoundType::Path(path), span: path.span(), scope })
    } else {
        None
    }
}

/// What stands at a place of a type.
pub open spec fn at_ty(offset: u32, scope: ScopeId, ty: UnresolvedType) -> Option<Found>
    decreases ty, 0int,
{
    if !ty.span.has(offset) {
        None
    } else {
        match ty.kind {
            TypeKind::Primitive(p) => Some(
                Found { ty: FoundType::Primitive(p), span: ty.span, scope },
            ),
            TypeKind::Unresolved(path, generics) => if path.span().has(offset) {
                Some(Found { ty: FoundType::Path(path), span: ty.span, scope })
            } else {
                at_types(offset, scope, generics@, 0)
            },
            TypeKind::Pointer(pointee) => at_ty(offset, scope, *pointee),
            TypeKind::Array(element) => at_ty(offset, scope, *element),
            TypeKind::Tuple(elements) => at_types(offset, scope, elements@, 0),
            TypeKind::Function { return_type, params } => or_else(
                at_ty(offset, scope, *return_type),
                at_types(offset, scope, params@, 0),
            ),
            TypeKind::Infer => Some(
                Found { ty: FoundType::TypePlaceholder, span: ty.span, scope },
            ),
        }
    }
}

/// What stands at a place of one of the types from position `i` on.
pub open spec fn at_types(offset: u32, scope: ScopeId, types: Seq<UnresolvedType>, i: nat) -> Option<
    Found,
>
    decreases types, types.len() - i,
{
    if i >= types.len() {
        None
    } else {
        or_else(at_ty(offset, scope, types[i as int]), at_types(offset, scope, types, i + 1))
    }
}

pub fn find_at_offset_ty(offset: u32, scope: ScopeId, ty: &UnresolvedType) -> (r: Option<Found>)
    ensures
        r == at_ty(offset, scope, *ty),
    decreases ty, 0int,
{
    if !ty.span.contains(offset) {
        return None;
    }
    match &ty.kind {
        TypeKind::Primitive(p) => Some(
            Found { ty: FoundType::Primitive(*p), span: ty.span, scope },
        ),
        TypeKind::Unresolved(path, generics) => {
            if path.span().contains(offset) {
                Some(Found { ty: FoundType::Path(*path), span: ty.span, scope })
            } else {
                find_at_offset_types(offset, scope, generics)
            }
        },
        TypeKind::Pointer(pointee) => find_at_offset_ty(offset, scope, pointee),
        TypeKind::Array(element) => find_at_offset_ty(offset, scope, element),
        TypeKind::Tuple(elements) => find_at_offset_types(offset, scope, elements),
        TypeKind::Function { return_type, params } => {
            let found: Option<Found> = find_at_offset_ty(offset, scope, return_type);
            if found.is_some() {
                found
            } else {
                find_at_offset_types(offset, scope, params)
            }
        },
        TypeKind::Infer => Some(Found { ty: FoundType::TypePlaceholder, span: ty.span, scope }),
    }
}

fn find_at_offset_types(offset: u32, scope: ScopeId, types: &Vec<UnresolvedType>) -> (r: Option<
    Found,
>)
    ensures
        r == at_types(offset, scope, types@, 0),
    decreases types, 1int,
{
    let mut i: usize = 0;
    while i < types.len()
        invariant
            i <= types@.len(),
            at_types(offset, scope, types@, 0) == at_types(offset, scope, types@, i as nat),
        decreases types.len() - i,
    {
        let found: Option<Found> = find_at_offset_ty(offset, scope, &types[i]);
        if found.is_some() {
            return found;
        }
        i += 1;
    }
    None
}

/// What stands at a place of the bounds from position `i` on.
pub open spec fn at_bounds(offset: u32, scope: ScopeId, bounds: Seq<TraitBound>, i: nat) -> Option<
    Found,
>
    decreases bounds.len() - i,
{
    if i >= bounds.len() {
        None
    } else {
        let bound = bounds[i as int];
        or_else(
            or_else(at_path(offset, scope, bound.path), at_types(offset, scope, bound.generics@, 0)),
            at_bounds(offset, scope, bounds, i + 1),
        )
    }
}

/// What stands at a place of the type parameters from position `i` on.
pub open spec fn at_generics(offset: u32, scope: ScopeId, types: Seq<GenericDef>, i: nat) -> Option<
    Found,
>
    decreases types.len() - i,
{
    if i >= types.len() {
        None
    } else {
        let def = types[i as int];
        or_else(
            or_else(
                at_span(offset, def.name, FoundType::Generic, scope),
                at_bounds(offset, scope, def.bounds@, 0),
            ),
            at_generics(offset, scope, types, i + 1),
        )
    }
}

fn find_bounds(offset: u32, scope: ScopeId, bounds: &Vec<TraitBound>) -> (r: Option<Found>)
    ensures
        r == at_bounds(offset, scope, bounds@, 0),
{
    let mut i: usize = 0;
    while i < bounds.len()
        invariant
            i <= bounds@.len(),
            at_bounds(offset, scope, bounds@, 0) == at_bounds(offset, scope, bounds@, i as nat),
        decreases bounds.len() - i,
    {
        let found: Option<Found> = find_path(offset, scope, bounds[i].path);
        if found.is_some() {
            return found;
        }
        let found: Option<Found> = find_at_offset_types(offset, scope, &bounds[i].generics);
        if found.is_some() {
            return found;
        }
        i += 1;
    }
    None
}

fn find_generics(offset: u32, scope: ScopeId, generics: &Generics) -> (r: Option<Found>)
    ensures
        r == at_generics(offset, scope, generics.types@, 0),
{
    let mut i: usize = 0;
    while i < generics.types.len()
        invariant
            i <= generics.types@.len(),
            at_generics(offset, scope, generics.types@, 0) == at_generics(offset, scope, generics.types@, i as nat),
        decreases generics.types.len() - i,
    {
        let found: Option<Found> = find_span(offset, generics.types[i].name, FoundType::Generic, scope);
        if found.is_some() {
            return found;
        }
        let found: Option<Found> = find_bounds(offset, scope, &generics.types[i].bounds);
        if found.is_some() {
            return found;
        }
        i += 1;
    }
    None
}

/// What stands at a place of the parameters from position `i` on.
pub open spec fn at_params(
    offset: u32,
    scope: ScopeId,
    params: Seq<(Name, UnresolvedType)>,
    i: nat,
) -> Option<Found>
    decreases params.len() - i,
{
    if i >= params.len() {
        None
    } else {
        or_else(
            or_else(
                at_span(offset, params[i as int].0.span, FoundType::ParameterName, scope),
                at_ty(offset, scope, params[i as int].1),
            ),
            at_params(offset, scope, params, i + 1),
        )
    }
}

fn find_params(offset: u32, scope: ScopeId, params: &Vec<(Name, UnresolvedType)>) -> (r: Option<
    Found,
>)
    ensures
        r == at_params(offset, scope, params@, 0),
{
    let mut i: usize = 0;
    while i < params.len()
        invariant
            i <= params@.len(),
            at_params(offset, scope, params@, 0) == at_params(offset, scope, params@, i as nat),
        decreases params.len() - i,
    {
        let found: Option<Found> = find_span(
            offset,
            params[i].0.span,
            FoundType::ParameterName,
            scope,
        );
        if found.is_some() {
            return found;
        }
        let found: Option<Found> = find_at_offset_ty(offset, scope, &params[i].1);
        if found.is_some() {
            return found;
        }
        i += 1;
    }
    None
}

/// What stands at a place of the variants from position `i` on.
pub open spec fn at_variants(
    offset: u32,
    scope: ScopeId,
    variants: Seq<Vec<UnresolvedType>>,
    i: nat,
) -> Option<Found>
    decreases variants.len() - i,
{
    if i >= variants.len() {
        None
    } else {
        or_else(
            at_types(offset, scope, variants[i as int]@, 0),
            at_variants(offset, scope, variants, i + 1),
        )
    }
}

/// What stands at a place of a type definition, apart from its functions.
pub open spec fn at_content(
    offset: u32,
    start: u32,
    scope: ScopeId,
    keyword_scope: ScopeId,
    content: TypeContent,
) -> Option<Found> {
    match content {
        TypeContent::Struct { members } => or_else(
            at_keyword(offset, start, Keyword::Struct, keyword_scope),
            at_types(offset, scope, members@, 0),
        ),
        TypeContent::Enum { variants } => or_else(
            at_keyword(offset, start, Keyword::Enum, keyword_scope),
            at_variants(offset, scope, variants@, 0),
        ),
    }
}

fn find_variants(offset: u32, scope: ScopeId, variants: &Vec<Vec<UnresolvedType>>) -> (r: Option<
    Found,
>)
    ensures
        r == at_variants(offset, scope, variants@, 0),
{
    let mut i: usize = 0;
    while i < variants.len()
        invariant
            i <= variants@.len(),
            at_variants(offset, scope, variants@, 0) == at_variants(
                offset,
                scope,
                variants@,
                i as nat,
            ),
        decreases variants.len() - i,
    {
        let found: Option<Found> = find_at_offset_types(offset, scope, &variants[i]);
        if found.is_some() {
            return found;
        }
        i += 1;
    }
    None
}

fn find_content(
    offset: u32,
    start: u32,
    scope: ScopeId,
    keyword_scope: ScopeId,
    content: &TypeContent,
) -> (r: Option<Found>)
    ensures
        r == at_content(offset, start, scope, keyword_scope, *content),
{
    match content {
        TypeContent::Struct { members } => {
            let found: Option<Found> = find_keyword(offset, start, Keyword::Struct, keyword_scope);
            if found.is_some() {
                found
            } else {
                find_at_offset_types(offset, scope, members)
            }
        },
        TypeContent::Enum { variants } => {
            let found: Option<Found> = find_keyword(offset, start, Keyword::Enum, keyword_scope);
            if found.is_some() {
                found
            } else {
                find_variants(offset, scope, variants)
            }
        },
    }
}

/// What stands at a place of the definitions of a scope.
pub open spec fn at_scope(offset: u32, s: Scope) -> Option<Found>
    decreases s, 0int,
{
    if s.span.has(offset) {
        at_definitions(offset, s.id, s.definitions@, 0)
    } else {
        None
    }
}

/// What stands at a place of the definitions from position `i` on.
pub open spec fn at_definitions(
    offset: u32,
    scope: ScopeId,
    definitions: Seq<(String, Definition)>,
    i: nat,
) -> Option<Found>
    decreases definitions, definitions.len() - i,
{
    if i >= definitions.len() {
        None
    } else {
        or_else(
            match definitions[i as int].1 {
                Definition::Expr { value, name_span } => or_else(
                    at_span(offset, name_span, FoundType::Definition, scope),
                    at_expr(offset, scope, value),
                ),
                Definition::Use { path, text } => at_path(offset, scope, path),
                Definition::Global { name_span, ty, val } => or_else(
                    or_else(
                        at_span(offset, name_span, FoundType::Definition, scope),
                        at_ty(offset, scope, ty),
                    ),
                    at_expr(offset, scope, val),
                ),
                Definition::Module => None,
                Definition::Generic => None,
            },
            at_definitions(offset, scope, definitions, i + 1),
        )
    }
}

/// What stands at a place of a function.
pub open spec fn at_function(offset: u32, f: Function) -> Option<Found>
    decreases f, 0int,
{
    if !f.span.has(offset) {
        None
    } else {
        let inner = or_else(
            or_else(
                or_else(
                    at_keyword(offset, f.span.start, Keyword::Fn, f.scope),
                    at_generics(offset, f.scope, f.generics.types@, 0),
                ),
                at_params(offset, f.scope, f.params@, 0),
            ),
            match f.body {
                Some(body) => at_expr(offset, f.scope, *body),
                None => None,
            },
        );
        or_else(inner, Some(Found { ty: FoundType::Nothing, span: f.span, scope: f.scope }))
    }
}

/// What stands at a place of the functions from position `i` on.
pub open spec fn at_functions(offset: u32, functions: Seq<Function>, i: nat) -> Option<Found>
    decreases functions, functions.len() - i,
{
    if i >= functions.len() {
        None
    } else {
        or_else(at_function(offset, functions[i as int]), at_functions(offset, functions, i + 1))
    }
}

/// What stands at a place of the implementations from position `i` on.
pub open spec fn at_impls(offset: u32, scope: ScopeId, impls: Seq<Impl>, i: nat) -> Option<Found>
    decreases impls, impls.len() - i,
{
    if i >= impls.len() {
        None
    } else {
        let it = impls[i as int];
        or_else(
            or_else(
                or_else(
                    or_else(
                        at_path(offset, scope, it.implemented_trait),
                        at_generics(offset, scope, it.generics.types@, 0),
                    ),
                    at_types(offset, scope, it.trait_generics@, 0),
                ),
                at_functions(offset, it.functions@, 0),
            ),
            at_impls(offset, scope, impls, i + 1),
        )
    }
}

/// What stands at a place of the expressions from position `i` on.
pub open spec fn at_exprs(offset: u32, scope: ScopeId, exprs: Seq<Expr>, i: nat) -> Option<Found>
    decreases exprs, exprs.len() - i,
{
    if i >= exprs.len() {
        None
    } else {
        or_else(at_expr(offset, scope, exprs[i as int]), at_exprs(offset, scope, exprs, i + 1))
    }
}

/// What stands at a place of the branches from position `i` on.
pub open spec fn at_branches(
    offset: u32,
    scope: ScopeId,
    branches: Seq<(Expr, Expr)>,
    i: nat,
) -> Option<Found>
    decreases branches, branches.len() - i,
{
    if i >= branches.len() {
        None
    } else {
        or_else(
            or_else(
                at_expr(offset, scope, branches[i as int].0),
                at_expr(offset, scope, branches[i as int].1),
            ),
            at_branches(offset, scope, branches, i + 1),
        )
    }
}

/// What stands at a place of the named arguments from position `i` on.
pub open spec fn at_named(
    offset: u32,
    scope: ScopeId,
    named: Seq<(Name, Expr)>,
    i: nat,
) -> Option<Found>
    decreases named, named.len() - i,
{
    if i >= named.len() {
        None
    } else {
        or_else(
            or_else(
                at_span(offset, named[i as int].0.span, FoundType::ParameterName, scope),
                at_expr(offset, scope, named[i as int].1),
            ),
            at_named(offset, scope, named, i + 1),
        )
    }
}

/// What stands at a place inside an expression, where anything does.
pub open spec fn at_kind(offset: u32, scope: ScopeId, e: Expr) -> Option<Found>
    decreases e, 0int,
{
    let whole = |ty: FoundType| Some(Found { ty, span: e.span, scope });
    match e.kind {
        ExprKind::Error => whole(FoundType::Error),
        ExprKind::Block { scope: s, items } => or_else(
            or_else(at_scope(offset, s), at_exprs(offset, s.id, items@, 0)),
            Some(Found { ty: FoundType::Nothing, span: s.span, scope: s.id }),
        ),
        ExprKind::Nested(inner) => at_expr(offset, scope, *inner),
        ExprKind::IntLiteral(_) | ExprKind::FloatLiteral(_) | ExprKind::StringLiteral(_) => whole(
            FoundType::Literal,
        ),
        ExprKind::Array(elements) => at_exprs(offset, scope, elements@, 0),
        ExprKind::Tuple { elements, named_elements } => at_exprs(offset, scope, elements@, 0),
        ExprKind::EnumLiteral { ident, args } => if ident.span.has(offset) {
            whole(FoundType::EnumLiteral)
        } else {
            at_exprs(offset, scope, args@, 0)
        },
        ExprKind::Function(f) => at_function(offset, *f),
        ExprKind::Primitive(p) => whole(FoundType::Primitive(p)),
        ExprKind::TypeDeclaration(def) => or_else(
            or_else(
                or_else(
                    at_generics(offset, def.scope, def.generics.types@, 0),
                    at_content(offset, e.span.start, def.scope, scope, def.content),
                ),
                at_functions(offset, def.methods@, 0),
            ),
            at_impls(offset, def.scope, def.impls@, 0),
        ),
        ExprKind::Trait => None,
        ExprKind::Ident(_) => whole(FoundType::Ident),
        ExprKind::DeclareWithVal { pat, annotated_ty, val } => or_else(
            or_else(at_expr(offset, scope, *pat), at_ty(offset, scope, annotated_ty)),
            at_expr(offset, scope, *val),
        ),
        ExprKind::Hole => whole(FoundType::Underscore),
        ExprKind::UnOp { op, postfix, inner } => at_expr(offset, scope, *inner),
        ExprKind::BinOp { op, l, r } => or_else(
            at_expr(offset, scope, *l),
            at_expr(offset, scope, *r),
        ),
        ExprKind::As { value, ty } => or_else(
            at_expr(offset, scope, *value),
            at_ty(offset, scope, ty),
        ),
        ExprKind::Root => whole(FoundType::RootModule),
        ExprKind::MemberAccess { left, name } => or_else(
            at_span(offset, name.span, FoundType::Member, scope),
            at_expr(offset, scope, *left),
        ),
        ExprKind::Index { expr, idx } => or_else(
            at_expr(offset, scope, *expr),
            at_expr(offset, scope, *idx),
        ),
        ExprKind::TupleIdx { left, element } => at_expr(offset, scope, *left),
        ExprKind::ReturnUnit => at_span(offset, e.span, FoundType::Keyword, scope),
        ExprKind::Return { start, val } => or_else(
            at_keyword(offset, start, Keyword::Ret, scope),
            at_expr(offset, scope, *val),
        ),
        ExprKind::If { start, cond, then_ } => or_else(
            or_else(
                at_keyword(offset, start, Keyword::If, scope),
                at_expr(offset, scope, *cond),
            ),
            at_expr(offset, scope, *then_),
        ),
        ExprKind::IfElse { start, cond, then_, else_ } => or_else(
            or_else(
                or_else(
                    at_keyword(offset, start, Keyword::If, scope),
                    at_expr(offset, scope, *cond),
                ),
                at_expr(offset, scope, *then_),
            ),
            at_expr(offset, scope, *else_),
        ),
        ExprKind::IfPat { start, pat, value, then_ } => or_else(
            or_else(
                or_else(
                    at_keyword(offset, start, Keyword::If, scope),
                    at_expr(offset, scope, *pat),
                ),
                at_expr(offset, scope, *value),
            ),
            at_expr(offset, scope, *then_),
        ),
        ExprKind::IfPatElse { start, pat, value, then_, else_ } => or_else(
            or_else(
                or_else(
                    or_else(
                        at_keyword(offset, start, Keyword::If, scope),
                        at_expr(offset, scope, *pat),
                    ),
                    at_expr(offset, scope, *value),
                ),
                at_expr(offset, scope, *then_),
            ),
            at_expr(offset, scope, *else_),
        ),
        ExprKind::Match { val, branches } => or_else(
            or_else(
                at_keyword(offset, e.span.start, Keyword::Match, scope),
                at_expr(offset, scope, *val),
            ),
            at_branches(offset, scope, branches@, 0),
        ),
        ExprKind::While { start, cond, body } => or_else(
            or_else(
                at_keyword(offset, start, Keyword::While, scope),
                at_expr(offset, scope, *cond),
            ),
            at_expr(offset, scope, *body),
        ),
        ExprKind::WhilePat { start, pat, val, body } => or_else(
            or_else(
                or_else(
                    at_keyword(offset, start, Keyword::While, scope),
                    at_expr(offset, scope, *pat),
                ),
                at_expr(offset, scope, *val),
            ),
            at_expr(offset, scope, *body),
        ),
        ExprKind::For { start, pat, iter, body } => or_else(
            or_else(
                or_else(
                    at_keyword(offset, start, Keyword::While, scope),
                    at_expr(offset, scope, *pat),
                ),
                at_expr(offset, scope, *iter),
            ),
            at_expr(offset, scope, *body),
        ),
        ExprKind::FunctionCall { called_expr, args, named_args } => or_else(
            or_else(at_expr(offset, scope, *called_expr), at_exprs(offset, scope, args@, 0)),
            at_named(offset, scope, named_args@, 0),
        ),
        ExprKind::Asm { asm_str_span, args } => or_else(
            at_span(offset, asm_str_span, FoundType::Literal, scope),
            at_exprs(offset, scope, args@, 0),
        ),
        ExprKind::Break | ExprKind::Continue => at_span(
            offset,
            e.span,
            FoundType::Keyword,
            scope,
        ),
    }
}

/// What stands at a place of an expression: nothing outside of it, and inside of it
/// the expression itself where nothing in it does.
pub open spec fn at_expr(offset: u32, scope: ScopeId, e: Expr) -> Option<Found>
    decreases e, 1int,
{
    if e.span.has(offset) {
        or_else(
            at_kind(offset, scope, e),
            Some(Found { ty: FoundType::Nothing, span: e.span, scope }),
        )
    } else {
        None
    }
}

/// What stands at a place of a file.
pub open spec fn at_file(ast: Ast, offset: u32) -> Found {
    match at_scope(offset, ast.top_level) {
        Some(found) => found,
        None => Found {
            ty: FoundType::Nothing,
            span: ast.top_level.span,
            scope: ast.top_level.id,
        },
    }
}

pub fn find(ast: &Ast, offset: u32) -> (found: Found)
    ensures
        found == at_file(*ast, offset),
{
    match find_at_offset_scope(offset, &ast.top_level) {
        Some(found) => found,
        None => Found {
            ty: FoundType::Nothing,
            span: ast.top_level.span,
            scope: ast.top_level.id,
        },
    }
}

fn find_at_offset_scope(offset: u32, s: &Scope) -> (r: Option<Found>)
    ensures
        r == at_scope(offset, *s),
    decreases s, 0int,
{
    if !s.span.contains(offset) {
        return None;
    }
    find_definitions(offset, s.id, &s.definitions)
}

fn find_definitions(offset: u32, scope: ScopeId, definitions: &Vec<(String, Definition)>) -> (r:
    Option<Found>)
    ensures
        r == at_definitions(offset, scope, definitions@, 0),
    decreases definitions, 1int,
{
    let mut i: usize = 0;
    while i < definitions.len()
        invariant
            i <= definitions@.len(),
            at_definitions(offset, scope, definitions@, 0) == at_definitions(
                offset,
                scope,
                definitions@,
                i as nat,
            ),
        decreases definitions.len() - i,
    {
        match &definitions[i].1 {
            Definition::Expr { value, name_span } => {
                let found: Option<Found> = find_span(
                    offset,
                    *name_span,
                    FoundType::Definition,
                    scope,
                );
                if found.is_some() {
                    return found;
                }
                let found: Option<Found> = find_at_offset_expr(offset, scope, value);
                if found.is_some() {
                    return found;
                }
            },
            Definition::Use { path, text } => {
                let found: Option<Found> = find_path(offset, scope, *path);
                if found.is_some() {
                    return found;
                }
            },
            Definition::Global { name_span, ty, val } => {
                let found: Option<Found> = find_span(
                    offset,
                    *name_span,
                    FoundType::Definition,
                    scope,
                );
                if found.is_some() {
                    return found;
                }
                let found: Option<Found> = find_at_offset_ty(offset, scope, ty);
                if found.is_some() {
                    return found;
                }
                let found: Option<Found> = find_at_offset_expr(offset, scope, val);
                if found.is_some() {
                    return found;
                }
            },
            Definition::Module => {},
            Definition::Generic => {},
        }
        i += 1;
    }
    None
}

fn find_function(offset: u32, f: &Function) -> (r: Option<Found>)
    ensures
        r == at_function(offset, *f),
    decreases f, 0int,
{
    if !f.span.contains(offset) {
        return None;
    }
    let found: Option<Found> = find_keyword(offset, f.span.start, Keyword::Fn, f.scope);
    if found.is_some() {
        return found;
    }
    let found: Option<Found> = find_generics(offset, f.scope, &f.generics);
    if found.is_some() {
        return found;
    }
    let found: Option<Found> = find_params(offset, f.scope, &f.params);
    if found.is_some() {
        return found;
    }
    if let Some(body) = &f.body {
        let found: Option<Found> = find_at_offset_expr(offset, f.scope, body);
        if found.is_some() {
            return found;
        }
    }
    Some(Found { ty: FoundType::Nothing, span: f.span, scope: f.scope })
}

fn find_functions(offset: u32, functions: &Vec<Function>) -> (r: Option<Found>)
    ensures
        r == at_functions(offset, functions@, 0),
    decreases functions, 1int,
{
    let mut i: usize = 0;
    while i < functions.len()
        invariant
            i <= functions@.len(),
            at_functions(offset, functions@, 0) == at_functions(offset, functions@, i as nat),
        decreases functions.len() - i,
    {
        let found: Option<Found> = find_function(offset, &functions[i]);
        if found.is_some() {
            return found;
        }
        i += 1;
    }
    None
}

fn find_impls(offset: u32, scope: ScopeId, impls: &Vec<Impl>) -> (r: Option<Found>)
    ensures
        r == at_impls(offset, scope, impls@, 0),
    decreases impls, 1int,
{
    let mut i: usize = 0;
    while i < impls.len()
        invariant
            i <= impls@.len(),
            at_impls(offset, scope, impls@, 0) == at_impls(offset, scope, impls@, i as nat),
        decreases impls.len() - i,
    {
        let it: &Impl = &impls[i];
        let found: Option<Found> = find_path(offset, scope, it.implemented_trait);
        if found.is_some() {
            return found;
        }
        let found: Option<Found> = find_generics(offset, scope, &it.generics);
        if found.is_some() {
            return found;
        }
        let found: Option<Found> = find_at_offset_types(offset, scope, &it.trait_generics);
        if found.is_some() {
            return found;
        }
        let found: Option<Found> = find_functions(offset, &it.functions);
        if found.is_some() {
            return found;
        }
        i += 1;
    }
    None
}

fn find_exprs(offset: u32, scope: ScopeId, exprs: &Vec<Expr>) -> (r: Option<Found>)
    ensures
        r == at_exprs(offset, scope, exprs@, 0),
    decreases exprs, 1int,
{
    let mut i: usize = 0;
    while i < exprs.len()
        invariant
            i <= exprs@.len(),
            at_exprs(offset, scope, exprs@, 0) == at_exprs(offset, scope, exprs@, i as nat),
        decreases exprs.len() - i,
    {
        let found: Option<Found> = find_at_offset_expr(offset, scope, &exprs[i]);
        if found.is_some() {
            return found;
        }
        i += 1;
    }
    None
}

fn find_branches(offset: u32, scope: ScopeId, branches: &Vec<(Expr, Expr)>) -> (r: Option<Found>)
    ensures
        r == at_branches(offset, scope, branches@, 0),
    decreases branches, 1int,
{
    let mut i: usize = 0;
    while i < branches.len()
        invariant
            i <= branches@.len(),
            at_branches(offset, scope, branches@, 0) == at_branches(
                offset,
                scope,
                branches@,
                i as nat,
            ),
        decreases branches.len() - i,
    {
        let found: Option<Found> = find_at_offset_expr(offset, scope, &branches[i].0);
        if found.is_some() {
            return found;
        }
        let found: Option<Found> = find_at_offset_expr(offset, scope, &branches[i].1);
        if found.is_some() {
            return found;
        }
        i += 1;
    }
    None
}

fn find_named(offset: u32, scope: ScopeId, named: &Vec<(Name, Expr)>) -> (r: Option<Found>)
    ensures
        r == at_named(offset, scope, named@, 0),
    decreases named, 1int,
{
    let mut i: usize = 0;
    while i < named.len()
        invariant
            i <= named@.len(),
            at_named(offset, scope, named@, 0) == at_named(offset, scope, named@, i as nat),
        decreases named.len() - i,
    {
        let found: Option<Found> = find_span(
            offset,
            named[i].0.span,
            FoundType::ParameterName,
            scope,
        );
        if found.is_some() {
            return found;
        }
        let found: Option<Found> = find_at_offset_expr(offset, scope, &named[i].1);
        if found.is_some() {
            return found;
        }
        i += 1;
    }
    None
}

/// The expression inside of which something stands at the place, and what it is.
#[verifier::rlimit(60)]
fn find_kind(offset: u32, scope: ScopeId, e: &Expr) -> (r: Option<Found>)
    ensures
        r == at_kind(offset, scope, *e),
    decreases e, 0int,
{
    match &e.kind {
        ExprKind::Error => Some(
            Found { ty: FoundType::Error, span: e.span, scope },
        ),
        ExprKind::Block { scope: s, items } => {
            let found: Option<Found> = find_at_offset_scope(offset, s);
            if found.is_some() {
                return found;
            }
            let found: Option<Found> = find_exprs(offset, s.id, items);
            if found.is_some() {
                return found;
            }
            Some(Found { ty: FoundType::Nothing, span: s.span, scope: s.id })
        },
        ExprKind::Nested(inner) => find_at_offset_expr(offset, scope, inner),
        ExprKind::IntLiteral(_) | ExprKind::FloatLiteral(_) | ExprKind::StringLiteral(_) => Some(
            Found { ty: FoundType::Literal, span: e.span, scope },
        ),
        ExprKind::Array(elements) => find_exprs(offset, scope, elements),
        ExprKind::Tuple { elements, named_elements } => find_exprs(offset, scope, elements),
        ExprKind::EnumLiteral { ident, args } => if ident.span.contains(offset) {
            Some(Found { ty: FoundType::EnumLiteral, span: e.span, scope })
        } else {
            find_exprs(offset, scope, args)
        },
        ExprKind::Function(f) => find_function(offset, f),
        ExprKind::Primitive(p) => Some(
            Found { ty: FoundType::Primitive(*p), span: e.span, scope },
        ),
        ExprKind::TypeDeclaration(def) => {
            let found: Option<Found> = find_generics(offset, def.scope, &def.generics);
            if found.is_some() {
                return found;
            }
            let found: Option<Found> = find_content(offset, e.span.start, def.scope, scope, &def.content);
            if found.is_some() {
                return found;
            }
            let found: Option<Found> = find_functions(offset, &def.methods);
            if found.is_some() {
                return found;
            }
            find_impls(offset, def.scope, &def.impls)
        },
        ExprKind::Trait => None,
        ExprKind::Ident(_) => Some(
            Found { ty: FoundType::Ident, span: e.span, scope },
        ),
        ExprKind::DeclareWithVal { pat, annotated_ty, val } => {
            let found: Option<Found> = find_at_offset_expr(offset, scope, pat);
            if found.is_some() {
                return found;
            }
            let found: Option<Found> = find_at_offset_ty(offset, scope, annotated_ty);
            if found.is_some() {
                return found;
            }
            find_at_offset_expr(offset, scope, val)
        },
        ExprKind::Hole => Some(
            Found { ty: FoundType::Underscore, span: e.span, scope },
        ),
        ExprKind::UnOp { op, postfix, inner } => find_at_offset_expr(offset, scope, inner),
        ExprKind::BinOp { op, l, r } => {
            let found: Option<Found> = find_at_offset_expr(offset, scope, l);
            if found.is_some() {
                return found;
            }
            find_at_offset_expr(offset, scope, r)
        },
        ExprKind::As { value, ty } => {
            let found: Option<Found> = find_at_offset_expr(offset, scope, value);
            if found.is_some() {
                return found;
            }
            find_at_offset_ty(offset, scope, ty)
        },
        ExprKind::Root => Some(
            Found { ty: FoundType::RootModule, span: e.span, scope },
        ),
        ExprKind::MemberAccess { left, name } => {
            let found: Option<Found> = find_span(offset, name.span, FoundType::Member, scope);
            if found.is_some() {
                return found;
            }
            find_at_offset_expr(offset, scope, left)
        },
        ExprKind::Index { expr, idx } => {
            let found: Option<Found> = find_at_offset_expr(offset, scope, expr);
            if found.is_some() {
                return found;
            }
            find_at_offset_expr(offset, scope, idx)
        },
        ExprKind::TupleIdx { left, element } => find_at_offset_expr(offset, scope, left),
        ExprKind::ReturnUnit => find_span(offset, e.span, FoundType::Keyword, scope),
        ExprKind::Return { start, val } => {
            let found: Option<Found> = find_keyword(offset, *start, Keyword::Ret, scope);
            if found.is_some() {
                return found;
            }
            find_at_offset_expr(offset, scope, val)
        },
        ExprKind::If { start, cond, then_ } => {
            let found: Option<Found> = find_keyword(offset, *start, Keyword::If, scope);
            if found.is_some() {
                return found;
            }
            let found: Option<Found> = find_at_offset_expr(offset, scope, cond);
            if found.is_some() {
                return found;
            }
            find_at_offset_expr(offset, scope, then_)
        },
        ExprKind::IfElse { start, cond, then_, else_ } => {
            let found: Option<Found> = find_keyword(offset, *start, Keyword::If, scope);
            if found.is_some() {
                return found;
            }
            let found: Option<Found> = find_at_offset_expr(offset, scope, cond);
            if found.is_some() {
                return found;
            }
            let found: Option<Found> = find_at_offset_expr(offset, scope, then_);
            if found.is_some() {
                return found;
            }
            find_at_offset_expr(offset, scope, else_)
        },
        ExprKind::IfPat { start, pat, value, then_ } => {
            let found: Option<Found> = find_keyword(offset, *start, Keyword::If, scope);
            if found.is_some() {
                return found;
            }
            let found: Option<Found> = find_at_offset_expr(offset, scope, pat);
            if found.is_some() {
                return found;
            }
            let found: Option<Found> = find_at_offset_expr(offset, scope, value);
            if found.is_some() {
                return found;
            }
            find_at_offset_expr(offset, scope, then_)
        },
        ExprKind::IfPatElse { start, pat, value, then_, else_ } => {
            let found: Option<Found> = find_keyword(offset, *start, Keyword::If, scope);
            if found.is_some() {
                return found;
            }
            let found: Option<Found> = find_at_offset_expr(offset, scope, pat);
            if found.is_some() {
                return found;
            }
            let found: Option<Found> = find_at_offset_expr(offset, scope, value);
            if found.is_some() {
                return found;
            }
            let found: Option<Found> = find_at_offset_expr(offset, scope, then_);
            if found.is_some() {
                return found;
            }
            find_at_offset_expr(offset, scope, else_)
        },
        ExprKind::Match { val, branches } => {
            let found: Option<Found> = find_keyword(offset, e.span.start, Keyword::Match, scope);
            if found.is_some() {
                return found;
            }
            let found: Option<Found> = find_at_offset_expr(offset, scope, val);
            if found.is_some() {
                return found;
            }
            find_branches(offset, scope, branches)
        },
        ExprKind::While { start, cond, body } => {
            let found: Option<Found> = find_keyword(offset, *start, Keyword::While, scope);
            if found.is_some() {
                return found;
            }
            let found: Option<Found> = find_at_offset_expr(offset, scope, cond);
            if found.is_some() {
                return found;
            }
            find_at_offset_expr(offset, scope, body)
        },
        ExprKind::WhilePat { start, pat, val, body } => {
            let found: Option<Found> = find_keyword(offset, *start, Keyword::While, scope);
            if found.is_some() {
                return found;
            }
            let found: Option<Found> = find_at_offset_expr(offset, scope, pat);
            if found.is_some() {
                return found;
            }
            let found: Option<Found> = find_at_offset_expr(offset, scope, val);
            if found.is_some() {
                return found;
            }
            find_at_offset_expr(offset, scope, body)
        },
        ExprKind::For { start, pat, iter, body } => {
            let found: Option<Found> = find_keyword(offset, *start, Keyword::While, scope);
            if found.is_some() {
                return found;
            }
            let found: Option<Found> = find_at_offset_expr(offset, scope, pat);
            if found.is_some() {
                return found;
            }
            let found: Option<Found> = find_at_offset_expr(offset, scope, iter);
            if found.is_some() {
                return found;
            }
            find_at_offset_expr(offset, scope, body)
        },
        ExprKind::FunctionCall { called_expr, args, named_args } => {
            let found: Option<Found> = find_at_offset_expr(offset, scope, called_expr);
            if found.is_some() {
                return found;
            }
            let found: Option<Found> = find_exprs(offset, scope, args);
            if found.is_some() {
                return found;
            }
            find_named(offset, scope, named_args)
        },
        ExprKind::Asm { asm_str_span, args } => {
            let found: Option<Found> = find_span(offset, *asm_str_span, FoundType::Literal, scope);
            if found.is_some() {
                return found;
            }
            find_exprs(offset, scope, args)
        },
        ExprKind::Break | ExprKind::Continue => find_span(offset, e.span, FoundType::Keyword, scope),
    }
}

pub fn find_at_offset_expr(offset: u32, scope: ScopeId, e: &Expr) -> (r: Option<Found>)
    ensures
        r == at_expr(offset, scope, *e),
    decreases e, 1int,
{
    if !e.span.contains(offset) {
        return None;
    }
    match find_kind(offset, scope, e) {
        Some(found) => Some(found),
        None => Some(Found { ty: FoundType::Nothing, span: e.span, scope }),
    }
}

/// What was found contains the place, or stands right before it, unless it is nothing
/// in particular.
pub open spec fn found_here(offset: u32, r: Option<Found>) -> bool {
    match r {
        Some(found) => found.ty == FoundType::Nothing || found.span.has_inclusive(offset),
        None => true,
    }
}

proof fn lemma_ty_here(offset: u32, scope: ScopeId, ty: UnresolvedType)
    ensures
        found_here(offset, at_ty(offset, scope, ty)),
    decreases ty, 0int,
{
    match ty.kind {
        TypeKind::Unresolved(path, generics) => lemma_types_here(offset, scope, generics@, 0),
        TypeKind::Pointer(pointee) => lemma_ty_here(offset, scope, *pointee),
        TypeKind::Array(element) => lemma_ty_here(offset, scope, *element),
        TypeKind::Tuple(elements) => lemma_types_here(offset, scope, elements@, 0),
        TypeKind::Function { return_type, params } => {
            lemma_ty_here(offset, scope, *return_type);
            lemma_types_here(offset, scope, params@, 0);
        },
        _ => {},
    }
}

proof fn lemma_types_here(offset: u32, scope: ScopeId, types: Seq<UnresolvedType>, i: nat)
    ensures
        found_here(offset, at_types(offset, scope, types, i)),
    decreases types, types.len() - i,
{
    if i < types.len() {
        lemma_ty_here(offset, scope, types[i as int]);
        lemma_types_here(offset, scope, types, i + 1);
    }
}

proof fn lemma_bounds_here(offset: u32, scope: ScopeId, bounds: Seq<TraitBound>, i: nat)
    ensures
        found_here(offset, at_bounds(offset, scope, bounds, i)),
    decreases bounds.len() - i,
{
    if i < bounds.len() {
        lemma_types_here(offset, scope, bounds[i as int].generics@, 0);
        lemma_bounds_here(offset, scope, bounds, i + 1);
    }
}

proof fn lemma_generics_here(offset: u32, scope: ScopeId, types: Seq<GenericDef>, i: nat)
    ensures
        found_here(offset, at_generics(offset, scope, types, i)),
    decreases types.len() - i,
{
    if i < types.len() {
        lemma_bounds_here(offset, scope, types[i as int].bounds@, 0);
        lemma_generics_here(offset, scope, types, i + 1);
    }
}

proof fn lemma_params_here(offset: u32, scope: ScopeId, params: Seq<(Name, UnresolvedType)>, i: nat)
    ensures
        found_here(offset, at_params(offset, scope, params, i)),
    decreases params.len() - i,
{
    if i < params.len() {
        lemma_ty_here(offset, scope, params[i as int].1);
        lemma_params_here(offset, scope, params, i + 1);
    }
}

proof fn lemma_variants_here(
    offset: u32,
    scope: ScopeId,
    variants: Seq<Vec<UnresolvedType>>,
    i: nat,
)
    ensures
        found_here(offset, at_variants(offset, scope, variants, i)),
    decreases variants.len() - i,
{
    if i < variants.len() {
        lemma_types_here(offset, scope, variants[i as int]@, 0);
        lemma_variants_here(offset, scope, variants, i + 1);
    }
}

proof fn lemma_content_here(
    offset: u32,
    start: u32,
    scope: ScopeId,
    keyword_scope: ScopeId,
    content: TypeContent,
)
    ensures
        found_here(offset, at_content(offset, start, scope, keyword_scope, content)),
{
    match content {
        TypeContent::Struct { members } => lemma_types_here(offset, scope, members@, 0),
        TypeContent::Enum { variants } => lemma_variants_here(offset, scope, variants@, 0),
    }
}

proof fn lemma_scope_here(offset: u32, s: Scope)
    ensures
        found_here(offset, at_scope(offset, s)),
    decreases s, 0int,
{
    lemma_definitions_here(offset, s.id, s.definitions@, 0);
}

proof fn lemma_definitions_here(
    offset: u32,
    scope: ScopeId,
    definitions: Seq<(String, Definition)>,
    i: nat,
)
    ensures
        found_here(offset, at_definitions(offset, scope, definitions, i)),
    decreases definitions, definitions.len() - i,
{
    if i < definitions.len() {
        match definitions[i as int].1 {
            Definition::Expr { value, name_span } => lemma_expr_here(offset, scope, value),
            Definition::Global { name_span, ty, val } => {
                lemma_ty_here(offset, scope, ty);
                lemma_expr_here(offset, scope, val);
            },
            _ => {},
        }
        lemma_definitions_here(offset, scope, definitions, i + 1);
    }
}

proof fn lemma_function_here(offset: u32, f: Function)
    ensures
        found_here(offset, at_function(offset, f)),
    decreases f, 0int,
{
    lemma_generics_here(offset, f.scope, f.generics.types@, 0);
    lemma_params_here(offset, f.scope, f.params@, 0);
    if let Some(body) = f.body {
        lemma_expr_here(offset, f.scope, *body);
    }
}

proof fn lemma_functions_here(offset: u32, functions: Seq<Function>, i: nat)
    ensures
        found_here(offset, at_functions(offset, functions, i)),
    decreases functions, functions.len() - i,
{
    if i < functions.len() {
        lemma_function_here(offset, functions[i as int]);
        lemma_functions_here(offset, functions, i + 1);
    }
}

proof fn lemma_impls_here(offset: u32, scope: ScopeId, impls: Seq<Impl>, i: nat)
    ensures
        found_here(offset, at_impls(offset, scope, impls, i)),
    decreases impls, impls.len() - i,
{
    if i < impls.len() {
        let it = impls[i as int];
        lemma_generics_here(offset, scope, it.generics.types@, 0);
        lemma_types_here(offset, scope, it.trait_generics@, 0);
        lemma_functions_here(offset, it.functions@, 0);
        lemma_impls_here(offset, scope, impls, i + 1);
    }
}

proof fn lemma_exprs_here(offset: u32, scope: ScopeId, exprs: Seq<Expr>, i: nat)
    ensures
        found_here(offset, at_exprs(offset, scope, exprs, i)),
    decreases exprs, exprs.len() - i,
{
    if i < exprs.len() {
        lemma_expr_here(offset, scope, exprs[i as int]);
        lemma_exprs_here(offset, scope, exprs, i + 1);
    }
}

proof fn lemma_branches_here(offset: u32, scope: ScopeId, branches: Seq<(Expr, Expr)>, i: nat)
    ensures
        found_here(offset, at_branches(offset, scope, branches, i)),
    decreases branches, branches.len() - i,
{
    if i < branches.len() {
        lemma_expr_here(offset, scope, branches[i as int].0);
        lemma_expr_here(offset, scope, branches[i as int].1);
        lemma_branches_here(offset, scope, branches, i + 1);
    }
}

proof fn lemma_named_here(offset: u32, scope: ScopeId, named: Seq<(Name, Expr)>, i: nat)
    ensures
        found_here(offset, at_named(offset, scope, named, i)),
    decreases named, named.len() - i,
{
    if i < named.len() {
        lemma_expr_here(offset, scope, named[i as int].1);
        lemma_named_here(offset, scope, named, i + 1);
    }
}

proof fn lemma_expr_here(offset: u32, scope: ScopeId, e: Expr)
    ensures
        found_here(offset, at_expr(offset, scope, e)),
    decreases e, 1int,
{
    if e.span.has(offset) {
        lemma_kind_here(offset, scope, e);
    }
}

proof fn lemma_kind_here(offset: u32, scope: ScopeId, e: Expr)
    requires
        e.span.has(offset),
    ensures
        found_here(offset, at_kind(offset, scope, e)),
    decreases e, 0int,
{
    match e.kind {
        ExprKind::Block { scope: s, items } => {
            lemma_scope_here(offset, s);
            lemma_exprs_here(offset, s.id, items@, 0);
        },
        ExprKind::Nested(inner) => {
            lemma_expr_here(offset, scope, *inner);
        },
        ExprKind::Array(elements) => {
            lemma_exprs_here(offset, scope, elements@, 0);
        },
        ExprKind::Tuple { elements, named_elements } => {
            lemma_exprs_here(offset, scope, elements@, 0);
        },
        ExprKind::EnumLiteral { ident, args } => {
            lemma_exprs_here(offset, scope, args@, 0);
        },
        ExprKind::Function(f) => {
            lemma_function_here(offset, *f);
        },
        ExprKind::TypeDeclaration(def) => {
            lemma_generics_here(offset, def.scope, def.generics.types@, 0);
            lemma_content_here(offset, e.span.start, def.scope, scope, def.content);
            lemma_functions_here(offset, def.methods@, 0);
            lemma_impls_here(offset, def.scope, def.impls@, 0);
        },
        ExprKind::DeclareWithVal { pat, annotated_ty, val } => {
            lemma_expr_here(offset, scope, *pat);
            lemma_ty_here(offset, scope, annotated_ty);
            lemma_expr_here(offset, scope, *val);
        },
        ExprKind::UnOp { op, postfix, inner } => {
            lemma_expr_here(offset, scope, *inner);
        },
        ExprKind::BinOp { op, l, r } => {
            lemma_expr_here(offset, scope, *l);
            lemma_expr_here(offset, scope, *r);
        },
        ExprKind::As { value, ty } => {
            lemma_expr_here(offset, scope, *value);
            lemma_ty_here(offset, scope, ty);
        },
        ExprKind::MemberAccess { left, name } => {
            lemma_expr_here(offset, scope, *left);
        },
        ExprKind::Index { expr, idx } => {
            lemma_expr_here(offset, scope, *expr);
            lemma_expr_here(offset, scope, *idx);
        },
        ExprKind::TupleIdx { left, element } => {
            lemma_expr_here(offset, scope, *left);
        },
        ExprKind::Return { start, val } => {
            lemma_expr_here(offset, scope, *val);
        },
        ExprKind::If { start, cond, then_ } => {
            lemma_expr_here(offset, scope, *cond);
            lemma_expr_here(offset, scope, *then_);
        },
        ExprKind::IfElse { start, cond, then_, else_ } => {
            lemma_expr_here(offset, scope, *cond);
            lemma_expr_here(offset, scope, *then_);
            lemma_expr_here(offset, scope, *else_);
        },
        ExprKind::IfPat { start, pat, value, then_ } => {
            lemma_expr_here(offset, scope, *pat);
            lemma_expr_here(offset, scope, *value);
            lemma_expr_here(offset, scope, *then_);
        },
        ExprKind::IfPatElse { start, pat, value, then_, else_ } => {
            lemma_expr_here(offset, scope, *pat);
            lemma_expr_here(offset, scope, *value);
            lemma_expr_here(offset, scope, *then_);
            lemma_expr_here(offset, scope, *else_);
        },
        ExprKind::Match { val, branches } => {
            lemma_expr_here(offset, scope, *val);
            lemma_branches_here(offset, scope, branches@, 0);
        },
        ExprKind::While { start, cond, body } => {
            lemma_expr_here(offset, scope, *cond);
            lemma_expr_here(offset, scope, *body);
        },
        ExprKind::WhilePat { start, pat, val, body } => {
            lemma_expr_here(offset, scope, *pat);
            lemma_expr_here(offset, scope, *val);
            lemma_expr_here(offset, scope, *body);
        },
        ExprKind::For { start, pat, iter, body } => {
            lemma_expr_here(offset, scope, *pat);
            lemma_expr_here(offset, scope, *iter);
            lemma_expr_here(offset, scope, *body);
        },
        ExprKind::FunctionCall { called_expr, args, named_args } => {
            lemma_expr_here(offset, scope, *called_expr);
            lemma_exprs_here(offset, scope, args@, 0);
            lemma_named_here(offset, scope, named_args@, 0);
        },
        ExprKind::Asm { asm_str_span, args } => {
            lemma_exprs_here(offset, scope, args@, 0);
        },
        _ => {},
    }
}

/// What is found in a file contains the place or ends right there, unless it is
/// nothing in particular. Expressions are found exactly at the places inside them.
pub proof fn found_spans_contain_the_place(ast: Ast, offset: u32, scope: ScopeId, e: Expr)
    ensures
        found_here(offset, Some(at_file(ast, offset))),
        found_here(offset, at_expr(offset, scope, e)),
        at_expr(offset, scope, e) is Some <==> e.span.has(offset),
{
    lemma_scope_here(offset, ast.top_level);
    lemma_expr_here(offset, scope, e);
}

} // verus!
