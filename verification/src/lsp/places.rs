//! That the search for a place leads to the part of the source text that it lies in.
use vstd::prelude::*;

use crate::lsp::find_in_ast;
use crate::lsp::find_in_ast::{Found, FoundType};
use crate::parser::ast::{
    Definition, Expr, ExprKind, Function, Name, Scope, ScopeId, TypeKind, UnresolvedType,
};

verus! {

/// The type is written as a part of another.
pub open spec fn is_type_part(ty: UnresolvedType, part: UnresolvedType) -> bool {
    match ty.kind {
        TypeKind::Primitive(_) | TypeKind::Infer => false,
        TypeKind::Unresolved(_, generics) => generics@.contains(part),
        TypeKind::Pointer(pointee) => part == *pointee,
        TypeKind::Array(element) => part == *element,
        TypeKind::Tuple(elements) => elements@.contains(part),
        TypeKind::Function { return_type, params } => part == *return_type || params@.contains(
            part,
        ),
    }
}

/// The expression is written as a part of another, in the scope of the other or, for a block,
/// in that of the block.
pub open spec fn is_part(e: Expr, part: Expr) -> bool {
    match e.kind {
        ExprKind::Block { items, .. } => items@.contains(part),
        ExprKind::Nested(inner) => part == *inner,
        ExprKind::Array(elements) => elements@.contains(part),
        ExprKind::Tuple { elements, .. } => elements@.contains(part),
        ExprKind::EnumLiteral { args, .. } => args@.contains(part),
        ExprKind::DeclareWithVal { pat, val, .. } => part == *pat || part == *val,
        ExprKind::UnOp { inner, .. } => part == *inner,
        ExprKind::BinOp { l, r, .. } => part == *l || part == *r,
        ExprKind::As { value, .. } => part == *value,
        ExprKind::MemberAccess { left, .. } => part == *left,
        ExprKind::Index { expr, idx } => part == *expr || part == *idx,
        ExprKind::TupleIdx { left, .. } => part == *left,
        ExprKind::Return { val, .. } => part == *val,
        ExprKind::If { cond, then_, .. } => part == *cond || part == *then_,
        ExprKind::IfElse { cond, then_, else_, .. } => part == *cond || part == *then_ || part
            == *else_,
        ExprKind::IfPat { pat, value, then_, .. } => part == *pat || part == *value || part
            == *then_,
        ExprKind::IfPatElse { pat, value, then_, else_, .. } => part == *pat || part == *value
            || part == *then_ || part == *else_,
        ExprKind::Match { val, branches } => part == *val || is_in_branch(branches@, part),
        ExprKind::While { cond, body, .. } => part == *cond || part == *body,
        ExprKind::WhilePat { pat, val, body, .. } => part == *pat || part == *val || part
            == *body,
        ExprKind::For { pat, iter, body, .. } => part == *pat || part == *iter || part == *body,
        ExprKind::FunctionCall { called_expr, args, named_args } => part == *called_expr
            || args@.contains(part) || is_named_arg(named_args@, part),
        ExprKind::Asm { args, .. } => args@.contains(part),
        _ => false,
    }
}

pub open spec fn is_in_branch(branches: Seq<(Expr, Expr)>, part: Expr) -> bool {
    exists|i: int|
        0 <= i < branches.len() && ((#[trigger] branches[i]).0 == part || branches[i].1 == part)
}

pub open spec fn is_named_arg(named: Seq<(Name, Expr)>, part: Expr) -> bool {
    exists|i: int| 0 <= i < named.len() && (#[trigger] named[i]).1 == part
}

/// The place lies in a word of the expression that is no part: its keyword, a name, a type or
/// a definition. The word `for` is taken to be as long as `while`.
pub open spec fn is_at_word(offset: u32, e: Expr) -> bool {
    match e.kind {
        ExprKind::Block { scope, .. } => find_in_ast::at_scope(offset, scope) is Some,
        ExprKind::EnumLiteral { ident, .. } => ident.span.has(offset),
        ExprKind::DeclareWithVal { annotated_ty, .. } => annotated_ty.span.has(offset),
        ExprKind::As { ty, .. } => ty.span.has(offset),
        ExprKind::MemberAccess { name, .. } => name.span.has(offset),
        ExprKind::Return { start, .. } => start <= offset < start + 3,
        ExprKind::If { start, .. }
        | ExprKind::IfElse { start, .. }
        | ExprKind::IfPat { start, .. }
        | ExprKind::IfPatElse { start, .. } => start <= offset < start + 2,
        ExprKind::Match { .. } => e.span.start <= offset < e.span.start + 5,
        ExprKind::While { start, .. } | ExprKind::WhilePat { start, .. } | ExprKind::For {
            start,
            ..
        } => start <= offset < start + 5,
        ExprKind::FunctionCall { named_args, .. } => exists|i: int|
            0 <= i < named_args@.len() && (#[trigger] named_args@[i]).0.span.has(offset),
        ExprKind::Asm { asm_str_span, .. } => asm_str_span.has(offset),
        _ => false,
    }
}

/// The scope of the parts.
pub open spec fn scope_of_parts(e: Expr, scope: ScopeId) -> ScopeId {
    match e.kind {
        ExprKind::Block { scope: own, .. } => own.id,
        _ => scope,
    }
}

proof fn lemma_types(
    offset: u32,
    scope: ScopeId,
    types: Seq<UnresolvedType>,
    part: UnresolvedType,
    i: nat,
)
    requires
        forall|k: int|
            0 <= k < types.len() && (#[trigger] types[k]).span.has(offset) ==> types[k] == part,
    ensures
        find_in_ast::at_types(offset, scope, types, i) == (if exists|k: int|
            i <= k < types.len() && #[trigger] types[k] == part {
            find_in_ast::at_ty(offset, scope, part)
        } else {
            None
        }),
    decreases types.len() - i,
{
    if i < types.len() {
        lemma_types(offset, scope, types, part, i + 1);
        let ty = types[i as int];
        assert(ty.span.has(offset) ==> ty == part);
        assert(!ty.span.has(offset) ==> find_in_ast::at_ty(offset, scope, ty) is None);
    }
}

/// Where a place lies in just one part of a type, that is found which stands at the place in
/// the part.
pub proof fn places_in_types_are_found_in_their_part(
    offset: u32,
    scope: ScopeId,
    ty: UnresolvedType,
    part: UnresolvedType,
)
    requires
        ty.span.has(offset),
        is_type_part(ty, part),
        part.span.has(offset),
        forall|other: UnresolvedType|
            is_type_part(ty, other) && (#[trigger] other.span).has(offset) ==> other == part,
        ty.kind matches TypeKind::Unresolved(path, _) ==> !path.span().has(offset),
    ensures
        find_in_ast::at_ty(offset, scope, ty) == find_in_ast::at_ty(offset, scope, part),
{
    let types = match ty.kind {
        TypeKind::Unresolved(_, generics) => generics@,
        TypeKind::Tuple(elements) => elements@,
        TypeKind::Function { params, .. } => params@,
        _ => Seq::empty(),
    };
    assert forall|k: int| 0 <= k < types.len() && (#[trigger] types[k]).span.has(
        offset,
    ) implies types[k] == part by {
        assert(types.contains(types[k]));
    }
    lemma_types(offset, scope, types, part, 0);
    if let TypeKind::Function { return_type, .. } = ty.kind {
        let returned = *return_type;
        assert(is_type_part(ty, returned));
        assert(returned.span.has(offset) ==> returned == part);
        assert(!returned.span.has(offset) ==> find_in_ast::at_ty(offset, scope, returned)
            is None);
    }
}

/// Something is found exactly at the places inside an expression.
proof fn lemma_inside(offset: u32, scope: ScopeId, e: Expr)
    ensures
        find_in_ast::at_expr(offset, scope, e) is Some <==> e.span.has(offset),
{
}

/// Of an expression that is a part like another, nothing is found unless it is the other.
proof fn lemma_other(offset: u32, scope: ScopeId, e: Expr, part: Expr, other: Expr)
    requires
        is_part(e, other),
        forall|other: Expr|
            is_part(e, other) && (#[trigger] other.span).has(offset) ==> other == part,
    ensures
        find_in_ast::at_expr(offset, scope, other) is None || other == part,
{
    lemma_inside(offset, scope, other);
    let span = other.span;
}

proof fn lemma_exprs(offset: u32, scope: ScopeId, exprs: Seq<Expr>, part: Expr, i: nat)
    requires
        part.span.has(offset),
        forall|k: int|
            0 <= k < exprs.len() && (#[trigger] exprs[k]).span.has(offset) ==> exprs[k] == part,
    ensures
        find_in_ast::at_exprs(offset, scope, exprs, i) == (if exists|k: int|
            i <= k < exprs.len() && #[trigger] exprs[k] == part {
            find_in_ast::at_expr(offset, scope, part)
        } else {
            None
        }),
    decreases exprs.len() - i,
{
    if i < exprs.len() {
        lemma_exprs(offset, scope, exprs, part, i + 1);
        let e = exprs[i as int];
        assert(e.span.has(offset) ==> e == part);
        lemma_inside(offset, scope, e);
    }
}

proof fn lemma_branches(
    offset: u32,
    scope: ScopeId,
    branches: Seq<(Expr, Expr)>,
    part: Expr,
    i: nat,
)
    requires
        part.span.has(offset),
        forall|k: int|
            0 <= k < branches.len() ==> {
                &&& (#[trigger] branches[k]).0.span.has(offset) ==> branches[k].0 == part
                &&& branches[k].1.span.has(offset) ==> branches[k].1 == part
            },
    ensures
        find_in_ast::at_branches(offset, scope, branches, i) == (if exists|k: int|
            i <= k < branches.len() && ((#[trigger] branches[k]).0 == part || branches[k].1
                == part) {
            find_in_ast::at_expr(offset, scope, part)
        } else {
            None
        }),
    decreases branches.len() - i,
{
    if i < branches.len() {
        lemma_branches(offset, scope, branches, part, i + 1);
        let b = branches[i as int];
        assert(b.0.span.has(offset) ==> b.0 == part);
        lemma_inside(offset, scope, b.0);
        lemma_inside(offset, scope, b.1);
    }
}

proof fn lemma_named(offset: u32, scope: ScopeId, named: Seq<(Name, Expr)>, part: Expr, i: nat)
    requires
        part.span.has(offset),
        forall|k: int|
            0 <= k < named.len() ==> {
                &&& !(#[trigger] named[k]).0.span.has(offset)
                &&& named[k].1.span.has(offset) ==> named[k].1 == part
            },
    ensures
        find_in_ast::at_named(offset, scope, named, i) == (if exists|k: int|
            i <= k < named.len() && (#[trigger] named[k]).1 == part {
            find_in_ast::at_expr(offset, scope, part)
        } else {
            None
        }),
    decreases named.len() - i,
{
    if i < named.len() {
        lemma_named(offset, scope, named, part, i + 1);
        let n = named[i as int];
        assert(!n.0.span.has(offset));
        lemma_inside(offset, scope, n.1);
    }
}

/// Where a place lies in just one part of an expression, and in none of its own words, that is
/// found which stands at the place in the part.
#[verifier::spinoff_prover]
#[verifier::rlimit(80)]
pub proof fn places_are_found_in_their_part(offset: u32, scope: ScopeId, e: Expr, part: Expr)
    requires
        e.span.has(offset),
        is_part(e, part),
        part.span.has(offset),
        forall|other: Expr|
            is_part(e, other) && (#[trigger] other.span).has(offset) ==> other == part,
        !is_at_word(offset, e),
        offset < u32::MAX,
    ensures
        find_in_ast::at_expr(offset, scope, e) == find_in_ast::at_expr(
            offset,
            scope_of_parts(e, scope),
            part,
        ),
{
    let inner = scope_of_parts(e, scope);
    assert(find_in_ast::at_expr(offset, inner, part) is Some);
    let exprs = match e.kind {
        ExprKind::Block { items, .. } => items@,
        ExprKind::Array(elements) => elements@,
        ExprKind::Tuple { elements, .. } => elements@,
        ExprKind::EnumLiteral { args, .. } => args@,
        ExprKind::FunctionCall { args, .. } => args@,
        ExprKind::Asm { args, .. } => args@,
        _ => Seq::empty(),
    };
    assert forall|k: int| 0 <= k < exprs.len() && (#[trigger] exprs[k]).span.has(
        offset,
    ) implies exprs[k] == part by {
        assert(exprs.contains(exprs[k]));
        assert(is_part(e, exprs[k]));
    }
    lemma_exprs(offset, inner, exprs, part, 0);
    match e.kind {
        ExprKind::Match { val, branches } => {
            lemma_other(offset, inner, e, part, *val);
            assert forall|k: int| 0 <= k < branches@.len() implies {
                &&& (#[trigger] branches@[k]).0.span.has(offset) ==> branches@[k].0 == part
                &&& branches@[k].1.span.has(offset) ==> branches@[k].1 == part
            } by {
                assert(is_in_branch(branches@, branches@[k].0));
                assert(is_in_branch(branches@, branches@[k].1));
                assert(is_part(e, branches@[k].0));
                assert(is_part(e, branches@[k].1));
            }
            lemma_branches(offset, inner, branches@, part, 0);
        },
        ExprKind::FunctionCall { called_expr, named_args, .. } => {
            lemma_other(offset, inner, e, part, *called_expr);
            assert forall|k: int| 0 <= k < named_args@.len() implies {
                &&& !(#[trigger] named_args@[k]).0.span.has(offset)
                &&& named_args@[k].1.span.has(offset) ==> named_args@[k].1 == part
            } by {
                assert(is_named_arg(named_args@, named_args@[k].1));
                assert(is_part(e, named_args@[k].1));
            }
            lemma_named(offset, inner, named_args@, part, 0);
        },
        ExprKind::DeclareWithVal { pat, annotated_ty, val } => {
            lemma_other(offset, inner, e, part, *pat);
            lemma_other(offset, inner, e, part, *val);
            assert(find_in_ast::at_ty(offset, inner, annotated_ty) is None);
        },
        ExprKind::BinOp { l, r, .. } => {
            lemma_other(offset, inner, e, part, *l);
            lemma_other(offset, inner, e, part, *r);
        },
        ExprKind::As { value, ty } => {
            lemma_other(offset, inner, e, part, *value);
            assert(find_in_ast::at_ty(offset, inner, ty) is None);
        },
        ExprKind::Index { expr, idx } => {
            lemma_other(offset, inner, e, part, *expr);
            lemma_other(offset, inner, e, part, *idx);
        },
        ExprKind::If { cond, then_, .. } => {
            lemma_other(offset, inner, e, part, *cond);
            lemma_other(offset, inner, e, part, *then_);
        },
        ExprKind::IfElse { cond, then_, else_, .. } => {
            lemma_other(offset, inner, e, part, *cond);
            lemma_other(offset, inner, e, part, *then_);
            lemma_other(offset, inner, e, part, *else_);
        },
        ExprKind::IfPat { pat, value, then_, .. } => {
            lemma_other(offset, inner, e, part, *pat);
            lemma_other(offset, inner, e, part, *value);
            lemma_other(offset, inner, e, part, *then_);
        },
        ExprKind::IfPatElse { pat, value, then_, else_, .. } => {
            lemma_other(offset, inner, e, part, *pat);
            lemma_other(offset, inner, e, part, *value);
            lemma_other(offset, inner, e, part, *then_);
            lemma_other(offset, inner, e, part, *else_);
        },
        ExprKind::While { cond, body, .. } => {
            lemma_other(offset, inner, e, part, *cond);
            lemma_other(offset, inner, e, part, *body);
        },
        ExprKind::WhilePat { pat, val, body, .. } => {
            lemma_other(offset, inner, e, part, *pat);
            lemma_other(offset, inner, e, part, *val);
            lemma_other(offset, inner, e, part, *body);
        },
        ExprKind::For { pat, iter, body, .. } => {
            lemma_other(offset, inner, e, part, *pat);
            lemma_other(offset, inner, e, part, *iter);
            lemma_other(offset, inner, e, part, *body);
        },
        _ => {},
    }
}

/// A place lies in what is written of a definition.
pub open spec fn covers(d: Definition, offset: u32) -> bool {
    match d {
        Definition::Expr { value, name_span } => name_span.has(offset) || value.span.has(offset),
        Definition::Use { path, .. } => path.span().has_inclusive(offset),
        Definition::Global { name_span, ty, val } => name_span.has(offset) || ty.span.has(offset)
            || val.span.has(offset),
        Definition::Module | Definition::Generic => false,
    }
}

proof fn lemma_covers(offset: u32, scope: ScopeId, d: Definition)
    requires
        !covers(d, offset),
    ensures
        match d {
            Definition::Expr { value, .. } => find_in_ast::at_expr(offset, scope, value) is None,
            Definition::Global { ty, val, .. } => find_in_ast::at_ty(offset, scope, ty) is None
                && find_in_ast::at_expr(offset, scope, val) is None,
            _ => true,
        },
{
    match d {
        Definition::Expr { value, .. } => {
            lemma_inside(offset, scope, value);
        },
        Definition::Global { ty, val, .. } => {
            lemma_inside(offset, scope, val);
        },
        _ => {},
    }
}

proof fn lemma_no_definition(
    offset: u32,
    scope: ScopeId,
    definitions: Seq<(String, Definition)>,
    i: nat,
)
    requires
        forall|k: int|
            i <= k < definitions.len() ==> !covers((#[trigger] definitions[k]).1, offset),
    ensures
        find_in_ast::at_definitions(offset, scope, definitions, i) is None,
    decreases definitions.len() - i,
{
    if i < definitions.len() {
        lemma_no_definition(offset, scope, definitions, i + 1);
        lemma_covers(offset, scope, definitions[i as int].1);
    }
}

proof fn lemma_skipped(
    offset: u32,
    scope: ScopeId,
    definitions: Seq<(String, Definition)>,
    i: nat,
    j: nat,
)
    requires
        i <= j < definitions.len(),
        forall|k: int| i <= k < j ==> !covers((#[trigger] definitions[k]).1, offset),
    ensures
        find_in_ast::at_definitions(offset, scope, definitions, i) == find_in_ast::at_definitions(
            offset,
            scope,
            definitions,
            j,
        ),
    decreases j - i,
{
    if i < j {
        lemma_skipped(offset, scope, definitions, i + 1, j);
        lemma_covers(offset, scope, definitions[i as int].1);
    }
}

/// Where a place lies in just one definition of a scope, that is found which stands at the
/// place in the definition: its name, what a name leads to, or what stands in the value or
/// in the type.
pub proof fn places_are_found_in_their_definition(offset: u32, s: Scope, i: int)
    requires
        s.span.has(offset),
        0 <= i < s.definitions@.len(),
        covers(s.definitions@[i].1, offset),
        forall|k: int|
            0 <= k < s.definitions@.len() && covers((#[trigger] s.definitions@[k]).1, offset)
                ==> k == i,
    ensures
        match s.definitions@[i].1 {
            Definition::Expr { value, name_span } => find_in_ast::at_scope(offset, s) == (
            if name_span.has(offset) {
                Some(Found { ty: FoundType::Definition, span: name_span, scope: s.id })
            } else {
                find_in_ast::at_expr(offset, s.id, value)
            }),
            Definition::Use { path, .. } => find_in_ast::at_scope(offset, s) == Some(
                Found { ty: FoundType::Path(path), span: path.span(), scope: s.id },
            ),
            Definition::Global { name_span, ty, val } => {
                &&& name_span.has(offset) ==> find_in_ast::at_scope(offset, s) == Some(
                    Found { ty: FoundType::Definition, span: name_span, scope: s.id },
                )
                &&& !name_span.has(offset) && !ty.span.has(offset) ==> find_in_ast::at_scope(
                    offset,
                    s,
                ) == find_in_ast::at_expr(offset, s.id, val)
                &&& !name_span.has(offset) && !val.span.has(offset) ==> find_in_ast::at_scope(
                    offset,
                    s,
                ) == find_in_ast::at_ty(offset, s.id, ty)
            },
            _ => true,
        },
{
    let definitions = s.definitions@;
    lemma_skipped(offset, s.id, definitions, 0, i as nat);
    lemma_no_definition(offset, s.id, definitions, (i + 1) as nat);
    assert(find_in_ast::at_scope(offset, s) == find_in_ast::at_definitions(
        offset,
        s.id,
        definitions,
        i as nat,
    ));
    match definitions[i].1 {
        Definition::Expr { value, .. } => {
            lemma_inside(offset, s.id, value);
        },
        Definition::Global { ty, val, .. } => {
            lemma_inside(offset, s.id, val);
            assert(!ty.span.has(offset) ==> find_in_ast::at_ty(offset, s.id, ty) is None);
        },
        _ => {},
    }
}

/// Where a place lies outside of all definitions of a scope, none is found.
pub proof fn places_outside_of_definitions_are_empty(offset: u32, s: Scope)
    requires
        forall|k: int|
            0 <= k < s.definitions@.len() ==> !covers((#[trigger] s.definitions@[k]).1, offset),
    ensures
        find_in_ast::at_scope(offset, s) is None,
{
    if s.span.has(offset) {
        lemma_no_definition(offset, s.id, s.definitions@, 0);
        assert(find_in_ast::at_definitions(offset, s.id, s.definitions@, 0) is None);
    }
}

/// A place lies in the name or in the type of a parameter.
pub open spec fn is_in_param(param: (Name, UnresolvedType), offset: u32) -> bool {
    param.0.span.has(offset) || param.1.span.has(offset)
}

proof fn lemma_params(
    offset: u32,
    scope: ScopeId,
    params: Seq<(Name, UnresolvedType)>,
    i: nat,
    j: nat,
)
    requires
        i <= j <= params.len(),
        forall|k: int| i <= k < j ==> !is_in_param(#[trigger] params[k], offset),
    ensures
        find_in_ast::at_params(offset, scope, params, i) == find_in_ast::at_params(
            offset,
            scope,
            params,
            j,
        ),
        j == params.len() ==> find_in_ast::at_params(offset, scope, params, i) is None,
    decreases j - i,
{
    if i < j {
        lemma_params(offset, scope, params, i + 1, j);
        assert(!is_in_param(params[i as int], offset));
    }
}

/// A place in a parameter of a function is found in the parameter, and one in the body in the
/// body, each in the scope of the function.
pub proof fn places_are_found_in_functions(offset: u32, f: Function, i: int)
    requires
        f.span.has(offset),
        f.span.start + 2 <= offset,
        find_in_ast::at_generics(offset, f.scope, f.generics.types@, 0) is None,
        forall|k: int|
            0 <= k < f.params@.len() && is_in_param(#[trigger] f.params@[k], offset) ==> k == i,
    ensures
        0 <= i < f.params@.len() && f.params@[i].0.span.has(offset) ==> find_in_ast::at_function(
            offset,
            f,
        ) == Some(
            Found {
                ty: FoundType::ParameterName,
                span: f.params@[i].0.span,
                scope: f.scope,
            },
        ),
        0 <= i < f.params@.len() && !f.params@[i].0.span.has(offset)
            && f.params@[i].1.span.has(offset) && find_in_ast::at_ty(
            offset,
            f.scope,
            f.params@[i].1,
        ) is Some ==> find_in_ast::at_function(offset, f) == find_in_ast::at_ty(
            offset,
            f.scope,
            f.params@[i].1,
        ),
        !(0 <= i < f.params@.len() && is_in_param(f.params@[i], offset)) ==> (
        f.body matches Some(body) ==> body.span.has(offset) ==> find_in_ast::at_function(offset, f)
            == find_in_ast::at_expr(offset, f.scope, *body)),
{
    let n = f.params@.len();
    if 0 <= i < n && is_in_param(f.params@[i], offset) {
        lemma_params(offset, f.scope, f.params@, 0, i as nat);
        lemma_params(offset, f.scope, f.params@, (i + 1) as nat, n);
    } else {
        lemma_params(offset, f.scope, f.params@, 0, n);
    }
    if let Some(body) = f.body {
        lemma_inside(offset, f.scope, *body);
    }
}

} // verus!
