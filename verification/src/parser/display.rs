//! Displays an entire ast roughly how it would look in the source code. This is only be used for
//! debugging and NOT for pretty printing. It is not guaranteed to be accurate.
use vstd::prelude::*;

use crate::compiler::types::Primitive;
use crate::parser::ast::{
    Ast, Definition, Expr, ExprKind, Function, Name, NamedParam, Scope, UnresolvedType,
};
use crate::text;
use crate::text::write_number;

verus! {

pub open spec fn primitive_text(p: Primitive) -> Seq<char> {
    match p {
        Primitive::I8 => "i8"@,
        Primitive::U8 => "u8"@,
        Primitive::I16 => "i16"@,
        Primitive::U16 => "u16"@,
        Primitive::I32 => "i32"@,
        Primitive::U32 => "u32"@,
        Primitive::I64 => "i64"@,
        Primitive::U64 => "u64"@,
        Primitive::I128 => "i128"@,
        Primitive::U128 => "u128"@,
        Primitive::F32 => "f32"@,
        Primitive::F64 => "f64"@,
        Primitive::Type => "type"@,
    }
}

pub fn primitive_name(p: Primitive) -> (s: &'static str)
    ensures
        s@ == primitive_text(p),
{
    match p {
        Primitive::I8 => "i8",
        Primitive::U8 => "u8",
        Primitive::I16 => "i16",
        Primitive::U16 => "u16",
        Primitive::I32 => "i32",
        Primitive::U32 => "u32",
        Primitive::I64 => "i64",
        Primitive::U64 => "u64",
        Primitive::I128 => "i128",
        Primitive::U128 => "u128",
        Primitive::F32 => "f32",
        Primitive::F64 => "f64",
        Primitive::Type => "type",
    }
}

/// Two more spaces.
pub open spec fn deeper(indent: Seq<char>) -> Seq<char> {
    indent + "  "@
}

fn one_deeper(indent: &str) -> (s: String)
    ensures
        s@ == deeper(indent@),
{
    let mut s: String = indent.to_owned();
    s.append("  ");
    s
}

/// What stands between the elements of a list.
pub open spec fn separator(first: bool) -> Seq<char> {
    if first {
        Seq::empty()
    } else {
        ", "@
    }
}

/// The definitions of a scope.
pub open spec fn scope_text(scope: Scope, indent: Seq<char>) -> Seq<char>
    decreases scope, 0int,
{
    definitions_text(scope.definitions@, indent, 0)
}

/// The definitions from position `i` on, with an empty line behind each.
pub open spec fn definitions_text(
    definitions: Seq<(String, Definition)>,
    indent: Seq<char>,
    i: nat,
) -> Seq<char>
    decreases definitions, definitions.len() - i,
{
    if i >= definitions.len() {
        Seq::empty()
    } else {
        let name = definitions[i as int].0@;
        (match definitions[i as int].1 {
            Definition::Expr { value, name_span } => name + " :: "@ + expr_text(value, indent),
            Definition::Use { path, text } => "use "@ + text@,
            Definition::Global { name_span, ty, val } => name + ": "@ + ty.text@ + " = "@
                + expr_text(val, deeper(indent)),
            Definition::Module => Seq::empty(),
            Definition::Generic => Seq::empty(),
        }) + "\n\n"@ + definitions_text(definitions, indent, i + 1)
    }
}

/// The items of a block from position `i` on, each on a line of its own.
pub open spec fn items_text(items: Seq<Expr>, indent: Seq<char>, i: nat) -> Seq<char>
    decreases items, items.len() - i,
{
    if i >= items.len() {
        Seq::empty()
    } else {
        indent + "  "@ + expr_text(items[i as int], deeper(indent)) + "\n"@ + items_text(
            items,
            indent,
            i + 1,
        )
    }
}

/// The expressions from position `i` on, in a list.
pub open spec fn exprs_text(exprs: Seq<Expr>, indent: Seq<char>, i: nat) -> Seq<char>
    decreases exprs, exprs.len() - i,
{
    if i >= exprs.len() {
        Seq::empty()
    } else {
        separator(i == 0) + expr_text(exprs[i as int], indent) + exprs_text(exprs, indent, i + 1)
    }
}

/// The named expressions from position `i` on. They go on with a list, unless they
/// are its first elements.
pub open spec fn named_text(
    named: Seq<(Name, Expr)>,
    first: bool,
    indent: Seq<char>,
    i: nat,
) -> Seq<char>
    decreases named, named.len() - i,
{
    if i >= named.len() {
        Seq::empty()
    } else {
        separator(first && i == 0) + named[i as int].0.text@ + ": "@ + expr_text(
            named[i as int].1,
            indent,
        ) + named_text(named, first, indent, i + 1)
    }
}

/// The parameters from position `i` on.
pub open spec fn params_text(params: Seq<(Name, UnresolvedType)>, i: nat) -> Seq<char>
    decreases params.len() - i,
{
    if i >= params.len() {
        Seq::empty()
    } else {
        separator(i == 0) + params[i as int].0.text@ + " "@ + params[i as int].1.text@
            + params_text(params, i + 1)
    }
}

/// The named parameters from position `i` on.
pub open spec fn named_params_text(
    params: Seq<NamedParam>,
    first: bool,
    indent: Seq<char>,
    i: nat,
) -> Seq<char>
    decreases params, params.len() - i,
{
    if i >= params.len() {
        Seq::empty()
    } else {
        let p = params[i as int];
        separator(first && i == 0) + p.name.text@ + " "@ + p.ty.text@ + " = "@ + expr_text(
            p.default_value,
            indent,
        ) + named_params_text(params, first, indent, i + 1)
    }
}

/// The branches from position `i` on, each on a line of its own.
pub open spec fn branches_text(branches: Seq<(Expr, Expr)>, indent: Seq<char>, i: nat) -> Seq<char>
    decreases branches, branches.len() - i,
{
    if i >= branches.len() {
        Seq::empty()
    } else {
        indent + "  "@ + expr_text(branches[i as int].0, deeper(indent)) + ": "@
            + expr_text(branches[i as int].1, deeper(deeper(indent))) + "\n"@ + branches_text(
            branches,
            indent,
            i + 1,
        )
    }
}

/// An expression.
pub open spec fn expr_text(e: Expr, indent: Seq<char>) -> Seq<char>
    decreases e, 0int,
{
    match e.kind {
        ExprKind::Error => "<error>"@,
        ExprKind::Block { scope, items } => "{\n"@ + scope_text(scope, deeper(indent)) + "\n"@ + items_text(items@, indent, 0) + "}"@,
        ExprKind::Nested(inner) => "("@ + expr_text(*inner, indent) + ")"@,
        ExprKind::IntLiteral(text) => text@,
        ExprKind::FloatLiteral(text) => text@,
        ExprKind::StringLiteral(text) => text@,
        ExprKind::Array(elements) => "["@ + exprs_text(elements@, indent, 0) + "]"@,
        ExprKind::Tuple { elements, named_elements } => "["@ + exprs_text(elements@, indent, 0) + named_text(named_elements@, elements@.len() == 0, indent, 0) + "]"@,
        ExprKind::EnumLiteral { ident, args } => "."@ + ident.text@ + "("@ + exprs_text(args@, indent, 0) + ")"@,
        ExprKind::Function(f) => "fn("@ + params_text(f.params@, 0) + named_params_text(f.named_params@, f.params@.len() == 0, indent, 0) + ") -> "@ + f.return_type.text@ + (match f.body {
            Some(body) => ": "@ + expr_text(*body, indent),
            None => " extern"@,
        }),
        ExprKind::Primitive(p) => primitive_text(p),
        ExprKind::TypeDeclaration(def) => Seq::empty(),
        ExprKind::Trait => Seq::empty(),
        ExprKind::Ident(text) => text@,
        ExprKind::DeclareWithVal { pat, annotated_ty, val } => expr_text(*pat, indent) + ": "@ + annotated_ty.text@ + " = "@ + expr_text(*val, indent),
        ExprKind::Hole => "_"@,
        ExprKind::UnOp { op, postfix, inner } => if postfix {
            expr_text(*inner, indent) + op@
        } else {
            op@ + expr_text(*inner, indent)
        },
        ExprKind::BinOp { op, l, r } => expr_text(*l, indent) + " "@ + op@ + " "@ + expr_text(*r, indent),
        ExprKind::As { value, ty } => expr_text(*value, indent) + " as "@ + ty.text@,
        ExprKind::Root => "root"@,
        ExprKind::MemberAccess { left, name } => expr_text(*left, indent) + "."@ + name.text@,
        ExprKind::Index { expr, idx } => expr_text(*expr, indent) + "["@ + expr_text(*idx, indent) + "]"@,
        ExprKind::TupleIdx { left, element } => expr_text(*left, indent) + "."@ + text::decimal(element as nat),
        ExprKind::ReturnUnit => "ret"@,
        ExprKind::Return { start, val } => "ret "@ + expr_text(*val, indent),
        ExprKind::If { start, cond, then_ } => "if "@ + expr_text(*cond, indent) + ": "@ + expr_text(*then_, indent),
        ExprKind::IfElse { start, cond, then_, else_ } => "if "@ + expr_text(*cond, indent) + ": "@ + expr_text(*then_, indent) + " else "@ + expr_text(*else_, indent),
        ExprKind::IfPat { start, pat, value, then_ } => "if "@ + expr_text(*pat, indent) + " := "@ + expr_text(*value, indent) + ": "@ + expr_text(*then_, indent),
        ExprKind::IfPatElse { start, pat, value, then_, else_ } => "if "@ + expr_text(*pat, indent) + " := "@ + expr_text(*value, indent) + ": "@ + expr_text(*then_, indent) + " else "@ + expr_text(*else_, indent),
        ExprKind::Match { val, branches } => "match "@ + expr_text(*val, indent) + " {\n"@ + branches_text(branches@, indent, 0) + indent + "}"@,
        ExprKind::While { start, cond, body } => "while "@ + expr_text(*cond, indent) + ": "@ + expr_text(*body, indent),
        ExprKind::WhilePat { start, pat, val, body } => "while "@ + expr_text(*pat, indent) + " := "@ + expr_text(*val, indent) + ": "@ + expr_text(*body, indent),
        ExprKind::For { start, pat, iter, body } => "for "@ + expr_text(*pat, indent) + " in "@ + expr_text(*iter, indent) + ": "@ + expr_text(*body, indent),
        ExprKind::FunctionCall { called_expr, args, named_args } => expr_text(*called_expr, indent) + "("@ + exprs_text(args@, indent, 0) + named_text(named_args@, args@.len() == 0, indent, 0) + ")"@,
        ExprKind::Asm { asm_str_span, args } => Seq::empty(),
        ExprKind::Break => "break"@,
        ExprKind::Continue => "continue"@,
    }
}

/// A file.
pub open spec fn ast_text(ast: Ast) -> Seq<char> {
    scope_text(ast.top_level, Seq::empty())
}

fn write_scope(s: &mut String, scope: &Scope, indent: &str)
    ensures
        final(s)@ == old(s)@ + scope_text(*scope, indent@),
    decreases scope, 0int,
{
    write_definitions(s, &scope.definitions, indent);
}

fn write_definitions(s: &mut String, definitions: &Vec<(String, Definition)>, indent: &str)
    ensures
        final(s)@ == old(s)@ + definitions_text(definitions@, indent@, 0),
    decreases definitions, 1int,
{
    let ghost before = s@;
    let mut i: usize = 0;
    while i < definitions.len()
        invariant
            i <= definitions@.len(),
            before + definitions_text(definitions@, indent@, 0) =~= s@ + definitions_text(definitions@, indent@, i as nat),
        decreases definitions.len() - i,
    {
        let ghost start = s@;
        match &definitions[i].1 {
            Definition::Expr { value, name_span } => {
                s.append(definitions[i].0.as_str());
                s.append(" :: ");
                write_expr(s, value, indent);
            },
            Definition::Use { path, text } => {
                s.append("use ");
                s.append(text.as_str());
            },
            Definition::Global { name_span, ty, val } => {
                s.append(definitions[i].0.as_str());
                s.append(": ");
                s.append(ty.text.as_str());
                s.append(" = ");
                write_expr(s, val, one_deeper(indent).as_str());
            },
            Definition::Module => {},
            Definition::Generic => {},
        }
        s.append("\n\n");
        assert(start + definitions_text(definitions@, indent@, i as nat) =~= s@ + definitions_text(definitions@, indent@, (i + 1) as nat));
        i += 1;
    }
    assert(s@ + definitions_text(definitions@, indent@, i as nat) =~= s@);
}

fn write_items(s: &mut String, items: &Vec<Expr>, indent: &str)
    ensures
        final(s)@ == old(s)@ + items_text(items@, indent@, 0),
    decreases items, 1int,
{
    let ghost before = s@;
    let mut i: usize = 0;
    while i < items.len()
        invariant
            i <= items@.len(),
            before + items_text(items@, indent@, 0) =~= s@ + items_text(items@, indent@, i as nat),
        decreases items.len() - i,
    {
        let ghost start = s@;
        s.append(indent);
        s.append("  ");
        write_expr(s, &items[i], one_deeper(indent).as_str());
        s.append("\n");
        assert(start + items_text(items@, indent@, i as nat) =~= s@ + items_text(items@, indent@, (i + 1) as nat));
        i += 1;
    }
    assert(s@ + items_text(items@, indent@, i as nat) =~= s@);
}

fn write_exprs(s: &mut String, exprs: &Vec<Expr>, indent: &str)
    ensures
        final(s)@ == old(s)@ + exprs_text(exprs@, indent@, 0),
    decreases exprs, 1int,
{
    let ghost before = s@;
    let mut i: usize = 0;
    while i < exprs.len()
        invariant
            i <= exprs@.len(),
            before + exprs_text(exprs@, indent@, 0) =~= s@ + exprs_text(exprs@, indent@, i as nat),
        decreases exprs.len() - i,
    {
        let ghost start = s@;
        if i != 0 {
            s.append(", ");
        }
        write_expr(s, &exprs[i], indent);
        assert(start + exprs_text(exprs@, indent@, i as nat) =~= s@ + exprs_text(exprs@, indent@, (i + 1) as nat));
        i += 1;
    }
    assert(s@ + exprs_text(exprs@, indent@, i as nat) =~= s@);
}

fn write_named(s: &mut String, named: &Vec<(Name, Expr)>, first: bool, indent: &str)
    ensures
        final(s)@ == old(s)@ + named_text(named@, first, indent@, 0),
    decreases named, 1int,
{
    let ghost before = s@;
    let mut i: usize = 0;
    while i < named.len()
        invariant
            i <= named@.len(),
            before + named_text(named@, first, indent@, 0) =~= s@ + named_text(named@, first, indent@, i as nat),
        decreases named.len() - i,
    {
        let ghost start = s@;
        if !(first && i == 0) {
            s.append(", ");
        }
        s.append(named[i].0.text.as_str());
        s.append(": ");
        write_expr(s, &named[i].1, indent);
        assert(start + named_text(named@, first, indent@, i as nat) =~= s@ + named_text(named@, first, indent@, (i + 1) as nat));
        i += 1;
    }
    assert(s@ + named_text(named@, first, indent@, i as nat) =~= s@);
}

fn write_params(s: &mut String, params: &Vec<(Name, UnresolvedType)>)
    ensures
        final(s)@ == old(s)@ + params_text(params@, 0),
{
    let ghost before = s@;
    let mut i: usize = 0;
    while i < params.len()
        invariant
            i <= params@.len(),
            before + params_text(params@, 0) =~= s@ + params_text(params@, i as nat),
        decreases params.len() - i,
    {
        let ghost start = s@;
        if i != 0 {
            s.append(", ");
        }
        s.append(params[i].0.text.as_str());
        s.append(" ");
        s.append(params[i].1.text.as_str());
        assert(start + params_text(params@, i as nat) =~= s@ + params_text(params@, (i + 1) as nat));
        i += 1;
    }
    assert(s@ + params_text(params@, i as nat) =~= s@);
}

fn write_named_params(s: &mut String, params: &Vec<NamedParam>, first: bool, indent: &str)
    ensures
        final(s)@ == old(s)@ + named_params_text(params@, first, indent@, 0),
    decreases params, 1int,
{
    let ghost before = s@;
    let mut i: usize = 0;
    while i < params.len()
        invariant
            i <= params@.len(),
            before + named_params_text(params@, first, indent@, 0) =~= s@ + named_params_text(params@, first, indent@, i as nat),
        decreases params.len() - i,
    {
        let ghost start = s@;
        if !(first && i == 0) {
            s.append(", ");
        }
        s.append(params[i].name.text.as_str());
        s.append(" ");
        s.append(params[i].ty.text.as_str());
        s.append(" = ");
        write_expr(s, &params[i].default_value, indent);
        assert(start + named_params_text(params@, first, indent@, i as nat) =~= s@ + named_params_text(params@, first, indent@, (i + 1) as nat));
        i += 1;
    }
    assert(s@ + named_params_text(params@, first, indent@, i as nat) =~= s@);
}

fn write_branches(s: &mut String, branches: &Vec<(Expr, Expr)>, indent: &str)
    ensures
        final(s)@ == old(s)@ + branches_text(branches@, indent@, 0),
    decreases branches, 1int,
{
    let ghost before = s@;
    let mut i: usize = 0;
    while i < branches.len()
        invariant
            i <= branches@.len(),
            before + branches_text(branches@, indent@, 0) =~= s@ + branches_text(branches@, indent@, i as nat),
        decreases branches.len() - i,
    {
        let ghost start = s@;
        s.append(indent);
        s.append("  ");
        write_expr(s, &branches[i].0, one_deeper(indent).as_str());
        s.append(": ");
        write_expr(s, &branches[i].1, one_deeper(one_deeper(indent).as_str()).as_str());
        s.append("\n");
        assert(start + branches_text(branches@, indent@, i as nat) =~= s@ + branches_text(branches@, indent@, (i + 1) as nat));
        i += 1;
    }
    assert(s@ + branches_text(branches@, indent@, i as nat) =~= s@);
}

/// Writes an expression.
#[verifier::rlimit(80)]
fn write_expr(s: &mut String, e: &Expr, indent: &str)
    ensures
        final(s)@ == old(s)@ + expr_text(*e, indent@),
    decreases e, 0int,
{
    let ghost before = s@;
    match &e.kind {
        ExprKind::Error => {
            s.append("<error>");
        },
        ExprKind::Block { scope, items } => {
            s.append("{\n");
            write_scope(s, scope, one_deeper(indent).as_str());
            s.append("\n");
            write_items(s, items, indent);
            s.append("}");
        },
        ExprKind::Nested(inner) => {
            s.append("(");
            write_expr(s, inner, indent);
            s.append(")");
        },
        ExprKind::IntLiteral(text) => {
            s.append(text.as_str());
        },
        ExprKind::FloatLiteral(text) => {
            s.append(text.as_str());
        },
        ExprKind::StringLiteral(text) => {
            s.append(text.as_str());
        },
        ExprKind::Array(elements) => {
            s.append("[");
            write_exprs(s, elements, indent);
            s.append("]");
        },
        ExprKind::Tuple { elements, named_elements } => {
            s.append("[");
            write_exprs(s, elements, indent);
            write_named(s, named_elements, elements.len() == 0, indent);
            s.append("]");
        },
        ExprKind::EnumLiteral { ident, args } => {
            s.append(".");
            s.append(ident.text.as_str());
            s.append("(");
            write_exprs(s, args, indent);
            s.append(")");
        },
        ExprKind::Function(f) => {
            s.append("fn(");
            write_params(s, &f.params);
            write_named_params(s, &f.named_params, f.params.len() == 0, indent);
            s.append(") -> ");
            s.append(f.return_type.text.as_str());
            match &f.body {
                Some(body) => {
                    s.append(": ");
                    write_expr(s, body, indent);
                },
                None => s.append(" extern"),
            }
        },
        ExprKind::Primitive(p) => {
            s.append(primitive_name(*p));
        },
        ExprKind::TypeDeclaration(def) => {},
        ExprKind::Trait => {},
        ExprKind::Ident(text) => {
            s.append(text.as_str());
        },
        ExprKind::DeclareWithVal { pat, annotated_ty, val } => {
            write_expr(s, pat, indent);
            s.append(": ");
            s.append(annotated_ty.text.as_str());
            s.append(" = ");
            write_expr(s, val, indent);
        },
        ExprKind::Hole => {
            s.append("_");
        },
        ExprKind::UnOp { op, postfix, inner } => if *postfix {
            write_expr(s, inner, indent);
            s.append(op.as_str());
        } else {
            s.append(op.as_str());
            write_expr(s, inner, indent);
        },
        ExprKind::BinOp { op, l, r } => {
            write_expr(s, l, indent);
            s.append(" ");
            s.append(op.as_str());
            s.append(" ");
            write_expr(s, r, indent);
        },
        ExprKind::As { value, ty } => {
            write_expr(s, value, indent);
            s.append(" as ");
            s.append(ty.text.as_str());
        },
        ExprKind::Root => {
            s.append("root");
        },
        ExprKind::MemberAccess { left, name } => {
            write_expr(s, left, indent);
            s.append(".");
            s.append(name.text.as_str());
        },
        ExprKind::Index { expr, idx } => {
            write_expr(s, expr, indent);
            s.append("[");
            write_expr(s, idx, indent);
            s.append("]");
        },
        ExprKind::TupleIdx { left, element } => {
            write_expr(s, left, indent);
            s.append(".");
            write_number(s, *element as u64);
        },
        ExprKind::ReturnUnit => {
            s.append("ret");
        },
        ExprKind::Return { start, val } => {
            s.append("ret ");
            write_expr(s, val, indent);
        },
        ExprKind::If { start, cond, then_ } => {
            s.append("if ");
            write_expr(s, cond, indent);
            s.append(": ");
            write_expr(s, then_, indent);
        },
        ExprKind::IfElse { start, cond, then_, else_ } => {
            s.append("if ");
            write_expr(s, cond, indent);
            s.append(": ");
            write_expr(s, then_, indent);
            s.append(" else ");
            write_expr(s, else_, indent);
        },
        ExprKind::IfPat { start, pat, value, then_ } => {
            s.append("if ");
            write_expr(s, pat, indent);
            s.append(" := ");
            write_expr(s, value, indent);
            s.append(": ");
            write_expr(s, then_, indent);
        },
        ExprKind::IfPatElse { start, pat, value, then_, else_ } => {
            s.append("if ");
            write_expr(s, pat, indent);
            s.append(" := ");
            write_expr(s, value, indent);
            s.append(": ");
            write_expr(s, then_, indent);
            s.append(" else ");
            write_expr(s, else_, indent);
        },
        ExprKind::Match { val, branches } => {
            s.append("match ");
            write_expr(s, val, indent);
            s.append(" {\n");
            write_branches(s, branches, indent);
            s.append(indent);
            s.append("}");
        },
        ExprKind::While { start, cond, body } => {
            s.append("while ");
            write_expr(s, cond, indent);
            s.append(": ");
            write_expr(s, body, indent);
        },
        ExprKind::WhilePat { start, pat, val, body } => {
            s.append("while ");
            write_expr(s, pat, indent);
            s.append(" := ");
            write_expr(s, val, indent);
            s.append(": ");
            write_expr(s, body, indent);
        },
        ExprKind::For { start, pat, iter, body } => {
            s.append("for ");
            write_expr(s, pat, indent);
            s.append(" in ");
            write_expr(s, iter, indent);
            s.append(": ");
            write_expr(s, body, indent);
        },
        ExprKind::FunctionCall { called_expr, args, named_args } => {
            write_expr(s, called_expr, indent);
            s.append("(");
            write_exprs(s, args, indent);
            write_named(s, named_args, args.len() == 0, indent);
            s.append(")");
        },
        ExprKind::Asm { asm_str_span, args } => {},
        ExprKind::Break => {
            s.append("break");
        },
        ExprKind::Continue => {
            s.append("continue");
        },
    }
    assert(s@ =~= before + expr_text(*e, indent@));
}

/// The text of a file.
pub fn display(ast: &Ast) -> (s: String)
    ensures
        s@ == ast_text(*ast),
{
    let mut s: String = String::new();
    write_scope(&mut s, &ast.top_level, "");
    proof {
        reveal_strlit("");
        assert(""@ =~= Seq::<char>::empty());
        assert(s@ =~= ast_text(*ast));
    }
    s
}

} // verus!
