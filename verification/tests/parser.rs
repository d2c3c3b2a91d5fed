use eye::compiler::types::Primitive;
use eye::lsp::find_in_ast::{find, find_at_offset_ty, Found, FoundType};
use eye::parser::ast::{
    Ast, Definition, Expr, ExprKind, Function, Generics, IdentPath, Name, Scope, ScopeId, TSpan,
    TypeKind, UnresolvedType,
};
use eye::parser::display::{display, primitive_name};

fn at(start: u32, end: u32, kind: ExprKind) -> Box<Expr> {
    Box::new(Expr { span: TSpan::new(start, end), kind })
}

fn name(start: u32, text: &str) -> Name {
    Name { span: TSpan::new(start, start + text.len() as u32), text: text.to_owned() }
}

fn primitive(start: u32, p: Primitive) -> UnresolvedType {
    let text = primitive_name(p).to_owned();
    UnresolvedType {
        span: TSpan::new(start, start + text.len() as u32),
        text,
        kind: TypeKind::Primitive(p),
    }
}

const FILE: ScopeId = ScopeId(0);
const MAIN: ScopeId = ScopeId(1);

fn file(definitions: Vec<(String, Definition)>, end: u32) -> Ast {
    Ast { top_level: Scope { id: FILE, span: TSpan::new(0, end), definitions } }
}

/// `main :: fn(x i32) -> i32: x.len + 12`
fn sample() -> Ast {
    let x = at(26, 27, ExprKind::Ident("x".to_owned()));
    let member = at(26, 31, ExprKind::MemberAccess { left: x, name: name(28, "len") });
    let twelve = at(34, 36, ExprKind::IntLiteral("12".to_owned()));
    let sum = at(26, 36, ExprKind::BinOp { op: "+".to_owned(), l: member, r: twelve });
    let function = Function {
        scope: MAIN,
        span: TSpan::new(8, 36),
        generics: Generics { types: vec![] },
        params: vec![(name(11, "x"), primitive(13, Primitive::I32))],
        named_params: vec![],
        return_type: primitive(21, Primitive::I32),
        body: Some(sum),
    };
    let value = *at(8, 36, ExprKind::Function(Box::new(function)));
    file(
        vec![("main".to_owned(), Definition::Expr { value, name_span: TSpan::new(0, 4) })],
        36,
    )
}

#[test]
fn files_are_displayed() {
    assert_eq!(display(&sample()), "main :: fn(x i32) -> i32: x.len + 12\n\n");
    let one = *at(9, 10, ExprKind::IntLiteral("1".to_owned()));
    let definitions = vec![
        ("std".to_owned(), Definition::Use { path: IdentPath(TSpan::new(4, 7)), text: "std".to_owned() }),
        (
            "g".to_owned(),
            Definition::Global { name_span: TSpan::new(0, 1), ty: primitive(3, Primitive::U8), val: one },
        ),
    ];
    assert_eq!(display(&file(definitions, 20)), "use std\n\ng: u8 = 1\n\n");
    assert_eq!(display(&file(vec![], 0)), "");
}

fn shown(kind: ExprKind) -> String {
    let value = *at(0, 1, kind);
    let d = Definition::Expr { value, name_span: TSpan::new(0, 1) };
    display(&file(vec![("a".to_owned(), d)], 1))
}

fn ident(s: &str) -> Box<Expr> {
    at(0, 1, ExprKind::Ident(s.to_owned()))
}

#[test]
fn expressions_are_displayed() {
    assert_eq!(shown(ExprKind::Nested(ident("x"))), "a :: (x)\n\n");
    assert_eq!(shown(ExprKind::Return { start: 0, val: ident("x") }), "a :: ret x\n\n");
    assert_eq!(shown(ExprKind::ReturnUnit), "a :: ret\n\n");
    assert_eq!(shown(ExprKind::TupleIdx { left: ident("t"), element: 12 }), "a :: t.12\n\n");
    assert_eq!(
        shown(ExprKind::Index { expr: ident("t"), idx: ident("i") }),
        "a :: t[i]\n\n",
    );
    assert_eq!(
        shown(ExprKind::As { value: ident("t"), ty: primitive(0, Primitive::F64) }),
        "a :: t as f64\n\n",
    );
    assert_eq!(
        shown(ExprKind::UnOp { op: "^".to_owned(), postfix: true, inner: ident("p") }),
        "a :: p^\n\n",
    );
    assert_eq!(
        shown(ExprKind::UnOp { op: "-".to_owned(), postfix: false, inner: ident("p") }),
        "a :: -p\n\n",
    );
    assert_eq!(
        shown(ExprKind::IfElse {
            start: 0,
            cond: ident("c"),
            then_: ident("x"),
            else_: ident("y"),
        }),
        "a :: if c: x else y\n\n",
    );
    assert_eq!(
        shown(ExprKind::While { start: 0, cond: ident("c"), body: ident("x") }),
        "a :: while c: x\n\n",
    );
    assert_eq!(
        shown(ExprKind::FunctionCall {
            called_expr: ident("f"),
            args: vec![*ident("x"), *ident("y")],
            named_args: vec![],
        }),
        "a :: f(x, y)\n\n",
    );
    assert_eq!(
        shown(ExprKind::EnumLiteral { ident: name(0, "Some"), args: vec![*ident("x")] }),
        "a :: .Some(x)\n\n",
    );
    assert_eq!(shown(ExprKind::Array(vec![])), "a :: []\n\n");
    assert_eq!(shown(ExprKind::Hole), "a :: _\n\n");
}

#[test]
fn blocks_are_indented() {
    let scope = Scope { id: ScopeId(2), span: TSpan::new(0, 1), definitions: vec![] };
    assert_eq!(
        shown(ExprKind::Block { scope, items: vec![*ident("x"), *ident("y")] }),
        "a :: {\n\n  x\n  y\n}\n\n",
    );
}

#[test]
fn names_of_primitives() {
    assert_eq!(primitive_name(Primitive::U128), "u128");
    assert_eq!(primitive_name(Primitive::Type), "type");
}

#[test]
fn things_are_found_at_their_places() {
    let ast = sample();
    let cases = [
        (0, FoundType::Definition, (0, 4), FILE),
        (3, FoundType::Definition, (0, 4), FILE),
        (8, FoundType::Keyword, (8, 10), MAIN),
        (11, FoundType::ParameterName, (11, 12), MAIN),
        (14, FoundType::Primitive(Primitive::I32), (13, 16), MAIN),
        (26, FoundType::Ident, (26, 27), MAIN),
        (29, FoundType::Member, (28, 31), MAIN),
        (35, FoundType::Literal, (34, 36), MAIN),
    ];
    for (offset, ty, (start, end), scope) in cases {
        assert_eq!(find(&ast, offset), Found { ty, span: TSpan::new(start, end), scope });
    }
    // nothing stands between the name and the function
    assert_eq!(
        find(&ast, 6),
        Found { ty: FoundType::Nothing, span: TSpan::new(0, 36), scope: FILE },
    );
    assert_eq!(find(&ast, 100).ty, FoundType::Nothing);
}

#[test]
fn types_are_found_at_their_places() {
    let path = IdentPath(TSpan::new(0, 4));
    let ty = UnresolvedType {
        span: TSpan::new(0, 9),
        text: "List[i32]".to_owned(),
        kind: TypeKind::Unresolved(path, vec![primitive(5, Primitive::I32)]),
    };
    assert_eq!(find_at_offset_ty(2, FILE, &ty).unwrap().ty, FoundType::Path(path));
    assert_eq!(
        find_at_offset_ty(6, FILE, &ty).unwrap().ty,
        FoundType::Primitive(Primitive::I32),
    );
    assert_eq!(find_at_offset_ty(9, FILE, &ty), None);
}

#[test]
fn spans_hold_their_start() {
    let span = TSpan::new(2, 4);
    assert!(span.contains(2) && span.contains(3) && !span.contains(4));
    assert!(span.contains_inclusive(4) && !span.contains_inclusive(5));
}
