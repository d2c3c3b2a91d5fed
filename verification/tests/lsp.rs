use eye::compiler::types::Primitive;
use eye::lsp::complete::{
    display_signature, CompletionAnswer, CompletionHooks, CompletionItemKind, LocalScope,
    LocalScopeParent, MemberTarget,
};
use eye::lsp::definition::{definition_query, goto_def, Answer, FindHooks, Place, Query};
use eye::lsp::find_in_ast::{Found, FoundType, ScopeContext};
use eye::lsp::hover::{HoverAnswer, HoverContents, MarkedString, VarInfo};
use eye::lsp::index::{
    BaseKind, BaseTypeInfo, ConstValue, Def, FunctionId, FunctionInfo, GlobalInfo, Index,
    LocalItem, ModuleId, ModuleInfo, ScopeInfo, Signature, TypeTarget,
};
use eye::lsp::server::{
    find_project_path, project_name, AddedAction, Directory, Lsp, NotificationKind, OpenAction,
    ProjectId, RequestKind, TextDocumentContentChange, UnsupportedRequest,
};
use eye::parser::ast::{ScopeId, TSpan};

const MODULE: ModuleId = ModuleId(0);
const PRELUDE: ModuleId = ModuleId(1);

fn text(s: &str) -> String {
    s.to_owned()
}

fn signature(named: bool) -> Signature {
    Signature {
        generics: vec![text("T")],
        params: vec![(text("a"), text("i32"))],
        named_params: if named { vec![(text("b"), text("u8"))] } else { vec![] },
        return_type: text("T"),
    }
}

fn module(path: &str, scopes: Vec<ScopeInfo>) -> ModuleInfo {
    ModuleInfo {
        path: text(path),
        root: MODULE,
        functions: vec![
            FunctionInfo {
                associated_name: TSpan::new(3, 7),
                span: TSpan::new(10, 30),
                signature: signature(false),
            },
            FunctionInfo {
                associated_name: TSpan::new(0, 0),
                span: TSpan::new(40, 50),
                signature: signature(true),
            },
        ],
        globals: vec![GlobalInfo {
            span: TSpan::new(60, 70),
            value: ConstValue::Int(12),
            ty: text("i32"),
        }],
        traits: vec![TSpan::new(80, 90)],
        scopes,
        top_level: ScopeId(0),
    }
}

fn lsp() -> Lsp {
    let scopes = vec![
        ScopeInfo {
            parent: None,
            definitions: vec![(text("run"), Def::Function(MODULE, FunctionId(0)))],
        },
        ScopeInfo {
            parent: Some(ScopeId(0)),
            definitions: vec![(text("Inner"), Def::BaseType(1))],
        },
    ];
    let prelude = vec![ScopeInfo {
        parent: None,
        definitions: vec![(text("Option"), Def::BaseType(2))],
    }];
    let index = Index {
        modules: vec![module("src/main.eye", scopes), module("std/prelude.eye", prelude)],
        base_types: vec![
            BaseTypeInfo {
                module: None,
                name_span: None,
                span: TSpan::new(0, 0),
                kind: BaseKind::Builtin,
            },
            BaseTypeInfo {
                module: Some(MODULE),
                name_span: Some(TSpan::new(1, 2)),
                span: TSpan::new(5, 9),
                kind: BaseKind::Struct,
            },
            BaseTypeInfo {
                module: Some(PRELUDE),
                name_span: None,
                span: TSpan::new(5, 9),
                kind: BaseKind::Enum,
            },
        ],
        const_values: vec![(ConstValue::Int(5), text("u8"))],
        prelude: PRELUDE,
    };
    Lsp { index, projects: vec![], std: None }
}

fn place(module: ModuleId, start: u32, end: u32) -> Option<Place> {
    Some(Place { module, span: TSpan::new(start, end) })
}

#[test]
fn definitions_have_places() {
    let ix = lsp().index;
    assert_eq!(goto_def(&ix, Def::Function(MODULE, FunctionId(0))), place(MODULE, 3, 7));
    assert_eq!(goto_def(&ix, Def::Function(MODULE, FunctionId(1))), place(MODULE, 40, 50));
    assert_eq!(goto_def(&ix, Def::Global(MODULE, 0)), place(MODULE, 60, 70));
    assert_eq!(goto_def(&ix, Def::Trait(MODULE, 0)), place(MODULE, 80, 90));
    assert_eq!(goto_def(&ix, Def::Module(PRELUDE)), place(PRELUDE, 0, 0));
    assert_eq!(goto_def(&ix, Def::BaseType(0)), None);
    assert_eq!(goto_def(&ix, Def::BaseType(1)), place(MODULE, 1, 2));
    assert_eq!(goto_def(&ix, Def::Type(TypeTarget::Instance(2))), place(PRELUDE, 5, 9));
    assert_eq!(goto_def(&ix, Def::ConstValue(0)), None);
    assert_eq!(goto_def(&ix, Def::Invalid), None);
}

fn found(ty: FoundType) -> Found {
    Found { ty, span: TSpan::new(4, 6), scope: ScopeId(1) }
}

#[test]
fn names_lead_to_their_definitions() {
    let lsp = lsp();
    let function = ScopeContext::Function(ScopeId(1));
    let answer = Answer {
        item: Some(LocalItem::Def(Def::Global(MODULE, 0))),
        ty: Some(TypeTarget::Instance(1)),
        resolved: Def::Module(MODULE),
    };
    assert_eq!(
        lsp.definition(found(FoundType::Ident), function, answer),
        place(MODULE, 60, 70),
    );
    let variable = Answer { item: Some(LocalItem::Var(0)), ..answer };
    assert_eq!(lsp.definition(found(FoundType::Ident), function, variable), None);
    let by_type = Answer { item: None, ..answer };
    assert_eq!(
        lsp.definition(found(FoundType::Member), function, by_type),
        place(MODULE, 1, 2),
    );
    assert_eq!(definition_query(found(FoundType::Nothing), function), Query::Nothing);
    assert_eq!(lsp.definition(found(FoundType::Nothing), function, answer), None);
}

#[test]
fn checked_expressions_are_found() {
    let span = TSpan::new(4, 6);
    let other = TSpan::new(4, 9);
    let mut hooks = FindHooks::new(span, FoundType::Ident);
    hooks.on_check_expr(other, None, LocalItem::Var(1), 7);
    assert_eq!((hooks.local_item, hooks.ty), (None, None));
    hooks.on_check_expr(span, None, LocalItem::Var(1), 7);
    assert_eq!((hooks.local_item, hooks.ty), (Some(LocalItem::Var(1)), Some(7)));
    let mut hooks = FindHooks::new(span, FoundType::Member);
    hooks.on_check_expr(other, Some(span), LocalItem::Var(1), 7);
    assert_eq!((hooks.local_item, hooks.ty), (None, Some(7)));
    let mut hooks = FindHooks::new(span, FoundType::Ident);
    hooks.on_check_pattern(span, LocalItem::Var(1), 7);
    assert_eq!((hooks.local_item, hooks.ty), (None, Some(7)));
}

fn asked(item: Option<LocalItem>, resolved: Def) -> HoverAnswer {
    HoverAnswer {
        name: text("name"),
        resolved,
        has_body: true,
        item,
        ty: Some(text("i32")),
        vars: vec![VarInfo { ty: text("u8"), capture_of: Some(3) }],
        debug_def: text("Def"),
        debug_found: text("Found"),
    }
}

fn hovered(ty: FoundType, answer: &HoverAnswer) -> String {
    let function = ScopeContext::Function(ScopeId(1));
    match lsp().hover(Some((MODULE, found(ty))), function, answer) {
        Some((HoverContents::Text(s), span)) => {
            assert_eq!(span, found(ty).span);
            s
        }
        other => panic!("unexpected {other:?}"),
    }
}

#[test]
fn definitions_are_shown() {
    let f = |id| asked(None, Def::Function(MODULE, FunctionId(id)));
    assert_eq!(hovered(FoundType::Definition, &f(0)), "```eye\nname :: fn[T](a i32)");
    assert_eq!(
        hovered(FoundType::Definition, &f(1)),
        "```eye\nname :: fn[T](a i32, b u8 = <TODO: display default>)",
    );
    assert_eq!(
        hovered(FoundType::Definition, &asked(None, Def::ConstValue(0))),
        "constant\n```eye\nname: u8 : 5\n```",
    );
    assert_eq!(
        hovered(FoundType::Definition, &asked(None, Def::Global(MODULE, 0))),
        "global\n```eye\nname: i32 = 12\n```",
    );
    assert_eq!(
        hovered(FoundType::Definition, &asked(None, Def::Module(PRELUDE))),
        "module std/prelude.eye",
    );
    assert_eq!(
        hovered(FoundType::Definition, &asked(None, Def::Trait(MODULE, 0))),
        "Definition Def",
    );
}

#[test]
fn expressions_are_shown() {
    assert_eq!(hovered(FoundType::Literal, &asked(None, Def::Invalid)), "name : i32");
    assert_eq!(
        hovered(FoundType::Ident, &asked(Some(LocalItem::Var(0)), Def::Invalid)),
        "```eye\nname: u8\n```\n---\nCapture of #3",
    );
    assert_eq!(
        hovered(FoundType::Ident, &asked(Some(LocalItem::Invalid), Def::Invalid)),
        "<invalid value>",
    );
    assert_eq!(hovered(FoundType::Error, &asked(None, Def::Invalid)), "syntax error");
    let mut answer = asked(None, Def::Invalid);
    answer.ty = None;
    assert_eq!(hovered(FoundType::Member, &answer), "expr not found");
}

#[test]
fn words_are_shown() {
    let function = ScopeContext::Function(ScopeId(1));
    let answer = asked(None, Def::Invalid);
    let shown = |ty| match lsp().hover(Some((MODULE, found(ty))), function, &answer) {
        Some((HoverContents::MarkedStrings(s), _)) => match (&s[0], &s[1]) {
            (MarkedString::String(a), MarkedString::Code(b)) => format!("{a}{b}"),
            other => panic!("unexpected {other:?}"),
        },
        other => panic!("unexpected {other:?}"),
    };
    assert_eq!(shown(FoundType::Keyword), "Keyword name");
    assert_eq!(shown(FoundType::Primitive(Primitive::U16)), "primitive type u16");
    assert_eq!(shown(FoundType::RootModule), "Root module at src/main.eye");
    let nothing = Some((MODULE, found(FoundType::Nothing)));
    assert!(lsp().hover(nothing, function, &answer).is_none());
    assert!(lsp().hover(None, function, &answer).is_none());
    let top = ScopeContext::TopLevel;
    for ty in [FoundType::Ident, FoundType::Literal, FoundType::EnumLiteral, FoundType::Member] {
        assert!(lsp().hover(Some((MODULE, found(ty))), top, &answer).is_none());
    }
}

fn completion(member_access: Option<MemberTarget>) -> CompletionAnswer {
    CompletionAnswer {
        has_body: true,
        member_access,
        variables: vec![(text("x"), 0)],
        types: vec![text("i32")],
        debug_found: text("Found"),
    }
}

#[test]
fn names_around_are_completed() {
    let function = ScopeContext::Function(ScopeId(1));
    let items = lsp().complete(Some((MODULE, ScopeId(1))), function, &completion(None));
    let labels: Vec<&str> = items.iter().map(|i| i.label.as_str()).collect();
    assert_eq!(labels, vec!["Inner", "run", "Option", "x"]);
    assert_eq!(items[0].kind, Some(CompletionItemKind::Struct));
    assert_eq!(items[1].kind, Some(CompletionItemKind::Function));
    assert_eq!(
        items[1].documentation,
        Some(text("```eye\nrun :: fn(a i32) -> T\n```")),
    );
    assert_eq!(items[2].kind, Some(CompletionItemKind::Enum));
    assert_eq!(items[3].label_description, Some(text(": i32")));
}

#[test]
fn members_are_completed() {
    let function = ScopeContext::Function(ScopeId(1));
    let tuple = MemberTarget::Tuple {
        members: vec![text("i32"), text("u8")],
        named_members: vec![(text("n"), text("f32"))],
    };
    let items = lsp().complete(Some((MODULE, ScopeId(1))), function, &completion(Some(tuple)));
    let labels: Vec<&str> = items.iter().map(|i| i.label.as_str()).collect();
    assert_eq!(labels, vec!["0", "1", "n"]);
    assert_eq!(items[1].label_detail, Some(text(": u8")));
    let instance = MemberTarget::Instance {
        fields: vec![(text("len"), text("u64"))],
        methods: vec![(text("push"), MODULE, FunctionId(1))],
    };
    let items = lsp().complete(Some((MODULE, ScopeId(1))), function, &completion(Some(instance)));
    assert_eq!(items[0].kind, Some(CompletionItemKind::Field));
    assert_eq!(
        items[1].documentation,
        Some(text("```eye\npush :: fn(a i32, b u8 = ...) -> T\n```")),
    );
    let none = completion(Some(MemberTarget::Other));
    assert!(lsp().complete(Some((MODULE, ScopeId(1))), function, &none).is_empty());
}

#[test]
fn files_are_completed_for_debugging() {
    let items = lsp().complete(Some((MODULE, ScopeId(0))), ScopeContext::TopLevel, &completion(None));
    assert_eq!(items.len(), 1);
    assert_eq!(items[0].label, "debug_completion_toplevel Found");
    assert_eq!(items[0].kind, None);
    assert!(lsp().complete(None, ScopeContext::TopLevel, &completion(None)).is_empty());
}

#[test]
fn signatures_are_displayed() {
    assert_eq!(display_signature(&signature(true)), "fn(a i32, b u8 = ...) -> T");
}

fn hooks() -> CompletionHooks {
    CompletionHooks {
        variables: vec![],
        target_scope: ScopeId(1),
        target_offset: 10,
        done: false,
        completing_member_access: None,
    }
}

fn scopes() -> LocalScope {
    LocalScope {
        static_scope: Some(ScopeId(1)),
        variables: vec![(text("y"), 1)],
        parent: LocalScopeParent::Scope(Box::new(LocalScope {
            static_scope: None,
            variables: vec![(text("x"), 0)],
            parent: LocalScopeParent::Nothing,
        })),
    }
}

#[test]
fn variables_are_collected_once() {
    let mut h = hooks();
    h.on_check_expr(0, TSpan::new(4, 6), None, 0, &scopes());
    assert!(!h.done && h.variables.is_empty());
    h.on_check_expr(1, TSpan::new(10, 12), None, 0, &scopes());
    assert!(h.done);
    assert_eq!(h.variables, vec![(text("y"), 1), (text("x"), 0)]);
    h.on_check_expr(2, TSpan::new(12, 13), None, 0, &scopes());
    h.on_exit_scope(&scopes());
    assert_eq!(h.variables.len(), 2);
}

#[test]
fn variables_of_the_scope_are_collected_at_its_end() {
    let mut h = hooks();
    let other = LocalScope {
        static_scope: Some(ScopeId(5)),
        variables: vec![(text("z"), 2)],
        parent: LocalScopeParent::Nothing,
    };
    h.on_exit_scope(&other);
    assert!(h.variables.is_empty());
    h.on_exit_scope(&scopes());
    assert_eq!(h.variables, vec![(text("y"), 1), (text("x"), 0)]);
}

#[test]
fn members_are_found_by_their_value() {
    let mut h = hooks();
    h.on_check_expr(3, TSpan::new(4, 12), Some((2, TSpan::new(9, 12))), 7, &scopes());
    assert_eq!(h.completing_member_access, Some((2, 7, None)));
    h.on_check_expr(2, TSpan::new(4, 8), None, 8, &scopes());
    assert_eq!(h.completing_member_access, Some((2, 7, Some(8))));
    assert!(h.done);
}

#[test]
fn messages_are_told_apart() {
    let lsp = lsp();
    assert_eq!(
        lsp.handle_notification("textDocument/didChange"),
        Some(NotificationKind::DidChange),
    );
    assert_eq!(lsp.handle_notification("initialized"), None);
    assert_eq!(lsp.handle_request("textDocument/hover"), Ok(RequestKind::Hover));
    assert_eq!(lsp.handle_request("textDocument/rename"), Err(UnsupportedRequest));
    assert_eq!(UnsupportedRequest.message(), "unsupported request");
}

#[test]
fn documents_change() {
    let lsp = lsp();
    let known = Some((ProjectId(2), MODULE));
    let change = |start, end, text: &str| TextDocumentContentChange {
        span: TSpan::new(start, end),
        text: text.as_bytes().to_vec(),
    };
    let changes = vec![change(0, 5, "Good bye"), change(8, 9, ", ")];
    let text = b"Hello world".to_vec();
    assert_eq!(
        lsp.did_change(known, &text, &changes),
        Some((ProjectId(2), MODULE, b"Good bye, world".to_vec())),
    );
    assert_eq!(lsp.did_change(None, &text, &changes), None);
    assert_eq!(lsp.did_save(known), Some(ProjectId(2)));
    assert_eq!(lsp.did_open(None), OpenAction::AddProject);
    assert_eq!(lsp.did_open(known), OpenAction::Update(ProjectId(2), MODULE));
}

#[test]
fn projects_are_added() {
    let mut lsp = lsp();
    assert_eq!(lsp.project_added(None, None), AddedAction::Nothing);
    assert_eq!(lsp.project_added(Some(ProjectId(4)), None), AddedAction::Nothing);
    assert_eq!(
        lsp.project_added(Some(ProjectId(5)), Some(MODULE)),
        AddedAction::Update(ProjectId(5), MODULE),
    );
    assert_eq!(lsp.projects, vec![ProjectId(4), ProjectId(5)]);
}

#[test]
fn documents_with_errors_are_not_formatted() {
    let lsp = lsp();
    assert!(lsp.formatting(3, b"x".to_vec(), 1).is_none());
    let changes = lsp.formatting(3, b"x\n".to_vec(), 0).unwrap();
    assert_eq!(changes.len(), 1);
    assert_eq!(changes[0].span, TSpan::new(0, 3));
    assert_eq!(changes[0].text, b"x\n".to_vec());
}

#[test]
fn projects_have_roots() {
    let dir = |has_main, has_mod| Directory { has_main, has_mod };
    assert_eq!(find_project_path(&vec![dir(false, true), dir(true, false)]), Some(1));
    assert_eq!(find_project_path(&vec![dir(false, false), dir(true, false)]), None);
    assert_eq!(find_project_path(&vec![]), None);
    assert_eq!(project_name(true, Some("main"), Some("main.eye")), "main");
    assert_eq!(project_name(false, Some("a"), Some("a.b")), "a.b");
    assert_eq!(project_name(true, None, None), "unknown");
}
