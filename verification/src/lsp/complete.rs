//! What can stand at the cursor.
use vstd::prelude::*;

use crate::lsp::find_in_ast::ScopeContext;
use crate::lsp::hover;
use crate::lsp::hover::write_all_params;
use crate::lsp::index::{
    BaseKind, Def, FunctionId, Index, ModuleId, ScopeInfo, Signature, TypeTarget,
};
use crate::lsp::server::Lsp;
use crate::parser::ast::{ScopeId, TSpan};
use crate::text;
use crate::text::write_number;

verus! {

#[derive(Clone, Copy, Debug, PartialEq, Eq, Structural)]
pub enum CompletionItemKind {
    Function,
    Field,
    Variable,
    Interface,
    Module,
    Enum,
    Constant,
    Struct,
    TypeParameter,
}

#[derive(Debug)]
pub struct CompletionItem {
    pub label: String,
    pub kind: Option<CompletionItemKind>,
    pub detail: Option<String>,
    /// What stands behind the label.
    pub label_detail: Option<String>,
    pub label_description: Option<String>,
    /// Text with markup.
    pub documentation: Option<String>,
}

/// The mathematical content of a [`CompletionItem`].
#[verifier::ext_equal]
pub struct ItemView {
    pub label: Seq<char>,
    pub kind: Option<CompletionItemKind>,
    pub detail: Option<Seq<char>>,
    pub label_detail: Option<Seq<char>>,
    pub label_description: Option<Seq<char>>,
    pub documentation: Option<Seq<char>>,
}

pub open spec fn optional(s: Option<String>) -> Option<Seq<char>> {
    match s {
        Some(s) => Some(s@),
        None => None,
    }
}

impl View for CompletionItem {
    type V = ItemView;

    open spec fn view(&self) -> ItemView {
        ItemView {
            label: self.label@,
            kind: self.kind,
            detail: optional(self.detail),
            label_detail: optional(self.label_detail),
            label_description: optional(self.label_description),
            documentation: optional(self.documentation),
        }
    }
}

pub open spec fn views(items: Seq<CompletionItem>) -> Seq<ItemView> {
    items.map_values(|i: CompletionItem| i@)
}

fn push(items: &mut Vec<CompletionItem>, item: CompletionItem)
    ensures
        views(final(items)@) == views(old(items)@).push(item@),
{
    let ghost before = items@;
    let ghost view = item@;
    items.push(item);
    assert(views(items@) =~= views(before).push(view));
}

/// Only a label and a kind.
pub open spec fn plain(label: Seq<char>, kind: Option<CompletionItemKind>) -> ItemView {
    ItemView {
        label,
        kind,
        detail: None,
        label_detail: None,
        label_description: None,
        documentation: None,
    }
}

fn plain_item(label: &str, kind: Option<CompletionItemKind>) -> (item: CompletionItem)
    ensures
        item@ == plain(label@, kind),
{
    CompletionItem {
        label: label.to_owned(),
        kind,
        detail: None,
        label_detail: None,
        label_description: None,
        documentation: None,
    }
}

/// A signature as it is written.
pub open spec fn signature_text(s: Signature) -> Seq<char> {
    "fn("@ + hover::all_params_text(s, " = ..."@) + ") -> "@ + s.return_type@
}

/// Displays a signature.
pub fn display_signature(signature: &Signature) -> (s: String)
    ensures
        s@ == signature_text(*signature),
{
    let mut s: String = "fn(".to_owned();
    write_all_params(&mut s, signature, " = ...");
    s.append(") -> ");
    s.append(signature.return_type.as_str());
    s
}

/// A function that can be called.
pub open spec fn function_item(ix: Index, name: Seq<char>, m: ModuleId, f: FunctionId) -> ItemView {
    ItemView {
        documentation: Some(
            "```eye\n"@ + name + " :: "@ + signature_text(ix.function(m, f).signature) + "\n```"@,
        ),
        ..plain(name, Some(CompletionItemKind::Function))
    }
}

fn function_completion(ix: &Index, name: &str, m: ModuleId, f: FunctionId) -> (item: CompletionItem)
    requires
        ix.has_function(m, f),
    ensures
        item@ == function_item(*ix, name@, m, f),
{
    let mut doc: String = "```eye\n".to_owned();
    doc.append(name);
    doc.append(" :: ");
    let signature: String = display_signature(&ix.get_function(m, f).signature);
    doc.append(signature.as_str());
    doc.append("\n```");
    let item = CompletionItem {
        label: name.to_owned(),
        kind: Some(CompletionItemKind::Function),
        detail: None,
        label_detail: None,
        label_description: None,
        documentation: Some(doc),
    };
    item
}

pub open spec fn kind_of_base(ix: Index, b: u32) -> CompletionItemKind {
    match ix.base_types@[b as int].kind {
        BaseKind::Builtin | BaseKind::Struct => CompletionItemKind::Struct,
        BaseKind::Enum => CompletionItemKind::Enum,
    }
}

fn base_kind(ix: &Index, b: u32) -> (kind: CompletionItemKind)
    requires
        b < ix.base_types@.len(),
    ensures
        kind == kind_of_base(*ix, b),
{
    match ix.base_types[b as usize].kind {
        BaseKind::Builtin | BaseKind::Struct => CompletionItemKind::Struct,
        BaseKind::Enum => CompletionItemKind::Enum,
    }
}

/// A definition that can be named.
pub open spec fn def_item(ix: Index, name: Seq<char>, d: Def) -> ItemView {
    match d {
        Def::Function(m, f) => function_item(ix, name, m, f),
        _ => plain(
            name,
            Some(
                match d {
                    Def::BaseType(b) => kind_of_base(ix, b),
                    Def::Type(TypeTarget::Instance(b)) => kind_of_base(ix, b),
                    Def::Type(TypeTarget::Tuple) => CompletionItemKind::Struct,
                    Def::Type(TypeTarget::FunctionItem(_, _)) => CompletionItemKind::Function,
                    Def::Type(TypeTarget::Generic) => CompletionItemKind::TypeParameter,
                    Def::Trait(_, _) => CompletionItemKind::Interface,
                    Def::Module(_) => CompletionItemKind::Module,
                    Def::Global(_, _) => CompletionItemKind::Variable,
                    _ => CompletionItemKind::Constant,
                },
            ),
        ),
    }
}

fn def_completion(ix: &Index, name: &str, d: Def) -> (item: CompletionItem)
    requires
        ix.has_def(d),
    ensures
        item@ == def_item(*ix, name@, d),
{
    let kind: CompletionItemKind = match d {
        Def::Invalid => CompletionItemKind::Constant,
        Def::Function(m, f) => {
            return function_completion(ix, name, m, f);
        },
        Def::BaseType(b) => base_kind(ix, b),
        Def::Type(t) => match t {
            TypeTarget::Instance(b) => base_kind(ix, b),
            TypeTarget::Tuple => CompletionItemKind::Struct,
            TypeTarget::FunctionItem(_, _) => CompletionItemKind::Function,
            TypeTarget::Generic => CompletionItemKind::TypeParameter,
            TypeTarget::Const => CompletionItemKind::Constant,
        },
        Def::Trait(_, _) => CompletionItemKind::Interface,
        Def::ConstValue(_) => CompletionItemKind::Constant,
        Def::Module(_) => CompletionItemKind::Module,
        Def::Global(_, _) => CompletionItemKind::Variable,
    };
    plain_item(name, Some(kind))
}

/// The first `n` definitions of a scope.
pub open spec fn scope_items(ix: Index, definitions: Seq<(String, Def)>, n: int) -> Seq<ItemView>
    decreases n,
{
    if n <= 0 {
        Seq::empty()
    } else {
        scope_items(ix, definitions, n - 1).push(
            def_item(ix, definitions[n - 1].0@, definitions[n - 1].1),
        )
    }
}

/// The definitions of a scope and of those around it, the nearest first. There are no more
/// scopes around one than the module has.
pub open spec fn enclosing_items(ix: Index, m: ModuleId, scope: ScopeId, depth: nat) -> Seq<ItemView>
    decreases depth,
{
    if depth == 0 {
        Seq::empty()
    } else {
        let info = ix.modules@[m.0 as int].scopes@[scope.0 as int];
        let own = scope_items(ix, info.definitions@, info.definitions@.len() as int);
        match info.parent {
            Some(parent) => own + enclosing_items(ix, m, parent, (depth - 1) as nat),
            None => own,
        }
    }
}

pub open spec fn items_around(ix: Index, m: ModuleId, scope: ScopeId) -> Seq<ItemView> {
    enclosing_items(ix, m, scope, ix.modules@[m.0 as int].scopes@.len())
}

/// The definitions that are known in a scope: those around it, then those that are known
/// everywhere.
pub open spec fn const_items(ix: Index, m: ModuleId, scope: ScopeId) -> Seq<ItemView> {
    items_around(ix, m, scope) + items_around(
        ix,
        ix.prelude,
        ix.modules@[ix.prelude.0 as int].top_level,
    )
}

/// All scopes lie in scopes of the module, and what they define exists.
pub open spec fn scopes_fit(ix: Index, m: ModuleId) -> bool {
    &&& ix.has_module(m)
    &&& forall|s: int|
        0 <= s < ix.modules@[m.0 as int].scopes@.len() ==> {
            let info = #[trigger] ix.modules@[m.0 as int].scopes@[s];
            &&& info.parent matches Some(p) ==> p.0 < ix.modules@[m.0 as int].scopes@.len()
            &&& forall|i: int|
                0 <= i < info.definitions@.len() ==> ix.has_def(
                    (#[trigger] info.definitions@[i]).1,
                )
        }
}

fn complete_scopes(ix: &Index, m: ModuleId, scope: ScopeId, items: &mut Vec<CompletionItem>)
    requires
        scopes_fit(*ix, m),
        scope.0 < ix.modules@[m.0 as int].scopes@.len(),
    ensures
        views(final(items)@) == views(old(items)@) + items_around(*ix, m, scope),
{
    let ghost start = views(items@);
    let count: usize = ix.modules[m.0 as usize].scopes.len();
    let mut depth: usize = count;
    let mut current: Option<ScopeId> = Some(scope);
    let ghost all = items_around(*ix, m, scope);
    while depth > 0
        invariant_except_break
            match current {
                Some(s) => s.0 < count && start + all =~= views(items@) + enclosing_items(
                    *ix,
                    m,
                    s,
                    depth as nat,
                ),
                None => start + all =~= views(items@),
            },
        invariant
            scopes_fit(*ix, m),
            count == ix.modules@[m.0 as int].scopes@.len(),
        ensures
            start + all =~= views(items@),
        decreases depth,
    {
        let s: ScopeId = match current {
            Some(s) => s,
            None => {
                break;
            },
        };
        let info: &ScopeInfo = &ix.modules[m.0 as usize].scopes[s.0 as usize];
        let ghost fact = ix.modules@[m.0 as int].scopes@[s.0 as int];
        assert(*info == fact);
        let ghost before = views(items@);
        let mut i: usize = 0;
        while i < info.definitions.len()
            invariant
                i <= info.definitions@.len(),
                forall|i: int|
                    0 <= i < info.definitions@.len() ==> ix.has_def(
                        (#[trigger] info.definitions@[i]).1,
                    ),
                views(items@) =~= before + scope_items(*ix, info.definitions@, i as int),
            decreases info.definitions.len() - i,
        {
            let (name, d) = &info.definitions[i];
            push(items, def_completion(ix, name.as_str(), *d));
            i += 1;
        }
        current = info.parent;
        depth -= 1;
    }
}

fn const_completions(ix: &Index, m: ModuleId, scope: ScopeId, items: &mut Vec<CompletionItem>)
    requires
        scopes_fit(*ix, m),
        scopes_fit(*ix, ix.prelude),
        scope.0 < ix.modules@[m.0 as int].scopes@.len(),
        ix.modules@[ix.prelude.0 as int].top_level.0
            < ix.modules@[ix.prelude.0 as int].scopes@.len(),
    ensures
        views(final(items)@) == views(old(items)@) + const_items(*ix, m, scope),
{
    let ghost before = views(items@);
    complete_scopes(ix, m, scope, items);
    let top: ScopeId = ix.modules[ix.prelude.0 as usize].top_level;
    complete_scopes(ix, ix.prelude, top, items);
    assert(views(items@) =~= before + const_items(*ix, m, scope));
}

/// A member of a value, with its type as it is displayed.
pub open spec fn member_item(name: Seq<char>, ty: Seq<char>) -> ItemView {
    ItemView {
        detail: Some(ty),
        label_detail: Some(": "@ + ty),
        ..plain(name, Some(CompletionItemKind::Field))
    }
}

fn member_completion(name: &str, ty: &str) -> (item: CompletionItem)
    ensures
        item@ == member_item(name@, ty@),
{
    let mut label_detail: String = ": ".to_owned();
    label_detail.append(ty);
    CompletionItem {
        label: name.to_owned(),
        kind: Some(CompletionItemKind::Field),
        detail: Some(ty.to_owned()),
        label_detail: Some(label_detail),
        label_description: None,
        documentation: None,
    }
}

/// What the value before a member is.
#[derive(Debug)]
pub enum MemberTarget {
    /// A type that was defined, with its fields and methods.
    Instance { fields: Vec<(String, String)>, methods: Vec<(String, ModuleId, FunctionId)> },
    /// A tuple, with its types in their order and its named members.
    Tuple { members: Vec<String>, named_members: Vec<(String, String)> },
    Other,
}

pub open spec fn named_member_items(members: Seq<(String, String)>, n: int) -> Seq<ItemView>
    decreases n,
{
    if n <= 0 {
        Seq::empty()
    } else {
        named_member_items(members, n - 1).push(
            member_item(members[n - 1].0@, members[n - 1].1@),
        )
    }
}

/// The members without names are numbered.
pub open spec fn numbered_items(members: Seq<String>, n: int) -> Seq<ItemView>
    decreases n,
{
    if n <= 0 {
        Seq::empty()
    } else {
        numbered_items(members, n - 1).push(
            member_item(text::decimal((n - 1) as nat), members[n - 1]@),
        )
    }
}

pub open spec fn method_items(ix: Index, methods: Seq<(String, ModuleId, FunctionId)>, n: int) -> Seq<
    ItemView,
>
    decreases n,
{
    if n <= 0 {
        Seq::empty()
    } else {
        method_items(ix, methods, n - 1).push(
            function_item(ix, methods[n - 1].0@, methods[n - 1].1, methods[n - 1].2),
        )
    }
}

/// The members of a value.
pub open spec fn member_items(ix: Index, t: MemberTarget) -> Seq<ItemView> {
    match t {
        MemberTarget::Instance { fields, methods } => named_member_items(
            fields@,
            fields@.len() as int,
        ) + method_items(ix, methods@, methods@.len() as int),
        MemberTarget::Tuple { members, named_members } => numbered_items(
            members@,
            members@.len() as int,
        ) + named_member_items(named_members@, named_members@.len() as int),
        MemberTarget::Other => Seq::empty(),
    }
}

pub open spec fn methods_fit(ix: Index, t: MemberTarget) -> bool {
    t matches MemberTarget::Instance { fields, methods } ==> forall|i: int|
        0 <= i < methods@.len() ==> ix.has_function(
            (#[trigger] methods@[i]).1,
            methods@[i].2,
        )
}

fn push_named(members: &Vec<(String, String)>, items: &mut Vec<CompletionItem>)
    ensures
        views(final(items)@) == views(old(items)@) + named_member_items(
            members@,
            members@.len() as int,
        ),
{
    let ghost before = views(items@);
    let mut i: usize = 0;
    while i < members.len()
        invariant
            i <= members@.len(),
            views(items@) =~= before + named_member_items(members@, i as int),
        decreases members.len() - i,
    {
        push(items, member_completion(members[i].0.as_str(), members[i].1.as_str()));
        i += 1;
    }
}

fn member_access_completion(ix: &Index, target: &MemberTarget, items: &mut Vec<CompletionItem>)
    requires
        methods_fit(*ix, *target),
    ensures
        views(final(items)@) == views(old(items)@) + member_items(*ix, *target),
{
    let ghost start = views(items@);
    match target {
        MemberTarget::Instance { fields, methods } => {
            push_named(fields, items);
            let ghost before = views(items@);
            let mut i: usize = 0;
            while i < methods.len()
                invariant
                    i <= methods@.len(),
                    forall|i: int|
                        0 <= i < methods@.len() ==> ix.has_function(
                            (#[trigger] methods@[i]).1,
                            methods@[i].2,
                        ),
                    views(items@) =~= before + method_items(*ix, methods@, i as int),
                decreases methods.len() - i,
            {
                let (name, module, function) = &methods[i];
                assert(ix.has_function(methods@[i as int].1, methods@[i as int].2));
                push(items, function_completion(ix, name.as_str(), *module, *function));
                i += 1;
            }
            assert(views(items@) =~= start + member_items(*ix, *target));
        },
        MemberTarget::Tuple { members, named_members } => {
            let ghost before = views(items@);
            let mut i: usize = 0;
            while i < members.len()
                invariant
                    i <= members@.len(),
                    views(items@) =~= before + numbered_items(members@, i as int),
                decreases members.len() - i,
            {
                let mut name: String = "".to_owned();
                write_number(&mut name, i as u64);
                proof {
                    reveal_strlit("");
                    assert(name@ =~= text::decimal(i as nat));
                }
                push(items, member_completion(name.as_str(), members[i].as_str()));
                i += 1;
            }
            push_named(named_members, items);
            assert(views(items@) =~= start + member_items(*ix, *target));
        },
        MemberTarget::Other => {
            assert(views(items@) =~= start + member_items(*ix, *target));
        },
    }
}

/// The text that stands in for a documentation.
pub open spec fn sample_documentation() -> Seq<char> {
    "Documentation for completion will go here\n\nCode block test:\n```eye\nexample :: fn(x i32) {}\n```"@
}

/// A variable, with its type as it is displayed.
pub open spec fn variable_item(name: Seq<char>, ty: Seq<char>) -> ItemView {
    ItemView {
        label_description: Some(": "@ + ty),
        documentation: Some(sample_documentation()),
        ..plain(name, Some(CompletionItemKind::Variable))
    }
}

fn variable_completion(name: &str, ty: &str) -> (item: CompletionItem)
    ensures
        item@ == variable_item(name@, ty@),
{
    let mut label_description: String = ": ".to_owned();
    label_description.append(ty);
    CompletionItem {
        label: name.to_owned(),
        kind: Some(CompletionItemKind::Variable),
        detail: None,
        label_detail: None,
        label_description: Some(label_description),
        documentation: Some(
            "Documentation for completion will go here\n\nCode block test:\n```eye\nexample :: fn(x i32) {}\n```".to_owned(),
        ),
    }
}

pub open spec fn variable_items(variables: Seq<(String, u32)>, types: Seq<String>, n: int) -> Seq<
    ItemView,
>
    decreases n,
{
    if n <= 0 {
        Seq::empty()
    } else {
        variable_items(variables, types, n - 1).push(
            variable_item(variables[n - 1].0@, types[variables[n - 1].1 as int]@),
        )
    }
}

/// What the compiler answers about the function around the cursor.
#[derive(Debug)]
pub struct CompletionAnswer {
    /// The function has a body.
    pub has_body: bool,
    /// The value whose member is completed.
    pub member_access: Option<MemberTarget>,
    /// The variables that are known at the cursor, with their numbers.
    pub variables: Vec<(String, u32)>,
    /// The types of all variables of the function, as they are displayed.
    pub types: Vec<String>,
    /// What was found as it is written for debugging.
    pub debug_found: String,
}

/// What can stand at a position: nothing where no document was found.
pub open spec fn answered(
    ix: Index,
    position: Option<(ModuleId, ScopeId)>,
    context: ScopeContext,
    a: CompletionAnswer,
) -> Seq<ItemView> {
    match position {
        Some((m, scope)) => completed(ix, m, scope, context, a),
        None => Seq::empty(),
    }
}

/// What can stand at the cursor.
pub open spec fn completed(
    ix: Index,
    m: ModuleId,
    scope: ScopeId,
    context: ScopeContext,
    a: CompletionAnswer,
) -> Seq<ItemView> {
    match context {
        ScopeContext::TopLevel => seq![plain("debug_completion_toplevel "@ + a.debug_found@, None)],
        ScopeContext::Function(_) => if !a.has_body {
            Seq::empty()
        } else {
            match a.member_access {
                Some(target) => member_items(ix, target),
                None => const_items(ix, m, scope) + variable_items(
                    a.variables@,
                    a.types@,
                    a.variables@.len() as int,
                ),
            }
        },
    }
}

pub open spec fn answer_fits(ix: Index, m: ModuleId, scope: ScopeId, a: CompletionAnswer) -> bool {
    &&& scopes_fit(ix, m)
    &&& scopes_fit(ix, ix.prelude)
    &&& scope.0 < ix.modules@[m.0 as int].scopes@.len()
    &&& ix.modules@[ix.prelude.0 as int].top_level.0
        < ix.modules@[ix.prelude.0 as int].scopes@.len()
    &&& a.member_access matches Some(t) ==> methods_fit(ix, t)
    &&& forall|i: int|
        0 <= i < a.variables@.len() ==> (#[trigger] a.variables@[i]).1 < a.types@.len()
}

impl Lsp {
    /// Lists what can stand at a position, which is given by the scope that was found there.
    /// The list is empty if no document was found.
    pub fn complete(
        &self,
        position: Option<(ModuleId, ScopeId)>,
        context: ScopeContext,
        a: &CompletionAnswer,
    ) -> (items: Vec<CompletionItem>)
        requires
            position matches Some((m, scope)) ==> answer_fits(self.index, m, scope, *a),
        ensures
            views(items@) == answered(self.index, position, context, *a),
            position is None ==> items@.len() == 0,
    {
        match position {
            Some((m, scope)) => self.complete_in_scope(m, scope, context, a),
            None => {
                let items: Vec<CompletionItem> = Vec::new();
                assert(views(items@) =~= Seq::empty());
                items
            },
        }
    }

    fn complete_in_scope(
        &self,
        m: ModuleId,
        scope: ScopeId,
        context: ScopeContext,
        a: &CompletionAnswer,
    ) -> (items: Vec<CompletionItem>)
        requires
            answer_fits(self.index, m, scope, *a),
        ensures
            views(items@) == completed(self.index, m, scope, context, *a),
    {
        let mut items: Vec<CompletionItem> = Vec::new();
        assert(views(items@) =~= Seq::empty());
        match context {
            ScopeContext::TopLevel => {
                let mut label: String = "debug_completion_toplevel ".to_owned();
                label.append(a.debug_found.as_str());
                push(&mut items, plain_item(label.as_str(), None));
                assert(views(items@) =~= completed(self.index, m, scope, context, *a));
            },
            ScopeContext::Function(_) => {
                if a.has_body {
                    match &a.member_access {
                        Some(target) => {
                            member_access_completion(&self.index, target, &mut items);
                        },
                        None => {
                            const_completions(&self.index, m, scope, &mut items);
                            let ghost before = views(items@);
                            let mut i: usize = 0;
                            while i < a.variables.len()
                                invariant
                                    i <= a.variables@.len(),
                                    forall|i: int|
                                        0 <= i < a.variables@.len() ==> (
                                        #[trigger] a.variables@[i]).1 < a.types@.len(),
                                    views(items@) =~= before + variable_items(
                                        a.variables@,
                                        a.types@,
                                        i as int,
                                    ),
                                decreases a.variables.len() - i,
                            {
                                let (name, variable) = &a.variables[i];
                                assert(a.variables@[i as int].1 < a.types@.len());
                                let ty: &String = &a.types[*variable as usize];
                                push(&mut items, variable_completion(name.as_str(), ty.as_str()));
                                i += 1;
                            }
                        },
                    }
                }
                assert(views(items@) =~= completed(self.index, m, scope, context, *a));
            },
        }
        items
    }
}

/// A scope inside a function.
#[derive(Debug)]
pub struct LocalScope {
    pub static_scope: Option<ScopeId>,
    /// The variables that the scope itself holds.
    pub variables: Vec<(String, u32)>,
    pub parent: LocalScopeParent,
}

/// What is around a scope.
#[derive(Debug)]
pub enum LocalScopeParent {
    Scope(Box<LocalScope>),
    /// The scope of a closure.
    ClosedOver,
    Nothing,
}

/// Variables with their names.
pub open spec fn named(variables: Seq<(String, u32)>) -> Seq<(Seq<char>, u32)> {
    variables.map_values(|v: (String, u32)| (v.0@, v.1))
}

impl LocalScope {
    /// The variables that are known in the scope: its own, and then those of the scopes around
    /// it up to a closure.
    pub open spec fn known(self) -> Seq<(Seq<char>, u32)>
        decreases self,
    {
        named(self.variables@) + match self.parent {
            LocalScopeParent::Scope(parent) => parent.known(),
            _ => Seq::empty(),
        }
    }
}

/// Collects what is known at the cursor while a function is checked.
#[derive(Debug)]
pub struct CompletionHooks {
    pub variables: Vec<(String, u32)>,
    pub target_scope: ScopeId,
    pub target_offset: u32,
    pub done: bool,
    /// The left expression in case the access to a member should be completed, with the type
    /// that is expected of the member and that of the left expression once it is known.
    pub completing_member_access: Option<(u32, u32, Option<u32>)>,
}

/// The mathematical content of [`CompletionHooks`].
#[verifier::ext_equal]
pub struct HooksView {
    pub variables: Seq<(Seq<char>, u32)>,
    pub target_scope: ScopeId,
    pub target_offset: u32,
    pub done: bool,
    pub completing_member_access: Option<(u32, u32, Option<u32>)>,
}

impl View for CompletionHooks {
    type V = HooksView;

    open spec fn view(&self) -> HooksView {
        HooksView {
            variables: named(self.variables@),
            target_scope: self.target_scope,
            target_offset: self.target_offset,
            done: self.done,
            completing_member_access: self.completing_member_access,
        }
    }
}

/// The cursor stands in the name of a member or right before it.
pub open spec fn at_member(name: TSpan, offset: u32) -> bool {
    (if name.start == 0 {
        0
    } else {
        name.start - 1
    }) <= offset < name.end
}

impl HooksView {
    /// An expression is checked: its number, its span, the value and the name where it is an
    /// access to a member, the type that is expected, and the variables that are known there.
    pub open spec fn checked(
        self,
        expr: u32,
        span: TSpan,
        member: Option<(u32, TSpan)>,
        expected: u32,
        known: Seq<(Seq<char>, u32)>,
    ) -> HooksView {
        if self.done {
            self
        } else {
            match (self.completing_member_access, member) {
                (Some((left, ty, _)), _) => if expr == left {
                    HooksView {
                        completing_member_access: Some((left, ty, Some(expected))),
                        done: true,
                        ..self
                    }
                } else {
                    self
                },
                (None, Some((left, name))) if at_member(name, self.target_offset) => HooksView {
                    completing_member_access: Some((left, expected, None)),
                    ..self
                },
                _ => if span.start < self.target_offset {
                    self
                } else {
                    HooksView { done: true, variables: self.variables + known, ..self }
                },
            }
        }
    }

    /// A scope is left.
    pub open spec fn left(self, scope: Option<ScopeId>, known: Seq<(Seq<char>, u32)>) -> HooksView {
        if !self.done && scope == Some(self.target_scope) {
            HooksView { variables: self.variables + known, ..self }
        } else {
            self
        }
    }
}

impl CompletionHooks {
    fn push_variables(&mut self, scope: &LocalScope)
        ensures
            final(self)@ == (HooksView {
                variables: old(self)@.variables + named(scope.variables@),
                ..old(self)@
            }),
    {
        let ghost before = self@;
        let mut i: usize = 0;
        while i < scope.variables.len()
            invariant
                i <= scope.variables@.len(),
                self@ =~= (HooksView {
                    variables: before.variables + named(scope.variables@).take(i as int),
                    ..before
                }),
            decreases scope.variables.len() - i,
        {
            let (name, variable) = &scope.variables[i];
            let ghost held = self.variables@;
            let copy: String = name.as_str().to_owned();
            let ghost pair = (copy@, *variable);
            self.variables.push((copy, *variable));
            proof {
                let all = named(scope.variables@);
                assert(named(self.variables@) =~= named(held).push(pair));
                assert(all.take(i + 1) =~= all.take(i as int).push(all[i as int]));
            }
            i += 1;
        }
        assert(named(scope.variables@).take(i as int) =~= named(scope.variables@));
    }

    fn complete_in_scope(&mut self, scope: &LocalScope)
        ensures
            final(self)@ == (HooksView {
                variables: old(self)@.variables + scope.known(),
                ..old(self)@
            }),
        decreases scope,
    {
        let ghost before = self@;
        self.push_variables(scope);
        if let LocalScopeParent::Scope(parent) = &scope.parent {
            self.complete_in_scope(parent);
        }
        assert(self@.variables =~= before.variables + scope.known());
    }

    pub fn on_check_expr(
        &mut self,
        expr: u32,
        span: TSpan,
        member: Option<(u32, TSpan)>,
        expected: u32,
        scope: &LocalScope,
    )
        ensures
            final(self)@ == old(self)@.checked(expr, span, member, expected, scope.known()),
    {
        if self.done {
            return;
        }
        if let Some((left, ty, _)) = self.completing_member_access {
            if expr == left {
                self.completing_member_access = Some((left, ty, Some(expected)));
                self.done = true;
            }
            return;
        }
        if let Some((left, name)) = member {
            let first: u32 = if name.start == 0 {
                0
            } else {
                name.start - 1
            };
            if first <= self.target_offset && self.target_offset < name.end {
                // now start looking for the left expr being checked
                self.completing_member_access = Some((left, expected, None));
                return;
            }
        }
        if span.start < self.target_offset {
            return;
        }
        self.done = true;
        self.complete_in_scope(scope);
    }

    pub fn on_exit_scope(&mut self, scope: &LocalScope)
        ensures
            final(self)@ == old(self)@.left(scope.static_scope, scope.known()),
    {
        let is_target: bool = match scope.static_scope {
            Some(s) => s == self.target_scope,
            None => false,
        };
        if !self.done && is_target {
            self.complete_in_scope(scope);
        }
    }
}

/// Once what is known at the cursor was found, nothing more is collected.
pub proof fn collecting_ends(
    h: HooksView,
    expr: u32,
    span: TSpan,
    member: Option<(u32, TSpan)>,
    expected: u32,
    scope: Option<ScopeId>,
    known: Seq<(Seq<char>, u32)>,
)
    requires
        h.done,
    ensures
        h.checked(expr, span, member, expected, known) == h,
        h.left(scope, known) == h,
{
}

} // verus!
