//! What is shown of the thing under the cursor.
use vstd::prelude::*;

use crate::lsp::find_in_ast::{Found, FoundType, ScopeContext};
use crate::lsp::index::{ConstValue, Def, Index, LocalItem, ModuleId, Signature};
use crate::lsp::server::Lsp;
use crate::parser::ast::TSpan;
use crate::parser::display;
use crate::parser::display::primitive_name;
use crate::text;
use crate::text::write_number;

verus! {

#[derive(Debug)]
pub enum MarkedString {
    String(String),
    /// Code of the language.
    Code(String),
}

#[derive(Debug)]
pub enum HoverContents {
    Text(String),
    MarkedStrings(Vec<MarkedString>),
}

#[verifier::ext_equal]
pub enum MarkedView {
    String(Seq<char>),
    Code(Seq<char>),
}

#[verifier::ext_equal]
pub enum ContentsView {
    Text(Seq<char>),
    MarkedStrings(Seq<MarkedView>),
}

impl View for MarkedString {
    type V = MarkedView;

    open spec fn view(&self) -> MarkedView {
        match *self {
            MarkedString::String(s) => MarkedView::String(s@),
            MarkedString::Code(s) => MarkedView::Code(s@),
        }
    }
}

impl View for HoverContents {
    type V = ContentsView;

    open spec fn view(&self) -> ContentsView {
        match *self {
            HoverContents::Text(s) => ContentsView::Text(s@),
            HoverContents::MarkedStrings(list) => ContentsView::MarkedStrings(
                list@.map_values(|m: MarkedString| m@),
            ),
        }
    }
}

/// A variable of a function.
#[derive(Debug)]
pub struct VarInfo {
    pub ty: String,
    /// The variable outside that a closure captures.
    pub capture_of: Option<u32>,
}

/// What the compiler answers about what was found.
#[derive(Debug)]
pub struct HoverAnswer {
    /// The text of what was found.
    pub name: String,
    /// What the name stands for in its scope.
    pub resolved: Def,
    /// The function around it has a body.
    pub has_body: bool,
    /// What the name stands for in the function around it.
    pub item: Option<LocalItem>,
    /// The type of the expression in the function around it.
    pub ty: Option<String>,
    /// The variables of the function around it.
    pub vars: Vec<VarInfo>,
    /// The definition and what was found as they are written for debugging.
    pub debug_def: String,
    pub debug_found: String,
}

fn text_of(s: &str) -> (c: HoverContents)
    ensures
        c@ == ContentsView::Text(s@),
{
    HoverContents::Text(s.to_owned())
}

fn two_parts(a: &str, b: &str) -> (c: HoverContents)
    ensures
        c@ == ContentsView::MarkedStrings(seq![MarkedView::String(a@), MarkedView::Code(b@)]),
{
    let list: Vec<MarkedString> = vec![
        MarkedString::String(a.to_owned()),
        MarkedString::Code(b.to_owned()),
    ];
    assert(list@.map_values(|m: MarkedString| m@) =~= seq![
        MarkedView::String(a@),
        MarkedView::Code(b@),
    ]);
    HoverContents::MarkedStrings(list)
}

pub open spec fn value_text(v: ConstValue) -> Seq<char> {
    match v {
        ConstValue::Undefined => "undefined"@,
        ConstValue::Unit => "()"@,
        ConstValue::Int(i) => text::decimal(i as nat),
        ConstValue::Float(f) => f@,
        ConstValue::Aggregate => "TODO: display aggregate const values"@,
    }
}

fn write_value(s: &mut String, v: &ConstValue)
    ensures
        final(s)@ == old(s)@ + value_text(*v),
{
    match v {
        ConstValue::Undefined => s.append("undefined"),
        ConstValue::Unit => s.append("()"),
        ConstValue::Int(i) => write_number(s, *i),
        ConstValue::Float(f) => s.append(f.as_str()),
        ConstValue::Aggregate => s.append("TODO: display aggregate const values"),
    }
}

/// A value with its name and its type.
pub open spec fn const_text(
    kind: Seq<char>,
    name: Seq<char>,
    ty: Seq<char>,
    assign: Seq<char>,
    v: ConstValue,
) -> Seq<char> {
    kind + "\n```eye\n"@ + name + ": "@ + ty + " "@ + assign + " "@ + value_text(v) + "\n```"@
}

fn hover_const_value(kind: &str, name: &str, ty: &str, assign: &str, v: &ConstValue) -> (s: String)
    ensures
        s@ == const_text(kind@, name@, ty@, assign@, *v),
{
    let mut s: String = kind.to_owned();
    s.append("\n```eye\n");
    s.append(name);
    s.append(": ");
    s.append(ty);
    s.append(" ");
    s.append(assign);
    s.append(" ");
    write_value(&mut s, v);
    s.append("\n```");
    s
}

/// What stands between the elements of a list.
pub open spec fn delimiter(first: bool) -> Seq<char> {
    if first {
        Seq::empty()
    } else {
        ", "@
    }
}

/// The first `n` names.
pub open spec fn names_text(names: Seq<String>, n: int) -> Seq<char>
    decreases n,
{
    if n <= 0 {
        Seq::empty()
    } else {
        names_text(names, n - 1) + delimiter(n == 1) + names[n - 1]@
    }
}

/// The first `n` parameters, each with what stands behind its type.
pub open spec fn params_text(
    params: Seq<(String, String)>,
    first: bool,
    behind: Seq<char>,
    n: int,
) -> Seq<char>
    decreases n,
{
    if n <= 0 {
        Seq::empty()
    } else {
        params_text(params, first, behind, n - 1) + delimiter(first && n == 1) + params[n - 1].0@
            + " "@ + params[n - 1].1@ + behind
    }
}

/// All parameters of a signature.
pub open spec fn all_params_text(s: Signature, behind: Seq<char>) -> Seq<char> {
    params_text(s.params@, true, Seq::empty(), s.params@.len() as int) + params_text(
        s.named_params@,
        s.params@.len() == 0,
        behind,
        s.named_params@.len() as int,
    )
}

fn write_params(s: &mut String, params: &Vec<(String, String)>, first: bool, behind: &str)
    ensures
        final(s)@ == old(s)@ + params_text(params@, first, behind@, params@.len() as int),
{
    let ghost before = s@;
    let mut i: usize = 0;
    assert(before + params_text(params@, first, behind@, 0) =~= before);
    while i < params.len()
        invariant
            i <= params@.len(),
            s@ =~= before + params_text(params@, first, behind@, i as int),
        decreases params.len() - i,
    {
        if !first || i != 0 {
            s.append(", ");
        }
        s.append(params[i].0.as_str());
        s.append(" ");
        s.append(params[i].1.as_str());
        s.append(behind);
        i += 1;
    }
}

/// Appends all parameters of a signature.
pub fn write_all_params(s: &mut String, signature: &Signature, behind: &str)
    ensures
        final(s)@ == old(s)@ + all_params_text(*signature, behind@),
{
    let ghost before = s@;
    write_params(s, &signature.params, true, "");
    proof {
        reveal_strlit("");
        assert(""@ =~= Seq::<char>::empty());
    }
    write_params(s, &signature.named_params, signature.params.len() == 0, behind);
    assert(s@ =~= before + all_params_text(*signature, behind@));
}

/// The signature of a function with its name.
pub open spec fn function_text(name: Seq<char>, s: Signature) -> Seq<char> {
    let head = "```eye\n"@ + name + " :: fn"@;
    let generic = if s.generics@.len() > 0 {
        head + "["@ + names_text(s.generics@, s.generics@.len() as int) + "]"@
    } else {
        head
    };
    if s.params@.len() + s.named_params@.len() > 0 {
        generic + "("@ + all_params_text(s, " = <TODO: display default>"@) + ")"@
    } else {
        generic
    }
}

fn hover_function(name: &str, signature: &Signature) -> (s: String)
    ensures
        s@ == function_text(name@, *signature),
{
    let mut s: String = "```eye\n".to_owned();
    s.append(name);
    s.append(" :: fn");
    if signature.generics.len() > 0 {
        s.append("[");
        let ghost before = s@;
        let mut i: usize = 0;
        assert(before + names_text(signature.generics@, 0) =~= before);
        while i < signature.generics.len()
            invariant
                i <= signature.generics@.len(),
                s@ =~= before + names_text(signature.generics@, i as int),
            decreases signature.generics.len() - i,
        {
            if i != 0 {
                s.append(", ");
            }
            s.append(signature.generics[i].as_str());
            i += 1;
        }
        s.append("]");
    }
    if signature.params.len() > 0 || signature.named_params.len() > 0 {
        s.append("(");
        write_all_params(&mut s, signature, " = <TODO: display default>");
        s.append(")");
    }
    s
}

/// What is shown of a definition.
pub open spec fn def_text(ix: Index, d: Def, name: Seq<char>, debug: Seq<char>) -> Seq<char> {
    match d {
        Def::ConstValue(c) => const_text(
            "constant"@,
            name,
            ix.const_values@[c as int].1@,
            ":"@,
            ix.const_values@[c as int].0,
        ),
        Def::Global(m, g) => {
            let global = ix.modules@[m.0 as int].globals@[g as int];
            const_text("global"@, name, global.ty@, "="@, global.value)
        },
        Def::Module(m) => "module "@ + ix.modules@[m.0 as int].path@,
        Def::Function(m, f) => function_text(name, ix.function(m, f).signature),
        _ => "Definition "@ + debug,
    }
}

/// What is shown of a variable.
pub open spec fn var_text(name: Seq<char>, v: VarInfo) -> Seq<char> {
    let shown = "```eye\n"@ + name + ": "@ + v.ty@ + "\n```"@;
    match v.capture_of {
        Some(outer) => shown + "\n---\nCapture of #"@ + text::decimal(outer as nat),
        None => shown,
    }
}

fn hover_var(name: &str, v: &VarInfo) -> (s: String)
    ensures
        s@ == var_text(name@, *v),
{
    let mut s: String = "```eye\n".to_owned();
    s.append(name);
    s.append(": ");
    s.append(v.ty.as_str());
    s.append("\n```");
    if let Some(outer) = v.capture_of {
        s.append("\n---\nCapture of #");
        write_number(&mut s, outer as u64);
    }
    s
}

/// What is shown of an expression in a function.
pub open spec fn expr_text(ix: Index, a: HoverAnswer) -> Seq<char> {
    match a.item {
        None => match a.ty {
            None => "expr not found"@,
            Some(ty) => a.name@ + " : "@ + ty@,
        },
        Some(LocalItem::Var(v)) => var_text(a.name@, a.vars@[v as int]),
        Some(LocalItem::Invalid) => "<invalid value>"@,
        Some(LocalItem::Def(Def::Invalid)) => "<invalid value>"@,
        Some(LocalItem::Def(d)) => def_text(ix, d, a.name@, a.debug_def@),
    }
}

/// What is shown of what was found.
pub open spec fn shown(
    ix: Index,
    module: ModuleId,
    found: Found,
    context: ScopeContext,
    a: HoverAnswer,
) -> Option<ContentsView> {
    match found.ty {
        FoundType::Nothing => None,
        FoundType::Error => Some(ContentsView::Text("syntax error"@)),
        FoundType::Definition => Some(
            ContentsView::Text(def_text(ix, a.resolved, a.name@, a.debug_def@)),
        ),
        FoundType::Ident | FoundType::Literal | FoundType::EnumLiteral | FoundType::Member => {
            if context is Function && a.has_body {
                Some(ContentsView::Text(expr_text(ix, a)))
            } else {
                None
            }
        },
        FoundType::Primitive(p) => Some(
            ContentsView::MarkedStrings(
                seq![
                    MarkedView::String("primitive type "@),
                    MarkedView::Code(display::primitive_text(p)),
                ],
            ),
        ),
        FoundType::Path(_) => Some(ContentsView::Text("Definition "@ + a.debug_def@)),
        FoundType::RootModule => Some(
            ContentsView::MarkedStrings(
                seq![
                    MarkedView::String("Root module at "@),
                    MarkedView::Code(
                        ix.modules@[ix.modules@[module.0 as int].root.0 as int].path@,
                    ),
                ],
            ),
        ),
        FoundType::Keyword => Some(
            ContentsView::MarkedStrings(
                seq![MarkedView::String("Keyword "@), MarkedView::Code(a.name@)],
            ),
        ),
        _ => Some(ContentsView::Text("TODO: implement hover type "@ + a.debug_found@)),
    }
}

/// What is shown at a position, and what of the source it belongs to. Where nothing was found
/// nothing is shown.
pub open spec fn answered(
    ix: Index,
    position: Option<(ModuleId, Found)>,
    context: ScopeContext,
    a: HoverAnswer,
) -> Option<(ContentsView, TSpan)> {
    match position {
        Some((module, found)) => match shown(ix, module, found, context, a) {
            Some(contents) => Some((contents, found.span)),
            None => None,
        },
        None => None,
    }
}

/// The answer only speaks of what exists.
pub open spec fn answer_fits(ix: Index, module: ModuleId, a: HoverAnswer) -> bool {
    &&& ix.has_def(a.resolved)
    &&& a.item matches Some(LocalItem::Def(d)) ==> ix.has_def(d)
    &&& a.item matches Some(LocalItem::Var(v)) ==> v < a.vars@.len()
    &&& ix.has_module(module)
    &&& ix.has_module(ix.modules@[module.0 as int].root)
}

impl Lsp {
    fn hover_def(&self, d: Def, name: &str, debug: &str) -> (s: String)
        requires
            self.index.has_def(d),
        ensures
            s@ == def_text(self.index, d, name@, debug@),
    {
        match d {
            Def::ConstValue(c) => {
                let (value, ty) = &self.index.const_values[c as usize];
                hover_const_value("constant", name, ty.as_str(), ":", value)
            },
            Def::Global(m, g) => {
                let global = &self.index.modules[m.0 as usize].globals[g as usize];
                hover_const_value("global", name, global.ty.as_str(), "=", &global.value)
            },
            Def::Module(m) => {
                let mut s: String = "module ".to_owned();
                s.append(self.index.modules[m.0 as usize].path.as_str());
                s
            },
            Def::Function(m, f) => hover_function(
                name,
                &self.index.get_function(m, f).signature,
            ),
            _ => {
                let mut s: String = "Definition ".to_owned();
                s.append(debug);
                s
            },
        }
    }

    fn hover_expr(&self, module: ModuleId, a: &HoverAnswer) -> (s: String)
        requires
            answer_fits(self.index, module, *a),
        ensures
            s@ == expr_text(self.index, *a),
    {
        match a.item {
            None => match &a.ty {
                None => "expr not found".to_owned(),
                Some(ty) => {
                    let mut s: String = a.name.as_str().to_owned();
                    s.append(" : ");
                    s.append(ty.as_str());
                    s
                },
            },
            Some(LocalItem::Var(v)) => hover_var(a.name.as_str(), &a.vars[v as usize]),
            Some(LocalItem::Invalid) => "<invalid value>".to_owned(),
            Some(LocalItem::Def(Def::Invalid)) => "<invalid value>".to_owned(),
            Some(LocalItem::Def(d)) => self.hover_def(d, a.name.as_str(), a.debug_def.as_str()),
        }
    }

    /// What is shown at a position, with the span that it belongs to. There is nothing to show
    /// if no document was found at the position, or nothing of interest in it.
    pub fn hover(
        &self,
        position: Option<(ModuleId, Found)>,
        context: ScopeContext,
        a: &HoverAnswer,
    ) -> (hover: Option<(HoverContents, TSpan)>)
        requires
            position matches Some((module, _)) ==> answer_fits(self.index, module, *a),
        ensures
            match hover {
                Some((contents, span)) => answered(self.index, position, context, *a) == Some(
                    (contents@, span),
                ),
                None => answered(self.index, position, context, *a) is None,
            },
    {
        match position {
            Some((module, found)) => match self.hover_contents(module, found, context, a) {
                Some(contents) => Some((contents, found.span)),
                None => None,
            },
            None => None,
        }
    }

    /// What is shown of what was found.
    fn hover_contents(
        &self,
        module: ModuleId,
        found: Found,
        context: ScopeContext,
        a: &HoverAnswer,
    ) -> (c: Option<HoverContents>)
        requires
            answer_fits(self.index, module, *a),
        ensures
            match c {
                Some(c) => shown(self.index, module, found, context, *a) == Some(c@),
                None => shown(self.index, module, found, context, *a) is None,
            },
    {
        match found.ty {
            FoundType::Nothing => None,
            FoundType::Error => Some(text_of("syntax error")),
            FoundType::Definition => Some(
                HoverContents::Text(
                    self.hover_def(a.resolved, a.name.as_str(), a.debug_def.as_str()),
                ),
            ),
            FoundType::Ident | FoundType::Literal | FoundType::EnumLiteral | FoundType::Member => {
                match context {
                    ScopeContext::TopLevel => None,
                    ScopeContext::Function(_) => if a.has_body {
                        Some(HoverContents::Text(self.hover_expr(module, a)))
                    } else {
                        None
                    },
                }
            },
            FoundType::Primitive(p) => Some(two_parts("primitive type ", primitive_name(p))),
            FoundType::Path(_) => {
                let mut s: String = "Definition ".to_owned();
                s.append(a.debug_def.as_str());
                Some(HoverContents::Text(s))
            },
            FoundType::RootModule => {
                let root: ModuleId = self.index.modules[module.0 as usize].root;
                Some(
                    two_parts(
                        "Root module at ",
                        self.index.modules[root.0 as usize].path.as_str(),
                    ),
                )
            },
            FoundType::Keyword => Some(two_parts("Keyword ", a.name.as_str())),
            _ => {
                let mut s: String = "TODO: implement hover type ".to_owned();
                s.append(a.debug_found.as_str());
                Some(HoverContents::Text(s))
            },
        }
    }
}

} // verus!
