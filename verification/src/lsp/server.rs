//! The state of the language server and what it does on messages.
use vstd::prelude::*;

use crate::lsp::index::{Index, ModuleId};
use crate::parser::ast::TSpan;
use crate::text::str_eq;

verus! {

#[derive(Clone, Copy, Debug, PartialEq, Eq, Hash, Structural)]
pub struct ProjectId(pub u32);

#[derive(Debug)]
pub struct Lsp {
    pub index: Index,
    pub projects: Vec<ProjectId>,
    pub std: Option<ProjectId>,
}

/// A message from the client that is not answered.
pub trait Notification {

}

/// A message to the client that is not answered.
pub trait ServerNotification {
    spec fn spec_method() -> Seq<char>;

    fn method() -> (m: &'static str)
        ensures
            m@ == Self::spec_method(),
    ;
}

#[derive(Debug)]
pub struct TextDocumentItem {
    pub uri: String,
    pub text: String,
    pub version: i32,
}

#[derive(Debug)]
pub struct DidOpenTextDocumentParams {
    pub text_document: TextDocumentItem,
}

impl Notification for DidOpenTextDocumentParams {

}

/// A part of a document gets another text. Places are counted in bytes.
#[derive(Debug)]
pub struct TextDocumentContentChange {
    pub span: TSpan,
    pub text: Vec<u8>,
}

#[derive(Debug)]
pub struct DidChangeTextDocumentParams {
    pub uri: String,
    pub version: i32,
    pub content_changes: Vec<TextDocumentContentChange>,
}

impl Notification for DidChangeTextDocumentParams {

}

#[derive(Debug)]
pub struct DidSaveTextDocumentParams {
    pub uri: String,
    pub text: Option<String>,
}

impl Notification for DidSaveTextDocumentParams {

}

#[derive(Debug)]
pub struct Diagnostic {
    pub span: TSpan,
    pub message: String,
}

#[derive(Debug)]
pub struct PublishDiagnosticsParams {
    pub uri: String,
    pub version: Option<i32>,
    pub diagnostics: Vec<Diagnostic>,
}

impl ServerNotification for PublishDiagnosticsParams {
    open spec fn spec_method() -> Seq<char> {
        "textDocument/publishDiagnostics"@
    }

    fn method() -> &'static str {
        "textDocument/publishDiagnostics"
    }
}

/// The notifications that are handled.
#[derive(Clone, Copy, Debug, PartialEq, Eq, Structural)]
pub enum NotificationKind {
    DidOpen,
    DidChange,
    DidSave,
}

/// The requests that are handled.
#[derive(Clone, Copy, Debug, PartialEq, Eq, Structural)]
pub enum RequestKind {
    Hover,
    Completion,
    Definition,
    Formatting,
}

/// The request is not known.
#[derive(Clone, Copy, Debug, PartialEq, Eq, Structural)]
pub struct UnsupportedRequest;

impl UnsupportedRequest {
    pub fn message(self) -> (m: &'static str)
        ensures
            m@ == "unsupported request"@,
    {
        "unsupported request"
    }
}

impl NotificationKind {
    pub open spec fn spec_method(self) -> Seq<char> {
        match self {
            NotificationKind::DidOpen => "textDocument/didOpen"@,
            NotificationKind::DidChange => "textDocument/didChange"@,
            NotificationKind::DidSave => "textDocument/didSave"@,
        }
    }
}

impl RequestKind {
    pub open spec fn spec_method(self) -> Seq<char> {
        match self {
            RequestKind::Hover => "textDocument/hover"@,
            RequestKind::Completion => "textDocument/completion"@,
            RequestKind::Definition => "textDocument/definition"@,
            RequestKind::Formatting => "textDocument/formatting"@,
        }
    }
}

/// The names of different messages differ.
pub proof fn methods_differ(a: NotificationKind, b: NotificationKind, c: RequestKind, d: RequestKind)
    ensures
        a.spec_method() == b.spec_method() <==> a == b,
        c.spec_method() == d.spec_method() <==> c == d,
        a.spec_method() != c.spec_method(),
{
    reveal_strlit("textDocument/didOpen");
    reveal_strlit("textDocument/didChange");
    reveal_strlit("textDocument/didSave");
    reveal_strlit("textDocument/hover");
    reveal_strlit("textDocument/completion");
    reveal_strlit("textDocument/definition");
    reveal_strlit("textDocument/formatting");
    let x = a.spec_method();
    let y = b.spec_method();
    let z = c.spec_method();
    let w = d.spec_method();
    assert(x.len() == 20 || x.len() == 22);
    assert(x[13] == 'd' && x[14] == 'i' && x[15] == 'd');
    assert(x[16] == match a {
        NotificationKind::DidOpen => 'O',
        NotificationKind::DidChange => 'C',
        NotificationKind::DidSave => 'S',
    });
    assert(y[16] == match b {
        NotificationKind::DidOpen => 'O',
        NotificationKind::DidChange => 'C',
        NotificationKind::DidSave => 'S',
    });
    assert(z[13] == match c {
        RequestKind::Hover => 'h',
        RequestKind::Completion => 'c',
        RequestKind::Definition => 'd',
        RequestKind::Formatting => 'f',
    });
    assert(w[13] == match d {
        RequestKind::Hover => 'h',
        RequestKind::Completion => 'c',
        RequestKind::Definition => 'd',
        RequestKind::Formatting => 'f',
    });
    if c == RequestKind::Definition {
        assert(z[14] == 'e');
    }
}

/// What is to be done about an opened document.
#[derive(Clone, Copy, Debug, PartialEq, Eq, Structural)]
pub enum OpenAction {
    /// It belongs to a project that is known: its text is taken over.
    Update(ProjectId, ModuleId),
    /// A project has to be added.
    AddProject,
}

/// What is to be done once a project was added.
#[derive(Clone, Copy, Debug, PartialEq, Eq, Structural)]
pub enum AddedAction {
    Nothing,
    Update(ProjectId, ModuleId),
}

/// The text with a part replaced.
pub open spec fn text_changed(text: Seq<u8>, c: TextDocumentContentChange) -> Seq<u8> {
    text.take(c.span.start as int) + c.text@ + text.skip(c.span.end as int)
}

/// The text after the first `n` changes.
pub open spec fn text_after(text: Seq<u8>, changes: Seq<TextDocumentContentChange>, n: int) -> Seq<u8>
    decreases n,
{
    if n <= 0 {
        text
    } else {
        text_changed(text_after(text, changes, n - 1), changes[n - 1])
    }
}

/// Each change concerns a part of the text at its time.
pub open spec fn changes_fit(text: Seq<u8>, changes: Seq<TextDocumentContentChange>) -> bool {
    forall|i: int|
        0 <= i < changes.len() ==> {
            let span = (#[trigger] changes[i]).span;
            span.start <= span.end <= text_after(text, changes, i).len()
        }
}

/// What stands outside of the replaced part stays.
pub proof fn changes_keep_the_rest(text: Seq<u8>, c: TextDocumentContentChange, i: int)
    requires
        c.span.start <= c.span.end <= text.len(),
        0 <= i < text.len(),
    ensures
        i < c.span.start ==> text_changed(text, c)[i] == text[i],
        i >= c.span.end ==> text_changed(text, c)[i - (c.span.end - c.span.start) + c.text@.len()]
            == text[i],
{
}

fn push_range(to: &mut Vec<u8>, from: &Vec<u8>, start: usize, end: usize)
    requires
        start <= end <= from@.len(),
    ensures
        final(to)@ == old(to)@ + from@.subrange(start as int, end as int),
{
    let ghost before = to@;
    let mut i: usize = start;
    while i < end
        invariant
            start <= i <= end <= from@.len(),
            to@ =~= before + from@.subrange(start as int, i as int),
        decreases end - i,
    {
        to.push(from[i]);
        i += 1;
    }
}

/// The directories above a file, the nearest first, and whether they hold the files that
/// make them projects or modules.
#[derive(Clone, Copy, Debug, PartialEq, Eq, Structural)]
pub struct Directory {
    pub has_main: bool,
    pub has_mod: bool,
}

/// The first directory from position `i` on that is the root of a project. The
/// directories below it are all modules. Without such a one the file is by itself.
pub open spec fn project_root(dirs: Seq<Directory>, i: nat) -> Option<int>
    decreases dirs.len() - i,
{
    if i >= dirs.len() {
        None
    } else if dirs[i as int].has_main {
        Some(i as int)
    } else if dirs[i as int].has_mod {
        project_root(dirs, i + 1)
    } else {
        None
    }
}

/// Finds the root of the project that a file belongs to.
pub fn find_project_path(dirs: &Vec<Directory>) -> (root: Option<usize>)
    ensures
        match root {
            Some(k) => project_root(dirs@, 0) == Some(k as int) && k < dirs@.len(),
            None => project_root(dirs@, 0) is None,
        },
{
    let mut i: usize = 0;
    while i < dirs.len()
        invariant
            i <= dirs@.len(),
            project_root(dirs@, 0) == project_root(dirs@, i as nat),
        decreases dirs.len() - i,
    {
        if dirs[i].has_main {
            return Some(i);
        } else if !dirs[i].has_mod {
            return None;
        }
        i += 1;
    }
    None
}

/// All directories between a file and the root of its project are modules.
pub proof fn modules_lead_to_the_root(dirs: Seq<Directory>, i: nat, k: int, j: int)
    requires
        project_root(dirs, i) == Some(k),
        i <= j <= k,
    ensures
        i <= k < dirs.len(),
        dirs[k].has_main,
        j < k ==> dirs[j].has_mod && !dirs[j].has_main,
    decreases dirs.len() - i,
{
    if !dirs[i as int].has_main {
        lemma_root_is_above(dirs, i + 1);
        if j > i {
            modules_lead_to_the_root(dirs, i + 1, k, j);
        } else {
            modules_lead_to_the_root(dirs, i + 1, k, k);
        }
    }
}

proof fn lemma_root_is_above(dirs: Seq<Directory>, i: nat)
    ensures
        project_root(dirs, i) matches Some(k) ==> i <= k < dirs.len(),
    decreases dirs.len() - i,
{
    if i < dirs.len() {
        lemma_root_is_above(dirs, i + 1);
    }
}

impl Lsp {
    /// The notification with the name, where it is handled.
    pub fn handle_notification(&self, method: &str) -> (kind: Option<NotificationKind>)
        ensures
            match kind {
                Some(k) => method@ == k.spec_method(),
                None => forall|k: NotificationKind| method@ != #[trigger] k.spec_method(),
            },
    {
        if str_eq(method, "textDocument/didOpen") {
            Some(NotificationKind::DidOpen)
        } else if str_eq(method, "textDocument/didChange") {
            Some(NotificationKind::DidChange)
        } else if str_eq(method, "textDocument/didSave") {
            Some(NotificationKind::DidSave)
        } else {
            None
        }
    }

    /// The request with the name, where it is handled.
    pub fn handle_request(&self, method: &str) -> (kind: Result<RequestKind, UnsupportedRequest>)
        ensures
            match kind {
                Ok(k) => method@ == k.spec_method(),
                Err(_) => forall|k: RequestKind| method@ != #[trigger] k.spec_method(),
            },
    {
        if str_eq(method, "textDocument/hover") {
            Ok(RequestKind::Hover)
        } else if str_eq(method, "textDocument/completion") {
            Ok(RequestKind::Completion)
        } else if str_eq(method, "textDocument/definition") {
            Ok(RequestKind::Definition)
        } else if str_eq(method, "textDocument/formatting") {
            Ok(RequestKind::Formatting)
        } else {
            Err(UnsupportedRequest)
        }
    }

    /// A document was opened. `known` is the project and the module that it belongs to.
    pub fn did_open(&self, known: Option<(ProjectId, ModuleId)>) -> (action: OpenAction)
        ensures
            action == match known {
                Some((project, module)) => OpenAction::Update(project, module),
                None => OpenAction::AddProject,
            },
    {
        match known {
            Some((project, module)) => OpenAction::Update(project, module),
            None => OpenAction::AddProject,
        }
    }

    /// A project was added for an opened document, or could not be. `module` is the module
    /// that the document is in it.
    pub fn project_added(&mut self, project: Option<ProjectId>, module: Option<ModuleId>) -> (action:
        AddedAction)
        ensures
            final(self).index == old(self).index,
            final(self).std == old(self).std,
            final(self).projects@ == match project {
                Some(id) => old(self).projects@.push(id),
                None => old(self).projects@,
            },
            action == match (project, module) {
                (Some(id), Some(m)) => AddedAction::Update(id, m),
                _ => AddedAction::Nothing,
            },
    {
        match project {
            Some(id) => {
                self.projects.push(id);
                match module {
                    Some(m) => AddedAction::Update(id, m),
                    None => AddedAction::Nothing,
                }
            },
            None => AddedAction::Nothing,
        }
    }

    /// A document was changed. The new text is returned, unless the document belongs to no
    /// project.
    pub fn did_change(
        &self,
        known: Option<(ProjectId, ModuleId)>,
        text: &Vec<u8>,
        changes: &Vec<TextDocumentContentChange>,
    ) -> (r: Option<(ProjectId, ModuleId, Vec<u8>)>)
        requires
            changes_fit(text@, changes@),
        ensures
            match (known, r) {
                (Some((project, module)), Some((p, m, new))) => p == project && m == module && new@
                    == text_after(text@, changes@, changes@.len() as int),
                (None, None) => true,
                _ => false,
            },
    {
        match known {
            None => None,
            Some((project, module)) => {
                let mut src: Vec<u8> = Vec::new();
                push_range(&mut src, text, 0, text.len());
                assert(src@ =~= text@);
                let mut i: usize = 0;
                while i < changes.len()
                    invariant
                        i <= changes@.len(),
                        changes_fit(text@, changes@),
                        src@ == text_after(text@, changes@, i as int),
                    decreases changes.len() - i,
                {
                    let change: &TextDocumentContentChange = &changes[i];
                    assert(changes@[i as int].span.start <= changes@[i as int].span.end);
                    let mut new: Vec<u8> = Vec::new();
                    push_range(&mut new, &src, 0, change.span.start as usize);
                    push_range(&mut new, &change.text, 0, change.text.len());
                    push_range(&mut new, &src, change.span.end as usize, src.len());
                    assert(new@ =~= text_changed(src@, changes@[i as int]));
                    src = new;
                    i += 1;
                }
                Some((project, module, src))
            },
        }
    }

    /// A document was saved. The project that has to be checked again is returned.
    pub fn did_save(&self, known: Option<(ProjectId, ModuleId)>) -> (project: Option<ProjectId>)
        ensures
            project == match known {
                Some((p, _)) => Some(p),
                None => None,
            },
    {
        match known {
            Some((p, _)) => Some(p),
            None => None,
        }
    }

    /// The changes that format a document: all of its text is replaced, unless there are
    /// errors in it.
    pub fn formatting(&self, len: u32, formatted: Vec<u8>, error_count: usize) -> (changes: Option<
        Vec<TextDocumentContentChange>,
    >)
        ensures
            error_count > 0 ==> changes is None,
            error_count == 0 ==> changes is Some && changes->Some_0@.len() == 1
                && changes->Some_0@[0] == (TextDocumentContentChange {
                span: (TSpan { start: 0, end: len }),
                text: formatted,
            }),
    {
        if error_count > 0 {
            return None;
        }
        let mut changes: Vec<TextDocumentContentChange> = Vec::new();
        changes.push(
            TextDocumentContentChange { span: TSpan { start: 0, end: len }, text: formatted },
        );
        Some(changes)
    }
}

/// Formatting a document gives the formatted text.
pub proof fn formatting_replaces_the_text(text: Seq<u8>, c: TextDocumentContentChange)
    requires
        c.span.start == 0,
        c.span.end == text.len(),
    ensures
        text_changed(text, c) == c.text@,
{
    assert(text_changed(text, c) =~= c.text@);
}

/// The name of a project: that of its file without the extension or of its directory.
#[verifier::allow_in_spec]
pub fn project_name<'a>(
    is_file: bool,
    file_stem: Option<&'a str>,
    file_name: Option<&'a str>,
) -> &'a str
    returns
        (match if is_file {
            file_stem
        } else {
            file_name
        } {
            Some(name) => name,
            None => "unknown",
        }),
{
    let name: Option<&'a str> = if is_file {
        file_stem
    } else {
        file_name
    };
    match name {
        Some(name) => name,
        None => "unknown",
    }
}

} // verus!
