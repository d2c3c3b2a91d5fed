//! Syntax trees.
use vstd::prelude::*;

use crate::compiler::types::Primitive;

verus! {

/// A part of the source text, from `start` up to `end`.
#[derive(Clone, Copy, Debug, PartialEq, Eq, Structural)]
pub struct TSpan {
    pub start: u32,
    pub end: u32,
}

impl TSpan {
    pub open spec fn has(self, offset: u32) -> bool {
        self.start <= offset < self.end
    }

    /// Also the place behind the last character counts.
    pub open spec fn has_inclusive(self, offset: u32) -> bool {
        self.start <= offset <= self.end
    }

    pub fn new(start: u32, end: u32) -> (s: Self)
        ensures
            s == (TSpan { start, end }),
    {
        TSpan { start, end }
    }

    pub fn contains(self, offset: u32) -> (r: bool)
        ensures
            r == self.has(offset),
    {
        self.start <= offset && offset < self.end
    }

    pub fn contains_inclusive(self, offset: u32) -> (r: bool)
        ensures
            r == self.has_inclusive(offset),
    {
        self.start <= offset && offset <= self.end
    }
}

#[derive(Clone, Copy, Debug, PartialEq, Eq, Hash, Structural)]
pub struct ScopeId(pub u32);

/// A path of identifiers.
#[derive(Clone, Copy, Debug, PartialEq, Eq, Structural)]
pub struct IdentPath(pub TSpan);

impl IdentPath {
    #[verifier::allow_in_spec]
    pub fn span(self) -> TSpan
        returns
            self.0,
    {
        self.0
    }
}

/// The keywords that begin expressions.
#[derive(Clone, Copy, Debug, PartialEq, Eq, Structural)]
pub enum Keyword {
    Struct,
    Enum,
    Fn,
    Ret,
    If,
    Match,
    While,
}

impl Keyword {
    #[verifier::allow_in_spec]
    pub fn len(self) -> u32
        returns
            (match self {
                Keyword::Struct => 6u32,
                Keyword::Enum => 4u32,
                Keyword::Fn => 2u32,
                Keyword::Ret => 3u32,
                Keyword::If => 2u32,
                Keyword::Match => 5u32,
                Keyword::While => 5u32,
            }),
    {
        match self {
            Keyword::Struct => 6,
            Keyword::Enum => 4,
            Keyword::Fn => 2,
            Keyword::Ret => 3,
            Keyword::If => 2,
            Keyword::Match => 5,
            Keyword::While => 5,
        }
    }
}

/// A part of the source text together with its characters.
#[derive(Debug)]
pub struct Name {
    pub span: TSpan,
    pub text: String,
}

/// A type as it is written.
#[derive(Debug)]
pub struct UnresolvedType {
    pub span: TSpan,
    pub text: String,
    pub kind: TypeKind,
}

#[derive(Debug)]
pub enum TypeKind {
    Primitive(Primitive),
    Unresolved(IdentPath, Vec<UnresolvedType>),
    Pointer(Box<UnresolvedType>),
    Array(Box<UnresolvedType>),
    Tuple(Vec<UnresolvedType>),
    Function { return_type: Box<UnresolvedType>, params: Vec<UnresolvedType> },
    Infer,
}

/// A trait that a type has to have.
#[derive(Debug)]
pub struct TraitBound {
    pub path: IdentPath,
    pub generics: Vec<UnresolvedType>,
}

#[derive(Debug)]
pub struct GenericDef {
    pub name: TSpan,
    pub bounds: Vec<TraitBound>,
}

#[derive(Debug)]
pub struct Generics {
    pub types: Vec<GenericDef>,
}

/// Definitions that belong together.
#[derive(Debug)]
pub struct Scope {
    pub id: ScopeId,
    pub span: TSpan,
    pub definitions: Vec<(String, Definition)>,
}

#[derive(Debug)]
pub enum Definition {
    Expr { value: Expr, name_span: TSpan },
    Use { path: IdentPath, text: String },
    Global { name_span: TSpan, ty: UnresolvedType, val: Expr },
    Module,
    Generic,
}

#[derive(Debug)]
pub struct NamedParam {
    pub name: Name,
    pub ty: UnresolvedType,
    pub default_value: Expr,
}

#[derive(Debug)]
pub struct Function {
    pub scope: ScopeId,
    /// The span of the scope.
    pub span: TSpan,
    pub generics: Generics,
    pub params: Vec<(Name, UnresolvedType)>,
    pub named_params: Vec<NamedParam>,
    pub return_type: UnresolvedType,
    pub body: Option<Box<Expr>>,
}

#[derive(Debug)]
pub enum TypeContent {
    Struct { members: Vec<UnresolvedType> },
    /// The types of the arguments of each variant.
    Enum { variants: Vec<Vec<UnresolvedType>> },
}

/// An implementation of a trait for a type.
#[derive(Debug)]
pub struct Impl {
    pub implemented_trait: IdentPath,
    pub generics: Generics,
    pub trait_generics: Vec<UnresolvedType>,
    pub functions: Vec<Function>,
}

#[derive(Debug)]
pub struct TypeDef {
    pub scope: ScopeId,
    pub generics: Generics,
    pub content: TypeContent,
    pub methods: Vec<Function>,
    pub impls: Vec<Impl>,
}

#[derive(Debug)]
pub struct Expr {
    pub span: TSpan,
    pub kind: ExprKind,
}

#[derive(Debug)]
pub enum ExprKind {
    Error,
    Block { scope: Scope, items: Vec<Expr> },
    Nested(Box<Expr>),
    IntLiteral(String),
    FloatLiteral(String),
    StringLiteral(String),
    Array(Vec<Expr>),
    Tuple { elements: Vec<Expr>, named_elements: Vec<(Name, Expr)> },
    EnumLiteral { ident: Name, args: Vec<Expr> },
    Function(Box<Function>),
    Primitive(Primitive),
    TypeDeclaration(Box<TypeDef>),
    Trait,
    Ident(String),
    DeclareWithVal { pat: Box<Expr>, annotated_ty: UnresolvedType, val: Box<Expr> },
    Hole,
    UnOp { op: String, postfix: bool, inner: Box<Expr> },
    BinOp { op: String, l: Box<Expr>, r: Box<Expr> },
    As { value: Box<Expr>, ty: UnresolvedType },
    Root,
    MemberAccess { left: Box<Expr>, name: Name },
    Index { expr: Box<Expr>, idx: Box<Expr> },
    TupleIdx { left: Box<Expr>, element: u32 },
    ReturnUnit,
    Return { start: u32, val: Box<Expr> },
    If { start: u32, cond: Box<Expr>, then_: Box<Expr> },
    IfElse { start: u32, cond: Box<Expr>, then_: Box<Expr>, else_: Box<Expr> },
    IfPat { start: u32, pat: Box<Expr>, value: Box<Expr>, then_: Box<Expr> },
    IfPatElse {
        start: u32,
        pat: Box<Expr>,
        value: Box<Expr>,
        then_: Box<Expr>,
        else_: Box<Expr>,
    },
    Match { val: Box<Expr>, branches: Vec<(Expr, Expr)> },
    While { start: u32, cond: Box<Expr>, body: Box<Expr> },
    WhilePat { start: u32, pat: Box<Expr>, val: Box<Expr>, body: Box<Expr> },
    For { start: u32, pat: Box<Expr>, iter: Box<Expr>, body: Box<Expr> },
    FunctionCall { called_expr: Box<Expr>, args: Vec<Expr>, named_args: Vec<(Name, Expr)> },
    Asm { asm_str_span: TSpan, args: Vec<Expr> },
    Break,
    Continue,
}

/// A file.
#[derive(Debug)]
pub struct Ast {
    pub top_level: Scope,
}

} // verus!
