use vstd::prelude::*;
use crate::diagnostics::SourceLocation;
use crate::types::Type;

verus! {

/// How a parameter is passed.
#[derive(Debug, Clone, Copy, PartialEq, Eq)]
pub enum ParamModifier {
    Immutable,
    Mutable,
    Reference,
    MutableReference,
}

/// How a method receives `self`.
#[derive(Debug, Clone, Copy, PartialEq, Eq)]
pub enum SelfModifier {
    Immutable,
    Mutable,
    Reference,
    Borrow,
}

#[derive(Debug)]
pub struct StructField {
    pub name: String,
    pub ty: Type,
    pub is_public: bool,
    pub is_mutable: bool,
}

#[derive(Debug)]
pub struct StructDef {
    pub name: String,
    pub fields: Vec<StructField>,
    pub is_public: bool,
}

#[derive(Debug)]
pub enum EnumVariant {
    Simple(String),
    Tuple(String, Vec<Type>),
    Struct(String, Vec<StructField>),
}

#[derive(Debug)]
pub struct EnumDef {
    pub name: String,
    pub variants: Vec<EnumVariant>,
    pub is_public: bool,
}

/// An expression of the source language. A float literal keeps its source text.
#[derive(Debug)]
pub enum Expr {
    Number(i32),
    Float(String),
    String(String),
    Bool(bool),
    HexNumber(i32),
    BinaryNumber(i32),
    OctalNumber(i32),
    Char(i32),
    NoneValue,
    SomeValue(Box<Expr>),
    ResultOk(Box<Expr>),
    ResultErr(Box<Expr>),
    Var(String),
    Call(String, Vec<Expr>),
    CallNamed(String, Vec<(String, Expr)>),
    BinOp(String, Box<Expr>, Box<Expr>),
    UnOp(String, Box<Expr>),
    Not(Box<Expr>),
    Tuple(Vec<Expr>),
    Array(Vec<Expr>),
    Index(Box<Expr>, Vec<Expr>),
    MemberAccess(Box<Expr>, String),
    MethodCall(Box<Expr>, String, Vec<Expr>),
    Unwrap(Box<Expr>),
    Pipe(Box<Expr>, Box<Expr>),
    SizeOf(Type),
    AlignOf(Type),
    ReferenceTo(Type),
}

#[derive(Debug)]
pub struct MatchCase {
    pub value: Expr,
    pub body: Vec<Stmt>,
}

/// A statement of the source language.
#[derive(Debug)]
pub enum Stmt {
    TypedDeclaration { name: String, ty: Type, value: Expr, is_mutable: bool },
    Assign(String, Expr),
    CompoundAssign(String, String, Expr),
    Return(Option<Expr>),
    If(Expr, Vec<Stmt>, Option<Vec<Stmt>>),
    While(Expr, Vec<Stmt>),
    For(String, Expr, Vec<Stmt>),
    Match(Expr, Vec<MatchCase>, Option<Vec<Stmt>>),
    Call(String, Vec<Expr>),
    Expr(Expr),
    Scope(Vec<Stmt>),
    IndexAssign(Expr, Vec<Expr>, Expr),
    MemberAssign(Expr, String, Expr),
    Break,
    Continue,
}

#[derive(Debug)]
pub struct Function {
    pub name: String,
    pub params: Vec<(String, Type, ParamModifier)>,
    pub return_type: Type,
    pub body: Vec<Stmt>,
    pub is_public: bool,
}

#[derive(Debug)]
pub struct ImplMethod {
    pub name: String,
    pub params: Vec<(String, Type, ParamModifier)>,
    pub return_type: Type,
    pub body: Vec<Stmt>,
    pub self_modifier: Option<SelfModifier>,
}

#[derive(Debug)]
pub struct ImplBlock {
    pub struct_name: String,
    pub methods: Vec<ImplMethod>,
}

/// A function implemented outside the program, known by its signature.
#[derive(Debug)]
pub struct ExternFunction {
    pub name: String,
    pub params: Vec<(String, Type)>,
    pub return_type: Type,
}

#[derive(Debug)]
pub enum ExternDecl {
    Single { func: ExternFunction },
    Block { functions: Vec<ExternFunction> },
}

#[derive(Debug)]
pub enum ImportDecl {
    LibraryImport { name: String },
    FileImport { name: String },
}

#[derive(Debug)]
pub struct Program {
    pub functions: Vec<Function>,
}

/// A function together with where it was written.
#[derive(Debug)]
pub struct FunctionWithLocation {
    pub name: String,
    pub params: Vec<(String, Type, ParamModifier)>,
    pub return_type: Type,
    pub body: Vec<Stmt>,
    pub is_public: bool,
    pub location: SourceLocation,
}

/// A struct definition together with where it was written.
#[derive(Debug)]
pub struct StructDefWithLocation {
    pub name: String,
    pub fields: Vec<StructField>,
    pub location: SourceLocation,
}

/// An impl method together with where it was written.
#[derive(Debug)]
pub struct ImplMethodWithLocation {
    pub name: String,
    pub params: Vec<(String, Type, ParamModifier)>,
    pub return_type: Type,
    pub body: Vec<Stmt>,
    pub self_modifier: Option<SelfModifier>,
    pub location: SourceLocation,
}

} // verus!
