//! The part of a TypeScript module's syntax tree that the reader looks at,
//! held as plain values. Each node that can carry JSDoc holds the doc block
//! parsed from the comments in front of it.
use vstd::prelude::*;
use crate::jsdoc::JsDocs;
use crate::parse::{BindingId, CalleeRef, ReturnShape};
use crate::ty::TypeOperatorOp;

verus! {

/// A TypeScript keyword type.
pub enum TsKeywordKind {
    Any,
    Unknown,
    Number,
    Object,
    Boolean,
    BigInt,
    String,
    Symbol,
    Void,
    Undefined,
    Null,
    Never,
    Intrinsic,
}

/// The `readonly` modifier of a mapped type: `readonly`, `+readonly` or `-readonly`.
pub enum TruePlusMinus {
    True,
    Plus,
    Minus,
}

/// A name in a type position: an identifier or a qualified name `left.right`.
pub enum EntityName {
    Ident(BindingId),
    Qualified(Box<EntityName>, String),
}

/// A type parameter declaration `name extends constraint = default`.
pub struct TypeParam {
    pub name: BindingId,
    pub constraint: Option<Box<TsType>>,
    pub default: Option<Box<TsType>>,
}

/// One piece of a template literal type: its raw text, and the type that
/// follows it unless it is the last piece.
pub struct TplPart {
    pub raw: String,
    pub next: Option<TsType>,
}

/// A TypeScript type.
pub enum TsType {
    Keyword(TsKeywordKind),
    This,
    /// A function or constructor type.
    Fn { type_params: Vec<TypeParam>, params: Vec<Pat>, return_type: Box<TsType> },
    /// A type reference `name<args>`.
    TypeRef { name: EntityName, type_args: Option<Vec<TsType>> },
    /// A type query `typeof name<args>`; `name` is `None` for `typeof import(..)`.
    TypeQuery { name: Option<EntityName>, type_args: Option<Vec<TsType>> },
    /// An object type literal.
    TypeLit(Vec<TsTypeElement>),
    Array(Box<TsType>),
    Tuple(Vec<TsType>),
    Union(Vec<TsType>),
    Intersection(Vec<TsType>),
    Conditional { check: Box<TsType>, extends: Box<TsType>, true_type: Box<TsType>, false_type: Box<TsType> },
    Paren(Box<TsType>),
    Operator { op: TypeOperatorOp, type_ann: Box<TsType> },
    IndexedAccess { object: Box<TsType>, index: Box<TsType> },
    Mapped { readonly: Option<TruePlusMinus>, type_param: TypeParam, type_ann: Option<Box<TsType>> },
    /// A numeric literal type, by the bit pattern of its IEEE-754 value.
    NumberLit(u64),
    StringLit(String),
    BoolLit(bool),
    Template(Vec<TplPart>),
    /// A kind the reader does not model (optional, rest, infer, predicate
    /// and import types, bigint literals).
    Unsupported,
}

/// The name of a property key as the reader sees it.
pub enum PropKey {
    /// An identifier, a string or a number key, by its text.
    Name(String),
    /// A computed or other key.
    Unknown,
}

/// A parameter pattern of a function, method or signature.
pub enum Pat {
    Ident { name: String, type_ann: Option<TsType>, optional: bool },
    /// A rest parameter; `name` is set when its argument is an identifier.
    Rest { name: Option<String>, type_ann: Option<TsType> },
    Array { type_ann: Option<TsType>, optional: bool },
    Object { type_ann: Option<TsType>, optional: bool },
    /// A parameter with a default value.
    Assign(Box<Pat>),
    Other,
}

/// A constructor parameter: a plain parameter, or a parameter property
/// (`public x`) that is a bare identifier.
pub enum CtorParam {
    Param(Pat),
    PropIdent(String),
}

/// An index signature `[key: K]: V`, by its first parameter.
pub struct IndexSignature {
    pub docs: JsDocs,
    pub param: Pat,
    pub type_ann: Option<TsType>,
}

/// A member of an interface body or an object type literal.
pub enum TsTypeElement {
    CallSignature { docs: JsDocs, type_params: Vec<TypeParam>, params: Vec<Pat>, type_ann: Option<TsType> },
    ConstructSignature { docs: JsDocs, type_params: Vec<TypeParam>, params: Vec<Pat>, type_ann: Option<TsType> },
    Property { docs: JsDocs, key: PropKey, type_ann: Option<TsType>, optional: bool },
    Getter { docs: JsDocs, key: PropKey, type_ann: Option<TsType> },
    Setter { docs: JsDocs, key: PropKey, param: Pat },
    Method {
        docs: JsDocs,
        key: PropKey,
        type_params: Vec<TypeParam>,
        params: Vec<Pat>,
        type_ann: Option<TsType>,
        optional: bool,
    },
    Index(IndexSignature),
}

/// A literal expression. Numbers are held by the bit pattern of their value.
pub enum Lit {
    Num(u64),
    Str(String),
    JsxText(String),
    Bool(bool),
    BigInt,
    Null,
    Regex,
}

/// One piece of a template literal: its raw text, and the expression that
/// follows it unless it is the last piece.
pub struct TplExprPart {
    pub raw: String,
    pub next: Option<Expr>,
}

/// A JavaScript expression.
pub enum Expr {
    Lit(Lit),
    Tpl(Vec<TplExprPart>),
    Paren(Box<Expr>),
    /// `x as T` or `<T>x`.
    TypeCast(TsType),
    /// `x satisfies T`.
    Satisfies(TsType),
    This,
    Fn(FnExpr),
    Arrow(ArrowExpr),
    Class(ClassExpr),
    Call(CallExpr),
    Ident(BindingId),
    Object(Vec<PropOrSpread>),
    /// A member access; `property` is set when it is a plain identifier.
    Member { object: Box<Expr>, property: Option<String> },
    Other,
}

/// A call; `callee` is `None` for `super(..)` and `import(..)`.
pub struct CallExpr {
    pub callee: Option<CalleeRef>,
    pub args: Vec<Expr>,
}

/// A property of an object literal.
pub enum Prop {
    Shorthand(String),
    KeyValue { key: PropKey, value: Box<Expr> },
    Method { key: PropKey, function: Function },
    Getter { key: PropKey, type_ann: Option<TsType> },
    Setter { key: PropKey },
    Assign(String),
}

/// A member of an object literal.
pub enum PropOrSpread {
    Prop(Prop),
    Spread,
}

/// A function body with its signature. `returned` lists the shapes of the
/// expressions its `return` statements give back (those of nested functions,
/// arrows and classes left out).
pub struct Function {
    pub docs: JsDocs,
    pub params: Vec<Pat>,
    pub type_params: Vec<TypeParam>,
    pub return_type: Option<Box<TsType>>,
    pub returned: Vec<ReturnShape>,
}

/// An arrow function. `returned` lists the shapes of what it gives back: its
/// expression body, or the arguments of the `return` statements of its block.
pub struct ArrowExpr {
    pub params: Vec<Pat>,
    pub type_params: Vec<TypeParam>,
    pub return_type: Option<Box<TsType>>,
    pub returned: Vec<ReturnShape>,
}

/// A function expression, named or not.
pub struct FnExpr {
    pub docs: JsDocs,
    pub ident: Option<BindingId>,
    pub function: Function,
}

/// A function declaration.
pub struct FnDecl {
    pub docs: JsDocs,
    pub ident: BindingId,
    pub function: Function,
}

/// The accessibility modifier of a class member.
pub enum Accessibility {
    Public,
    Protected,
    Private,
}

/// What a class method is.
pub enum MethodKind {
    Method,
    Getter,
    Setter,
}

/// A member of a class body.
pub enum ClassMember {
    Prop {
        docs: JsDocs,
        key: PropKey,
        type_ann: Option<TsType>,
        is_optional: bool,
        is_static: bool,
        is_abstract: bool,
        accessibility: Option<Accessibility>,
    },
    Method {
        docs: JsDocs,
        key: PropKey,
        kind: MethodKind,
        function: Function,
        is_optional: bool,
        is_static: bool,
        is_abstract: bool,
        accessibility: Option<Accessibility>,
    },
    Index(IndexSignature),
    /// A constructor; `name` is its key when that is an identifier.
    Constructor {
        docs: JsDocs,
        name: Option<String>,
        params: Vec<CtorParam>,
        is_optional: bool,
        accessibility: Option<Accessibility>,
    },
    Other,
}

/// A class body with its heritage.
pub struct Class {
    pub docs: JsDocs,
    pub super_class: Option<Box<Expr>>,
    pub super_type_params: Option<Vec<TsType>>,
    pub body: Vec<ClassMember>,
    pub type_params: Vec<TypeParam>,
}

/// A class expression, named or not.
pub struct ClassExpr {
    pub docs: JsDocs,
    pub ident: Option<BindingId>,
    pub class: Class,
}

/// A class declaration.
pub struct ClassDecl {
    pub docs: JsDocs,
    pub ident: BindingId,
    pub class: Class,
}

/// An expression with type arguments, as in `extends Base<T>`.
pub struct ExprWithTypeArgs {
    pub expr: Box<Expr>,
    pub type_args: Option<Vec<TsType>>,
}

/// An interface declaration.
pub struct InterfaceDecl {
    pub docs: JsDocs,
    pub id: BindingId,
    pub type_params: Vec<TypeParam>,
    pub extends: Vec<ExprWithTypeArgs>,
    pub body: Vec<TsTypeElement>,
}

/// A type alias declaration.
pub struct TypeAliasDecl {
    pub docs: JsDocs,
    pub id: BindingId,
    pub type_params: Vec<TypeParam>,
    pub type_ann: TsType,
}

/// A binding pattern of a variable declarator.
pub enum BindPat {
    Ident { id: BindingId, type_ann: Option<TsType> },
    Array(Vec<Option<BindPat>>),
    Object(Vec<ObjectPatProp>),
    Rest(Box<BindPat>),
    Assign(Box<BindPat>),
    Other,
}

/// A property of an object binding pattern.
pub enum ObjectPatProp {
    KeyValue(BindPat),
    /// `{ key }` or `{ key = value }`.
    Assign(String),
    Rest(BindPat),
}

/// One declarator of a variable declaration.
pub struct VarDeclarator {
    pub docs: JsDocs,
    pub name: BindPat,
    pub init: Option<Box<Expr>>,
}

/// A variable declaration.
pub struct VarDecl {
    pub docs: JsDocs,
    pub decls: Vec<VarDeclarator>,
}

/// A declaration.
pub enum Decl {
    Class(ClassDecl),
    Fn(FnDecl),
    Interface(InterfaceDecl),
    TypeAlias(TypeAliasDecl),
    Var(VarDecl),
    Other,
}

/// What `export default` declares.
pub enum DefaultDecl {
    Class(ClassExpr),
    Fn(FnExpr),
    Interface(InterfaceDecl),
}

/// An import specifier. `imported` of a named import is the exported name it
/// takes, when written (`import { imported as local }`).
pub enum ImportSpecifier {
    Named { local: BindingId, imported: Option<String> },
    Default { local: BindingId },
    Namespace { local: BindingId },
}

/// A specifier of `export { .. } from 'src'`: the name taken from `src` and
/// the name it is exported under, when written.
pub enum ReexportSpecifier {
    Named { orig: String, exported: Option<String> },
    Other,
}

/// A specifier of a local `export { .. }`: the binding exported and the name
/// it is exported under, when written.
pub enum LocalExportSpecifier {
    Named { orig: BindingId, exported: Option<String> },
    Other,
}

/// A module item the reader acts on, in the order the module visitor meets
/// them.
pub enum ModuleItem {
    Import { src: String, specifiers: Vec<ImportSpecifier> },
    /// `export <decl>`, with the doc block in front of the `export`.
    ExportDecl { docs: JsDocs, decl: Decl },
    ExportDefault(DefaultDecl),
    Reexport { src: String, specifiers: Vec<ReexportSpecifier> },
    LocalExport(Vec<LocalExportSpecifier>),
    ExportAll { src: String },
    /// Any other declaration met.
    Decl(Decl),
}

} // verus!
