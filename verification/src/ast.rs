//! The syntax tree that the parser builds.
use crate::span::Span;
use vstd::prelude::*;

verus! {

/// A whole file: its top-level statements.
#[derive(Debug)]
pub struct Script {
    pub items: Vec<Stmt>,
    pub span: Span,
}

/// A sequence of statements, such as the body of a function.
#[derive(Debug)]
pub struct Block {
    pub items: Vec<Stmt>,
    pub span: Span,
}

/// A name that appears in the source; its text is the span's text.
#[derive(Clone, Copy, Debug, PartialEq, Eq, Structural)]
pub struct Ident {
    pub span: Span,
}

/// A possibly namespaced name such as `\Foo\Bar`.
#[derive(Debug)]
pub struct QualifiedName {
    pub absolute: bool,
    pub parts: Vec<Ident>,
    pub span: Span,
}

/// The modifiers of a class declaration.
#[derive(Clone, Copy, Debug, PartialEq, Eq, Structural)]
pub struct ClassFlags {
    pub is_abstract: bool,
    pub is_final: bool,
    pub is_readonly: bool,
}

impl ClassFlags {
    pub fn empty() -> (f: ClassFlags)
        ensures
            f == ClassFlags::empty_spec(),
    {
        ClassFlags { is_abstract: false, is_final: false, is_readonly: false }
    }

    /// No modifier set.
    pub open spec fn empty_spec() -> ClassFlags {
        ClassFlags { is_abstract: false, is_final: false, is_readonly: false }
    }
}

/// The modifiers of a class member.
#[derive(Clone, Copy, Debug, PartialEq, Eq, Structural)]
pub struct MemberFlags {
    pub is_public: bool,
    pub is_protected: bool,
    pub is_private: bool,
    pub is_static: bool,
    pub is_final: bool,
    pub is_abstract: bool,
    pub is_readonly: bool,
}

impl MemberFlags {
    pub fn empty() -> (f: MemberFlags)
        ensures
            !f.is_public && !f.is_protected && !f.is_private && !f.is_static
                && !f.is_final && !f.is_abstract && !f.is_readonly,
    {
        MemberFlags {
            is_public: false,
            is_protected: false,
            is_private: false,
            is_static: false,
            is_final: false,
            is_abstract: false,
            is_readonly: false,
        }
    }
}

/// The visibility named by `public`, `protected` or `private`.
#[derive(Clone, Copy, Debug, PartialEq, Eq, Structural)]
pub enum Visibility {
    Public,
    Protected,
    Private,
}

/// `self`, `parent` or `static` in class position.
#[derive(Clone, Copy, Debug, PartialEq, Eq, Structural)]
pub enum SpecialClassName {
    SelfType(Span),
    ParentType(Span),
    StaticType(Span),
}

impl SpecialClassName {
    pub fn span(&self) -> (s: Span)
        ensures
            s == match self {
                SpecialClassName::SelfType(sp) => *sp,
                SpecialClassName::ParentType(sp) => *sp,
                SpecialClassName::StaticType(sp) => *sp,
            },
    {
        match self {
            SpecialClassName::SelfType(sp) => *sp,
            SpecialClassName::ParentType(sp) => *sp,
            SpecialClassName::StaticType(sp) => *sp,
        }
    }
}

/// A reference to a class.
#[derive(Debug)]
pub enum ClassNameRef {
    Qualified(QualifiedName),
    Special(SpecialClassName),
    Dynamic(Box<Expr>),
}

/// Binary operators.
#[derive(Clone, Copy, Debug, PartialEq, Eq, Structural)]
pub enum BinOpKind {
    Add,
    Sub,
    Mul,
    Div,
    Mod,
    Pow,
    Concat,
    BitAnd,
    BitOr,
    BitXor,
    Shl,
    Shr,
    AndAnd,
    OrOr,
    And,
    Or,
    Xor,
    CmpEq,
    CmpNe,
    CmpEqStrict,
    CmpNeStrict,
    CmpLt,
    CmpLe,
    CmpGt,
    CmpGe,
    CmpSpaceship,
    NullCoalesce,
    InstanceOf,
}

/// Prefix operators.
#[derive(Clone, Copy, Debug, PartialEq, Eq, Structural)]
pub enum UnOpKind {
    Suppress,
    Not,
    Neg,
    Plus,
    Ref,
    BitNot,
}

/// The target type of a cast such as `(int)`.
#[derive(Clone, Copy, Debug, PartialEq, Eq, Structural)]
pub enum CastKind {
    Int,
    Float,
    String,
    Bool,
    Array,
    Object,
}

/// `include`, `include_once`, `require` or `require_once`.
#[derive(Clone, Copy, Debug, PartialEq, Eq, Structural)]
pub enum IncludeKind {
    Include,
    IncludeOnce,
    Require,
    RequireOnce,
}

/// How a string literal is quoted.
#[derive(Clone, Copy, Debug, PartialEq, Eq, Structural)]
pub enum StringStyle {
    SingleQuoted,
    DoubleQuoted,
    Heredoc,
    Nowdoc,
}

/// What a `use` statement imports.
#[derive(Clone, Copy, Debug, PartialEq, Eq, Structural)]
pub enum UseKind {
    Normal,
    Function,
    Const,
}

/// An argument of a call.
#[derive(Debug)]
pub struct Arg {
    pub name: Option<Ident>,
    pub unpack: bool,
    pub expr: Expr,
    pub span: Span,
}

/// An item of an array literal.
#[derive(Debug)]
pub struct ArrayItemExpr {
    pub key: Option<Expr>,
    pub value: Expr,
    pub unpack: bool,
    pub span: Span,
}

/// An item of `list(...)`.
#[derive(Debug)]
pub struct ListItemExpr {
    pub key: Option<Expr>,
    pub value: Option<Expr>,
    pub span: Span,
}

/// An arm of a `match` expression.
#[derive(Debug)]
pub struct MatchArm {
    pub patterns: Vec<MatchPattern>,
    pub expr: Expr,
    pub span: Span,
}

/// A condition of a `match` arm.
#[derive(Debug)]
pub enum MatchPattern {
    Default { span: Span },
    Expr(Expr),
}

/// A variable captured by a closure's `use` clause.
#[derive(Debug)]
pub struct ClosureUse {
    pub by_ref: bool,
    pub name: Ident,
    pub span: Span,
}

/// A parameter of a function, method or closure.
#[derive(Debug)]
pub struct Param {
    pub name: Ident,
    pub type_annotation: Option<TypeRef>,
    pub default: Option<Expr>,
    pub span: Span,
}

/// A type annotation.
#[derive(Debug)]
pub enum TypeRef {
    Named { name: QualifiedName, span: Span },
    Nullable { inner: Box<TypeRef>, span: Span },
    Union { types: Vec<TypeRef>, span: Span },
    Intersection { types: Vec<TypeRef>, span: Span },
}

impl TypeRef {
    pub fn span(&self) -> (s: Span)
        ensures
            s == match self {
                TypeRef::Named { span, .. } => *span,
                TypeRef::Nullable { span, .. } => *span,
                TypeRef::Union { span, .. } => *span,
                TypeRef::Intersection { span, .. } => *span,
            },
    {
        match self {
            TypeRef::Named { span, .. } => *span,
            TypeRef::Nullable { span, .. } => *span,
            TypeRef::Union { span, .. } => *span,
            TypeRef::Intersection { span, .. } => *span,
        }
    }
}

/// An attribute such as `Foo(1)` inside `#[...]`.
#[derive(Debug)]
pub struct Attribute {
    pub name: QualifiedName,
    pub args: Vec<AttributeArg>,
    pub span: Span,
}

/// An argument of an attribute.
#[derive(Debug)]
pub enum AttributeArg {
    Positional { expr: Expr, span: Span },
    Named { name: Ident, expr: Expr, span: Span },
}

/// One `#[...]` group.
#[derive(Debug)]
pub struct AttributeGroup {
    pub attrs: Vec<Attribute>,
    pub span: Span,
}

/// A member of a class body.
#[derive(Debug)]
pub enum ClassMember {
    Const { name: Ident, flags: MemberFlags, value: Expr, span: Span },
    Method {
        name: Ident,
        flags: MemberFlags,
        params: Vec<Param>,
        return_type: Option<TypeRef>,
        body: Option<Block>,
        span: Span,
    },
    Property {
        name: Ident,
        flags: MemberFlags,
        set_visibility: Option<Visibility>,
        type_annotation: Option<TypeRef>,
        default: Option<Expr>,
        hooks: Option<PropertyHooks>,
        span: Span,
    },
    TraitUse { traits: Vec<QualifiedName>, span: Span },
}

/// The `get`/`set` hooks of a property.
#[derive(Debug)]
pub struct PropertyHooks {
    pub get: Option<PropertyHookGet>,
    pub set: Option<PropertyHookSet>,
    pub span: Span,
}

#[derive(Debug)]
pub struct PropertyHookGet {
    pub body: HookBody,
    pub span: Span,
}

#[derive(Debug)]
pub struct PropertyHookSet {
    pub param: Option<Param>,
    pub body: HookBody,
    pub span: Span,
}

/// The body of a property hook: `=> expr;` or a block.
#[derive(Debug)]
pub enum HookBody {
    Expr(Expr),
    Block(Block),
}

/// A `catch` clause.
#[derive(Debug)]
pub struct CatchClause {
    pub exception_types: Vec<TypeRef>,
    pub var: Option<Ident>,
    pub body: Block,
    pub span: Span,
}

/// A `case` or `default` of a `switch`.
#[derive(Debug)]
pub struct SwitchCase {
    pub condition: Option<Expr>,
    pub body: Block,
    pub span: Span,
}

/// One name imported by a `use` statement.
#[derive(Debug)]
pub struct UseImport {
    pub kind: UseKind,
    pub full_name: QualifiedName,
    pub alias: Option<Ident>,
    pub span: Span,
}

/// An expression.
#[derive(Debug)]
pub enum Expr {
    IntLiteral { value: i64, span: Span },
    FloatLiteral { span: Span },
    StringLiteral { style: StringStyle, span: Span },
    ShellExec { span: Span },
    ArrayLiteral { items: Vec<ArrayItemExpr>, span: Span },
    VarRef { name: Ident, span: Span },
    VariableVariable { target: Box<Expr>, span: Span },
    ConstFetch { name: QualifiedName, span: Span },
    NameRef { name: QualifiedName, span: Span },
    Error { span: Span },
    Ternary { condition: Box<Expr>, then_expr: Option<Box<Expr>>, else_expr: Box<Expr>, span: Span },
    NullCoalesce { left: Box<Expr>, right: Box<Expr>, span: Span },
    Assign { target: Box<Expr>, value: Box<Expr>, span: Span },
    CoalesceAssign { target: Box<Expr>, value: Box<Expr>, span: Span },
    CompoundAssign { op: BinOpKind, target: Box<Expr>, value: Box<Expr>, span: Span },
    BinaryOp { op: BinOpKind, left: Box<Expr>, right: Box<Expr>, span: Span },
    InstanceOf { expr: Box<Expr>, class: ClassNameRef, span: Span },
    PrefixInc { target: Box<Expr>, span: Span },
    PrefixDec { target: Box<Expr>, span: Span },
    PostfixInc { target: Box<Expr>, span: Span },
    PostfixDec { target: Box<Expr>, span: Span },
    Throw { expr: Box<Expr>, span: Span },
    Clone { expr: Box<Expr>, span: Span },
    Exit { arg: Option<Box<Expr>>, span: Span },
    UnaryOp { op: UnOpKind, expr: Box<Expr>, span: Span },
    Cast { kind: CastKind, expr: Box<Expr>, span: Span },
    FunctionCall { callee: Box<Expr>, args: Vec<Arg>, span: Span },
    MethodCall { target: Box<Expr>, method: Ident, args: Vec<Arg>, span: Span },
    PropertyFetch { target: Box<Expr>, property: Ident, span: Span },
    DynamicMethodCall { target: Box<Expr>, method_expr: Box<Expr>, args: Vec<Arg>, span: Span },
    DynamicPropertyFetch { target: Box<Expr>, property_expr: Box<Expr>, span: Span },
    ArrayAppend { array: Box<Expr>, span: Span },
    ArrayIndex { array: Box<Expr>, index: Box<Expr>, span: Span },
    StaticPropertyFetch { class_name: ClassNameRef, property: Ident, span: Span },
    StaticCall { class: ClassNameRef, method: Ident, args: Vec<Arg>, span: Span },
    ClassConstFetch { class_name: ClassNameRef, constant: Ident, span: Span },
    Parenthesized { inner: Box<Expr>, span: Span },
    Closure { is_static: bool, params: Vec<Param>, uses: Vec<ClosureUse>, return_type: Option<TypeRef>, body: Block, span: Span },
    ArrowClosure { is_static: bool, params: Vec<Param>, uses: Vec<ClosureUse>, return_type: Option<TypeRef>, body: Box<Expr>, span: Span },
    New { class: Box<Expr>, args: Vec<Arg>, span: Span },
    Match { scrutinee: Box<Expr>, arms: Vec<MatchArm>, span: Span },
    Yield { key: Option<Box<Expr>>, value: Box<Expr>, span: Span },
    YieldFrom { expr: Box<Expr>, span: Span },
    Include { kind: IncludeKind, target: Box<Expr>, span: Span },
    Isset { exprs: Vec<Expr>, span: Span },
    Empty { expr: Box<Expr>, span: Span },
    Eval { expr: Box<Expr>, span: Span },
    Print { expr: Box<Expr>, span: Span },
    ListDestructure { items: Vec<ListItemExpr>, span: Span },
}

impl Expr {
    /// The source span that the node covers.
    pub open spec fn spec_span(&self) -> Span {
        match self {
            Expr::IntLiteral { span, .. } => *span,
            Expr::FloatLiteral { span, .. } => *span,
            Expr::StringLiteral { span, .. } => *span,
            Expr::ShellExec { span, .. } => *span,
            Expr::ArrayLiteral { span, .. } => *span,
            Expr::VarRef { span, .. } => *span,
            Expr::VariableVariable { span, .. } => *span,
            Expr::ConstFetch { span, .. } => *span,
            Expr::NameRef { span, .. } => *span,
            Expr::Error { span, .. } => *span,
            Expr::Ternary { span, .. } => *span,
            Expr::NullCoalesce { span, .. } => *span,
            Expr::Assign { span, .. } => *span,
            Expr::CoalesceAssign { span, .. } => *span,
            Expr::CompoundAssign { span, .. } => *span,
            Expr::BinaryOp { span, .. } => *span,
            Expr::InstanceOf { span, .. } => *span,
            Expr::PrefixInc { span, .. } => *span,
            Expr::PrefixDec { span, .. } => *span,
            Expr::PostfixInc { span, .. } => *span,
            Expr::PostfixDec { span, .. } => *span,
            Expr::Throw { span, .. } => *span,
            Expr::Clone { span, .. } => *span,
            Expr::Exit { span, .. } => *span,
            Expr::UnaryOp { span, .. } => *span,
            Expr::Cast { span, .. } => *span,
            Expr::FunctionCall { span, .. } => *span,
            Expr::MethodCall { span, .. } => *span,
            Expr::PropertyFetch { span, .. } => *span,
            Expr::DynamicMethodCall { span, .. } => *span,
            Expr::DynamicPropertyFetch { span, .. } => *span,
            Expr::ArrayAppend { span, .. } => *span,
            Expr::ArrayIndex { span, .. } => *span,
            Expr::StaticPropertyFetch { span, .. } => *span,
            Expr::StaticCall { span, .. } => *span,
            Expr::ClassConstFetch { span, .. } => *span,
            Expr::Parenthesized { span, .. } => *span,
            Expr::Closure { span, .. } => *span,
            Expr::ArrowClosure { span, .. } => *span,
            Expr::New { span, .. } => *span,
            Expr::Match { span, .. } => *span,
            Expr::Yield { span, .. } => *span,
            Expr::YieldFrom { span, .. } => *span,
            Expr::Include { span, .. } => *span,
            Expr::Isset { span, .. } => *span,
            Expr::Empty { span, .. } => *span,
            Expr::Eval { span, .. } => *span,
            Expr::Print { span, .. } => *span,
            Expr::ListDestructure { span, .. } => *span,
        }
    }

    /// The source span that the node covers.
    pub fn span(&self) -> (s: Span)
        ensures
            s == self.spec_span(),
    {
        match self {
            Expr::IntLiteral { span, .. } => *span,
            Expr::FloatLiteral { span, .. } => *span,
            Expr::StringLiteral { span, .. } => *span,
            Expr::ShellExec { span, .. } => *span,
            Expr::ArrayLiteral { span, .. } => *span,
            Expr::VarRef { span, .. } => *span,
            Expr::VariableVariable { span, .. } => *span,
            Expr::ConstFetch { span, .. } => *span,
            Expr::NameRef { span, .. } => *span,
            Expr::Error { span, .. } => *span,
            Expr::Ternary { span, .. } => *span,
            Expr::NullCoalesce { span, .. } => *span,
            Expr::Assign { span, .. } => *span,
            Expr::CoalesceAssign { span, .. } => *span,
            Expr::CompoundAssign { span, .. } => *span,
            Expr::BinaryOp { span, .. } => *span,
            Expr::InstanceOf { span, .. } => *span,
            Expr::PrefixInc { span, .. } => *span,
            Expr::PrefixDec { span, .. } => *span,
            Expr::PostfixInc { span, .. } => *span,
            Expr::PostfixDec { span, .. } => *span,
            Expr::Throw { span, .. } => *span,
            Expr::Clone { span, .. } => *span,
            Expr::Exit { span, .. } => *span,
            Expr::UnaryOp { span, .. } => *span,
            Expr::Cast { span, .. } => *span,
            Expr::FunctionCall { span, .. } => *span,
            Expr::MethodCall { span, .. } => *span,
            Expr::PropertyFetch { span, .. } => *span,
            Expr::DynamicMethodCall { span, .. } => *span,
            Expr::DynamicPropertyFetch { span, .. } => *span,
            Expr::ArrayAppend { span, .. } => *span,
            Expr::ArrayIndex { span, .. } => *span,
            Expr::StaticPropertyFetch { span, .. } => *span,
            Expr::StaticCall { span, .. } => *span,
            Expr::ClassConstFetch { span, .. } => *span,
            Expr::Parenthesized { span, .. } => *span,
            Expr::Closure { span, .. } => *span,
            Expr::ArrowClosure { span, .. } => *span,
            Expr::New { span, .. } => *span,
            Expr::Match { span, .. } => *span,
            Expr::Yield { span, .. } => *span,
            Expr::YieldFrom { span, .. } => *span,
            Expr::Include { span, .. } => *span,
            Expr::Isset { span, .. } => *span,
            Expr::Empty { span, .. } => *span,
            Expr::Eval { span, .. } => *span,
            Expr::Print { span, .. } => *span,
            Expr::ListDestructure { span, .. } => *span,
        }
    }
}

/// A statement.
#[derive(Debug)]
pub enum Stmt {
    HtmlChunk { span: Span },
    Echo { exprs: Vec<Expr>, span: Span },
    ExprStmt { expr: Expr, span: Span },
    Noop { span: Span },
    Print { expr: Expr, span: Span },
    Return { expr: Option<Expr>, span: Span },
    Throw { expr: Expr, span: Span },
    Break { level: Option<Expr>, span: Span },
    Continue { level: Option<Expr>, span: Span },
    Goto { target: Ident, span: Span },
    Label { name: Ident, span: Span },
    Global { span: Span },
    Unset { exprs: Vec<Expr>, span: Span },
    ConstDecl { name: Ident, value: Option<Expr>, span: Span },
    VarDecl { name: Ident, type_annotation: Option<TypeRef>, init: Option<Expr>, span: Span },
    Assign { target: Ident, value: Expr, span: Span },
    If { cond: Expr, then_block: Block, else_if_blocks: Vec<(Expr, Block)>, else_block: Option<Block>, span: Span },
    While { cond: Option<Expr>, body: Block, span: Span },
    DoWhile { cond: Expr, body: Block, span: Span },
    For { init: Option<Expr>, cond: Option<Expr>, increment: Option<Expr>, body: Block, span: Span },
    Foreach { expr: Option<Expr>, key: Option<Expr>, value: Option<Expr>, body: Block, span: Span },
    Switch { cond: Expr, cases: Vec<SwitchCase>, span: Span },
    Try { try_block: Block, catches: Vec<CatchClause>, finally_block: Option<Block>, span: Span },
    Declare { strict_types: Option<bool>, span: Span },
    Namespace { name: Option<QualifiedName>, body: Block, span: Span },
    Use { imports: Vec<UseImport>, span: Span },
    Function { name: Ident, params: Vec<Param>, return_type: Option<TypeRef>, body: Block, span: Span },
    Class { flags: ClassFlags, name: ClassNameRef, extends: Option<QualifiedName>, implements: Vec<QualifiedName>, body: Vec<ClassMember>, attributes: Vec<AttributeGroup>, span: Span },
    Interface { name: Ident, extends: Vec<QualifiedName>, body: Vec<ClassMember>, span: Span },
    Trait { name: Ident, body: Vec<ClassMember>, span: Span },
    Enum { name: Ident, backed_type: Option<TypeRef>, implements: Vec<QualifiedName>, body: Vec<ClassMember>, span: Span },
}

impl Stmt {
    /// The source span that the node covers.
    pub open spec fn spec_span(&self) -> Span {
        match self {
            Stmt::HtmlChunk { span, .. } => *span,
            Stmt::Echo { span, .. } => *span,
            Stmt::ExprStmt { span, .. } => *span,
            Stmt::Noop { span, .. } => *span,
            Stmt::Print { span, .. } => *span,
            Stmt::Return { span, .. } => *span,
            Stmt::Throw { span, .. } => *span,
            Stmt::Break { span, .. } => *span,
            Stmt::Continue { span, .. } => *span,
            Stmt::Goto { span, .. } => *span,
            Stmt::Label { span, .. } => *span,
            Stmt::Global { span, .. } => *span,
            Stmt::Unset { span, .. } => *span,
            Stmt::ConstDecl { span, .. } => *span,
            Stmt::VarDecl { span, .. } => *span,
            Stmt::Assign { span, .. } => *span,
            Stmt::If { span, .. } => *span,
            Stmt::While { span, .. } => *span,
            Stmt::DoWhile { span, .. } => *span,
            Stmt::For { span, .. } => *span,
            Stmt::Foreach { span, .. } => *span,
            Stmt::Switch { span, .. } => *span,
            Stmt::Try { span, .. } => *span,
            Stmt::Declare { span, .. } => *span,
            Stmt::Namespace { span, .. } => *span,
            Stmt::Use { span, .. } => *span,
            Stmt::Function { span, .. } => *span,
            Stmt::Class { span, .. } => *span,
            Stmt::Interface { span, .. } => *span,
            Stmt::Trait { span, .. } => *span,
            Stmt::Enum { span, .. } => *span,
        }
    }

    /// The source span that the node covers.
    pub fn span(&self) -> (s: Span)
        ensures
            s == self.spec_span(),
    {
        match self {
            Stmt::HtmlChunk { span, .. } => *span,
            Stmt::Echo { span, .. } => *span,
            Stmt::ExprStmt { span, .. } => *span,
            Stmt::Noop { span, .. } => *span,
            Stmt::Print { span, .. } => *span,
            Stmt::Return { span, .. } => *span,
            Stmt::Throw { span, .. } => *span,
            Stmt::Break { span, .. } => *span,
            Stmt::Continue { span, .. } => *span,
            Stmt::Goto { span, .. } => *span,
            Stmt::Label { span, .. } => *span,
            Stmt::Global { span, .. } => *span,
            Stmt::Unset { span, .. } => *span,
            Stmt::ConstDecl { span, .. } => *span,
            Stmt::VarDecl { span, .. } => *span,
            Stmt::Assign { span, .. } => *span,
            Stmt::If { span, .. } => *span,
            Stmt::While { span, .. } => *span,
            Stmt::DoWhile { span, .. } => *span,
            Stmt::For { span, .. } => *span,
            Stmt::Foreach { span, .. } => *span,
            Stmt::Switch { span, .. } => *span,
            Stmt::Try { span, .. } => *span,
            Stmt::Declare { span, .. } => *span,
            Stmt::Namespace { span, .. } => *span,
            Stmt::Use { span, .. } => *span,
            Stmt::Function { span, .. } => *span,
            Stmt::Class { span, .. } => *span,
            Stmt::Interface { span, .. } => *span,
            Stmt::Trait { span, .. } => *span,
            Stmt::Enum { span, .. } => *span,
        }
    }
}

} // verus!
