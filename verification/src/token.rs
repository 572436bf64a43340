//! Tokens as produced by the lexer and read by the parser.
use crate::span::Span;
use vstd::prelude::*;

verus! {

/// The kind of a lexical token.
#[derive(Clone, Copy, Debug, PartialEq, Eq, Structural)]
pub enum TokenKind {
    Amp,
    AmpEq,
    AndAnd,
    Arrow,
    AttrOpen,
    Backslash,
    Bang,
    Caret,
    CaretEq,
    ColCol,
    Colon,
    Comma,
    DivEq,
    Dollar,
    Dot,
    DotEq,
    EchoOpen,
    Ellipsis,
    Eof,
    Eq,
    EqEq,
    FatArrow,
    Float,
    Ge,
    Gt,
    HtmlChunk,
    Ident,
    Int,
    KwAbstract,
    KwAnd,
    KwArray,
    KwAs,
    KwBreak,
    KwCallable,
    KwCase,
    KwCatch,
    KwClass,
    KwClone,
    KwConst,
    KwContinue,
    KwDeclare,
    KwDefault,
    KwDie,
    KwDo,
    KwEcho,
    KwElse,
    KwElseIf,
    KwEmpty,
    KwEndDeclare,
    KwEndFor,
    KwEndForeach,
    KwEndIf,
    KwEndSwitch,
    KwEndWhile,
    KwEnum,
    KwEval,
    KwExit,
    KwExtends,
    KwFinal,
    KwFinally,
    KwFn,
    KwFor,
    KwForeach,
    KwFrom,
    KwFunction,
    KwGet,
    KwGlobal,
    KwGoto,
    KwIf,
    KwImplements,
    KwInclude,
    KwIncludeOnce,
    KwInstanceof,
    KwInsteadof,
    KwInterface,
    KwIsset,
    KwList,
    KwMatch,
    KwNamespace,
    KwNew,
    KwOr,
    KwParent,
    KwPrint,
    KwPrivate,
    KwProtected,
    KwPublic,
    KwReadonly,
    KwRequire,
    KwRequireOnce,
    KwReturn,
    KwSelf,
    KwSet,
    KwStatic,
    KwSwitch,
    KwThrow,
    KwTrait,
    KwTry,
    KwUnset,
    KwUse,
    KwVar,
    KwWhile,
    KwXor,
    KwYield,
    LBrace,
    LBracket,
    LParen,
    Le,
    Lt,
    Minus,
    MinusEq,
    MinusMinus,
    ModEq,
    MulEq,
    NotEq,
    NotEqAlt,
    NullCoalesce,
    NullCoalesceAssign,
    NullsafeArrow,
    OrOr,
    Percent,
    PhpClose,
    PhpOpen,
    Pipe,
    PipeEq,
    Plus,
    PlusEq,
    PlusPlus,
    Pow,
    PowEq,
    Question,
    RBrace,
    RBracket,
    RParen,
    Semicolon,
    Shl,
    ShlEq,
    Shr,
    ShrEq,
    Silence,
    Slash,
    Spaceship,
    Star,
    StrBt,
    StrDq,
    StrSq,
    StrictEq,
    StrictNe,
    Tilde,
    VarIdent,
    Whitespace,
    Comment,
    DocComment,
    Unknown,
}

/// Whitespace and comments: tokens that the parser skips.
pub open spec fn spec_is_trivia(k: TokenKind) -> bool {
    k == TokenKind::Whitespace || k == TokenKind::Comment || k == TokenKind::DocComment
}

impl TokenKind {
    /// Whether the parser skips tokens of this kind.
    pub fn is_trivia(&self) -> (b: bool)
        ensures
            b == spec_is_trivia(*self),
    {
        match self {
            TokenKind::Whitespace | TokenKind::Comment | TokenKind::DocComment => true,
            _ => false,
        }
    }
}

/// How a token of an operator kind is spelled in the source (keywords in
/// lower case); `None` for the other kinds.
pub open spec fn spec_operator_spelling(k: TokenKind) -> Option<Seq<char>> {
    match k {
        TokenKind::Plus => Some("+"@),
        TokenKind::Minus => Some("-"@),
        TokenKind::Star => Some("*"@),
        TokenKind::Slash => Some("/"@),
        TokenKind::Percent => Some("%"@),
        TokenKind::Pow => Some("**"@),
        TokenKind::Dot => Some("."@),
        TokenKind::AndAnd => Some("&&"@),
        TokenKind::OrOr => Some("||"@),
        TokenKind::NullCoalesce => Some("??"@),
        TokenKind::KwOr => Some("or"@),
        TokenKind::KwXor => Some("xor"@),
        TokenKind::KwAnd => Some("and"@),
        TokenKind::Amp => Some("&"@),
        TokenKind::Pipe => Some("|"@),
        TokenKind::Caret => Some("^"@),
        TokenKind::Shl => Some("<<"@),
        TokenKind::Shr => Some(">>"@),
        TokenKind::StrictEq => Some("==="@),
        TokenKind::StrictNe => Some("!=="@),
        TokenKind::EqEq => Some("=="@),
        TokenKind::NotEq => Some("!="@),
        TokenKind::NotEqAlt => Some("<>"@),
        TokenKind::Lt => Some("<"@),
        TokenKind::Gt => Some(">"@),
        TokenKind::Le => Some("<="@),
        TokenKind::Ge => Some(">="@),
        TokenKind::Spaceship => Some("<=>"@),
        TokenKind::KwInstanceof => Some("instanceof"@),
        TokenKind::Bang => Some("!"@),
        TokenKind::Tilde => Some("~"@),
        TokenKind::Silence => Some("@"@),
        _ => None,
    }
}

/// The operator that a compound assignment token writes before its `=`:
/// `+` for `+=`, `**` for `**=`; `None` for the other kinds.
pub open spec fn spec_compound_assign_stem(k: TokenKind) -> Option<Seq<char>> {
    match k {
        TokenKind::PlusEq => Some("+"@),
        TokenKind::MinusEq => Some("-"@),
        TokenKind::MulEq => Some("*"@),
        TokenKind::DivEq => Some("/"@),
        TokenKind::ModEq => Some("%"@),
        TokenKind::DotEq => Some("."@),
        TokenKind::AmpEq => Some("&"@),
        TokenKind::PipeEq => Some("|"@),
        TokenKind::CaretEq => Some("^"@),
        TokenKind::ShlEq => Some("<<"@),
        TokenKind::ShrEq => Some(">>"@),
        TokenKind::PowEq => Some("**"@),
        _ => None,
    }
}

/// A token: its kind and the bytes of the source that it covers.
#[derive(Clone, Copy, Debug, PartialEq, Eq, Structural)]
pub struct Token {
    pub kind: TokenKind,
    pub span: Span,
}

} // verus!
