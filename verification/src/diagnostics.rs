//! Diagnostics reported by the parser.
use crate::span::Span;
use crate::token::TokenKind;
use vstd::prelude::*;

verus! {

/// How serious a diagnostic is.
#[derive(Clone, Copy, Debug, PartialEq, Eq, Structural)]
pub enum Severity {
    Error,
    Warning,
}

/// What went wrong while parsing.
#[derive(Debug)]
pub enum ParseDiagnosticCode {
    UnexpectedToken,
    ExpectedExpression,
    ExpectedIdent,
    ExpectedStatement,
    ExpectedIntLiteral,
    ExpectedCatchExceptionType,
    ExpectedAtLeastOneArgument,
    InvalidIntLiteral,
    InvalidFloatLiteral,
    PositionalAfterNamedArg,
    VariadicAfterNamedArg,
    UnpackedArrayItemWithFatArrow,
    /// A token of this kind was expected.
    ExpectedToken(TokenKind),
    /// One of these tokens was expected.
    ExpectedTokens(Vec<TokenKind>),
    /// One of these was expected.
    ExpectedOneOf(Vec<ParseDiagnosticCode>),
}

/// The message of a diagnostic with code `c` that carries no message of
/// its own.
pub open spec fn spec_default_message(c: ParseDiagnosticCode) -> Seq<char> {
    match c {
        ParseDiagnosticCode::UnexpectedToken => "unexpected token"@,
        ParseDiagnosticCode::ExpectedExpression => "expected expression"@,
        ParseDiagnosticCode::ExpectedIdent => "expected identifier"@,
        ParseDiagnosticCode::ExpectedStatement => "expected statement"@,
        ParseDiagnosticCode::ExpectedIntLiteral => "expected integer literal"@,
        ParseDiagnosticCode::ExpectedCatchExceptionType => "expected exception type in catch clause"@,
        ParseDiagnosticCode::ExpectedAtLeastOneArgument => "expected at least one argument"@,
        ParseDiagnosticCode::InvalidIntLiteral => "invalid integer literal"@,
        ParseDiagnosticCode::InvalidFloatLiteral => "invalid float literal"@,
        ParseDiagnosticCode::PositionalAfterNamedArg => "positional argument after named argument"@,
        ParseDiagnosticCode::VariadicAfterNamedArg => "argument unpacking after named argument"@,
        ParseDiagnosticCode::UnpackedArrayItemWithFatArrow => "unpacked array item cannot have a key"@,
        ParseDiagnosticCode::ExpectedToken(_) => "expected token"@,
        ParseDiagnosticCode::ExpectedTokens(_) => "expected one of several tokens"@,
        ParseDiagnosticCode::ExpectedOneOf(_) => "unexpected input"@,
    }
}

impl ParseDiagnosticCode {
    pub fn expected_token(kind: TokenKind) -> (c: ParseDiagnosticCode)
        ensures
            c == ParseDiagnosticCode::ExpectedToken(kind),
    {
        ParseDiagnosticCode::ExpectedToken(kind)
    }

    pub fn expected_tokens(kinds: Vec<TokenKind>) -> (c: ParseDiagnosticCode)
        ensures
            c == ParseDiagnosticCode::ExpectedTokens(kinds),
    {
        ParseDiagnosticCode::ExpectedTokens(kinds)
    }

    pub fn expected_one_of(codes: Vec<ParseDiagnosticCode>) -> (c: ParseDiagnosticCode)
        ensures
            c == ParseDiagnosticCode::ExpectedOneOf(codes),
    {
        ParseDiagnosticCode::ExpectedOneOf(codes)
    }

    /// The message that a diagnostic with this code and no message of its
    /// own carries.
    pub fn default_message(&self) -> (m: &'static str)
        ensures
            m@ == spec_default_message(*self),
    {
        match self {
            ParseDiagnosticCode::UnexpectedToken => "unexpected token",
            ParseDiagnosticCode::ExpectedExpression => "expected expression",
            ParseDiagnosticCode::ExpectedIdent => "expected identifier",
            ParseDiagnosticCode::ExpectedStatement => "expected statement",
            ParseDiagnosticCode::ExpectedIntLiteral => "expected integer literal",
            ParseDiagnosticCode::ExpectedCatchExceptionType => "expected exception type in catch clause",
            ParseDiagnosticCode::ExpectedAtLeastOneArgument => "expected at least one argument",
            ParseDiagnosticCode::InvalidIntLiteral => "invalid integer literal",
            ParseDiagnosticCode::InvalidFloatLiteral => "invalid float literal",
            ParseDiagnosticCode::PositionalAfterNamedArg => "positional argument after named argument",
            ParseDiagnosticCode::VariadicAfterNamedArg => "argument unpacking after named argument",
            ParseDiagnosticCode::UnpackedArrayItemWithFatArrow => "unpacked array item cannot have a key",
            ParseDiagnosticCode::ExpectedToken(_) => "expected token",
            ParseDiagnosticCode::ExpectedTokens(_) => "expected one of several tokens",
            ParseDiagnosticCode::ExpectedOneOf(_) => "unexpected input",
        }
    }
}

/// A message about a span of the source.
#[derive(Debug)]
pub struct Diagnostic {
    pub severity: Severity,
    pub code: ParseDiagnosticCode,
    pub span: Span,
    pub message: String,
}

impl Diagnostic {
    /// An error with its own message.
    pub fn error(code: ParseDiagnosticCode, span: Span, message: &str) -> (d: Diagnostic)
        ensures
            d.severity == Severity::Error,
            d.code == code,
            d.span == span,
            d.message@ == message@,
    {
        Diagnostic { severity: Severity::Error, code, span, message: message.to_owned() }
    }

    /// An error whose message is the default one of its code.
    pub fn error_from_code(code: ParseDiagnosticCode, span: Span) -> (d: Diagnostic)
        ensures
            d.severity == Severity::Error,
            d.code == code,
            d.span == span,
            d.message@ == spec_default_message(code),
    {
        let message = code.default_message().to_owned();
        Diagnostic { severity: Severity::Error, code, span, message }
    }
}

} // verus!
