//! `include`, `include_once`, `require` and `require_once` expressions.
use crate::ast::{Expr, IncludeKind};
use crate::diagnostics::{Diagnostic, ParseDiagnosticCode};
use crate::parser::expr::binop::spec_is_operand;
use crate::parser::Parser;
use crate::span::Span;
use crate::token::TokenKind;
use vstd::prelude::*;

verus! {

/// The kind of file inclusion that a keyword stands for, if any.
pub open spec fn spec_include_kind(kw: TokenKind) -> Option<IncludeKind> {
    match kw {
        TokenKind::KwInclude => Some(IncludeKind::Include),
        TokenKind::KwIncludeOnce => Some(IncludeKind::IncludeOnce),
        TokenKind::KwRequire => Some(IncludeKind::Require),
        TokenKind::KwRequireOnce => Some(IncludeKind::RequireOnce),
        _ => None,
    }
}

fn sync_after_target() -> (v: Vec<TokenKind>)
    ensures
        v@ == seq![TokenKind::Semicolon, TokenKind::Comma, TokenKind::RBrace, TokenKind::RParen],
{
    vec![TokenKind::Semicolon, TokenKind::Comma, TokenKind::RBrace, TokenKind::RParen]
}

impl<'src> Parser<'src> {
    /// The inclusion expression that starts at the current keyword, whose
    /// kind is `kind`. A parenthesized target may hold several
    /// comma-separated expressions, of which the last is the target.
    pub(super) fn parse_include_expr(&mut self, kind: IncludeKind) -> (r: Expr)
        requires
            old(self).wf(),
            spec_include_kind(old(self).cur_kind()) is Some,
        ensures
            spec_is_operand(r),
            final(self).wf(),
            old(self).advances_to(final(self)),
            r is Include,
        decreases old(self).rem(), 300nat,
    {
        let kw_token = self.bump();
        let start_pos = kw_token.span.start;
        let ghost s1 = *self;
        if self.at(TokenKind::LParen) {
            let lp_tok = self.bump();
            let lp_end = lp_tok.span.end;
            let ghost s2 = *self;
            let inner_expr = match self.parse_expr() {
                Some(first) => {
                    let mut expr = first;
                    loop
                        invariant
                            self.wf(),
                            s2.evolves_to(self),
                            old(self).advances_to(self),
                        decreases self.rem(),
                    {
                        let ghost it = *self;
                        if !self.at(TokenKind::Comma) {
                            break;
                        }
                        let comma_tok = self.bump();
                        let comma_end = comma_tok.span.end;
                        match self.parse_expr() {
                            Some(next) => {
                                expr = next;
                            },
                            None => {
                                let sync = vec![
                                    TokenKind::RParen,
                                    TokenKind::Semicolon,
                                    TokenKind::Comma,
                                    TokenKind::RBrace,
                                ];
                                self.error_and_recover(
                                    Diagnostic::error_from_code(
                                        ParseDiagnosticCode::ExpectedExpression,
                                        Span::at(comma_end),
                                    ),
                                    &sync,
                                );
                                proof {
                                    Self::lemma_evolves_trans(&s2, &it, self);
                                    Self::lemma_evolves_trans(old(self), &it, self);
                                }
                                break;
                            },
                        }
                        proof {
                            Self::lemma_evolves_trans(&s2, &it, self);
                            Self::lemma_evolves_trans(old(self), &it, self);
                        }
                    }
                    expr
                },
                None => {
                    let sync = vec![
                        TokenKind::RParen,
                        TokenKind::Semicolon,
                        TokenKind::Comma,
                        TokenKind::RBrace,
                    ];
                    let ghost s3 = *self;
                    self.error_and_recover(
                        Diagnostic::error_from_code(
                            ParseDiagnosticCode::ExpectedExpression,
                            Span::at(lp_end),
                        ),
                        &sync,
                    );
                    let fake_span = self.current_span();
                    let sync2 = vec![
                        TokenKind::Semicolon,
                        TokenKind::Comma,
                        TokenKind::RBrace,
                        TokenKind::RParen,
                    ];
                    let ghost s4 = *self;
                    let _ = self.expect_closing_or_recover(TokenKind::RParen, &sync2);
                    proof {
                        Self::lemma_evolves_trans(&s3, &s4, self);
                        Self::lemma_evolves_trans(&s2, &s3, self);
                    }
                    Expr::Error { span: fake_span }
                },
            };
            let ghost s5 = *self;
            if self.at(TokenKind::RParen) {
                let rp_end = self.bump().span.end;
                proof {
                    Self::lemma_evolves_trans(&s2, &s5, self);
                    Self::lemma_evolves_trans(&s1, &s2, self);
                }
                return Expr::Include {
                    kind,
                    target: Box::new(inner_expr),
                    span: Span { start: start_pos, end: rp_end },
                };
            } else {
                let sp = self.current_span();
                let sync = sync_after_target();
                self.error_and_recover(
                    Diagnostic::error_from_code(
                        ParseDiagnosticCode::expected_token(TokenKind::RParen),
                        sp,
                    ),
                    &sync,
                );
                proof {
                    Self::lemma_evolves_trans(&s2, &s5, self);
                    Self::lemma_evolves_trans(&s1, &s2, self);
                }
                let fallback_end = inner_expr.span().end;
                return Expr::Include {
                    kind,
                    target: Box::new(inner_expr),
                    span: Span { start: start_pos, end: fallback_end },
                };
            }
        }
        let kw_end = kw_token.span.end;
        let target_expr = match self.parse_expr() {
            Some(expr) => expr,
            None => {
                let sync = sync_after_target();
                let ghost s3 = *self;
                self.error_and_recover(
                    Diagnostic::error_from_code(
                        ParseDiagnosticCode::ExpectedExpression,
                        Span::at(kw_end),
                    ),
                    &sync,
                );
                proof {
                    Self::lemma_evolves_trans(&s1, &s3, self);
                }
                Expr::Error { span: self.current_span() }
            },
        };
        let full_span = Span { start: start_pos, end: target_expr.span().end };
        Expr::Include { kind, target: Box::new(target_expr), span: full_span }
    }

    /// The kind of file inclusion that the keyword `kw` stands for, if any.
    pub(crate) fn keyword_to_include_kind(&self, kw: TokenKind) -> (r: Option<IncludeKind>)
        ensures
            r == spec_include_kind(kw),
    {
        match kw {
            TokenKind::KwInclude => Some(IncludeKind::Include),
            TokenKind::KwIncludeOnce => Some(IncludeKind::IncludeOnce),
            TokenKind::KwRequire => Some(IncludeKind::Require),
            TokenKind::KwRequireOnce => Some(IncludeKind::RequireOnce),
            _ => None,
        }
    }
}

} // verus!
