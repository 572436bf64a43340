//! `unset(...)`.
use crate::ast::{Expr, Stmt};
use crate::diagnostics::{Diagnostic, ParseDiagnosticCode};
use crate::parser::Parser;
use crate::span::Span;
use crate::token::TokenKind;
use vstd::prelude::*;

verus! {

impl<'src> Parser<'src> {
    /// `unset(a, b, ...);`, which takes at least one argument; a trailing
    /// comma is allowed.
    pub(super) fn parse_unset_stmt(&mut self) -> (r: Option<Stmt>)
        requires
            old(self).wf(),
            old(self).cur_kind() == TokenKind::KwUnset,
        ensures
            final(self).wf(),
            old(self).advances_to(final(self)),
            r matches Some(Stmt::Unset { .. }),
            r matches Some(s) && s.spec_span().start == old(self).cur_token().span.start,
            final(self).diags().len() == old(self).diags().len() ==> (r matches Some(
                Stmt::Unset { exprs, .. },
            ) && exprs@.len() > 0),
        decreases old(self).rem(), 700nat,
    {
        let kw = self.bump();
        let start = kw.span.start;
        let mut last_end = kw.span.end;
        let ghost s1 = *self;
        self.expect_or_err(TokenKind::LParen, &mut last_end);
        proof {
            Self::lemma_evolves_trans(old(self), &s1, self);
        }
        let mut exprs: Vec<Expr> = Vec::new();
        let ghost s2 = *self;
        if let Some(rp) = self.expect(TokenKind::RParen) {
            last_end = rp.span.end;
            self.error(
                Diagnostic::error_from_code(
                    ParseDiagnosticCode::ExpectedAtLeastOneArgument,
                    Span { start, end: last_end },
                ),
            );
            let ghost s3 = *self;
            self.expect_or_err(TokenKind::Semicolon, &mut last_end);
            proof {
                Self::lemma_evolves_trans(&s2, &s3, self);
                Self::lemma_evolves_trans(old(self), &s2, self);
            }
            return Some(Stmt::Unset { exprs, span: Span { start, end: last_end } });
        }
        loop
            invariant
                self.wf(),
                old(self).advances_to(self),
            ensures
                self.wf(),
                old(self).advances_to(self),
                self.diags().len() == old(self).diags().len() ==> exprs@.len() > 0,
            decreases self.rem(),
        {
            let ghost it = *self;
            let loop_start = self.current_span().start;
            match self.parse_expr() {
                Some(e) => {
                    last_end = e.span().end;
                    exprs.push(e);
                },
                None => {
                    let sync = vec![TokenKind::Comma, TokenKind::RParen];
                    let ghost s4 = *self;
                    self.error_and_recover(
                        Diagnostic::error_from_code(
                            ParseDiagnosticCode::ExpectedExpression,
                            Span::at(loop_start),
                        ),
                        &sync,
                    );
                    proof {
                        Self::lemma_evolves_trans(&it, &s4, self);
                    }
                },
            }
            let ghost s5 = *self;
            if self.eat(TokenKind::Comma) {
                proof {
                    Self::lemma_evolves_trans(&it, &s5, self);
                    Self::lemma_evolves_trans(old(self), &it, self);
                }
                if self.at(TokenKind::RParen) {
                    break;
                }
                continue;
            }
            proof {
                Self::lemma_evolves_trans(old(self), &it, self);
            }
            break;
        }
        let ghost s6 = *self;
        self.expect_or_err(TokenKind::RParen, &mut last_end);
        self.expect_or_err(TokenKind::Semicolon, &mut last_end);
        proof {
            Self::lemma_evolves_trans(old(self), &s6, self);
        }
        Some(Stmt::Unset { exprs, span: Span { start, end: last_end } })
    }
}

} // verus!
