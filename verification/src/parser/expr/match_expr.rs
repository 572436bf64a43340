//! `match (expr) { pattern, ... => expr, ... }`.
use crate::ast::{Expr, MatchArm, MatchPattern};
use crate::diagnostics::{Diagnostic, ParseDiagnosticCode};
use crate::parser::expr::binop::spec_is_operand;
use crate::parser::Parser;
use crate::span::Span;
use crate::token::TokenKind;
use vstd::prelude::*;

verus! {

impl<'src> Parser<'src> {
    /// A `match` expression. The arms end at `}` or at the end of the
    /// input.
    pub(super) fn parse_match_expr(&mut self) -> (r: Expr)
        requires
            old(self).wf(),
            old(self).cur_kind() == TokenKind::KwMatch,
        ensures
            spec_is_operand(r),
            final(self).wf(),
            old(self).advances_to(final(self)),
        decreases old(self).rem(), 300nat,
    {
        let match_token = self.bump();
        let start = match_token.span.start;
        let mut last_end = match_token.span.end;
        self.expect_or_err(TokenKind::LParen, &mut last_end);
        let scrutinee = self.parse_expr_or_err(&mut last_end);
        self.expect_or_err(TokenKind::RParen, &mut last_end);
        let lb_start = self.current_span().start;
        self.expect_or_err(TokenKind::LBrace, &mut last_end);
        let mut arms: Vec<MatchArm> = Vec::new();
        loop
            invariant
                self.wf(),
                old(self).advances_to(self),
            decreases self.rem(),
        {
            if self.at(TokenKind::RBrace) || self.eof() {
                break;
            }
            let ghost it = *self;
            let p0 = self.cursor();
            let mut patterns: Vec<MatchPattern> = Vec::new();
            if self.at(TokenKind::KwDefault) {
                let d = self.bump();
                patterns.push(MatchPattern::Default { span: d.span });
                last_end = d.span.end;
            } else {
                let first_pat = match self.parse_expr() {
                    Some(expr) => {
                        last_end = expr.span().end;
                        MatchPattern::Expr(expr)
                    },
                    None => {
                        let code = ParseDiagnosticCode::expected_one_of(
                            vec![
                                ParseDiagnosticCode::ExpectedExpression,
                                ParseDiagnosticCode::expected_token(TokenKind::KwDefault),
                            ],
                        );
                        let sync = vec![TokenKind::FatArrow, TokenKind::Comma, TokenKind::RBrace];
                        self.error_and_recover(
                            Diagnostic::error_from_code(code, Span::at(last_end)),
                            &sync,
                        );
                        MatchPattern::Expr(Expr::Error { span: Span::at(last_end) })
                    },
                };
                patterns.push(first_pat);
                loop
                    invariant
                        self.wf(),
                        it.evolves_to(self),
                        old(self).advances_to(self),
                    decreases self.rem(),
                {
                    if !self.eat(TokenKind::Comma) {
                        break;
                    }
                    let e = self.parse_expr_or_err(&mut last_end);
                    patterns.push(MatchPattern::Expr(e));
                }
            }
            self.expect_or_err(TokenKind::FatArrow, &mut last_end);
            let arm_expr = self.parse_expr_or_err(&mut last_end);
            let mut arm_end = arm_expr.span().end;
            self.eat_and_update_end(TokenKind::Comma, &mut arm_end);
            arms.push(MatchArm { patterns, expr: arm_expr, span: Span { start, end: arm_end } });
            if self.at(TokenKind::RBrace) {
                break;
            }
            if self.cursor() == p0 {
                // Nothing of this arm could be read: skip the offending token.
                if self.eof() {
                    break;
                }
                let sp = self.current_span();
                let ghost before = *self;
                self.recover_one_token(
                    Diagnostic::error_from_code(ParseDiagnosticCode::UnexpectedToken, sp),
                );
                proof {
                    Self::lemma_evolves_trans(&it, &before, self);
                }
            } else {
                proof {
                    Self::lemma_progress(&it, self);
                }
            }
            proof {
                Self::lemma_evolves_trans(old(self), &it, self);
            }
        }
        let rb = self.expect_or_err(TokenKind::RBrace, &mut last_end);
        let end = if rb {
            last_end
        } else {
            if lb_start >= last_end {
                lb_start
            } else {
                last_end
            }
        };
        Expr::Match { scrutinee: Box::new(scrutinee), arms, span: Span { start, end } }
    }
}

} // verus!
