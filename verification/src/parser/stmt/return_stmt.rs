//! `return` statements.
use crate::ast::Stmt;
use crate::parser::{following_token, Parser};
use crate::span::Span;
use crate::token::TokenKind;
use vstd::prelude::*;

verus! {

impl<'src> Parser<'src> {
    /// `return;` or `return expr;`.
    pub(super) fn parse_return_stmt(&mut self) -> (r: Option<Stmt>)
        requires
            old(self).wf(),
            old(self).cur_kind() == TokenKind::KwReturn,
        ensures
            final(self).wf(),
            old(self).advances_to(final(self)),
            r matches Some(Stmt::Return { .. }),
            r matches Some(s) && s.spec_span().start == old(self).cur_token().span.start,
            r matches Some(Stmt::Return { expr, .. }) && (expr is None <==> following_token(
                old(self),
            ).kind == TokenKind::Semicolon),
            following_token(old(self)).kind == TokenKind::Semicolon ==> r == Some(
                Stmt::Return {
                    expr: None,
                    span: Span {
                        start: old(self).cur_token().span.start,
                        end: following_token(old(self)).span.end,
                    },
                },
            ) && final(self).diags() == old(self).diags(),
        decreases old(self).rem(), 700nat,
    {
        let return_token = self.bump();
        proof {
            self.lemma_cur_token_at();
        }
        let start = return_token.span.start;
        let mut last_end = return_token.span.end;
        let ghost s1 = *self;
        let maybe_expr = if self.at(TokenKind::Semicolon) {
            None
        } else {
            Some(self.parse_expr_or_err(&mut last_end))
        };
        let ghost s2 = *self;
        if !self.expect_or_err(TokenKind::Semicolon, &mut last_end) {
            let sync = vec![
                TokenKind::Semicolon,
                TokenKind::RBrace,
                TokenKind::Dollar,
                TokenKind::Ident,
                TokenKind::AttrOpen,
            ];
            let ghost s3 = *self;
            self.recover_to_any(&sync);
            proof {
                Self::lemma_evolves_trans(&s2, &s3, self);
            }
        }
        proof {
            Self::lemma_evolves_trans(&s1, &s2, self);
            Self::lemma_evolves_trans(old(self), &s1, self);
        }
        Some(Stmt::Return { expr: maybe_expr, span: Span { start, end: last_end } })
    }
}

} // verus!
