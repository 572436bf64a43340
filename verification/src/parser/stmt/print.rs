//! `print expr;` as a statement of its own.
use crate::ast::{Expr, Stmt};
use crate::parser::Parser;
use crate::span::Span;
use crate::token::TokenKind;
use vstd::prelude::*;

verus! {

impl<'src> Parser<'src> {
    /// `print expr;`.
    pub(super) fn parse_print_stmt(&mut self) -> (r: Option<Stmt>)
        requires
            old(self).wf(),
            old(self).cur_kind() == TokenKind::KwPrint,
        ensures
            final(self).wf(),
            old(self).advances_to(final(self)),
            r matches Some(Stmt::Print { .. }),
            r matches Some(s) && s.spec_span().start == old(self).cur_token().span.start,
        decreases old(self).rem(), 700nat,
    {
        let kw = self.bump();
        let start = kw.span.start;
        let ghost s1 = *self;
        let expr = match self.parse_expr() {
            Some(e) => e,
            None => {
                let sync = vec![TokenKind::Semicolon, TokenKind::PhpClose, TokenKind::RBrace];
                let ghost s2 = *self;
                self.error_msg_and_recover("expected expression after 'print'", &sync);
                proof {
                    Self::lemma_evolves_trans(&s1, &s2, self);
                }
                Expr::Error { span: kw.span }
            },
        };
        let ghost s3 = *self;
        let semi = self.expect_msg(TokenKind::Semicolon, "expected ';' after print");
        let end = match semi {
            Some(t) => t.span.end,
            None => match self.prev_span() {
                Some(s) => s.end,
                None => expr.span().end,
            },
        };
        proof {
            Self::lemma_evolves_trans(&s1, &s3, self);
            Self::lemma_evolves_trans(old(self), &s1, self);
        }
        Some(Stmt::Print { expr, span: Span { start, end } })
    }
}

} // verus!
