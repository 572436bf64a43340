//! Parenthesized expressions.
use crate::ast::Expr;
use crate::parser::expr::binop::spec_is_operand;
use crate::parser::Parser;
use crate::span::Span;
use crate::token::TokenKind;
use vstd::prelude::*;

verus! {

impl<'src> Parser<'src> {
    /// The rest of `( expr )` after the `(`, whose span is `lparen_span`.
    pub(super) fn parse_paren_expr(&mut self, lparen_span: Span) -> (r: Expr)
        requires
            old(self).wf(),
        ensures
            spec_is_operand(r),
            final(self).wf(),
            old(self).evolves_to(final(self)),
            r is Parenthesized,
        decreases old(self).rem(), 650nat,
    {
        let mut last_end = lparen_span.end;
        let inner_expr = self.parse_expr_or_err(&mut last_end);
        if !self.expect_or_err(TokenKind::RParen, &mut last_end) {
            let sync = vec![
                TokenKind::Semicolon,
                TokenKind::Comma,
                TokenKind::RBrace,
                TokenKind::RParen,
            ];
            self.recover_to_any(&sync);
        }
        Expr::Parenthesized {
            inner: Box::new(inner_expr),
            span: Span { start: lparen_span.start, end: last_end },
        }
    }
}

} // verus!
