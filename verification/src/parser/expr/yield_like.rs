//! `yield`, `yield key => value` and `yield from`.
use crate::ast::Expr;
use crate::parser::expr::binop::spec_is_operand;
use crate::parser::Parser;
use crate::span::Span;
use crate::token::TokenKind;
use vstd::prelude::*;

verus! {

impl<'src> Parser<'src> {
    /// A `yield` expression.
    pub(super) fn parse_yield_like_expr(&mut self) -> (r: Expr)
        requires
            old(self).wf(),
            old(self).cur_kind() == TokenKind::KwYield,
        ensures
            spec_is_operand(r),
            final(self).wf(),
            old(self).advances_to(final(self)),
        decreases old(self).rem(), 300nat,
    {
        let yield_token = self.bump();
        let start = yield_token.span.start;
        let mut last_end = yield_token.span.end;
        if self.at(TokenKind::KwFrom) {
            let f = self.bump();
            last_end = f.span.end;
            let value = self.parse_expr_or_err(&mut last_end);
            return Expr::YieldFrom { expr: Box::new(value), span: Span { start, end: last_end } };
        }
        let first = if let Some(expr) = self.parse_expr() {
            last_end = expr.span().end;
            expr
        } else {
            let value = self.parse_expr_or_err(&mut last_end);
            return Expr::Yield {
                key: None,
                value: Box::new(value),
                span: Span { start, end: last_end },
            };
        };
        if self.eat(TokenKind::FatArrow) {
            let mut arrow_end = self.current_span().start;
            let value = self.parse_expr_or_err(&mut arrow_end);
            last_end = arrow_end;
            return Expr::Yield {
                key: Some(Box::new(first)),
                value: Box::new(value),
                span: Span { start, end: last_end },
            };
        }
        Expr::Yield { key: None, value: Box::new(first), span: Span { start, end: last_end } }
    }
}

} // verus!
