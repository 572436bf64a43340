//! `eval(...)`.
use crate::ast::Expr;
use crate::parser::expr::binop::spec_is_operand;
use crate::parser::Parser;
use crate::span::Span;
use crate::token::TokenKind;
use vstd::prelude::*;

verus! {

impl<'src> Parser<'src> {
    /// `eval(expr)`; `None` when the `(` is missing (after reporting it).
    pub(super) fn parse_eval_expr(&mut self) -> (r: Option<Expr>)
        requires
            old(self).wf(),
            old(self).cur_kind() == TokenKind::KwEval,
        ensures
            r is Some ==> spec_is_operand(r->0),
            final(self).wf(),
            old(self).advances_to(final(self)),
        decreases old(self).rem(), 300nat,
    {
        let kw = self.bump();
        let start = kw.span.start;
        let mut last_end = kw.span.end;
        if !self.expect_or_err(TokenKind::LParen, &mut last_end) {
            return None;
        }
        let inner = self.parse_expr_or_err(&mut last_end);
        self.expect_or_err(TokenKind::RParen, &mut last_end);
        Some(Expr::Eval { expr: Box::new(inner), span: Span { start, end: last_end } })
    }
}

} // verus!
