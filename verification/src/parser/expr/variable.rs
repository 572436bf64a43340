//! Variables: `$name`, and variable variables such as `$$name`.
use crate::ast::{Expr, Ident};
use crate::parser::expr::binop::spec_is_operand;
use crate::parser::{next_position, Parser};
use crate::span::Span;
use crate::token::TokenKind;
use vstd::prelude::*;

verus! {

impl<'src> Parser<'src> {
    /// A variable; `$` prefixes nest it in `VariableVariable` nodes.
    pub(super) fn parse_variable_expr(&mut self) -> (r: Expr)
        requires
            old(self).wf(),
            old(self).cur_kind() == TokenKind::VarIdent || old(self).cur_kind()
                == TokenKind::Dollar,
        ensures
            spec_is_operand(r),
            final(self).wf(),
            old(self).advances_to(final(self)),
            old(self).cur_kind() == TokenKind::VarIdent ==> ({
                let t = old(self).cur_token();
                &&& r == Expr::VarRef {
                    name: Ident {
                        span: Span {
                            start: if t.span.start == u32::MAX {
                                u32::MAX
                            } else {
                                (t.span.start + 1) as u32
                            },
                            end: t.span.end,
                        },
                    },
                    span: t.span,
                }
                &&& final(self).diags() == old(self).diags()
                &&& final(self).position() == next_position(old(self).toks(), old(self).position())
            }),
    {
        if self.at(TokenKind::VarIdent) {
            let var_token = self.bump();
            let name_span = Span { start: var_token.span.start.saturating_add(1), end: var_token.span.end };
            return Expr::VarRef { name: Ident { span: name_span }, span: var_token.span };
        }
        let first_dollar = self.bump();
        let start_pos = first_dollar.span.start;
        let ghost s1 = *self;
        let mut extra: u32 = 0;
        loop
            invariant
                self.wf(),
                s1.evolves_to(self),
            decreases self.rem(),
        {
            if !self.at(TokenKind::Dollar) {
                break;
            }
            self.bump();
            extra = extra.saturating_add(1);
        }
        proof {
            Self::lemma_evolves_trans(old(self), &s1, self);
        }
        let (name_span, end_span, levels) = if self.at(TokenKind::VarIdent) {
            let v = self.bump();
            (
                Span { start: v.span.start.saturating_add(1), end: v.span.end },
                v.span,
                extra.saturating_add(1),
            )
        } else if let Some(id) = self.expect_ident_msg("expected identifier after '$'") {
            (id.span, id.span, extra)
        } else {
            let sync = vec![
                TokenKind::Semicolon,
                TokenKind::Comma,
                TokenKind::RParen,
                TokenKind::RBracket,
                TokenKind::RBrace,
            ];
            self.error_msg_and_recover("expected variable name after '$'", &sync);
            let fake = match self.prev_span() {
                Some(s) => s,
                None => first_dollar.span,
            };
            let err = Expr::Error { span: fake };
            return self.wrap_variable_levels(err, extra, start_pos);
        };
        let base = Expr::VarRef {
            name: Ident { span: name_span },
            span: Span { start: start_pos, end: end_span.end },
        };
        self.wrap_variable_levels(base, levels, start_pos)
    }

    /// `expr` inside `extra` levels of `VariableVariable`, each starting at
    /// `start_pos`.
    fn wrap_variable_levels(&self, expr: Expr, extra: u32, start_pos: u32) -> (r: Expr)
        ensures
            extra == 0 ==> r == expr,
            extra > 0 ==> r is VariableVariable,
    {
        let ghost e0 = expr;
        let mut expr = expr;
        let mut i: u32 = 0;
        while i < extra
            invariant
                i <= extra,
                i == 0 ==> expr == e0,
                i > 0 ==> expr is VariableVariable,
            decreases extra - i,
        {
            let span = Span { start: start_pos, end: expr.span().end };
            expr = Expr::VariableVariable { target: Box::new(expr), span };
            i = i + 1;
        }
        expr
    }

    /// Whether a variable starts here: `$name` or `$`.
    pub(crate) fn at_variable_start(&self) -> (b: bool)
        requires
            self.wf(),
        ensures
            b == (self.cur_kind() == TokenKind::VarIdent || self.cur_kind() == TokenKind::Dollar),
    {
        self.at(TokenKind::VarIdent) || self.at(TokenKind::Dollar)
    }
}

} // verus!
