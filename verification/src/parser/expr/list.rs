//! `list(...)` destructuring.
use crate::ast::{Expr, ListItemExpr};
use crate::parser::expr::binop::spec_is_operand;
use crate::parser::expr::{single_token_term, term_alone};
use crate::parser::{next_position, Parser};
use crate::span::Span;
use crate::token::TokenKind;
use vstd::prelude::*;

verus! {

impl<'src> Parser<'src> {
    /// `list(a, b => c, , d)`: the items in order, an empty slot for each
    /// comma with nothing before it. Without the `(` the result is an error
    /// node after the keyword.
    pub(crate) fn parse_list_destructure_expr(&mut self) -> (r: Expr)
        requires
            old(self).wf(),
            old(self).cur_kind() == TokenKind::KwList,
        ensures
            spec_is_operand(r),
            final(self).wf(),
            old(self).advances_to(final(self)),
            r is ListDestructure || r is Error,
        decreases old(self).rem(), 300nat,
    {
        let kw = self.bump();
        let start = kw.span.start;
        let mut last_end = kw.span.end;
        if !self.expect_or_err(TokenKind::LParen, &mut last_end) {
            return Expr::Error { span: Span::at(last_end) };
        }
        let mut items: Vec<ListItemExpr> = Vec::new();
        if self.eat(TokenKind::RParen) {
            let end = self.current_span().start;
            return Expr::ListDestructure { items, span: Span { start, end } };
        }
        loop
            invariant
                self.wf(),
                old(self).advances_to(self),
            decreases self.rem(),
        {
            let ghost it = *self;
            if self.at(TokenKind::RParen) {
                let end = self.bump().span.end;
                proof {
                    Self::lemma_evolves_trans(old(self), &it, self);
                }
                return self.finish_list_destructure(start, end, items);
            }
            if self.at(TokenKind::Comma) {
                let comma = self.bump();
                let sp = comma.span;
                items.push(ListItemExpr { key: None, value: None, span: sp });
                proof {
                    Self::lemma_evolves_trans(old(self), &it, self);
                }
                continue;
            }
            let item_start = self.current_span().start;
            let first = self.parse_list_item_expr_or_error();
            let ghost s2 = *self;
            let (key, value) = if self.eat(TokenKind::FatArrow) {
                let v = self.parse_list_item_expr_or_error();
                (Some(first), v)
            } else {
                (None, first)
            };
            proof {
                Self::lemma_evolves_trans(&it, &s2, self);
                Self::lemma_evolves_trans(old(self), &it, self);
            }
            let item_end = value.span().end;
            items.push(ListItemExpr {
                key,
                value: Some(value),
                span: Span { start: item_start, end: item_end },
            });
            let ghost s3 = *self;
            if self.eat(TokenKind::Comma) {
                if self.at(TokenKind::RParen) {
                    let end = self.bump().span.end;
                    return self.finish_list_destructure(start, end, items);
                }
                proof {
                    Self::lemma_evolves_trans(old(self), &s3, self);
                }
                continue;
            }
            if self.eat(TokenKind::RParen) {
                let end = self.current_span().start;
                return Expr::ListDestructure { items, span: Span { start, end } };
            }
            let mut last_end_rp = item_end;
            self.expect_or_err(TokenKind::RParen, &mut last_end_rp);
            proof {
                Self::lemma_evolves_trans(old(self), &s3, self);
            }
            return Expr::ListDestructure { items, span: Span { start, end: last_end_rp } };
        }
    }

    /// The `list(...)` node over `start..end` with `items`.
    fn finish_list_destructure(&self, start: u32, end: u32, items: Vec<ListItemExpr>) -> (r: Expr)
        ensures
            r == (Expr::ListDestructure { items, span: Span { start, end } }),
    {
        Expr::ListDestructure { items, span: Span { start, end } }
    }

    /// One side of a `list(...)` item: a nested `list(...)`, a `[...]`
    /// pattern, or an expression; an empty error node where none stands.
    fn parse_list_item_expr_or_error(&mut self) -> (r: Expr)
        requires
            old(self).wf(),
        ensures
            final(self).wf(),
            old(self).evolves_to(final(self)),
            old(self).cur_kind() == TokenKind::KwList ==> (r is ListDestructure || r is Error),
            old(self).cur_kind() == TokenKind::LBracket ==> (r matches Expr::ArrayLiteral { span, .. }
                && span.start == old(self).cur_token().span.start),
            term_alone(old(self)) ==> r == single_token_term(old(self))->0 && final(self).position()
                == next_position(old(self).toks(), old(self).position()),
        decreases old(self).rem(), 650nat,
    {
        let start = self.current_span().start;
        if self.at(TokenKind::KwList) {
            return self.parse_list_destructure_expr();
        }
        if self.at(TokenKind::LBracket) {
            let lb_span = self.current_span();
            self.bump();
            return match self.parse_array_literal(true, Some(lb_span)) {
                Some(e) => e,
                None => Expr::Error { span: Span { start, end: start } },
            };
        }
        match self.parse_expr() {
            Some(e) => e,
            None => Expr::Error { span: Span { start, end: start } },
        }
    }
}

} // verus!
