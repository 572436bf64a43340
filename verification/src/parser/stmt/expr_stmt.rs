//! Expression statements and the empty statement.
use crate::ast::Stmt;
use crate::diagnostics::{Diagnostic, ParseDiagnosticCode};
use crate::parser::stmt::stmt_expr_grouped;
use crate::parser::expr::binop::{
    expr_chain_alone, expr_chain_end, expr_chain_valid, expr_chain_whole, flat_ops, lemma_ops_read_widen, ops_read,
};
use crate::parser::expr::{
    cond_else_pos, prefix_term_end, single_token_term, term_alone, ternary_terms, ternary_terms_clean,
    ternary_terms_expr, unary_alone, unary_term,
};
use crate::parser::{following_token, next_position, token_at, Parser};
use crate::span::Span;
use crate::token::TokenKind;
use vstd::prelude::*;

verus! {

impl<'src> Parser<'src> {
    /// The statement `;` whose span is `semi_span`.
    pub fn parse_empty_stmt(&mut self, semi_span: Span) -> (r: Stmt)
        ensures
            r == (Stmt::Noop { span: semi_span }),
            *final(self) == *old(self),
    {
        Stmt::Noop { span: semi_span }
    }

    /// `expr;`. The `;` may be left out before `?>` and at the end of the
    /// input; elsewhere its absence is reported. `None`, with the cursor
    /// back where it was, when no expression starts here.
    pub fn parse_expr_stmt(&mut self) -> (r: Option<Stmt>)
        requires
            old(self).wf(),
        ensures
            final(self).wf(),
            old(self).evolves_to(final(self)),
            r is Some ==> old(self).advances_to(final(self)) && r->0 is ExprStmt,
            r matches Some(Stmt::ExprStmt { expr, span }) ==> span.start == expr.spec_span().start,
            final(self).diags().len() == old(self).diags().len() ==> (r matches Some(s)
                ==> stmt_expr_grouped(s)),
            r is None ==> final(self).position() == old(self).position(),
            r matches Some(Stmt::ExprStmt { expr, .. }) ==> ops_read(
                old(self).toks(),
                old(self).position() as int,
                final(self).position() as int,
                flat_ops(expr),
            ),
            unary_alone(old(self)) && token_at(old(self).toks(), prefix_term_end(old(self))).kind
                == TokenKind::Semicolon ==> r == Some(
                Stmt::ExprStmt {
                    expr: unary_term(old(self)),
                    span: Span {
                        start: old(self).cur_token().span.start,
                        end: token_at(old(self).toks(), prefix_term_end(old(self))).span.end,
                    },
                },
            ),
            expr_chain_alone(old(self)) && final(self).diags().len() == old(self).diags().len() ==> (
            r matches Some(Stmt::ExprStmt { expr, .. }) && expr_chain_whole(
                old(self),
                expr,
                expr_chain_end(old(self)),
            )),
            expr_chain_alone(old(self)) && expr_chain_valid(old(self)) && (token_at(
                old(self).toks(),
                expr_chain_end(old(self)) as int,
            ).kind == TokenKind::Semicolon || token_at(
                old(self).toks(),
                expr_chain_end(old(self)) as int,
            ).kind == TokenKind::PhpClose || token_at(
                old(self).toks(),
                expr_chain_end(old(self)) as int,
            ).kind == TokenKind::Eof) ==> final(self).diags() == old(self).diags(),
            expr_chain_alone(old(self)) && expr_chain_valid(old(self)) && token_at(
                old(self).toks(),
                expr_chain_end(old(self)) as int,
            ).kind == TokenKind::Semicolon ==> final(self).position() == next_position(
                old(self).toks(),
                expr_chain_end(old(self)),
            ),
            term_alone(old(self)) && following_token(old(self)).kind == TokenKind::Semicolon ==> r
                == Some(
                Stmt::ExprStmt {
                    expr: single_token_term(old(self))->0,
                    span: Span {
                        start: old(self).cur_token().span.start,
                        end: following_token(old(self)).span.end,
                    },
                },
            ),
            ({
                let toks = old(self).toks();
                let e = next_position(toks, cond_else_pos(old(self)));
                let k = token_at(toks, e).kind;
                ternary_terms(old(self)) && (k == TokenKind::Semicolon || k == TokenKind::PhpClose || k
                    == TokenKind::Eof) ==> (r matches Some(Stmt::ExprStmt { expr, .. }) && expr
                    == ternary_terms_expr(old(self))) && (ternary_terms_clean(old(self))
                    ==> final(self).diags() == old(self).diags()) && (k == TokenKind::Semicolon
                    ==> final(self).position() == next_position(toks, e as nat))
            }),
        decreases old(self).rem(), 700nat,
    {
        let start_pos = self.cursor();
        let ghost s0 = *self;
        let expr = match self.parse_expr() {
            Some(e) => e,
            None => {
                let ghost s1 = *self;
                proof {
                    Self::lemma_can_reset(&s0, &s1);
                }
                self.rewind(start_pos);
                proof {
                    Self::lemma_rewound(&s0, &s1, self);
                }
                return None;
            },
        };
        let ghost s2 = *self;
        proof {
            s2.lemma_cur_token_at();
        }
        let end_span = match self.expect(TokenKind::Semicolon) {
            Some(semi_token) => semi_token.span,
            None => {
                if self.at(TokenKind::PhpClose) || self.at(TokenKind::Eof) {
                    let span = expr.span();
                    Span::at(span.end)
                } else {
                    self.error(
                        Diagnostic::error_from_code(
                            ParseDiagnosticCode::expected_token(TokenKind::Semicolon),
                            Span::at(expr.span().end),
                        ),
                    );
                    let sync = vec![
                        TokenKind::Semicolon,
                        TokenKind::RBrace,
                        TokenKind::Dollar,
                        TokenKind::Ident,
                        TokenKind::AttrOpen,
                    ];
                    let ghost s3 = *self;
                    self.recover_to_any(&sync);
                    proof {
                        Self::lemma_evolves_trans(&s2, &s3, self);
                    }
                    expr.span()
                }
            },
        };
        proof {
            Self::lemma_evolves_trans(&s0, &s2, self);
            lemma_ops_read_widen(
                s0.toks(),
                s0.position() as int,
                s2.position() as int,
                s0.position() as int,
                self.position() as int,
                flat_ops(expr),
            );
        }
        let span = Span { start: expr.span().start, end: end_span.end };
        Some(Stmt::ExprStmt { expr, span })
    }
}

} // verus!
