//! `break` and `continue`, with an optional level.
use crate::ast::{Expr, Stmt};
use crate::diagnostics::ParseDiagnosticCode;
use crate::parser::expr::binop::lemma_term_alone_chain;
use crate::parser::expr::{lemma_term_before_end, single_token_term, token_term, token_term_clean};
use crate::parser::{following_token, next_position, token_at, Parser};
use crate::span::Span;
use crate::token::TokenKind;
use vstd::prelude::*;

verus! {

impl<'src> Parser<'src> {
    /// `break;` or `break level;`.
    pub(super) fn parse_break_stmt(&mut self) -> (r: Option<Stmt>)
        requires
            old(self).wf(),
            old(self).cur_kind() == TokenKind::KwBreak,
        ensures
            final(self).wf(),
            old(self).advances_to(final(self)),
            r matches Some(Stmt::Break { .. }),
            r matches Some(s) && s.spec_span().start == old(self).cur_token().span.start,
            following_token(old(self)).kind == TokenKind::Semicolon ==> r == Some(
                Stmt::Break {
                    level: None,
                    span: Span {
                        start: old(self).cur_token().span.start,
                        end: following_token(old(self)).span.end,
                    },
                },
            ) && final(self).diags() == old(self).diags(),
            ({
                let toks = old(self).toks();
                let t = token_term(following_token(old(self)), old(self).src_bytes());
                let semi = token_at(toks, next_position(toks, next_position(toks, old(self).position()) as nat));
                t is Some && semi.kind == TokenKind::Semicolon ==> r == Some(
                    Stmt::Break {
                        level: Some(t->0),
                        span: Span { start: old(self).cur_token().span.start, end: semi.span.end },
                    },
                ) && (token_term_clean(following_token(old(self)), old(self).src_bytes())
                    ==> final(self).diags() == old(self).diags())
            }),
        decreases old(self).rem(), 700nat,
    {
        let (level, span) = self.parse_levelled_jump_stmt(TokenKind::KwBreak);
        Some(Stmt::Break { level, span })
    }

    /// `continue;` or `continue level;`.
    pub(super) fn parse_continue_stmt(&mut self) -> (r: Option<Stmt>)
        requires
            old(self).wf(),
            old(self).cur_kind() == TokenKind::KwContinue,
        ensures
            final(self).wf(),
            old(self).advances_to(final(self)),
            r matches Some(Stmt::Continue { .. }),
            r matches Some(s) && s.spec_span().start == old(self).cur_token().span.start,
            following_token(old(self)).kind == TokenKind::Semicolon ==> r == Some(
                Stmt::Continue {
                    level: None,
                    span: Span {
                        start: old(self).cur_token().span.start,
                        end: following_token(old(self)).span.end,
                    },
                },
            ) && final(self).diags() == old(self).diags(),
            ({
                let toks = old(self).toks();
                let t = token_term(following_token(old(self)), old(self).src_bytes());
                let semi = token_at(toks, next_position(toks, next_position(toks, old(self).position()) as nat));
                t is Some && semi.kind == TokenKind::Semicolon ==> r == Some(
                    Stmt::Continue {
                        level: Some(t->0),
                        span: Span { start: old(self).cur_token().span.start, end: semi.span.end },
                    },
                ) && (token_term_clean(following_token(old(self)), old(self).src_bytes())
                    ==> final(self).diags() == old(self).diags())
            }),
        decreases old(self).rem(), 700nat,
    {
        let (level, span) = self.parse_levelled_jump_stmt(TokenKind::KwContinue);
        Some(Stmt::Continue { level, span })
    }

    /// The keyword `kw_kind`, an optional level expression and `;`: the
    /// level and the span of the whole statement.
    fn parse_levelled_jump_stmt(&mut self, kw_kind: TokenKind) -> (r: (Option<Expr>, Span))
        requires
            old(self).wf(),
            old(self).cur_kind() == kw_kind,
            kw_kind != TokenKind::Eof,
        ensures
            final(self).wf(),
            old(self).advances_to(final(self)),
            r.1.start == old(self).cur_token().span.start,
            following_token(old(self)).kind == TokenKind::Semicolon ==> r == (
                None::<Expr>,
                Span {
                    start: old(self).cur_token().span.start,
                    end: following_token(old(self)).span.end,
                },
            ) && final(self).diags() == old(self).diags(),
            following_token(old(self)).kind == TokenKind::PhpClose ==> r == (
                None::<Expr>,
                Span { start: old(self).cur_token().span.start, end: old(self).cur_token().span.end },
            ) && old(self).pushed_error(
                final(self),
                ParseDiagnosticCode::ExpectedToken(TokenKind::Semicolon),
                Span::at_spec(old(self).cur_token().span.end),
            ),
            ({
                let toks = old(self).toks();
                let t = token_term(following_token(old(self)), old(self).src_bytes());
                let semi = token_at(toks, next_position(toks, next_position(toks, old(self).position()) as nat));
                t is Some && semi.kind == TokenKind::Semicolon ==> r == (
                    Some(t->0),
                    Span { start: old(self).cur_token().span.start, end: semi.span.end },
                ) && (token_term_clean(following_token(old(self)), old(self).src_bytes())
                    ==> final(self).diags() == old(self).diags())
            }),
        decreases old(self).rem(), 690nat,
    {
        let kw = self.bump();
        proof {
            self.lemma_cur_token_at();
        }
        let start = kw.span.start;
        let mut end = kw.span.end;
        let ghost s1 = *self;
        proof {
            Self::lemma_same_source_bytes(old(self), &s1);
            if single_token_term(&s1) is Some && token_at(
                s1.toks(),
                next_position(s1.toks(), s1.position()),
            ).kind == TokenKind::Semicolon {
                lemma_term_before_end(&s1);
                lemma_term_alone_chain(&s1);
            }
        }
        let level = if !self.at(TokenKind::Semicolon) && !self.at(TokenKind::PhpClose) {
            self.parse_expr()
        } else {
            None
        };
        if let Some(ref expr) = level {
            end = expr.span().end;
        }
        let ghost s2 = *self;
        self.expect_or_err(TokenKind::Semicolon, &mut end);
        proof {
            Self::lemma_evolves_trans(&s1, &s2, self);
            Self::lemma_evolves_trans(old(self), &s1, self);
        }
        (level, Span { start, end })
    }
}

} // verus!
