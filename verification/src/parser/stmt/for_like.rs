//! Loops: `for`, `foreach`, `while` and `do ... while`.
use crate::ast::{Block, Expr, Stmt};
use crate::diagnostics::{Diagnostic, ParseDiagnosticCode};
use crate::parser::stmt::stmt_expr_grouped;
use crate::parser::expr::binop::{lemma_pos_after_succ, pos_after};
use crate::parser::expr::{lemma_term_before_end, single_token_term, term_alone, token_term};
use crate::parser::{following_token, next_position, token_at, Parser};
use crate::token::Token;
use crate::span::Span;
use crate::token::TokenKind;
use vstd::prelude::*;

verus! {

/// The kind of the `i`-th token after position `q`.
pub open spec fn kind_after(toks: Seq<Token>, q: nat, i: nat) -> TokenKind {
    token_at(toks, pos_after(toks, q, i) as int).kind
}

/// The term that the `i`-th token after position `q` makes, if any.
pub open spec fn term_after(toks: Seq<Token>, bytes: Seq<u8>, q: nat, i: nat) -> Option<Expr> {
    token_term(token_at(toks, pos_after(toks, q, i) as int), bytes)
}

/// After the `for` at position `q` stand `(a; b; c)`, three clauses of one
/// integer or variable each.
pub open spec fn for_of_terms(toks: Seq<Token>, bytes: Seq<u8>, q: nat) -> bool {
    &&& kind_after(toks, q, 1) == TokenKind::LParen
    &&& term_after(toks, bytes, q, 2) is Some
    &&& kind_after(toks, q, 3) == TokenKind::Semicolon
    &&& term_after(toks, bytes, q, 4) is Some
    &&& kind_after(toks, q, 5) == TokenKind::Semicolon
    &&& term_after(toks, bytes, q, 6) is Some
    &&& kind_after(toks, q, 7) == TokenKind::RParen
}

impl<'src> Parser<'src> {
    /// `for (init; cond; step) body` or the colon form ending in
    /// `endfor`. Each clause may hold several comma-separated expressions,
    /// of which the last is kept.
    #[verifier::spinoff_prover]
    #[verifier::rlimit(80)]
    pub(super) fn parse_for_stmt(&mut self) -> (r: Option<Stmt>)
        requires
            old(self).wf(),
            old(self).cur_kind() == TokenKind::KwFor,
        ensures
            final(self).wf(),
            old(self).advances_to(final(self)),
            r matches Some(Stmt::For { .. }),
            r matches Some(s) && s.spec_span().start == old(self).cur_token().span.start,
            ({
                let toks = old(self).toks();
                let bytes = old(self).src_bytes();
                let q = old(self).position();
                for_of_terms(toks, bytes, q) ==> (r matches Some(Stmt::For { init, cond, increment, .. })
                    && init == term_after(toks, bytes, q, 2) && cond == term_after(toks, bytes, q, 4)
                    && increment == term_after(toks, bytes, q, 6))
            }),
            ({
                let toks = old(self).toks();
                let q = old(self).position();
                kind_after(toks, q, 1) == TokenKind::LParen && kind_after(toks, q, 2)
                    == TokenKind::Semicolon && kind_after(toks, q, 3) == TokenKind::Semicolon
                    && kind_after(toks, q, 4) == TokenKind::RParen ==> (r matches Some(
                    Stmt::For { init, cond, increment, .. },
                ) && init is None && cond is None && increment is None)
            }),
        decreases old(self).rem(), 700nat,
    {
        let ghost toks = old(self).toks();
        let ghost bytes = old(self).src_bytes();
        let ghost q = old(self).position();
        proof {
            assert(pos_after(toks, q, 0) == q);
            lemma_pos_after_succ(toks, q, 0);
            lemma_pos_after_succ(toks, q, 1);
            lemma_pos_after_succ(toks, q, 2);
            lemma_pos_after_succ(toks, q, 3);
            lemma_pos_after_succ(toks, q, 4);
            lemma_pos_after_succ(toks, q, 5);
            lemma_pos_after_succ(toks, q, 6);
        }
        let kw = self.bump();
        let start = kw.span.start;
        let mut last_end = kw.span.end;
        let ghost s1 = *self;
        proof {
            self.lemma_cur_token_at();
        }
        self.expect_or_err(TokenKind::LParen, &mut last_end);
        proof {
            self.lemma_cur_token_at();
            Self::lemma_same_source_bytes(old(self), self);
            if for_of_terms(toks, bytes, q) {
                assert(self.position() == pos_after(toks, q, 2));
                lemma_term_before_end(self);
            }
        }
        let init = if !self.at(TokenKind::Semicolon) {
            let t = vec![TokenKind::Semicolon, TokenKind::RParen];
            self.parse_for_expr_list(&t)
        } else {
            None
        };
        proof {
            self.lemma_cur_token_at();
        }
        self.expect_or_err(TokenKind::Semicolon, &mut last_end);
        proof {
            self.lemma_cur_token_at();
            Self::lemma_same_source_bytes(old(self), self);
            if for_of_terms(toks, bytes, q) {
                assert(self.position() == pos_after(toks, q, 4));
                lemma_term_before_end(self);
            }
        }
        let cond = if !self.at(TokenKind::Semicolon) {
            let t = vec![TokenKind::Semicolon, TokenKind::RParen];
            self.parse_for_expr_list(&t)
        } else {
            None
        };
        proof {
            self.lemma_cur_token_at();
        }
        self.expect_or_err(TokenKind::Semicolon, &mut last_end);
        proof {
            self.lemma_cur_token_at();
            Self::lemma_same_source_bytes(old(self), self);
            if for_of_terms(toks, bytes, q) {
                assert(self.position() == pos_after(toks, q, 6));
                lemma_term_before_end(self);
            }
        }
        let step = if !self.at(TokenKind::RParen) {
            let t = vec![TokenKind::RParen];
            self.parse_for_expr_list(&t)
        } else {
            None
        };
        self.expect_or_err(TokenKind::RParen, &mut last_end);
        let ghost s2 = *self;
        if self.eat(TokenKind::Colon) {
            let stop = vec![TokenKind::KwEndFor];
            let (body, end) = self.parse_until_any(&stop);
            last_end = end;
            self.expect_or_err(TokenKind::KwEndFor, &mut last_end);
            let _ = self.eat(TokenKind::Semicolon);
            proof {
                Self::lemma_evolves_trans(&s1, &s2, self);
                Self::lemma_evolves_trans(old(self), &s1, self);
            }
            let span = Span { start, end: last_end };
            return Some(Stmt::For { init, cond, increment: step, body, span });
        }
        let body = self.parse_stmt_block_or_single(start, &mut last_end);
        proof {
            Self::lemma_evolves_trans(&s1, &s2, self);
            Self::lemma_evolves_trans(old(self), &s1, self);
        }
        let span = Span { start, end: last_end };
        Some(Stmt::For { init, cond, increment: step, body, span })
    }

    /// Comma-separated expressions up to a token in `terminators`; the last
    /// one read, or `None` when the first is missing.
    fn parse_for_expr_list(&mut self, terminators: &[TokenKind]) -> (r: Option<Expr>)
        requires
            old(self).wf(),
        ensures
            final(self).wf(),
            old(self).evolves_to(final(self)),
            r is Some ==> old(self).advances_to(final(self)),
            term_alone(old(self)) && following_token(old(self)).kind != TokenKind::Comma ==> r
                == single_token_term(old(self)) && final(self).position() == next_position(
                old(self).toks(),
                old(self).position(),
            ),
        decreases old(self).rem(), 620nat,
    {
        let mut last_expr = match self.parse_expr() {
            Some(e) => e,
            None => return None,
        };
        let ghost s1 = *self;
        proof {
            s1.lemma_cur_token_at();
        }
        loop
            invariant
                self.wf(),
                old(self).advances_to(self),
                term_alone(old(self)) && following_token(old(self)).kind != TokenKind::Comma ==> *self
                    == s1 && Some(last_expr) == single_token_term(old(self)) && s1.cur_token()
                    == following_token(old(self)) && s1.position() == next_position(
                    old(self).toks(),
                    old(self).position(),
                ),
            decreases self.rem(),
        {
            let ghost it = *self;
            let comma = match self.expect(TokenKind::Comma) {
                Some(c) => c,
                None => break,
            };
            let last_end = comma.span.end;
            if self.at_any(terminators) {
                self.error(
                    Diagnostic::error_from_code(
                        ParseDiagnosticCode::ExpectedExpression,
                        Span::at(last_end),
                    ),
                );
                proof {
                    Self::lemma_evolves_trans(old(self), &it, self);
                }
                break;
            }
            match self.parse_expr() {
                Some(e) => {
                    last_expr = e;
                },
                None => {
                    self.error_and_recover(
                        Diagnostic::error_from_code(
                            ParseDiagnosticCode::ExpectedExpression,
                            Span::at(last_end),
                        ),
                        terminators,
                    );
                    proof {
                        Self::lemma_evolves_trans(old(self), &it, self);
                    }
                    break;
                },
            }
            proof {
                Self::lemma_evolves_trans(old(self), &it, self);
            }
        }
        Some(last_expr)
    }

    /// `foreach (expr as [key =>] value) body` or the colon form ending in
    /// `endforeach`.
    #[verifier::rlimit(30)]
    #[verifier::spinoff_prover]
    #[verifier::rlimit(80)]
    pub(super) fn parse_foreach_stmt(&mut self) -> (r: Option<Stmt>)
        requires
            old(self).wf(),
            old(self).cur_kind() == TokenKind::KwForeach,
        ensures
            final(self).wf(),
            old(self).advances_to(final(self)),
            r matches Some(Stmt::Foreach { .. }),
            r matches Some(s) && s.spec_span().start == old(self).cur_token().span.start,
            ({
                let toks = old(self).toks();
                let bytes = old(self).src_bytes();
                let q = old(self).position();
                let head = kind_after(toks, q, 1) == TokenKind::LParen && term_after(toks, bytes, q, 2)
                    is Some && kind_after(toks, q, 3) == TokenKind::KwAs && term_after(toks, bytes, q, 4)
                    is Some;
                &&& head && kind_after(toks, q, 5) == TokenKind::FatArrow && term_after(toks, bytes, q, 6)
                    is Some && kind_after(toks, q, 7) == TokenKind::RParen ==> (r matches Some(
                    Stmt::Foreach { expr, key, value, .. },
                ) && expr == term_after(toks, bytes, q, 2) && key == term_after(toks, bytes, q, 4)
                    && value == term_after(toks, bytes, q, 6))
                &&& head && kind_after(toks, q, 5) == TokenKind::RParen ==> (r matches Some(
                    Stmt::Foreach { expr, key, value, .. },
                ) && expr == term_after(toks, bytes, q, 2) && key is None && value == term_after(
                    toks,
                    bytes,
                    q,
                    4,
                ))
            }),
        decreases old(self).rem(), 700nat,
    {
        let ghost toks = old(self).toks();
        let ghost bytes = old(self).src_bytes();
        let ghost q = old(self).position();
        let ghost head = kind_after(toks, q, 1) == TokenKind::LParen && term_after(toks, bytes, q, 2)
            is Some && kind_after(toks, q, 3) == TokenKind::KwAs && term_after(toks, bytes, q, 4) is Some;
        let ghost keyed = head && kind_after(toks, q, 5) == TokenKind::FatArrow && term_after(
            toks,
            bytes,
            q,
            6,
        ) is Some && kind_after(toks, q, 7) == TokenKind::RParen;
        let ghost plain = head && kind_after(toks, q, 5) == TokenKind::RParen;
        proof {
            assert(pos_after(toks, q, 0) == q);
            lemma_pos_after_succ(toks, q, 0);
            lemma_pos_after_succ(toks, q, 1);
            lemma_pos_after_succ(toks, q, 2);
            lemma_pos_after_succ(toks, q, 3);
            lemma_pos_after_succ(toks, q, 4);
            lemma_pos_after_succ(toks, q, 5);
            lemma_pos_after_succ(toks, q, 6);
        }
        let kw = self.bump();
        let start = kw.span.start;
        let mut last_end = kw.span.end;
        let ghost s1 = *self;
        proof {
            self.lemma_cur_token_at();
        }
        self.expect_or_err(TokenKind::LParen, &mut last_end);
        proof {
            self.lemma_cur_token_at();
            Self::lemma_same_source_bytes(old(self), self);
            if head {
                assert(self.position() == pos_after(toks, q, 2));
                assert(term_alone(self));
            }
        }
        let expr = if self.at(TokenKind::RParen) {
            None
        } else {
            Some(self.parse_expr_or_err(&mut last_end))
        };
        proof {
            self.lemma_cur_token_at();
        }
        if self.at(TokenKind::KwAs) {
            let as_token = self.bump();
            last_end = as_token.span.end;
            proof {
                self.lemma_cur_token_at();
                Self::lemma_same_source_bytes(old(self), self);
                if keyed || plain {
                    assert(self.position() == pos_after(toks, q, 4));
                    lemma_term_before_end(self);
                }
            }
        } else {
            self.error(
                Diagnostic::error_from_code(
                    ParseDiagnosticCode::expected_token(TokenKind::KwAs),
                    Span::at(last_end),
                ),
            );
        }
        let key_or_val = self.parse_expr();
        if let Some(ref e) = key_or_val {
            last_end = e.span().end;
        }
        proof {
            self.lemma_cur_token_at();
        }
        let (key, value) = match self.expect(TokenKind::FatArrow) {
            Some(arrow) => {
                last_end = arrow.span.end;
                proof {
                    self.lemma_cur_token_at();
                    Self::lemma_same_source_bytes(old(self), self);
                    if keyed {
                        assert(self.position() == pos_after(toks, q, 6));
                        lemma_term_before_end(self);
                    }
                }
                let v = self.parse_expr();
                if let Some(ref e) = v {
                    last_end = e.span().end;
                }
                (key_or_val, v)
            },
            None => (None, key_or_val),
        };
        self.expect_or_err(TokenKind::RParen, &mut last_end);
        let ghost s2 = *self;
        if self.eat(TokenKind::Colon) {
            let stop = vec![TokenKind::KwEndForeach];
            let (body, end) = self.parse_until_any(&stop);
            last_end = end;
            self.expect_or_err(TokenKind::KwEndForeach, &mut last_end);
            let _ = self.eat(TokenKind::Semicolon);
            proof {
                Self::lemma_evolves_trans(&s1, &s2, self);
                Self::lemma_evolves_trans(old(self), &s1, self);
            }
            let span = Span { start, end: last_end };
            return Some(Stmt::Foreach { expr, key, value, body, span });
        }
        let body = self.parse_stmt_block_or_single(start, &mut last_end);
        proof {
            Self::lemma_evolves_trans(&s1, &s2, self);
            Self::lemma_evolves_trans(old(self), &s1, self);
        }
        let span = Span { start, end: last_end };
        Some(Stmt::Foreach { expr, key, value, body, span })
    }

    /// `while (cond) body` or the colon form ending in `endwhile`.
    pub(super) fn parse_while_stmt(&mut self) -> (r: Option<Stmt>)
        requires
            old(self).wf(),
            old(self).cur_kind() == TokenKind::KwWhile,
        ensures
            final(self).wf(),
            old(self).advances_to(final(self)),
            r matches Some(Stmt::While { .. }),
            r matches Some(s) && s.spec_span().start == old(self).cur_token().span.start,
            ({
                let toks = old(self).toks();
                let bytes = old(self).src_bytes();
                let q = old(self).position();
                kind_after(toks, q, 1) == TokenKind::LParen && term_after(toks, bytes, q, 2) is Some
                    && kind_after(toks, q, 3) == TokenKind::RParen ==> (r matches Some(
                    Stmt::While { cond, .. },
                ) && cond == term_after(toks, bytes, q, 2))
            }),
        decreases old(self).rem(), 700nat,
    {
        let ghost toks = old(self).toks();
        let ghost bytes = old(self).src_bytes();
        let ghost q = old(self).position();
        proof {
            assert(pos_after(toks, q, 0) == q);
            lemma_pos_after_succ(toks, q, 0);
            lemma_pos_after_succ(toks, q, 1);
            lemma_pos_after_succ(toks, q, 2);
        }
        let kw = self.bump();
        let start = kw.span.start;
        let mut last_end = kw.span.end;
        let ghost s1 = *self;
        proof {
            self.lemma_cur_token_at();
        }
        self.expect_or_err(TokenKind::LParen, &mut last_end);
        proof {
            self.lemma_cur_token_at();
            Self::lemma_same_source_bytes(old(self), self);
            if kind_after(toks, q, 1) == TokenKind::LParen && term_after(toks, bytes, q, 2) is Some
                && kind_after(toks, q, 3) == TokenKind::RParen {
                assert(self.position() == pos_after(toks, q, 2));
                lemma_term_before_end(self);
            }
        }
        let cond = if self.at(TokenKind::RParen) {
            None
        } else {
            Some(self.parse_expr_or_err(&mut last_end))
        };
        self.expect_or_err(TokenKind::RParen, &mut last_end);
        let ghost s2 = *self;
        if self.eat(TokenKind::Colon) {
            let stop = vec![TokenKind::KwEndWhile];
            let (body, end) = self.parse_until_any(&stop);
            last_end = end;
            self.expect_or_err(TokenKind::KwEndWhile, &mut last_end);
            let _ = self.eat(TokenKind::Semicolon);
            proof {
                Self::lemma_evolves_trans(&s1, &s2, self);
                Self::lemma_evolves_trans(old(self), &s1, self);
            }
            let span = Span { start, end: last_end };
            return Some(Stmt::While { cond, body, span });
        }
        let body = self.parse_stmt_block_or_single(start, &mut last_end);
        proof {
            Self::lemma_evolves_trans(&s1, &s2, self);
            Self::lemma_evolves_trans(old(self), &s1, self);
        }
        let span = Span { start, end: last_end };
        Some(Stmt::While { cond, body, span })
    }

    /// `do body while (cond);`.
    #[verifier::spinoff_prover]
    #[verifier::rlimit(80)]
    pub(super) fn parse_do_while_stmt(&mut self) -> (r: Option<Stmt>)
        requires
            old(self).wf(),
            old(self).cur_kind() == TokenKind::KwDo,
        ensures
            final(self).wf(),
            old(self).advances_to(final(self)),
            r matches Some(Stmt::DoWhile { .. }),
            r matches Some(s) && s.spec_span().start == old(self).cur_token().span.start,
            ({
                let toks = old(self).toks();
                let bytes = old(self).src_bytes();
                let q = old(self).position();
                kind_after(toks, q, 1) == TokenKind::LBrace && kind_after(toks, q, 2) == TokenKind::RBrace
                    && kind_after(toks, q, 3) == TokenKind::KwWhile && kind_after(toks, q, 4)
                    == TokenKind::LParen && term_after(toks, bytes, q, 5) is Some && kind_after(toks, q, 6)
                    == TokenKind::RParen ==> (r matches Some(Stmt::DoWhile { cond, body, .. }) && cond
                    == term_after(toks, bytes, q, 5)->0 && body.items@.len() == 0)
            }),
        decreases old(self).rem(), 700nat,
    {
        let ghost toks = old(self).toks();
        let ghost bytes = old(self).src_bytes();
        let ghost q = old(self).position();
        let ghost shape = kind_after(toks, q, 1) == TokenKind::LBrace && kind_after(toks, q, 2)
            == TokenKind::RBrace && kind_after(toks, q, 3) == TokenKind::KwWhile && kind_after(toks, q, 4)
            == TokenKind::LParen && term_after(toks, bytes, q, 5) is Some && kind_after(toks, q, 6)
            == TokenKind::RParen;
        proof {
            assert(pos_after(toks, q, 0) == q);
            lemma_pos_after_succ(toks, q, 0);
            lemma_pos_after_succ(toks, q, 1);
            lemma_pos_after_succ(toks, q, 2);
            lemma_pos_after_succ(toks, q, 3);
            lemma_pos_after_succ(toks, q, 4);
            lemma_pos_after_succ(toks, q, 5);
        }
        let do_token = self.bump();
        let start = do_token.span.start;
        let mut last_end = do_token.span.end;
        let ghost s1 = *self;
        proof {
            self.lemma_cur_token_at();
        }
        let body_block: Block = match self.expect(TokenKind::LBrace) {
            Some(lb) => {
                let lb_start = lb.span.start;
                last_end = lb.span.end;
                proof {
                    self.lemma_cur_token_at();
                }
                match self.parse_block_after_lbrace(lb_start) {
                    Some((block, end)) => {
                        last_end = end;
                        block
                    },
                    None => {
                        let span = Span::at(lb_start);
                        Block { items: Vec::new(), span }
                    },
                }
            },
            None => {
                let before = self.cursor();
                let ghost b0 = *self;
                match self.parse_stmt() {
                    Some(stmt) => {
                        last_end = stmt.span().end;
                        let span = Span { start: stmt.span().start, end: stmt.span().end };
                        Block { items: vec![stmt], span }
                    },
                    None => {
                        let ghost b1 = *self;
                        proof {
                            Self::lemma_can_reset(&b0, &b1);
                        }
                        self.rewind(before);
                        proof {
                            Self::lemma_rewound(&b0, &b1, self);
                        }
                        self.error(
                            Diagnostic::error_from_code(
                                ParseDiagnosticCode::ExpectedStatement,
                                Span::at(last_end),
                            ),
                        );
                        let span = Span::at(last_end);
                        Block { items: Vec::new(), span }
                    },
                }
            },
        };
        let ghost s2 = *self;
        proof {
            self.lemma_cur_token_at();
            if shape {
                assert(self.position() == pos_after(toks, q, 3));
            }
        }
        self.expect_or_err(TokenKind::KwWhile, &mut last_end);
        proof {
            self.lemma_cur_token_at();
        }
        self.expect_or_err(TokenKind::LParen, &mut last_end);
        proof {
            self.lemma_cur_token_at();
            Self::lemma_same_source_bytes(old(self), self);
            if shape {
                assert(self.position() == pos_after(toks, q, 5));
                lemma_term_before_end(self);
            }
        }
        let cond = self.parse_expr_or_err(&mut last_end);
        self.expect_or_err(TokenKind::RParen, &mut last_end);
        let semi_span = match self.expect(TokenKind::Semicolon) {
            Some(semi) => semi.span,
            None => {
                self.error(
                    Diagnostic::error_from_code(
                        ParseDiagnosticCode::expected_token(TokenKind::Semicolon),
                        Span::at(last_end),
                    ),
                );
                Span::at(last_end)
            },
        };
        last_end = semi_span.end;
        proof {
            Self::lemma_evolves_trans(&s1, &s2, self);
            Self::lemma_evolves_trans(old(self), &s1, self);
        }
        Some(Stmt::DoWhile { cond, body: body_block, span: Span { start, end: last_end } })
    }

    /// The body of a loop: a `{ ... }` block, or else a single statement
    /// (a no-op statement over `start..last_end` when none can be read).
    fn parse_stmt_block_or_single(&mut self, start: u32, last_end: &mut u32) -> (b: Block)
        requires
            old(self).wf(),
        ensures
            final(self).wf(),
            old(self).evolves_to(final(self)),
            old(self).cur_kind() == TokenKind::LBrace ==> b.span == (Span {
                start: old(self).cur_token().span.start,
                end: *final(last_end),
            }),
            old(self).cur_kind() != TokenKind::LBrace ==> b.items@.len() == 1 && b.span == (Span {
                start,
                end: *final(last_end),
            }) && *final(last_end) == b.items@[0].spec_span().end,
            old(self).cur_kind() == TokenKind::Semicolon ==> b.items@ == seq![
                Stmt::Noop { span: old(self).cur_token().span },
            ],
            final(self).diags().len() == old(self).diags().len() ==> forall|i: int| 0 <= i < b.items@.len() ==> stmt_expr_grouped(#[trigger] b.items@[i]),
        decreases old(self).rem(), 900nat,
    {
        let ghost s0 = *self;
        if let Some(lb) = self.expect(TokenKind::LBrace) {
            let lb_start = lb.span.start;
            *last_end = lb.span.end;
            let ghost s1 = *self;
            if let Some((block, end)) = self.parse_block_after_lbrace(lb_start) {
                *last_end = end;
                proof {
                    Self::lemma_evolves_trans(&s0, &s1, self);
                }
                return block;
            }
            proof {
                Self::lemma_evolves_trans(&s0, &s1, self);
            }
        }
        let ghost s2 = *self;
        let stmt = match self.parse_stmt() {
            Some(s) => s,
            None => Stmt::Noop { span: Span { start, end: *last_end } },
        };
        proof {
            Self::lemma_evolves_trans(&s0, &s2, self);
        }
        *last_end = stmt.span().end;
        Block { items: vec![stmt], span: Span { start, end: *last_end } }
    }
}

} // verus!
