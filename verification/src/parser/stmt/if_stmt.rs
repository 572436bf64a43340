//! `if` statements in brace, single-statement and colon (`endif`) syntax.
use crate::ast::{Block, Expr, Stmt};
use crate::diagnostics::{Diagnostic, ParseDiagnosticCode};
use crate::parser::stmt::stmt_expr_grouped;
use crate::parser::expr::binop::{lemma_pos_after_succ, pos_after};
use crate::parser::expr::{lemma_term_before_end, single_token_term, spec_ends_expr, token_term};
use crate::parser::stmt::for_like::{kind_after, term_after};
use crate::parser::{following_token, next_position, stmt_read_at, surely_stmt_at, token_at, Parser};
use crate::span::Span;
use crate::token::TokenKind;
use vstd::prelude::*;

verus! {

fn stop_in_if() -> (v: Vec<TokenKind>)
    ensures
        v@ == seq![TokenKind::KwElseIf, TokenKind::KwElse, TokenKind::KwEndIf],
{
    vec![TokenKind::KwElseIf, TokenKind::KwElse, TokenKind::KwEndIf]
}

/// The condition of the `elseif (t)` at the cursor of `p`, when it is an
/// integer or a variable.
pub open spec fn elseif_term_cond(p: &Parser) -> Option<Expr> {
    let toks = p.toks();
    let q = p.position();
    if p.cur_kind() == TokenKind::KwElseIf && kind_after(toks, q, 1) == TokenKind::LParen
        && kind_after(toks, q, 3) == TokenKind::RParen {
        term_after(toks, p.src_bytes(), q, 2)
    } else {
        None
    }
}

impl<'src> Parser<'src> {
    /// `if (cond) body [elseif (cond) body]* [else body]`, where a body is
    /// a `{ ... }` block or a single statement, or the colon form ending in
    /// `endif`. `else if` nests a further `if` in the else block.
    pub(super) fn parse_if_stmt(&mut self) -> (r: Option<Stmt>)
        requires
            old(self).wf(),
            old(self).cur_kind() == TokenKind::KwIf,
        ensures
            final(self).wf(),
            old(self).advances_to(final(self)),
            r matches Some(Stmt::If { .. }),
            r matches Some(s) && s.spec_span().start == old(self).cur_token().span.start,
            ({
                let toks = old(self).toks();
                let p1 = next_position(toks, old(self).position());
                let p2 = next_position(toks, p1 as nat);
                let p3 = next_position(toks, p2 as nat);
                let c = token_term(token_at(toks, p2), old(self).src_bytes());
                token_at(toks, p1).kind == TokenKind::LParen && c is Some && token_at(toks, p3).kind
                    == TokenKind::RParen ==> (r matches Some(Stmt::If { cond, .. }) && cond == c->0)
            }),
            ({
                let toks = old(self).toks();
                let p1 = next_position(toks, old(self).position());
                let p2 = next_position(toks, p1 as nat);
                let p3 = next_position(toks, p2 as nat);
                let p4 = next_position(toks, p3 as nat);
                let p5 = next_position(toks, p4 as nat);
                let p6 = next_position(toks, p5 as nat);
                token_at(toks, p1).kind == TokenKind::LParen && token_term(
                    token_at(toks, p2),
                    old(self).src_bytes(),
                ) is Some && token_at(toks, p3).kind == TokenKind::RParen && token_at(toks, p4).kind
                    == TokenKind::LBrace && token_at(toks, p5).kind == TokenKind::RBrace && token_at(
                    toks,
                    p6,
                ).kind == TokenKind::KwElse ==> (r matches Some(Stmt::If { else_block, .. }) && (
                else_block is Some || final(self).diags().len() > old(self).diags().len()))
            }),
            ({
                let toks = old(self).toks();
                let p1 = next_position(toks, old(self).position());
                let p2 = next_position(toks, p1 as nat);
                let p3 = next_position(toks, p2 as nat);
                let p4 = next_position(toks, p3 as nat);
                let p5 = next_position(toks, p4 as nat);
                token_at(toks, p1).kind == TokenKind::LParen && token_term(
                    token_at(toks, p2),
                    old(self).src_bytes(),
                ) is Some && token_at(toks, p3).kind == TokenKind::RParen && token_at(toks, p4).kind
                    == TokenKind::LBrace && surely_stmt_at(toks, p5) ==> (r matches Some(
                    Stmt::If { then_block, .. },
                ) && then_block.items@.len() > 0 && stmt_read_at(
                    old(self),
                    p5,
                    then_block.items@[0],
                ))
            }),
            ({
                let toks = old(self).toks();
                let p1 = next_position(toks, old(self).position());
                let p2 = next_position(toks, p1 as nat);
                let p3 = next_position(toks, p2 as nat);
                let p4 = next_position(toks, p3 as nat);
                let p5 = next_position(toks, p4 as nat);
                let k6 = token_at(toks, next_position(toks, p5 as nat)).kind;
                let empty_then = token_at(toks, p1).kind == TokenKind::LParen && token_term(
                    token_at(toks, p2),
                    old(self).src_bytes(),
                ) is Some && token_at(toks, p3).kind == TokenKind::RParen && token_at(toks, p4).kind
                    == TokenKind::LBrace && token_at(toks, p5).kind == TokenKind::RBrace;
                &&& empty_then ==> (r matches Some(Stmt::If { then_block, .. })
                    && then_block.items@.len() == 0)
                &&& empty_then && k6 != TokenKind::KwElseIf && k6 != TokenKind::KwElse ==> (r matches Some(
                    Stmt::If { else_if_blocks, else_block, span, .. },
                ) && else_if_blocks@.len() == 0 && else_block is None && span.end == token_at(
                    toks,
                    p5,
                ).span.end)
                &&& empty_then && k6 == TokenKind::KwElseIf ==> (r matches Some(
                    Stmt::If { else_if_blocks, .. },
                ) && else_if_blocks@.len() > 0)
            }),
            ({
                let toks = old(self).toks();
                let bytes = old(self).src_bytes();
                let q = old(self).position();
                kind_after(toks, q, 1) == TokenKind::LParen && term_after(toks, bytes, q, 2) is Some
                    && kind_after(toks, q, 3) == TokenKind::RParen && kind_after(toks, q, 4)
                    == TokenKind::LBrace && kind_after(toks, q, 5) == TokenKind::RBrace && kind_after(
                    toks,
                    q,
                    6,
                ) == TokenKind::KwElseIf && kind_after(toks, q, 7) == TokenKind::LParen && term_after(
                    toks,
                    bytes,
                    q,
                    8,
                ) is Some && kind_after(toks, q, 9) == TokenKind::RParen ==> (r matches Some(
                    Stmt::If { else_if_blocks, .. },
                ) && else_if_blocks@.len() > 0 && else_if_blocks@[0].0 == term_after(toks, bytes, q, 8)->0)
            }),
        decreases old(self).rem(), 700nat,
    {
        let if_token = self.bump();
        let start_pos = if_token.span.start;
        let mut last_end = if_token.span.end;
        let ghost s1 = *self;
        proof {
            s1.lemma_cur_token_at();
        }
        self.expect_or_err(TokenKind::LParen, &mut last_end);
        let ghost s1b = *self;
        proof {
            s1b.lemma_cur_token_at();
            Self::lemma_same_source_bytes(old(self), &s1b);
            if single_token_term(&s1b) is Some && spec_ends_expr(following_token(&s1b).kind) {
                lemma_term_before_end(&s1b);
            }
        }
        let cond_expr = self.parse_expr_or_err(&mut last_end);
        let have_rparen = self.expect_or_err(TokenKind::RParen, &mut last_end);
        let ghost s2 = *self;
        proof {
            s2.lemma_cur_token_at();
            let toks = old(self).toks();
            let bytes = old(self).src_bytes();
            let q = old(self).position();
            assert(pos_after(toks, q, 0) == q);
            lemma_pos_after_succ(toks, q, 0);
            lemma_pos_after_succ(toks, q, 1);
            lemma_pos_after_succ(toks, q, 2);
            lemma_pos_after_succ(toks, q, 3);
            if kind_after(toks, q, 1) == TokenKind::LParen && term_after(toks, bytes, q, 2) is Some
                && kind_after(toks, q, 3) == TokenKind::RParen && kind_after(toks, q, 4)
                == TokenKind::LBrace {
                assert(s2.position() == pos_after(toks, q, 4));
                assert(s2.cur_kind() == TokenKind::LBrace);
            }
        }
        if self.eat(TokenKind::Colon) {
            let r = self.parse_if_colon_rest(start_pos, cond_expr);
            proof {
                Self::lemma_evolves_trans(&s1, &s2, self);
                Self::lemma_evolves_trans(old(self), &s1, self);
            }
            return Some(r);
        }
        let then_block = if have_rparen && self.at(TokenKind::LBrace) {
            self.parse_branch_block(&mut last_end)
        } else if have_rparen {
            // A single statement as the body: `if (cond) stmt;`.
            match self.parse_stmt() {
                Some(stmt) => {
                    let span = Span { start: stmt.span().start, end: stmt.span().end };
                    last_end = span.end;
                    Block { items: vec![stmt], span }
                },
                None => Block { items: Vec::new(), span: Span::at(last_end) },
            }
        } else {
            Block { items: Vec::new(), span: Span::at(last_end) }
        };
        let ghost s3 = *self;
        proof {
            s3.lemma_cur_token_at();
            let toks = old(self).toks();
            let q = old(self).position();
            assert(pos_after(toks, q, 0) == q);
            lemma_pos_after_succ(toks, q, 0);
            lemma_pos_after_succ(toks, q, 1);
            lemma_pos_after_succ(toks, q, 2);
            lemma_pos_after_succ(toks, q, 3);
            lemma_pos_after_succ(toks, q, 4);
            lemma_pos_after_succ(toks, q, 5);
            lemma_pos_after_succ(toks, q, 6);
            lemma_pos_after_succ(toks, q, 7);
            lemma_pos_after_succ(toks, q, 8);
            let p3 = s3.position();
            assert(pos_after(toks, p3, 0) == p3);
            lemma_pos_after_succ(toks, p3, 0);
            lemma_pos_after_succ(toks, p3, 1);
            lemma_pos_after_succ(toks, p3, 2);
            Self::lemma_same_source_bytes(old(self), &s3);
            let bytes = old(self).src_bytes();
            if kind_after(toks, q, 1) == TokenKind::LParen && term_after(toks, bytes, q, 2) is Some
                && kind_after(toks, q, 3) == TokenKind::RParen && kind_after(toks, q, 4)
                == TokenKind::LBrace && kind_after(toks, q, 5) == TokenKind::RBrace && kind_after(
                toks,
                q,
                6,
            ) == TokenKind::KwElseIf && kind_after(toks, q, 7) == TokenKind::LParen && term_after(
                toks,
                bytes,
                q,
                8,
            ) is Some && kind_after(toks, q, 9) == TokenKind::RParen {
                assert(s2.position() == pos_after(toks, q, 4));
                assert(s3.position() == pos_after(toks, q, 6));
                assert(elseif_term_cond(&s3) == term_after(toks, bytes, q, 8));
            }
        }
        let (else_if_blocks, else_block_opt) = self.parse_if_else_chain(&mut last_end);
        proof {
            Self::lemma_evolves_trans(&s2, &s3, self);
            Self::lemma_evolves_trans(&s1, &s2, self);
            Self::lemma_evolves_trans(old(self), &s1, self);
        }
        let span = Span { start: start_pos, end: last_end };
        Some(
            Stmt::If {
                cond: cond_expr,
                then_block,
                else_if_blocks,
                else_block: else_block_opt,
                span,
            },
        )
    }

    /// The rest of `if (cond): ... [elseif (cond): ...]* [else: ...]
    /// endif;` after the first `:`.
    fn parse_if_colon_rest(&mut self, start_pos: u32, cond_expr: Expr) -> (r: Stmt)
        requires
            old(self).wf(),
        ensures
            final(self).wf(),
            old(self).evolves_to(final(self)),
            r is If,
            r matches Stmt::If { cond, .. } && cond == cond_expr,
            r.spec_span().start == start_pos,
        decreases old(self).rem(), 950nat,
    {
        let stop = stop_in_if();
        let (then_block, mut last_end2) = self.parse_until_any(&stop);
        let mut else_if_blocks: Vec<(Expr, Block)> = Vec::new();
        let ghost s1 = *self;
        while self.at(TokenKind::KwElseIf)
            invariant
                self.wf(),
                s1.evolves_to(self),
                old(self).evolves_to(self),
            decreases self.rem(),
        {
            let ghost it = *self;
            let elseif_kw = self.bump();
            let mut elseif_end = elseif_kw.span.end;
            self.expect_or_err(TokenKind::LParen, &mut elseif_end);
            let cond = match self.parse_expr() {
                Some(e) => e,
                None => Expr::Error { span: elseif_kw.span },
            };
            elseif_end = cond.span().end;
            self.expect_or_err(TokenKind::RParen, &mut elseif_end);
            self.expect_or_err(TokenKind::Colon, &mut elseif_end);
            let stop2 = stop_in_if();
            let (block, end) = self.parse_until_any(&stop2);
            last_end2 = end;
            else_if_blocks.push((cond, block));
            proof {
                Self::lemma_evolves_trans(&s1, &it, self);
                Self::lemma_evolves_trans(old(self), &it, self);
            }
        }
        let mut else_block_opt: Option<Block> = None;
        let ghost s2 = *self;
        if self.at(TokenKind::KwElse) {
            let else_kw = self.bump();
            let mut else_end = else_kw.span.end;
            self.expect_or_err(TokenKind::Colon, &mut else_end);
            let stop3 = vec![TokenKind::KwEndIf];
            let (block, end) = self.parse_until_any(&stop3);
            last_end2 = end;
            else_block_opt = Some(block);
        }
        self.expect_or_err(TokenKind::KwEndIf, &mut last_end2);
        let _ = self.eat(TokenKind::Semicolon);
        proof {
            Self::lemma_evolves_trans(&s1, &s2, self);
            Self::lemma_evolves_trans(old(self), &s1, self);
        }
        let full_span = Span { start: start_pos, end: last_end2 };
        Stmt::If {
            cond: cond_expr,
            then_block,
            else_if_blocks,
            else_block: else_block_opt,
            span: full_span,
        }
    }

    /// The `elseif` and `else` branches after the body of an `if`.
    fn parse_if_else_chain(&mut self, last_end: &mut u32) -> (r: (
        Vec<(Expr, Block)>,
        Option<Block>,
    ))
        requires
            old(self).wf(),
        ensures
            final(self).wf(),
            old(self).evolves_to(final(self)),
            old(self).cur_kind() != TokenKind::KwElseIf && old(self).cur_kind() != TokenKind::KwElse
                ==> r.0@.len() == 0 && r.1 is None && *final(self) == *old(self) && *final(last_end)
                == *old(last_end),
            old(self).cur_kind() == TokenKind::KwElseIf ==> r.0@.len() > 0,
            old(self).cur_kind() == TokenKind::KwElse ==> r.0@.len() == 0 && (r.1 is Some || final(self).diags().len() > old(self).diags().len()),
            r.1 is None ==> final(self).cur_kind() != TokenKind::KwElseIf || final(self).diags().len()
                > old(self).diags().len(),
            elseif_term_cond(old(self)) is Some ==> r.0@.len() > 0 && r.0@[0].0 == elseif_term_cond(
                old(self),
            )->0,
        decreases old(self).rem(), 950nat,
    {
        proof {
            old(self).lemma_cur_token_at();
        }
        let mut else_if_blocks: Vec<(Expr, Block)> = Vec::new();
        let mut else_block_opt: Option<Block> = None;
        loop
            invariant_except_break
                else_block_opt is None,
                old(self).cur_kind() != TokenKind::KwElseIf ==> self.position() == old(self).position(),
            invariant
                self.wf(),
                old(self).evolves_to(self),
                self.position() == old(self).position() ==> *self == *old(self)
                    && else_if_blocks@.len() == 0 && *last_end == *old(last_end),
                self.position() != old(self).position() ==> old(self).advances_to(self),
                old(self).cur_kind() == TokenKind::KwElseIf && self.position() != old(self).position()
                    ==> else_if_blocks@.len() > 0,
                old(self).cur_kind() == TokenKind::KwElse ==> else_if_blocks@.len() == 0,
                elseif_term_cond(old(self)) is Some && else_if_blocks@.len() > 0 ==> else_if_blocks@[0].0
                    == elseif_term_cond(old(self))->0,
            ensures
                self.wf(),
                old(self).evolves_to(self),
                old(self).cur_kind() != TokenKind::KwElseIf && old(self).cur_kind() != TokenKind::KwElse
                    ==> else_if_blocks@.len() == 0 && else_block_opt is None && *self == *old(self)
                    && *last_end == *old(last_end),
                old(self).cur_kind() == TokenKind::KwElseIf ==> else_if_blocks@.len() > 0,
                old(self).cur_kind() == TokenKind::KwElse ==> else_if_blocks@.len() == 0 && (
                else_block_opt is Some || self.diags().len() > old(self).diags().len()),
                else_block_opt is None ==> self.cur_kind() != TokenKind::KwElseIf || self.diags().len()
                    > old(self).diags().len(),
                elseif_term_cond(old(self)) is Some && else_if_blocks@.len() > 0 ==> else_if_blocks@[0].0
                    == elseif_term_cond(old(self))->0,
            decreases self.rem(),
        {
            let ghost it = *self;
            if self.at(TokenKind::KwElseIf) {
                let elseif_kw = self.bump();
                let mut ei_end = elseif_kw.span.end;
                proof {
                    self.lemma_cur_token_at();
                }
                self.expect_or_err(TokenKind::LParen, &mut ei_end);
                proof {
                    self.lemma_cur_token_at();
                    Self::lemma_same_source_bytes(old(self), self);
                    if it == *old(self) && elseif_term_cond(old(self)) is Some {
                        let toks = old(self).toks();
                        let q = old(self).position();
                        assert(pos_after(toks, q, 0) == q);
                        lemma_pos_after_succ(toks, q, 0);
                        lemma_pos_after_succ(toks, q, 1);
                        assert(self.position() == pos_after(toks, q, 2));
                        lemma_term_before_end(self);
                    }
                }
                let cond = self.parse_expr_or_err(&mut ei_end);
                self.expect_or_err(TokenKind::RParen, &mut ei_end);
                if !self.eat(TokenKind::Colon) {
                    let block = if self.at(TokenKind::LBrace) {
                        self.parse_branch_block(last_end)
                    } else {
                        // A single statement as the body: `elseif (cond) stmt;`.
                        match self.parse_stmt() {
                            Some(stmt) => {
                                let span = Span { start: stmt.span().start, end: stmt.span().end };
                                *last_end = span.end;
                                Block { items: vec![stmt], span }
                            },
                            None => {
                                self.error(
                                    Diagnostic::error_from_code(
                                        ParseDiagnosticCode::ExpectedStatement,
                                        Span::at(*last_end),
                                    ),
                                );
                                Block { items: Vec::new(), span: Span::at(*last_end) }
                            },
                        }
                    };
                    else_if_blocks.push((cond, block));
                    proof {
                        Self::lemma_evolves_trans(old(self), &it, self);
                    }
                    continue;
                }
                let stop = stop_in_if();
                let (block, end) = self.parse_until_any(&stop);
                *last_end = end;
                else_if_blocks.push((cond, block));
                proof {
                    Self::lemma_evolves_trans(old(self), &it, self);
                }
                continue;
            }
            if self.at(TokenKind::KwElse) {
                let else_tok = self.bump();
                if self.eat(TokenKind::Colon) {
                    let stop = vec![TokenKind::KwEndIf];
                    let (block, end) = self.parse_until_any(&stop);
                    *last_end = end;
                    else_block_opt = Some(block);
                } else if self.at(TokenKind::KwIf) {
                    // `else if`: the nested `if` is the whole else block.
                    let block_start = else_tok.span.start;
                    let mut block_end = else_tok.span.end;
                    let mut items: Vec<Stmt> = Vec::new();
                    match self.parse_if_stmt() {
                        Some(if_stmt) => {
                            block_end = if_stmt.span().end;
                            items.push(if_stmt);
                        },
                        None => {
                            self.error(
                                Diagnostic::error_from_code(
                                    ParseDiagnosticCode::expected_token(TokenKind::KwIf),
                                    Span::at(block_end),
                                ),
                            );
                        },
                    }
                    let block = Block { items, span: Span { start: block_start, end: block_end } };
                    *last_end = block_end;
                    else_block_opt = Some(block);
                } else if self.at(TokenKind::LBrace) {
                    let block = self.parse_branch_block(last_end);
                    else_block_opt = Some(block);
                } else {
                    // A single statement as the body: `else stmt;`.
                    match self.parse_stmt() {
                        Some(stmt) => {
                            let span = Span { start: stmt.span().start, end: stmt.span().end };
                            *last_end = span.end;
                            else_block_opt = Some(Block { items: vec![stmt], span });
                        },
                        None => {
                            self.error(
                                Diagnostic::error_from_code(
                                    ParseDiagnosticCode::ExpectedStatement,
                                    Span::at(*last_end),
                                ),
                            );
                        },
                    }
                }
                proof {
                    Self::lemma_evolves_trans(old(self), &it, self);
                }
                break;
            }
            break;
        }
        (else_if_blocks, else_block_opt)
    }

    /// A `{ ... }` body; a missing `{` is reported and gives an empty
    /// block at `last_end`.
    fn parse_branch_block(&mut self, last_end: &mut u32) -> (b: Block)
        requires
            old(self).wf(),
        ensures
            final(self).wf(),
            old(self).evolves_to(final(self)),
            old(self).cur_kind() == TokenKind::LBrace ==> b.span == (Span {
                start: old(self).cur_token().span.start,
                end: *final(last_end),
            }),
            old(self).cur_kind() != TokenKind::LBrace ==> b.items@.len() == 0 && b.span
                == Span::at_spec(*old(last_end)) && *final(last_end) == *old(last_end) && old(
                self,
            ).pushed_error(
                final(self),
                ParseDiagnosticCode::ExpectedToken(TokenKind::LBrace),
                Span::at_spec(*old(last_end)),
            ) && final(self).position() == old(self).position(),
            final(self).diags().len() == old(self).diags().len() ==> forall|i: int| 0 <= i < b.items@.len() ==> stmt_expr_grouped(#[trigger] b.items@[i]),
            old(self).cur_kind() == TokenKind::LBrace && surely_stmt_at(
                old(self).toks(),
                next_position(old(self).toks(), old(self).position()),
            ) ==> b.items@.len() > 0 && stmt_read_at(
                old(self),
                next_position(old(self).toks(), old(self).position()),
                b.items@[0],
            ),
            old(self).cur_kind() == TokenKind::LBrace && following_token(old(self)).kind
                == TokenKind::RBrace ==> b.items@.len() == 0 && final(self).diags() == old(self).diags()
                && *final(last_end) == following_token(old(self)).span.end
                && final(self).position() == next_position(
                old(self).toks(),
                next_position(old(self).toks(), old(self).position()) as nat,
            ),
        decreases old(self).rem(), 950nat,
    {
        if let Some(token) = self.expect(TokenKind::LBrace) {
            let lb_start = token.span.start;
            let ghost s1 = *self;
            proof {
                s1.lemma_cur_token_at();
            }
            let r = match self.parse_block_after_lbrace(lb_start) {
                Some((block, block_end)) => {
                    *last_end = block_end;
                    block
                },
                None => {
                    let fake_span = Span::at(lb_start);
                    *last_end = token.span.end;
                    Block { items: Vec::new(), span: fake_span }
                },
            };
            proof {
                Self::lemma_evolves_trans(old(self), &s1, self);
            }
            return r;
        }
        self.error(
            Diagnostic::error_from_code(
                ParseDiagnosticCode::expected_token(TokenKind::LBrace),
                Span::at(*last_end),
            ),
        );
        Block { items: Vec::new(), span: Span::at(*last_end) }
    }
}

} // verus!
