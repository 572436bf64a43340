//! `switch` statements in brace and colon (`endswitch`) syntax.
use crate::ast::{Expr, Stmt, SwitchCase};
use crate::diagnostics::{Diagnostic, ParseDiagnosticCode};
use crate::parser::expr::binop::{lemma_pos_after_succ, pos_after};
use crate::parser::expr::{lemma_term_before_end, spec_ends_expr, token_term};
use crate::parser::stmt::for_like::{kind_after, term_after};
use crate::parser::{following_token, next_position, token_at, Parser};
use crate::span::Span;
use crate::token::TokenKind;
use vstd::prelude::*;

verus! {

/// The condition of the clause at the cursor of `p`: none for `default`,
/// the integer or variable of `case t:` (or `case t;`); `None` when the
/// clause is neither of these.
pub open spec fn first_clause_cond(p: &Parser) -> Option<Option<Expr>> {
    let toks = p.toks();
    let t = token_term(following_token(p), p.src_bytes());
    let after = token_at(toks, next_position(toks, next_position(toks, p.position()) as nat)).kind;
    if p.cur_kind() == TokenKind::KwDefault {
        Some(None)
    } else if p.cur_kind() == TokenKind::KwCase && t is Some && spec_ends_expr(after) {
        Some(t)
    } else {
        None
    }
}

impl<'src> Parser<'src> {
    /// `switch (cond) { case ...: ... default: ... }` or the colon form
    /// ending in `endswitch`.
    pub(super) fn parse_switch_stmt(&mut self) -> (r: Option<Stmt>)
        requires
            old(self).wf(),
            old(self).cur_kind() == TokenKind::KwSwitch,
        ensures
            final(self).wf(),
            old(self).advances_to(final(self)),
            r matches Some(Stmt::Switch { .. }),
            r matches Some(s) && s.spec_span().start == old(self).cur_token().span.start,
            ({
                let toks = old(self).toks();
                let bytes = old(self).src_bytes();
                let q = old(self).position();
                kind_after(toks, q, 1) == TokenKind::LParen && term_after(toks, bytes, q, 2) is Some
                    && kind_after(toks, q, 3) == TokenKind::RParen ==> (r matches Some(
                    Stmt::Switch { cond, .. },
                ) && cond == term_after(toks, bytes, q, 2)->0)
            }),
        decreases old(self).rem(), 700nat,
    {
        let ghost toks = old(self).toks();
        let ghost bytes = old(self).src_bytes();
        let ghost q = old(self).position();
        proof {
            assert(pos_after(toks, q, 0) == q);
            lemma_pos_after_succ(toks, q, 0);
            lemma_pos_after_succ(toks, q, 1);
            lemma_pos_after_succ(toks, q, 2);
        }
        let kw = self.bump();
        let start = kw.span.start;
        let mut last_end = kw.span.end;
        let ghost s1 = *self;
        proof {
            self.lemma_cur_token_at();
        }
        self.expect_or_err(TokenKind::LParen, &mut last_end);
        proof {
            self.lemma_cur_token_at();
            Self::lemma_same_source_bytes(old(self), self);
            if kind_after(toks, q, 1) == TokenKind::LParen && term_after(toks, bytes, q, 2) is Some
                && kind_after(toks, q, 3) == TokenKind::RParen {
                assert(self.position() == pos_after(toks, q, 2));
                lemma_term_before_end(self);
            }
        }
        let cond = self.parse_expr_or_err(&mut last_end);
        self.expect_or_err(TokenKind::RParen, &mut last_end);
        let mut cases: Vec<SwitchCase> = Vec::new();
        let ghost s2 = *self;
        match self.expect(TokenKind::LBrace) {
            Some(lb) => {
                last_end = lb.span.end;
                self.parse_switch_cases(TokenKind::RBrace, &mut last_end, &mut cases);
                self.expect_or_err(TokenKind::RBrace, &mut last_end);
            },
            None => match self.expect(TokenKind::Colon) {
                Some(colon) => {
                    last_end = colon.span.end;
                    self.parse_switch_cases(TokenKind::KwEndSwitch, &mut last_end, &mut cases);
                    self.expect_or_err(TokenKind::KwEndSwitch, &mut last_end);
                    let _ = self.eat(TokenKind::Semicolon);
                },
                None => {
                    self.error(
                        Diagnostic::error_from_code(
                            ParseDiagnosticCode::expected_tokens(
                                vec![TokenKind::LBrace, TokenKind::Colon],
                            ),
                            Span::at(last_end),
                        ),
                    );
                },
            },
        }
        proof {
            Self::lemma_evolves_trans(&s1, &s2, self);
            Self::lemma_evolves_trans(old(self), &s1, self);
        }
        let span = Span { start, end: last_end };
        Some(Stmt::Switch { cond, cases, span })
    }

    /// The `case` and `default` clauses up to `terminator`. A statement
    /// before the first clause is reported; one after a clause joins that
    /// clause's body.
    fn parse_switch_cases(
        &mut self,
        terminator: TokenKind,
        last_end: &mut u32,
        cases: &mut Vec<SwitchCase>,
    )
        requires
            old(self).wf(),
        ensures
            final(self).wf(),
            old(self).evolves_to(final(self)),
            final(self).cur_kind() == TokenKind::Eof || final(self).cur_kind() == terminator,
            old(cases)@.len() <= final(cases)@.len(),
            forall|i: int|
                0 <= i < old(cases)@.len() - 1 ==> #[trigger] final(cases)@[i] == old(cases)@[i],
            old(self).cur_kind() == TokenKind::Eof || old(self).cur_kind() == terminator
                ==> *final(self) == *old(self) && final(cases)@ == old(cases)@
                && *final(last_end) == *old(last_end),
            old(cases)@.len() == 0 && old(self).cur_kind() != terminator
                && (old(self).cur_kind() == TokenKind::KwCase
                || old(self).cur_kind() == TokenKind::KwDefault) ==> final(cases)@.len() > 0,
            old(cases)@.len() == 0 && first_clause_cond(old(self)) is Some && terminator
                != TokenKind::KwCase && terminator != TokenKind::KwDefault ==> final(cases)@.len() > 0
                && final(cases)@[0].condition == first_clause_cond(old(self))->0,
        decreases old(self).rem(), 950nat,
    {
        loop
            invariant
                self.wf(),
                old(self).evolves_to(self),
                old(cases)@.len() <= cases@.len(),
                forall|i: int|
                    0 <= i < old(cases)@.len() - 1 ==> #[trigger] cases@[i] == old(cases)@[i],
                self.position() == old(self).position() ==> *self == *old(self)
                    && cases@ == old(cases)@ && *last_end == *old(last_end),
                old(self).cur_kind() == TokenKind::Eof || old(self).cur_kind() == terminator
                    ==> self.position() == old(self).position(),
                self.position() != old(self).position() && old(cases)@.len() == 0
                    && old(self).cur_kind() != terminator
                    && (old(self).cur_kind() == TokenKind::KwCase
                    || old(self).cur_kind() == TokenKind::KwDefault) ==> cases@.len() > 0,
                old(cases)@.len() == 0 && first_clause_cond(old(self)) is Some && terminator
                    != TokenKind::KwCase && terminator != TokenKind::KwDefault ==> (*self == *old(self)
                    && cases@.len() == 0) || (cases@.len() > 0 && cases@[0].condition
                    == first_clause_cond(old(self))->0),
            ensures
                self.wf(),
                old(self).evolves_to(self),
                self.cur_kind() == TokenKind::Eof || self.cur_kind() == terminator,
                old(cases)@.len() <= cases@.len(),
                forall|i: int|
                    0 <= i < old(cases)@.len() - 1 ==> #[trigger] cases@[i] == old(cases)@[i],
                old(self).cur_kind() == TokenKind::Eof || old(self).cur_kind() == terminator ==> *self
                    == *old(self) && cases@ == old(cases)@ && *last_end == *old(last_end),
                old(cases)@.len() == 0 && old(self).cur_kind() != terminator
                    && (old(self).cur_kind() == TokenKind::KwCase
                    || old(self).cur_kind() == TokenKind::KwDefault) ==> cases@.len() > 0,
                old(cases)@.len() == 0 && first_clause_cond(old(self)) is Some && terminator
                    != TokenKind::KwCase && terminator != TokenKind::KwDefault ==> (cases@.len() > 0 && cases@[0].condition
                    == first_clause_cond(old(self))->0),
            decreases self.rem(),
        {
            if self.eof() || self.at(terminator) {
                break;
            }
            let ghost it = *self;
            if self.at(TokenKind::KwCase) || self.at(TokenKind::KwDefault) {
                let is_default = self.at(TokenKind::KwDefault);
                proof {
                    it.lemma_cur_token_at();
                }
                let kw = self.bump();
                let case_start = kw.span.start;
                *last_end = kw.span.end;
                proof {
                    self.lemma_cur_token_at();
                    Self::lemma_same_source_bytes(old(self), self);
                    if *old(self) == it && first_clause_cond(old(self)) is Some && !is_default {
                        lemma_term_before_end(self);
                    }
                }
                let condition = if is_default {
                    None
                } else {
                    Some(self.parse_expr_or_err(last_end))
                };
                if !self.eat(TokenKind::Colon) && !self.eat(TokenKind::Semicolon) {
                    self.error(
                        Diagnostic::error_from_code(
                            ParseDiagnosticCode::expected_tokens(
                                vec![TokenKind::Colon, TokenKind::Semicolon],
                            ),
                            Span::at(*last_end),
                        ),
                    );
                }
                let stop = vec![TokenKind::KwCase, TokenKind::KwDefault, terminator];
                let (body, end) = self.parse_until_any(&stop);
                *last_end = end;
                let span = Span { start: case_start, end };
                cases.push(SwitchCase { condition, body, span });
                proof {
                    Self::lemma_evolves_trans(old(self), &it, self);
                }
                continue;
            }
            let before = self.cursor();
            match self.parse_stmt() {
                Some(stmt) => {
                    *last_end = stmt.span().end;
                    let n = cases.len();
                    if n > 0 {
                        let ghost c0 = cases@;
                        let mut last = cases.pop().unwrap();
                        last.body.items.push(stmt);
                        last.body.span.end = *last_end;
                        cases.push(last);
                        proof {
                            assert(cases@[0].condition == c0[0].condition) by {
                                if n > 1 {
                                    assert(cases@[0] == c0[0]);
                                }
                            }
                        }
                    } else {
                        self.error(
                            Diagnostic::error_from_code(
                                ParseDiagnosticCode::expected_tokens(
                                    vec![TokenKind::KwCase, TokenKind::KwDefault],
                                ),
                                Span::at(*last_end),
                            ),
                        );
                    }
                    proof {
                        Self::lemma_evolves_trans(old(self), &it, self);
                    }
                },
                None => {
                    if self.cursor() == before {
                        if self.eof() {
                            proof {
                                Self::lemma_evolves_trans(old(self), &it, self);
                            }
                            break;
                        }
                        let ghost s1 = *self;
                        let _ = self.bump();
                        proof {
                            Self::lemma_evolves_trans(&it, &s1, self);
                        }
                    } else {
                        proof {
                            Self::lemma_progress(&it, self);
                        }
                    }
                    proof {
                        Self::lemma_evolves_trans(old(self), &it, self);
                    }
                },
            }
        }
    }
}

} // verus!
