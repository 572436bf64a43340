//! `try` / `catch` / `finally`.
use crate::ast::{Block, CatchClause, Ident, Stmt, TypeRef};
use crate::diagnostics::{Diagnostic, ParseDiagnosticCode};
use crate::parser::stmt::stmt_expr_grouped;
use crate::parser::Parser;
use crate::span::Span;
use crate::token::TokenKind;
use vstd::prelude::*;

verus! {

impl<'src> Parser<'src> {
    /// `try { ... } catch (A | B $e) { ... } finally { ... }`; at least one
    /// `catch` or a `finally` is required.
    pub(super) fn parse_try_catch_stmt(&mut self) -> (r: Option<Stmt>)
        requires
            old(self).wf(),
            old(self).cur_kind() == TokenKind::KwTry,
        ensures
            final(self).wf(),
            old(self).advances_to(final(self)),
            r matches Some(Stmt::Try { .. }),
            r matches Some(s) && s.spec_span().start == old(self).cur_token().span.start,
            final(self).diags().len() == old(self).diags().len() ==> (r matches Some(
                Stmt::Try { catches, finally_block, .. },
            ) && (catches@.len() > 0 || finally_block is Some) && forall|i: int|
                0 <= i < catches@.len() ==> (#[trigger] catches@[i]).exception_types@.len() > 0),
            (r matches Some(Stmt::Try { catches, finally_block, .. }) && catches@.len() == 0
                && finally_block is None) ==> final(self).diags().len() > 0 && (final(self).diags().last().code matches ParseDiagnosticCode::ExpectedTokens(ks)
                && ks@ == seq![TokenKind::KwCatch, TokenKind::KwFinally]) && final(self).diags().last().span
                == Span::at_spec(r->0.spec_span().end),
            r matches Some(Stmt::Try { catches, .. }) && (exists|i: int|
                0 <= i < catches@.len() && (#[trigger] catches@[i]).exception_types@.len() == 0)
                ==> exists|j: int|
                old(self).diags().len() <= j < final(self).diags().len() && (#[trigger] final(self).diags()[j]).code == ParseDiagnosticCode::ExpectedCatchExceptionType,
        decreases old(self).rem(), 700nat,
    {
        let try_token = self.bump();
        let start_pos = try_token.span.start;
        let mut last_end = try_token.span.end;
        let ghost s1 = *self;
        let (try_block, try_end_pos) = self.expect_block_after(last_end);
        last_end = try_end_pos;
        let mut catches: Vec<CatchClause> = Vec::new();
        let ghost s2 = *self;
        proof {
            Self::lemma_evolves_trans(old(self), &s1, self);
        }
        while self.at(TokenKind::KwCatch)
            invariant
                self.wf(),
                s2.evolves_to(self),
                old(self).advances_to(self),
                self.diags().len() == old(self).diags().len() ==> forall|i: int|
                    0 <= i < catches@.len() ==> (#[trigger] catches@[i]).exception_types@.len() > 0,
                (exists|i: int|
                    0 <= i < catches@.len() && (#[trigger] catches@[i]).exception_types@.len() == 0)
                    ==> exists|j: int|
                    old(self).diags().len() <= j < self.diags().len() && (#[trigger] self.diags()[j]).code
                    == ParseDiagnosticCode::ExpectedCatchExceptionType,
            decreases self.rem(),
        {
            let ghost it = *self;
            let catch_token = self.bump();
            last_end = catch_token.span.end;
            let ghost s3 = *self;
            let clause = self.parse_catch_clause_rest(catch_token.span.start, &mut last_end);
            let ghost before = catches@;
            catches.push(clause);
            proof {
                if exists|i: int|
                    0 <= i < catches@.len() && (#[trigger] catches@[i]).exception_types@.len() == 0 {
                    let i = choose|i: int|
                        0 <= i < catches@.len() && (#[trigger] catches@[i]).exception_types@.len() == 0;
                    if i < before.len() {
                        assert(before[i] == catches@[i]);
                        let j = choose|j: int|
                            old(self).diags().len() <= j < it.diags().len() && (#[trigger] it.diags()[j]).code
                            == ParseDiagnosticCode::ExpectedCatchExceptionType;
                        assert(self.diags()[j] == it.diags()[j]);
                    } else {
                        let j = choose|j: int|
                            s3.diags().len() <= j < self.diags().len() && (#[trigger] self.diags()[j]).code
                            == ParseDiagnosticCode::ExpectedCatchExceptionType;
                        assert(self.diags()[j].code == ParseDiagnosticCode::ExpectedCatchExceptionType);
                    }
                }
                Self::lemma_evolves_trans(&it, &s3, self);
                Self::lemma_evolves_trans(&s2, &it, self);
                Self::lemma_evolves_trans(old(self), &it, self);
            }
        }
        let mut finally_block_opt: Option<Block> = None;
        let ghost s4 = *self;
        if self.at(TokenKind::KwFinally) {
            let fin_token = self.bump();
            last_end = fin_token.span.end;
            let (finally_block, finally_end_pos) = self.expect_block_after(last_end);
            last_end = finally_end_pos;
            finally_block_opt = Some(finally_block);
        }
        let ghost s5 = *self;
        if catches.len() == 0 && finally_block_opt.is_none() {
            self.error(
                Diagnostic::error_from_code(
                    ParseDiagnosticCode::expected_tokens(
                        vec![TokenKind::KwCatch, TokenKind::KwFinally],
                    ),
                    Span::at(last_end),
                ),
            );
        }
        proof {
            Self::lemma_evolves_trans(&s2, &s4, self);
            Self::lemma_evolves_trans(&s1, &s2, self);
            Self::lemma_evolves_trans(old(self), &s1, self);
        }
        proof {
            if exists|i: int|
                0 <= i < catches@.len() && (#[trigger] catches@[i]).exception_types@.len() == 0 {
                let j = choose|j: int|
                    old(self).diags().len() <= j < s4.diags().len() && (#[trigger] s4.diags()[j]).code
                    == ParseDiagnosticCode::ExpectedCatchExceptionType;
                assert(self.diags()[j] == s4.diags()[j]);
            }
        }
        let full_span = Span { start: start_pos, end: last_end };
        Some(
            Stmt::Try { try_block, catches, finally_block: finally_block_opt, span: full_span },
        )
    }

    /// The rest of a `catch` clause after the keyword, which starts at
    /// `catch_start`.
    fn parse_catch_clause_rest(&mut self, catch_start: u32, last_end: &mut u32) -> (c: CatchClause)
        requires
            old(self).wf(),
        ensures
            final(self).wf(),
            old(self).evolves_to(final(self)),
            c.span.start == catch_start,
            c.exception_types@.len() == 0 ==> final(self).diags().len() > old(self).diags().len(),
            c.exception_types@.len() == 0 ==> exists|j: int|
                old(self).diags().len() <= j < final(self).diags().len() && (#[trigger] final(self).diags()[j]).code == ParseDiagnosticCode::ExpectedCatchExceptionType,
        decreases old(self).rem(), 860nat,
    {
        self.expect_or_err(TokenKind::LParen, last_end);
        let mut types_vec: Vec<TypeRef> = Vec::new();
        let ghost s1 = *self;
        loop
            invariant
                self.wf(),
                s1.evolves_to(self),
            decreases self.rem(),
        {
            let ghost it = *self;
            match self.parse_qualified_name() {
                Some(qn) => {
                    let ty_span = qn.span;
                    types_vec.push(TypeRef::Named { name: qn, span: ty_span });
                    *last_end = ty_span.end;
                    let ghost s2 = *self;
                    if self.eat(TokenKind::Pipe) {
                        proof {
                            Self::lemma_evolves_trans(&it, &s2, self);
                            Self::lemma_evolves_trans(&s1, &it, self);
                        }
                        continue;
                    }
                    proof {
                        Self::lemma_evolves_trans(&s1, &it, self);
                    }
                },
                None => {
                    proof {
                        Self::lemma_evolves_trans(&s1, &it, self);
                    }
                },
            }
            break;
        }
        let ghost s_t = *self;
        if types_vec.len() == 0 {
            self.error(
                Diagnostic::error_from_code(
                    ParseDiagnosticCode::ExpectedCatchExceptionType,
                    Span::at(*last_end),
                ),
            );
        }
        let ghost s_e = *self;
        let mut var_ident_opt: Option<Ident> = None;
        let ghost s3 = *self;
        if self.at(TokenKind::VarIdent) {
            let token = self.bump();
            var_ident_opt = Some(Ident { span: token.span });
            *last_end = token.span.end;
        } else if self.eat(TokenKind::Dollar) {
            let dollar_end = self.current_span().start;
            match self.expect_ident_or_err(last_end) {
                Some(var_token) => {
                    var_ident_opt = Some(Ident { span: var_token.span });
                    *last_end = var_token.span.end;
                },
                None => {
                    let sync = vec![TokenKind::RParen];
                    self.error_and_recover(
                        Diagnostic::error_from_code(
                            ParseDiagnosticCode::ExpectedIdent,
                            Span::at(dollar_end),
                        ),
                        &sync,
                    );
                },
            }
        }
        self.expect_or_err(TokenKind::RParen, last_end);
        let ghost s4 = *self;
        let (catch_body, catch_end_pos) = self.expect_block_after(*last_end);
        *last_end = catch_end_pos;
        proof {
            Self::lemma_evolves_trans(&s3, &s4, self);
            Self::lemma_evolves_trans(&s1, &s3, self);
            Self::lemma_evolves_trans(old(self), &s1, self);
        }
        proof {
            if types_vec@.len() == 0 {
                let j = s_t.diags().len() as int;
                assert(s_e.diags()[j].code == ParseDiagnosticCode::ExpectedCatchExceptionType);
                assert(self.diags()[j] == s_e.diags()[j]);
                assert(old(self).diags().len() <= j);
            }
        }
        let catch_span = Span { start: catch_start, end: catch_end_pos };
        CatchClause {
            exception_types: types_vec,
            var: var_ident_opt,
            body: catch_body,
            span: catch_span,
        }
    }

    /// A `{ ... }` block and its end; a missing `{` is reported and gives
    /// an empty block at `last_end_fallback`.
    fn expect_block_after(&mut self, last_end_fallback: u32) -> (r: (Block, u32))
        requires
            old(self).wf(),
        ensures
            final(self).wf(),
            old(self).evolves_to(final(self)),
            old(self).cur_kind() == TokenKind::LBrace ==> r.0.span == (Span {
                start: old(self).cur_token().span.start,
                end: r.1,
            }),
            old(self).cur_kind() != TokenKind::LBrace ==> r.0.items@.len() == 0 && r.0.span
                == Span::at_spec(last_end_fallback) && r.1 == last_end_fallback && old(
                self,
            ).pushed_error(
                final(self),
                ParseDiagnosticCode::ExpectedToken(TokenKind::LBrace),
                Span::at_spec(last_end_fallback),
            ) && final(self).position() == old(self).position(),
            final(self).diags().len() == old(self).diags().len() ==> forall|i: int| 0 <= i < r.0.items@.len() ==> stmt_expr_grouped(#[trigger] r.0.items@[i]),
        decreases old(self).rem(), 850nat,
    {
        if let Some(lb) = self.expect(TokenKind::LBrace) {
            let ghost s1 = *self;
            let r = match self.parse_block_after_lbrace(lb.span.start) {
                Some(res) => res,
                None => {
                    let span = Span::at(lb.span.start);
                    (Block { items: Vec::new(), span }, span.end)
                },
            };
            proof {
                Self::lemma_evolves_trans(old(self), &s1, self);
            }
            r
        } else {
            self.error(
                Diagnostic::error_from_code(
                    ParseDiagnosticCode::expected_token(TokenKind::LBrace),
                    Span::at(last_end_fallback),
                ),
            );
            let span = Span::at(last_end_fallback);
            (Block { items: Vec::new(), span }, span.end)
        }
    }
}

} // verus!
