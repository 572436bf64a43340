//! `throw` statements.
use crate::ast::Stmt;
use crate::parser::Parser;
use crate::span::Span;
use crate::token::TokenKind;
use vstd::prelude::*;

verus! {

impl<'src> Parser<'src> {
    /// `throw expr;`; the `;` may be left out before `?>`.
    pub(super) fn parse_throw_stmt(&mut self) -> (r: Option<Stmt>)
        requires
            old(self).wf(),
            old(self).cur_kind() == TokenKind::KwThrow,
        ensures
            final(self).wf(),
            old(self).advances_to(final(self)),
            r matches Some(Stmt::Throw { .. }),
            r matches Some(s) && s.spec_span().start == old(self).cur_token().span.start,
        decreases old(self).rem(), 700nat,
    {
        let throw_token = self.bump();
        let start_pos = throw_token.span.start;
        let mut last_end = throw_token.span.end;
        let ghost s1 = *self;
        let thrown_expr = self.parse_expr_or_err(&mut last_end);
        let ghost s2 = *self;
        if !self.at(TokenKind::PhpClose) && !self.expect_or_err(TokenKind::Semicolon, &mut last_end) {
            let sync = vec![
                TokenKind::Semicolon,
                TokenKind::PhpClose,
                TokenKind::RBrace,
                TokenKind::Dollar,
                TokenKind::Ident,
                TokenKind::AttrOpen,
            ];
            let ghost s3 = *self;
            self.recover_to_any(&sync);
            let ghost s4 = *self;
            let _ = self.eat(TokenKind::Semicolon);
            proof {
                Self::lemma_evolves_trans(&s3, &s4, self);
                Self::lemma_evolves_trans(&s2, &s3, self);
            }
        }
        proof {
            Self::lemma_evolves_trans(&s1, &s2, self);
            Self::lemma_evolves_trans(old(self), &s1, self);
        }
        Some(Stmt::Throw { expr: thrown_expr, span: Span { start: start_pos, end: last_end } })
    }
}

} // verus!
