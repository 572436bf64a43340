//! `trait` declarations; the body is skipped.
use crate::ast::{ClassMember, Stmt};
use crate::parser::{name_after_keyword, Parser};
use crate::span::Span;
use crate::token::TokenKind;
use vstd::prelude::*;

verus! {

impl<'src> Parser<'src> {
    /// `trait Name { ... }`. The members are not read: the body is skipped
    /// up to its closing `}`.
    pub(super) fn parse_trait_stmt(&mut self) -> (r: Option<Stmt>)
        requires
            old(self).wf(),
            old(self).cur_kind() == TokenKind::KwTrait,
        ensures
            final(self).wf(),
            old(self).advances_to(final(self)),
            r matches Some(Stmt::Trait { body, .. }) && body@.len() == 0,
            r matches Some(s) && s.spec_span().start == old(self).cur_token().span.start,
            r matches Some(Stmt::Trait { name, .. }) && name_after_keyword(old(self), final(self), name),
    {
        let trait_token = self.bump();
        proof {
            self.lemma_cur_token_at();
        }
        let trait_start = trait_token.span.start;
        let mut last_end = trait_token.span.end;
        let ghost s1 = *self;
        let trait_ident = self.expect_ident_ast_or_err(&mut last_end);
        proof {
            Self::lemma_evolves_trans(old(self), &s1, self);
        }
        let ghost s2 = *self;
        if !self.expect_or_err(TokenKind::LBrace, &mut last_end) {
            proof {
                Self::lemma_evolves_trans(old(self), &s2, self);
            }
            let span = Span { start: trait_start, end: last_end };
            return Some(
                Stmt::Trait { name: trait_ident, body: Vec::<ClassMember>::new(), span },
            );
        }
        let body_end = self.consume_brace_body(last_end);
        proof {
            Self::lemma_evolves_trans(old(self), &s2, self);
        }
        let trait_span = Span { start: trait_start, end: body_end };
        Some(Stmt::Trait { name: trait_ident, body: Vec::<ClassMember>::new(), span: trait_span })
    }
}

} // verus!
