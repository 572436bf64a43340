//! Qualified names such as `Foo\Bar` and `\Foo`.
use crate::ast::{Ident, QualifiedName};
use crate::parser::{following_token, next_position, spec_is_ident_like_kw, Parser};
use crate::span::Span;
use crate::token::TokenKind;
use vstd::prelude::*;

verus! {

/// Whether a token of kind `k` may serve as a name.
pub open spec fn spec_is_name_kind(k: TokenKind) -> bool {
    k == TokenKind::Ident || spec_is_ident_like_kw(k)
}

impl<'src> Parser<'src> {
    /// A name, optionally led by `\` (absolute) and made of parts joined by
    /// `\`. A trailing `\` before `{` (a group `use`) ends the name.
    /// Without a first part it reports that a name was expected.
    pub(crate) fn parse_qualified_name(&mut self) -> (r: Option<QualifiedName>)
        requires
            old(self).wf(),
        ensures
            final(self).wf(),
            old(self).evolves_to(final(self)),
            old(self).cur_kind() != TokenKind::Backslash ==> (r is Some <==> spec_is_name_kind(
                old(self).cur_kind(),
            )),
            old(self).cur_kind() == TokenKind::Backslash ==> old(self).advances_to(final(self)),
            r is Some ==> old(self).advances_to(final(self)) && r->0.parts@.len() >= 1
                && r->0.absolute == (old(self).cur_kind() == TokenKind::Backslash),
            r is None ==> final(self).diags().len() == old(self).diags().len() + 1,
            spec_is_name_kind(old(self).cur_kind()) && following_token(old(self)).kind
                != TokenKind::Backslash ==> (r matches Some(qn) && !qn.absolute && qn.parts@ == seq![
                Ident { span: old(self).cur_token().span },
            ] && qn.span == old(self).cur_token().span) && final(self).diags() == old(self).diags()
                && final(self).position() == next_position(old(self).toks(), old(self).position()),
    {
        let mut absolute = false;
        let start_pos: u32;
        let mut last_end: u32;
        if self.at(TokenKind::Backslash) {
            let backslash = self.bump();
            absolute = true;
            start_pos = backslash.span.start;
            last_end = backslash.span.end;
        } else {
            let pos = self.current_span().start;
            start_pos = pos;
            last_end = pos;
        }
        let ghost s1 = *self;
        let first_ident_token = match self.expect_ident_or_err(&mut last_end) {
            Some(t) => t,
            None => {
                proof {
                    Self::lemma_evolves_trans(old(self), &s1, self);
                }
                return None;
            },
        };
        proof {
            Self::lemma_evolves_trans(old(self), &s1, self);
        }
        let mut parts: Vec<Ident> = Vec::new();
        parts.push(Ident { span: first_ident_token.span });
        last_end = first_ident_token.span.end;
        let ghost s2 = *self;
        proof {
            s2.lemma_cur_token_at();
            old(self).lemma_cur_token_at();
            if spec_is_name_kind(old(self).cur_kind()) && following_token(old(self)).kind
                != TokenKind::Backslash {
                assert(s2.position() == next_position(old(self).toks(), old(self).position()));
                assert(s2.cur_kind() != TokenKind::Backslash);
            }
        }
        loop
            invariant_except_break
                spec_is_name_kind(old(self).cur_kind()) && following_token(old(self)).kind
                    != TokenKind::Backslash ==> *self == s2 && parts@ == seq![
                    Ident { span: old(self).cur_token().span },
                ] && last_end == old(self).cur_token().span.end,
            invariant
                self.wf(),
                old(self).advances_to(self),
                parts@.len() >= 1,
                spec_is_name_kind(old(self).cur_kind()) && following_token(old(self)).kind
                    != TokenKind::Backslash ==> s2.cur_kind() != TokenKind::Backslash,
            ensures
                self.wf(),
                old(self).advances_to(self),
                parts@.len() >= 1,
                spec_is_name_kind(old(self).cur_kind()) && following_token(old(self)).kind
                    != TokenKind::Backslash ==> *self == s2 && parts@ == seq![
                    Ident { span: old(self).cur_token().span },
                ] && last_end == old(self).cur_token().span.end,
            decreases self.rem(),
        {
            if !self.at(TokenKind::Backslash) {
                break;
            }
            let ghost it = *self;
            let bs = self.bump();
            last_end = bs.span.end;
            if self.at(TokenKind::LBrace) {
                proof {
                    Self::lemma_evolves_trans(old(self), &it, self);
                }
                break;
            }
            let ghost it2 = *self;
            match self.expect_ident_or_err(&mut last_end) {
                Some(next_ident_token) => {
                    parts.push(Ident { span: next_ident_token.span });
                    last_end = next_ident_token.span.end;
                    proof {
                        Self::lemma_evolves_trans(&it, &it2, self);
                        Self::lemma_evolves_trans(old(self), &it, self);
                    }
                },
                None => {
                    proof {
                        Self::lemma_evolves_trans(&it, &it2, self);
                        Self::lemma_evolves_trans(old(self), &it, self);
                    }
                    break;
                },
            }
        }
        Some(QualifiedName { absolute, parts, span: Span { start: start_pos, end: last_end } })
    }
}

} // verus!
