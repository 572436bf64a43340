//! `enum` declarations; the body is skipped.
use crate::ast::{ClassMember, Ident, Stmt, TypeRef};
use crate::parser::{name_after_keyword_msg, Parser};
use crate::span::Span;
use crate::token::TokenKind;
use vstd::prelude::*;

verus! {

impl<'src> Parser<'src> {
    /// `enum Name [: Type] [implements A, B] { ... }`. The cases are not
    /// read: the body is skipped up to its closing `}`.
    pub(super) fn parse_enum_stmt(&mut self) -> (r: Option<Stmt>)
        requires
            old(self).wf(),
            old(self).cur_kind() == TokenKind::KwEnum,
        ensures
            final(self).wf(),
            old(self).advances_to(final(self)),
            r matches Some(Stmt::Enum { body, .. }) && body@.len() == 0,
            r matches Some(s) && s.spec_span().start == old(self).cur_token().span.start,
            r matches Some(Stmt::Enum { name, .. }) && name_after_keyword_msg(
                old(self),
                final(self),
                name,
                "expected enum name after 'enum'"@,
            ),
    {
        let enum_token = self.bump();
        proof {
            self.lemma_cur_token_at();
        }
        let enum_start = enum_token.span.start;
        let mut last_end = enum_token.span.end;
        let ghost s1 = *self;
        let name_token = match self.expect_ident_msg("expected enum name after 'enum'") {
            Some(token) => token,
            None => {
                proof {
                    Self::lemma_evolves_trans(old(self), &s1, self);
                }
                let fake_span = Span { start: last_end, end: last_end };
                return Some(
                    Stmt::Enum {
                        name: Ident { span: fake_span },
                        backed_type: None,
                        implements: Vec::new(),
                        body: Vec::<ClassMember>::new(),
                        span: Span { start: enum_start, end: last_end },
                    },
                );
            },
        };
        let enum_ident = Ident { span: name_token.span };
        last_end = name_token.span.end;
        let mut backed_type: Option<TypeRef> = None;
        if self.eat(TokenKind::Colon) {
            if let Some(qn) = self.parse_qualified_name() {
                let ty_span = qn.span;
                last_end = ty_span.end;
                backed_type = Some(TypeRef::Named { name: qn, span: ty_span });
            }
        }
        let (implements_list, impl_last_end) = self.parse_implements_clause();
        if let Some(end) = impl_last_end {
            last_end = end;
        }
        proof {
            Self::lemma_evolves_trans(old(self), &s1, self);
        }
        let ghost s2 = *self;
        let lbrace_token = match self.expect_msg(TokenKind::LBrace, "expected '{' to start enum body") {
            Some(t) => t,
            None => {
                proof {
                    Self::lemma_evolves_trans(old(self), &s2, self);
                }
                let span = Span { start: enum_start, end: last_end };
                return Some(
                    Stmt::Enum {
                        name: enum_ident,
                        backed_type,
                        implements: implements_list,
                        body: Vec::<ClassMember>::new(),
                        span,
                    },
                );
            },
        };
        proof {
            Self::lemma_evolves_trans(old(self), &s2, self);
        }
        let mut body_end_pos = lbrace_token.span.end;
        let mut depth: usize = 0;
        loop
            invariant
                self.wf(),
                old(self).advances_to(self),
                depth <= self.position(),
            decreases self.rem(),
        {
            let ghost it = *self;
            if self.at(TokenKind::LBrace) {
                proof {
                    self.lemma_not_eof_room();
                }
                let token = self.bump();
                depth = depth + 1;
                body_end_pos = token.span.end;
            } else if self.at(TokenKind::RBrace) {
                let token = self.bump();
                body_end_pos = token.span.end;
                if depth == 0 {
                    proof {
                        Self::lemma_evolves_trans(old(self), &it, self);
                    }
                    break;
                } else {
                    depth = depth - 1;
                }
            } else if self.peek().is_some() {
                let token = self.bump();
                body_end_pos = token.span.end;
            } else {
                break;
            }
            proof {
                Self::lemma_evolves_trans(old(self), &it, self);
            }
        }
        if body_end_pos < last_end {
            body_end_pos = last_end;
        }
        let enum_span = Span { start: enum_start, end: body_end_pos };
        Some(
            Stmt::Enum {
                name: enum_ident,
                backed_type,
                implements: implements_list,
                body: Vec::<ClassMember>::new(),
                span: enum_span,
            },
        )
    }
}

} // verus!
