//! `interface` declarations; the body is skipped.
use crate::ast::{ClassMember, QualifiedName, Stmt};
use crate::parser::{name_after_keyword, Parser};
use crate::span::Span;
use crate::token::TokenKind;
use vstd::prelude::*;

verus! {

impl<'src> Parser<'src> {
    /// `interface Name extends A, B { ... }`. The members are not read:
    /// the body is skipped up to its closing `}`.
    pub(super) fn parse_interface_stmt(&mut self) -> (r: Option<Stmt>)
        requires
            old(self).wf(),
            old(self).cur_kind() == TokenKind::KwInterface,
        ensures
            final(self).wf(),
            old(self).advances_to(final(self)),
            r matches Some(Stmt::Interface { body, .. }) && body@.len() == 0,
            r matches Some(s) && s.spec_span().start == old(self).cur_token().span.start,
            r matches Some(Stmt::Interface { name, .. }) && name_after_keyword(old(self), final(self), name),
    {
        let interface_token = self.bump();
        proof {
            self.lemma_cur_token_at();
        }
        let iface_start = interface_token.span.start;
        let mut last_end = interface_token.span.end;
        let ghost s1 = *self;
        let iface_ident = self.expect_ident_ast_or_err(&mut last_end);
        let ghost s_id = *self;
        let mut extends_list: Vec<QualifiedName> = Vec::new();
        if self.at(TokenKind::KwExtends) {
            self.bump();
            loop
                invariant
                    self.wf(),
                    s1.evolves_to(self),
                    s_id.evolves_to(self),
                decreases self.rem(),
            {
                let ghost it = *self;
                match self.parse_qualified_name() {
                    Some(parent_qn) => {
                        last_end = parent_qn.span.end;
                        extends_list.push(parent_qn);
                    },
                    None => {
                        let ghost s2 = *self;
                        if self.eat(TokenKind::Comma) {
                            proof {
                                Self::lemma_evolves_trans(&it, &s2, self);
                                Self::lemma_evolves_trans(&s1, &it, self);
                            }
                            continue;
                        }
                        proof {
                            Self::lemma_evolves_trans(&s1, &it, self);
                        }
                        break;
                    },
                }
                let ghost s3 = *self;
                if self.eat(TokenKind::Comma) {
                    proof {
                        Self::lemma_evolves_trans(&it, &s3, self);
                        Self::lemma_evolves_trans(&s1, &it, self);
                    }
                    continue;
                }
                proof {
                    Self::lemma_evolves_trans(&s1, &it, self);
                }
                break;
            }
        }
        proof {
            Self::lemma_evolves_trans(old(self), &s1, self);
        }
        let ghost s4 = *self;
        if !self.expect_or_err(TokenKind::LBrace, &mut last_end) {
            proof {
                Self::lemma_evolves_trans(old(self), &s4, self);
            }
            let span = Span { start: iface_start, end: last_end };
            return Some(
                Stmt::Interface {
                    name: iface_ident,
                    extends: extends_list,
                    body: Vec::<ClassMember>::new(),
                    span,
                },
            );
        }
        let body_end = self.consume_brace_body(last_end);
        proof {
            Self::lemma_evolves_trans(old(self), &s4, self);
        }
        let iface_span = Span { start: iface_start, end: body_end };
        Some(
            Stmt::Interface {
                name: iface_ident,
                extends: extends_list,
                body: Vec::<ClassMember>::new(),
                span: iface_span,
            },
        )
    }
}

} // verus!
