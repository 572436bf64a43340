//! `const NAME = value;` at statement level.
use crate::ast::{Ident, Stmt};
use crate::diagnostics::ParseDiagnosticCode;
use crate::parser::{following_token, spec_is_ident_like_kw, Parser};
use crate::span::Span;
use crate::token::TokenKind;
use vstd::prelude::*;

verus! {

impl<'src> Parser<'src> {
    /// `const NAME = value;`.
    pub(super) fn parse_const_decl_stmt(&mut self) -> (r: Option<Stmt>)
        requires
            old(self).wf(),
            old(self).cur_kind() == TokenKind::KwConst,
        ensures
            final(self).wf(),
            old(self).advances_to(final(self)),
            r matches Some(Stmt::ConstDecl { .. }),
            r matches Some(s) && s.spec_span().start == old(self).cur_token().span.start,
            ({
                let kw = old(self).cur_token();
                let name = following_token(old(self));
                if name.kind == TokenKind::Ident || spec_is_ident_like_kw(name.kind) {
                    r matches Some(Stmt::ConstDecl { name: n, .. }) && n.span == name.span
                } else {
                    &&& r == Some(
                        Stmt::ConstDecl {
                            name: Ident { span: Span::at_spec(kw.span.end) },
                            value: None,
                            span: Span { start: kw.span.start, end: kw.span.end },
                        },
                    )
                    &&& old(self).pushed_error(
                        final(self),
                        ParseDiagnosticCode::ExpectedIdent,
                        Span::at_spec(kw.span.end),
                    )
                }
            }),
        decreases old(self).rem(), 700nat,
    {
        let const_token = self.bump();
        proof {
            self.lemma_cur_token_at();
        }
        let start_pos = const_token.span.start;
        let mut last_end = const_token.span.end;
        let ghost s1 = *self;
        let name_token = match self.expect_ident_or_err(&mut last_end) {
            Some(token) => token,
            None => {
                proof {
                    Self::lemma_evolves_trans(old(self), &s1, self);
                }
                let fake_span = Span::at(last_end);
                return Some(
                    Stmt::ConstDecl {
                        name: Ident { span: fake_span },
                        value: None,
                        span: Span { start: start_pos, end: last_end },
                    },
                );
            },
        };
        proof {
            Self::lemma_evolves_trans(old(self), &s1, self);
        }
        let const_ident = Ident { span: name_token.span };
        let ghost s2 = *self;
        if !self.expect_or_err(TokenKind::Eq, &mut last_end) {
            proof {
                Self::lemma_evolves_trans(old(self), &s2, self);
            }
            let span = Span { start: start_pos, end: name_token.span.end };
            return Some(Stmt::ConstDecl { name: const_ident, value: None, span });
        }
        proof {
            Self::lemma_evolves_trans(old(self), &s2, self);
        }
        let ghost s3 = *self;
        let value_expr = if self.at(TokenKind::Semicolon) {
            None
        } else {
            Some(self.parse_expr_or_err(&mut last_end))
        };
        let ghost s4 = *self;
        self.expect_or_err(TokenKind::Semicolon, &mut last_end);
        proof {
            Self::lemma_evolves_trans(&s3, &s4, self);
            Self::lemma_evolves_trans(old(self), &s3, self);
        }
        let full_span = Span { start: start_pos, end: last_end };
        Some(Stmt::ConstDecl { name: const_ident, value: value_expr, span: full_span })
    }
}

} // verus!
