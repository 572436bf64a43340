//! `goto label;`.
use crate::ast::{Ident, Stmt};
use crate::parser::{next_position, spec_is_ident_like_kw, token_at, Parser};
use crate::diagnostics::ParseDiagnosticCode;
use crate::span::Span;
use crate::token::TokenKind;
use vstd::prelude::*;

verus! {

impl<'src> Parser<'src> {
    /// `goto name;`; `None` when the name is missing (after reporting it).
    pub fn parse_goto_stmt(&mut self) -> (r: Option<Stmt>)
        requires
            old(self).wf(),
            old(self).cur_kind() == TokenKind::KwGoto,
        ensures
            final(self).wf(),
            old(self).advances_to(final(self)),
            ({
                let toks = old(self).toks();
                let kw = old(self).cur_token();
                let name = token_at(toks, next_position(toks, old(self).position()));
                let after = token_at(
                    toks,
                    next_position(toks, next_position(toks, old(self).position()) as nat),
                );
                if name.kind == TokenKind::Ident || spec_is_ident_like_kw(name.kind) {
                    &&& r == Some(
                        Stmt::Goto {
                            target: Ident { span: name.span },
                            span: Span {
                                start: kw.span.start,
                                end: if after.kind == TokenKind::Semicolon {
                                    after.span.end
                                } else {
                                    name.span.end
                                },
                            },
                        },
                    )
                    &&& after.kind == TokenKind::Semicolon ==> final(self).diags() == old(
                        self,
                    ).diags()
                    &&& after.kind != TokenKind::Semicolon ==> old(self).pushed_error(
                        final(self),
                        ParseDiagnosticCode::ExpectedToken(TokenKind::Semicolon),
                        Span::at_spec(name.span.end),
                    )
                } else {
                    &&& r is None
                    &&& old(self).pushed_error(
                        final(self),
                        ParseDiagnosticCode::ExpectedIdent,
                        Span::at_spec(kw.span.end),
                    )
                }
            }),
        decreases old(self).rem(), 700nat,
    {
        let kw = self.bump();
        let mut last_end = kw.span.end;
        let ghost s1 = *self;
        proof {
            s1.lemma_cur_token_at();
        }
        let ident = match self.expect_ident_or_err(&mut last_end) {
            Some(t) => t,
            None => {
                proof {
                    Self::lemma_evolves_trans(old(self), &s1, self);
                }
                return None;
            },
        };
        last_end = ident.span.end;
        let ghost s2 = *self;
        proof {
            s2.lemma_cur_token_at();
        }
        self.expect_or_err(TokenKind::Semicolon, &mut last_end);
        proof {
            Self::lemma_evolves_trans(&s1, &s2, self);
            Self::lemma_evolves_trans(old(self), &s1, self);
        }
        let span = Span { start: kw.span.start, end: last_end };
        Some(Stmt::Goto { target: Ident { span: ident.span }, span })
    }
}

} // verus!
