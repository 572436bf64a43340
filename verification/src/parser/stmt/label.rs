//! Labels: `name:`.
use crate::ast::{Ident, Stmt};
use crate::diagnostics::ParseDiagnosticCode;
use crate::parser::{next_position, token_at, Parser};
use crate::span::Span;
use crate::token::TokenKind;
use vstd::prelude::*;

verus! {

impl<'src> Parser<'src> {
    /// `name:`, the target of a `goto`.
    pub fn parse_label_stmt(&mut self) -> (r: Option<Stmt>)
        requires
            old(self).wf(),
            old(self).cur_kind() == TokenKind::Ident,
        ensures
            final(self).wf(),
            old(self).advances_to(final(self)),
            ({
                let name = old(self).cur_token();
                let after = token_at(old(self).toks(), next_position(old(self).toks(), old(self).position()));
                &&& r == Some(
                    Stmt::Label {
                        name: Ident { span: name.span },
                        span: Span {
                            start: name.span.start,
                            end: if after.kind == TokenKind::Colon {
                                after.span.end
                            } else {
                                name.span.end
                            },
                        },
                    },
                )
                &&& after.kind == TokenKind::Colon ==> final(self).diags() == old(self).diags()
                &&& after.kind != TokenKind::Colon ==> old(self).pushed_error(
                    final(self),
                    ParseDiagnosticCode::ExpectedToken(TokenKind::Colon),
                    Span::at_spec(name.span.end),
                )
            }),
        decreases old(self).rem(), 700nat,
    {
        let name_token = self.bump();
        let mut last_end = name_token.span.end;
        let ghost s1 = *self;
        proof {
            s1.lemma_cur_token_at();
        }
        self.expect_or_err(TokenKind::Colon, &mut last_end);
        proof {
            Self::lemma_evolves_trans(old(self), &s1, self);
        }
        let span = Span { start: name_token.span.start, end: last_end };
        Some(Stmt::Label { name: Ident { span: name_token.span }, span })
    }
}

} // verus!
