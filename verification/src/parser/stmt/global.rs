//! `global $a, $b;`.
use crate::ast::Stmt;
use crate::diagnostics::{Diagnostic, ParseDiagnosticCode};
use crate::parser::Parser;
use crate::span::Span;
use crate::token::TokenKind;
use vstd::prelude::*;

verus! {

impl<'src> Parser<'src> {
    /// `global $a, ${name}...;`.
    pub(super) fn parse_global_stmt(&mut self) -> (r: Option<Stmt>)
        requires
            old(self).wf(),
            old(self).cur_kind() == TokenKind::KwGlobal,
        ensures
            final(self).wf(),
            old(self).advances_to(final(self)),
            r matches Some(Stmt::Global { .. }),
            r matches Some(s) && s.spec_span().start == old(self).cur_token().span.start,
    {
        let global_token = self.bump();
        let mut end = global_token.span.end;
        loop
            invariant
                self.wf(),
                old(self).advances_to(self),
            decreases self.rem(),
        {
            let ghost it = *self;
            if self.at(TokenKind::VarIdent) {
                end = self.bump().span.end;
            } else if self.eat(TokenKind::Dollar) {
                let dollar_end = self.current_span().start;
                let ghost s1 = *self;
                match self.expect_ident_or_err(&mut end) {
                    Some(id) => {
                        end = id.span.end;
                    },
                    None => {
                        let sync = vec![TokenKind::Comma, TokenKind::Semicolon];
                        let ghost s2 = *self;
                        self.error_and_recover(
                            Diagnostic::error_from_code(
                                ParseDiagnosticCode::ExpectedIdent,
                                Span::at(dollar_end),
                            ),
                            &sync,
                        );
                        proof {
                            Self::lemma_evolves_trans(&s1, &s2, self);
                        }
                    },
                }
                proof {
                    Self::lemma_evolves_trans(&it, &s1, self);
                }
            } else {
                let sync = vec![TokenKind::Semicolon];
                self.error_and_recover(
                    Diagnostic::error_from_code(ParseDiagnosticCode::ExpectedIdent, Span::at(end)),
                    &sync,
                );
                proof {
                    Self::lemma_evolves_trans(old(self), &it, self);
                }
                break;
            }
            let ghost s3 = *self;
            if self.eat(TokenKind::Comma) {
                proof {
                    Self::lemma_evolves_trans(&it, &s3, self);
                    Self::lemma_evolves_trans(old(self), &it, self);
                }
                continue;
            }
            proof {
                Self::lemma_evolves_trans(old(self), &it, self);
            }
            break;
        }
        let ghost s4 = *self;
        if !self.expect_or_err(TokenKind::Semicolon, &mut end) {
            let sync = vec![TokenKind::Semicolon, TokenKind::RBrace];
            let ghost s5 = *self;
            self.recover_to_any(&sync);
            proof {
                Self::lemma_evolves_trans(&s4, &s5, self);
            }
        }
        proof {
            Self::lemma_evolves_trans(old(self), &s4, self);
        }
        Some(Stmt::Global { span: Span { start: global_token.span.start, end } })
    }
}

} // verus!
