//! `declare(strict_types=1);` and its block form.
use crate::ast::Stmt;
use crate::diagnostics::{Diagnostic, ParseDiagnosticCode};
use crate::parser::{next_position, token_at, Parser};
use crate::token::Token;
use crate::span::Span;
use crate::token::TokenKind;
use vstd::prelude::*;
use vstd::string::StringSliceAdditionalSpecFns;

verus! {

/// The source text of `t` is exactly the bytes `lit`.
pub open spec fn token_text_is(src: Seq<u8>, t: Token, lit: Seq<u8>) -> bool {
    t.span.start <= t.span.end <= src.len() && src.subrange(t.span.start as int, t.span.end as int)
        == lit
}

impl<'src> Parser<'src> {
    /// `declare(name=value);` or `declare(name=value) { ... }`. For
    /// `strict_types` with an integer value the result records whether
    /// the value is `1`.
    pub(super) fn parse_declare_stmt(&mut self) -> (r: Option<Stmt>)
        requires
            old(self).wf(),
            old(self).cur_kind() == TokenKind::KwDeclare,
        ensures
            final(self).wf(),
            old(self).advances_to(final(self)),
            r matches Some(Stmt::Declare { .. }),
            r matches Some(s) && s.spec_span().start == old(self).cur_token().span.start,
            ({
                let toks = old(self).toks();
                let kw = old(self).cur_token();
                let p1 = next_position(toks, old(self).position());
                let p2 = next_position(toks, p1 as nat);
                let p3 = next_position(toks, p2 as nat);
                let p4 = next_position(toks, p3 as nat);
                let name = token_at(toks, p2);
                let value = token_at(toks, p4);
                &&& token_at(toks, p1).kind != TokenKind::LParen ==> r == Some(
                    Stmt::Declare {
                        strict_types: None,
                        span: Span { start: kw.span.start, end: kw.span.end },
                    },
                ) && old(self).pushed_error(
                    final(self),
                    ParseDiagnosticCode::ExpectedToken(TokenKind::LParen),
                    Span::at_spec(kw.span.end),
                )
                &&& token_at(toks, p1).kind == TokenKind::LParen && name.kind == TokenKind::Ident
                    && token_at(toks, p3).kind == TokenKind::Eq && value.kind == TokenKind::Int
                    ==> (r matches Some(Stmt::Declare { strict_types, .. }) && strict_types == if token_text_is(
                    old(self).src_bytes(),
                    name,
                    "strict_types".spec_bytes(),
                ) {
                    Some(token_text_is(old(self).src_bytes(), value, "1".spec_bytes()))
                } else {
                    None
                })
            }),
        decreases old(self).rem(), 700nat,
    {
        let declare_token = self.bump();
        let start_pos = declare_token.span.start;
        let mut last_end = declare_token.span.end;
        let ghost s1 = *self;
        proof {
            s1.lemma_cur_token_at();
        }
        if !self.expect_or_err(TokenKind::LParen, &mut last_end) {
            proof {
                Self::lemma_evolves_trans(old(self), &s1, self);
            }
            return Some(
                Stmt::Declare { strict_types: None, span: Span { start: start_pos, end: last_end } },
            );
        }
        proof {
            Self::lemma_evolves_trans(old(self), &s1, self);
        }
        let ghost s2 = *self;
        proof {
            s2.lemma_cur_token_at();
        }
        let mut is_strict_types = false;
        let mut saw_name = false;
        if self.at(TokenKind::Ident) {
            let name_token = self.bump();
            proof {
                self.lemma_cur_token_at();
            }
            last_end = name_token.span.end;
            saw_name = true;
            is_strict_types = self.span_text_eq(name_token.span, "strict_types");
        } else {
            self.error(
                Diagnostic::error_from_code(ParseDiagnosticCode::ExpectedIdent, Span::at(last_end)),
            );
        }
        let saw_eq = self.expect_or_err(TokenKind::Eq, &mut last_end);
        proof {
            self.lemma_cur_token_at();
        }
        let mut int_is_one: Option<bool> = None;
        if self.peek().is_some() {
            if self.at(TokenKind::Int) {
                let int_token = self.bump();
                last_end = int_token.span.end;
                int_is_one = Some(self.span_text_eq(int_token.span, "1"));
            } else if saw_eq {
                self.error(
                    Diagnostic::error_from_code(
                        ParseDiagnosticCode::ExpectedIntLiteral,
                        Span::at(last_end),
                    ),
                );
            }
        }
        let strict_types_val = if saw_name && is_strict_types {
            int_is_one
        } else {
            None
        };
        self.expect_or_err(TokenKind::RParen, &mut last_end);
        proof {
            Self::lemma_evolves_trans(old(self), &s2, self);
        }
        let ghost s3 = *self;
        if self.eat(TokenKind::LBrace) {
            let mut depth: usize = 1;
            while depth > 0 && !self.at(TokenKind::Eof)
                invariant
                    self.wf(),
                    old(self).advances_to(self),
                    depth <= self.position() + 1,
                ensures
                    self.wf(),
                    old(self).advances_to(self),
                decreases self.rem(),
            {
                let ghost it = *self;
                proof {
                    self.lemma_not_eof_room();
                }
                if self.eat(TokenKind::LBrace) {
                    depth = depth + 1;
                    proof {
                        Self::lemma_evolves_trans(old(self), &it, self);
                    }
                    continue;
                }
                if self.peek().is_some() && self.at(TokenKind::RBrace) {
                    let rb = self.bump();
                    last_end = rb.span.end;
                    depth = depth - 1;
                    proof {
                        Self::lemma_evolves_trans(old(self), &it, self);
                    }
                    continue;
                }
                let p0 = self.cursor();
                match self.parse_stmt() {
                    Some(stmt) => {
                        last_end = stmt.span().end;
                    },
                    None => {
                        let ghost s4 = *self;
                        let _ = self.bump();
                        proof {
                            Self::lemma_evolves_trans(&it, &s4, self);
                        }
                    },
                }
                if self.cursor() == p0 {
                    proof {
                        Self::lemma_evolves_trans(old(self), &it, self);
                    }
                    break;
                }
                proof {
                    Self::lemma_progress(&it, self);
                    Self::lemma_evolves_trans(old(self), &it, self);
                }
            }
        } else {
            if !self.expect_or_err(TokenKind::Semicolon, &mut last_end) {
                let sync = vec![
                    TokenKind::Semicolon,
                    TokenKind::RBrace,
                    TokenKind::AttrOpen,
                    TokenKind::Dollar,
                    TokenKind::Ident,
                    TokenKind::KwFunction,
                    TokenKind::KwClass,
                ];
                let ghost s5 = *self;
                self.recover_to_any(&sync);
                proof {
                    Self::lemma_evolves_trans(&s3, &s5, self);
                }
            }
            proof {
                Self::lemma_evolves_trans(old(self), &s3, self);
            }
        }
        let full_span = Span { start: start_pos, end: last_end };
        Some(Stmt::Declare { strict_types: strict_types_val, span: full_span })
    }
}

} // verus!
