//! Closures: `function (...) use (...) { ... }` and `fn (...) => expr`.
use crate::ast::{Block, ClosureUse, Expr, Ident, Param};
use crate::diagnostics::{Diagnostic, ParseDiagnosticCode};
use crate::parser::expr::binop::spec_is_operand;
use crate::parser::{following_token, next_position, token_at, Parser};
use crate::span::Span;
use crate::token::TokenKind;
use vstd::prelude::*;

verus! {

/// The parameters of a closure or arrow function.
pub open spec fn closure_params(e: Expr) -> Seq<Param> {
    match e {
        Expr::Closure { params, .. } => params@,
        Expr::ArrowClosure { params, .. } => params@,
        _ => Seq::empty(),
    }
}

impl<'src> Parser<'src> {
    /// A closure or arrow function, from its (optional) `static`.
    pub(super) fn parse_closure_expr(&mut self) -> (r: Option<Expr>)
        requires
            old(self).wf(),
            old(self).cur_kind() == TokenKind::KwFn || old(self).cur_kind() == TokenKind::KwFunction
                || old(self).cur_kind() == TokenKind::KwStatic,
        ensures
            r is Some ==> spec_is_operand(r->0),
            final(self).wf(),
            old(self).advances_to(final(self)),
            r matches Some(e) ==> match e {
                Expr::Closure { is_static, .. } => is_static == (old(self).cur_kind()
                    == TokenKind::KwStatic),
                Expr::ArrowClosure { is_static, .. } => is_static == (old(self).cur_kind()
                    == TokenKind::KwStatic),
                _ => false,
            },
            r matches Some(e) ==> e.spec_span().start == if old(self).cur_kind() == TokenKind::KwStatic {
                following_token(old(self)).span.start
            } else {
                old(self).cur_token().span.start
            },
            ({
                let toks = old(self).toks();
                let p1 = next_position(toks, old(self).position());
                let p2 = next_position(toks, p1 as nat);
                let p3 = next_position(toks, p2 as nat);
                let v = token_at(toks, p2);
                old(self).cur_kind() != TokenKind::KwStatic && token_at(toks, p1).kind
                    == TokenKind::LParen && v.kind == TokenKind::VarIdent && token_at(toks, p3).kind
                    != TokenKind::Eq ==> (r matches Some(e) ==> closure_params(e).len() > 0
                    && closure_params(e)[0] == Param {
                    name: Ident { span: v.span },
                    type_annotation: None,
                    default: None,
                    span: v.span,
                })
            }),
            r is None ==> final(self).diags().len() > old(self).diags().len(),
            ({
                let toks = old(self).toks();
                let p1 = next_position(toks, old(self).position());
                let p2 = next_position(toks, p1 as nat);
                let p3 = next_position(toks, p2 as nat);
                let k3 = token_at(toks, p3).kind;
                old(self).cur_kind() != TokenKind::KwStatic && token_at(toks, p1).kind
                    == TokenKind::LParen && token_at(toks, p2).kind == TokenKind::RParen && (k3
                    == TokenKind::LBrace || k3 == TokenKind::FatArrow) ==> r is Some
            }),
        decreases old(self).rem(), 300nat,
    {
        let is_static = self.at(TokenKind::KwStatic) && {
            self.bump();
            true
        };
        let ghost s1 = *self;
        proof {
            s1.lemma_cur_token_at();
            old(self).lemma_cur_token_at();
        }
        let fn_token = self.bump();
        let start_pos = fn_token.span.start;
        proof {
            Self::lemma_evolves_trans(old(self), &s1, self);
            self.lemma_cur_token_at();
        }
        let (params, params_end) = match self.parse_param_list() {
            Some(p) => p,
            None => return None,
        };
        proof {
            self.lemma_cur_token_at();
        }
        let mut last_end = params_end;
        let mut captured_uses: Vec<ClosureUse> = Vec::new();
        if self.at(TokenKind::KwUse) {
            let use_token = self.bump();
            last_end = use_token.span.end;
            self.parse_closure_uses(&mut captured_uses, &mut last_end);
        }
        let (return_type, _new_last_end) = self.parse_optional_return_type(last_end);
        if self.at(TokenKind::LBrace) {
            let lbrace_tok = self.bump();
            let lbrace_start = lbrace_tok.span.start;
            last_end = lbrace_tok.span.end;
            let (body_block, body_end_pos) = match self.parse_block_after_lbrace(lbrace_start) {
                Some(res) => res,
                None => {
                    let sync = vec![TokenKind::RBrace, TokenKind::Semicolon, TokenKind::RParen];
                    self.error_and_recover(
                        Diagnostic::error(
                            ParseDiagnosticCode::UnexpectedToken,
                            Span::at(last_end),
                            "invalid closure body",
                        ),
                        &sync,
                    );
                    let dummy_span = Span::at(lbrace_start);
                    let empty_block = Block { items: Vec::new(), span: dummy_span };
                    let full_span = Span { start: start_pos, end: dummy_span.end };
                    return Some(
                        Expr::Closure {
                            is_static,
                            params,
                            uses: captured_uses,
                            return_type,
                            body: empty_block,
                            span: full_span,
                        },
                    );
                },
            };
            last_end = body_end_pos;
            let full_span = Span { start: start_pos, end: last_end };
            return Some(
                Expr::Closure {
                    is_static,
                    params,
                    uses: captured_uses,
                    return_type,
                    body: body_block,
                    span: full_span,
                },
            );
        }
        if self.eat(TokenKind::FatArrow) {
            let arrow_end = self.current_span().start;
            let body_expr = match self.parse_expr() {
                Some(expr) => expr,
                None => {
                    let sync = vec![
                        TokenKind::Semicolon,
                        TokenKind::Comma,
                        TokenKind::RBrace,
                        TokenKind::RParen,
                    ];
                    self.error_and_recover(
                        Diagnostic::error_from_code(
                            ParseDiagnosticCode::ExpectedExpression,
                            Span::at(arrow_end),
                        ),
                        &sync,
                    );
                    Expr::Error { span: Span::at(start_pos) }
                },
            };
            last_end = body_expr.span().end;
            let full_span = Span { start: start_pos, end: last_end };
            return Some(
                Expr::ArrowClosure {
                    is_static,
                    params,
                    uses: captured_uses,
                    return_type,
                    body: Box::new(body_expr),
                    span: full_span,
                },
            );
        }
        let sync = vec![TokenKind::Semicolon, TokenKind::Comma, TokenKind::RBrace, TokenKind::RParen];
        self.error_and_recover(
            Diagnostic::error_from_code(
                ParseDiagnosticCode::expected_token(TokenKind::LBrace),
                Span::at(last_end),
            ),
            &sync,
        );
        None
    }

    /// The `(...)` of a closure's `use` clause, after the `use`.
    fn parse_closure_uses(&mut self, captured_uses: &mut Vec<ClosureUse>, last_end: &mut u32)
        requires
            old(self).wf(),
        ensures
            final(self).wf(),
            old(self).evolves_to(final(self)),
            old(captured_uses)@.len() <= final(captured_uses)@.len(),
            final(captured_uses)@.subrange(0, old(captured_uses)@.len() as int) == old(
                captured_uses,
            )@,
            old(self).cur_kind() != TokenKind::LParen ==> final(captured_uses)@ == old(
                captured_uses,
            )@ && *final(last_end) == *old(last_end) && old(self).pushed_error(
                final(self),
                ParseDiagnosticCode::ExpectedToken(TokenKind::LParen),
                Span::at_spec(*old(last_end)),
            ),
            old(self).cur_kind() == TokenKind::LParen ==> old(self).advances_to(final(self)),
            old(self).cur_kind() == TokenKind::LParen && following_token(old(self)).kind
                == TokenKind::RParen ==> final(captured_uses)@ == old(captured_uses)@
                && *final(last_end) == following_token(old(self)).span.end && final(self).diags()
                == old(self).diags() && final(self).position() == next_position(
                old(self).toks(),
                next_position(old(self).toks(), old(self).position()) as nat,
            ),
    {
        if !self.at(TokenKind::LParen) {
            let sync = vec![
                TokenKind::LParen,
                TokenKind::RParen,
                TokenKind::LBrace,
                TokenKind::FatArrow,
            ];
            self.error_and_recover(
                Diagnostic::error_from_code(
                    ParseDiagnosticCode::expected_token(TokenKind::LParen),
                    Span::at(*last_end),
                ),
                &sync,
            );
            return;
        }
        let lparen = self.bump();
        *last_end = lparen.span.end;
        let ghost s1 = *self;
        proof {
            s1.lemma_cur_token_at();
        }
        loop
            invariant
                self.wf(),
                old(self).evolves_to(self),
                old(self).advances_to(self),
                old(captured_uses)@.len() <= captured_uses@.len(),
                captured_uses@.subrange(0, old(captured_uses)@.len() as int) == old(captured_uses)@,
                s1.cur_kind() == TokenKind::RParen ==> *self == s1 && captured_uses@ == old(
                    captured_uses,
                )@,
            decreases self.rem(),
        {
            if self.at(TokenKind::RParen) {
                break;
            }
            let by_ref = self.eat(TokenKind::Amp);
            let (name_span, full_span) = if self.at(TokenKind::VarIdent) {
                let var_token = self.bump();
                *last_end = var_token.span.end;
                (var_token.span, var_token.span)
            } else if self.at(TokenKind::Dollar) {
                let dollar_tok = self.bump();
                *last_end = dollar_tok.span.end;
                match self.expect_ident_or_err(last_end) {
                    Some(name_tok) => {
                        let span = Span { start: dollar_tok.span.start, end: name_tok.span.end };
                        (name_tok.span, span)
                    },
                    None => {
                        let sync = vec![TokenKind::Comma, TokenKind::RParen];
                        self.error_and_recover(
                            Diagnostic::error_from_code(
                                ParseDiagnosticCode::ExpectedIdent,
                                Span::at(*last_end),
                            ),
                            &sync,
                        );
                        break;
                    },
                }
            } else {
                let sync = vec![TokenKind::Comma, TokenKind::RParen];
                self.error_and_recover(
                    Diagnostic::error_from_code(
                        ParseDiagnosticCode::expected_token(TokenKind::Dollar),
                        Span::at(*last_end),
                    ),
                    &sync,
                );
                break;
            };
            captured_uses.push(ClosureUse { by_ref, name: Ident { span: name_span }, span: full_span });
            proof {
                assert(captured_uses@.subrange(0, old(captured_uses)@.len() as int) =~= old(
                    captured_uses,
                )@);
            }
            if self.eat(TokenKind::Comma) {
                continue;
            }
            break;
        }
        let sync = vec![TokenKind::LBrace, TokenKind::FatArrow, TokenKind::Semicolon, TokenKind::RBrace];
        if let Some(end) = self.expect_closing_or_recover(TokenKind::RParen, &sync) {
            *last_end = end;
        }
    }
}

} // verus!
