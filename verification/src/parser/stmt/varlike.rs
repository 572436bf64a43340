//! `$name = value;` and `$name: Type = value;` read as declarations.
use crate::ast::{Expr, Ident, Stmt, TypeRef};
use crate::diagnostics::{Diagnostic, ParseDiagnosticCode};
use crate::parser::expr::binop::{flat_ops, ops_read};
use crate::parser::expr::{lemma_term_before_end, single_token_term, spec_ends_expr, token_term};
use crate::parser::stmt::function_decl::is_one_word_type;
use crate::parser::{following_token, next_position, spec_is_ident_like_kw, token_at, Parser};
use crate::span::Span;
use crate::token::TokenKind;
use vstd::prelude::*;

verus! {

fn sync_after_decl() -> (v: Vec<TokenKind>)
    ensures
        v@ == seq![
            TokenKind::Semicolon,
            TokenKind::RBrace,
            TokenKind::Dollar,
            TokenKind::Ident,
            TokenKind::AttrOpen,
        ],
{
    vec![
        TokenKind::Semicolon,
        TokenKind::RBrace,
        TokenKind::Dollar,
        TokenKind::Ident,
        TokenKind::AttrOpen,
    ]
}

impl<'src> Parser<'src> {
    /// `$ name = value;` (an assignment) or `$ name: Type [= value];` (a
    /// declaration), starting at a `$`. Anything else is read as an
    /// expression statement from the `$`.
    #[verifier::rlimit(40)]
    pub fn parse_varlike_stmt(&mut self) -> (r: Option<Stmt>)
        requires
            old(self).wf(),
            old(self).cur_kind() == TokenKind::Dollar,
        ensures
            final(self).wf(),
            old(self).evolves_to(final(self)),
            r is Some ==> old(self).advances_to(final(self)),
            r matches Some(s) ==> s is Assign || s is VarDecl || s is ExprStmt,
            r matches Some(Stmt::ExprStmt { expr, .. }) ==> ops_read(
                old(self).toks(),
                old(self).position() as int,
                final(self).position() as int,
                flat_ops(expr),
            ),
            ({
                let toks = old(self).toks();
                let name = following_token(old(self));
                let after = token_at(
                    toks,
                    next_position(toks, next_position(toks, old(self).position()) as nat),
                );
                let ty = token_at(
                    toks,
                    next_position(
                        toks,
                        next_position(toks, next_position(toks, old(self).position()) as nat) as nat,
                    ),
                );
                let is_name = name.kind == TokenKind::Ident || spec_is_ident_like_kw(name.kind);
                &&& is_name && after.kind == TokenKind::Eq ==> (r matches Some(
                    Stmt::Assign { target, span, .. },
                ) && target.span == name.span && span.start == old(self).cur_token().span.start)
                &&& is_name && after.kind == TokenKind::Colon && ty.kind == TokenKind::Ident
                    ==> (r matches Some(
                    Stmt::VarDecl { name: n, span, .. },
                ) && n.span == name.span && span.start == old(self).cur_token().span.start)
                &&& !(is_name && (after.kind == TokenKind::Eq || after.kind == TokenKind::Colon))
                    ==> (r is None || r->0 is ExprStmt)
            }),
            ({
                let toks = old(self).toks();
                let name = following_token(old(self));
                let p2 = next_position(toks, next_position(toks, old(self).position()) as nat);
                let p3 = next_position(toks, p2 as nat);
                let v = token_term(token_at(toks, p3), old(self).src_bytes());
                let k4 = token_at(toks, next_position(toks, p3 as nat)).kind;
                (name.kind == TokenKind::Ident || spec_is_ident_like_kw(name.kind)) && token_at(
                    toks,
                    p2,
                ).kind == TokenKind::Eq && v is Some && k4 == TokenKind::Semicolon ==> (r matches Some(
                    Stmt::Assign { value, .. },
                ) && value == v->0)
            }),
            ({
                let toks = old(self).toks();
                let bytes = old(self).src_bytes();
                let name = following_token(old(self));
                let p2 = next_position(toks, next_position(toks, old(self).position()) as nat);
                let ty = token_at(toks, next_position(toks, p2 as nat));
                let p4 = next_position(toks, next_position(toks, p2 as nat) as nat);
                let p5 = next_position(toks, p4 as nat);
                let v = token_term(token_at(toks, p5), bytes);
                let typed = (name.kind == TokenKind::Ident || spec_is_ident_like_kw(name.kind)) && token_at(
                    toks,
                    p2,
                ).kind == TokenKind::Colon && ty.kind == TokenKind::Ident && token_at(toks, p4).kind
                    != TokenKind::Backslash;
                &&& typed ==> (r matches Some(Stmt::VarDecl { type_annotation, .. })
                    && type_annotation matches Some(t) && is_one_word_type(t, ty.span))
                &&& typed && token_at(toks, p4).kind == TokenKind::Eq && v is Some && token_at(
                    toks,
                    next_position(toks, p5 as nat),
                ).kind == TokenKind::Semicolon ==> (r matches Some(Stmt::VarDecl { init, .. })
                    && init == Some(v->0))
                &&& typed && token_at(toks, p4).kind == TokenKind::Semicolon ==> (r matches Some(
                    Stmt::VarDecl { init, .. },
                ) && init is None)
            }),
        decreases old(self).rem(), 700nat,
    {
        let save_pos = self.cursor();
        let ghost s0 = *self;
        let dollar_token = self.bump();
        let mut last_end = dollar_token.span.end;
        let ghost s1 = *self;
        proof {
            s1.lemma_cur_token_at();
        }
        if self.at_variable_start() {
            proof {
                Self::lemma_can_reset(&s0, self);
            }
            self.rewind(save_pos);
            proof {
                Self::lemma_rewound(&s0, &s1, self);
            }
            let ghost s2 = *self;
            let r = self.parse_expr_stmt();
            proof {
                Self::lemma_evolves_trans(&s0, &s2, self);
            }
            return r;
        }
        let name_token = match self.expect_ident_or_err(&mut last_end) {
            Some(token) => {
                last_end = token.span.end;
                token
            },
            None => {
                let ghost s2 = *self;
                proof {
                    Self::lemma_evolves_trans(&s0, &s1, self);
                    Self::lemma_can_reset(&s0, self);
                }
                self.rewind(save_pos);
                proof {
                    Self::lemma_rewound(&s0, &s2, self);
                }
                let ghost s3 = *self;
                let r = self.parse_expr_stmt();
                proof {
                    Self::lemma_evolves_trans(&s0, &s3, self);
                }
                return r;
            },
        };
        proof {
            Self::lemma_evolves_trans(&s0, &s1, self);
            self.lemma_cur_token_at();
        }
        if !(self.at(TokenKind::Colon) || self.at(TokenKind::Eq)) {
            let ghost s2 = *self;
            proof {
                Self::lemma_can_reset(&s0, self);
            }
            self.rewind(save_pos);
            proof {
                Self::lemma_rewound(&s0, &s2, self);
            }
            let ghost s3 = *self;
            let r = self.parse_expr_stmt();
            proof {
                Self::lemma_evolves_trans(&s0, &s3, self);
            }
            return r;
        }
        let ghost s4 = *self;
        let mut maybe_type: Option<TypeRef> = None;
        if self.eat(TokenKind::Colon) {
            proof {
                self.lemma_cur_token_at();
                Self::lemma_same_source_bytes(old(self), self);
            }
            let colon_end = self.current_span().start;
            match self.parse_qualified_name() {
                Some(qn) => {
                    let ty_span = qn.span;
                    last_end = ty_span.end;
                    maybe_type = Some(TypeRef::Named { name: qn, span: ty_span });
                    proof {
                        self.lemma_cur_token_at();
                    }
                },
                None => {
                    let sync = vec![TokenKind::Eq, TokenKind::Semicolon];
                    self.error_and_recover(
                        Diagnostic::error_from_code(
                            ParseDiagnosticCode::ExpectedIdent,
                            Span::at(colon_end),
                        ),
                        &sync,
                    );
                },
            }
        }
        proof {
            Self::lemma_evolves_trans(&s0, &s4, self);
        }
        if !self.at(TokenKind::Eq) {
            if maybe_type.is_none() {
                let ghost s5 = *self;
                proof {
                    Self::lemma_can_reset(&s0, self);
                }
                self.rewind(save_pos);
                proof {
                    Self::lemma_rewound(&s0, &s5, self);
                }
                let ghost s6 = *self;
                let r = self.parse_expr_stmt();
                proof {
                    Self::lemma_evolves_trans(&s0, &s6, self);
                }
                return r;
            }
            let var_ident = Ident { span: name_token.span };
            let ghost s7 = *self;
            let end_span = match self.expect(TokenKind::Semicolon) {
                Some(semi) => semi.span,
                None => {
                    let sync = sync_after_decl();
                    self.error_and_recover(
                        Diagnostic::error(
                            ParseDiagnosticCode::UnexpectedToken,
                            Span::at(last_end),
                            "recovered after unterminated declaration",
                        ),
                        &sync,
                    );
                    name_token.span
                },
            };
            proof {
                Self::lemma_evolves_trans(&s0, &s7, self);
            }
            let full_span = Span { start: dollar_token.span.start, end: end_span.end };
            return Some(
                Stmt::VarDecl {
                    name: var_ident,
                    type_annotation: maybe_type,
                    init: None,
                    span: full_span,
                },
            );
        }
        let ghost s8 = *self;
        let eq_token = self.bump();
        proof {
            self.lemma_cur_token_at();
            Self::lemma_same_source_bytes(old(self), self);
            if single_token_term(self) is Some && spec_ends_expr(following_token(self).kind) {
                lemma_term_before_end(self);
            }
        }
        last_end = eq_token.span.end;
        let var_ident = Ident { span: name_token.span };
        let right_hand_side_expr = if self.at(TokenKind::Semicolon) {
            self.error(
                Diagnostic::error_from_code(
                    ParseDiagnosticCode::ExpectedExpression,
                    Span::at(last_end),
                ),
            );
            Expr::Error { span: Span::at(last_end) }
        } else {
            self.parse_expr_or_err(&mut last_end)
        };
        let ghost s9 = *self;
        let end_span = match self.expect(TokenKind::Semicolon) {
            Some(semi_token) => semi_token.span,
            None => {
                let sync = sync_after_decl();
                self.error_and_recover(
                    Diagnostic::error(
                        ParseDiagnosticCode::UnexpectedToken,
                        Span::at(last_end),
                        "recovered after unterminated assignment",
                    ),
                    &sync,
                );
                right_hand_side_expr.span()
            },
        };
        proof {
            Self::lemma_evolves_trans(&s8, &s9, self);
            Self::lemma_evolves_trans(&s0, &s8, self);
        }
        let full_span = Span { start: dollar_token.span.start, end: end_span.end };
        if maybe_type.is_some() {
            Some(
                Stmt::VarDecl {
                    name: var_ident,
                    type_annotation: maybe_type,
                    init: Some(right_hand_side_expr),
                    span: full_span,
                },
            )
        } else {
            Some(Stmt::Assign { target: var_ident, value: right_hand_side_expr, span: full_span })
        }
    }
}

} // verus!
