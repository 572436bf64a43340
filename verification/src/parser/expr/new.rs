//! `new` expressions.
use crate::ast::{Expr, Ident, QualifiedName};
use crate::diagnostics::{Diagnostic, ParseDiagnosticCode};
use crate::parser::expr::binop::spec_is_operand;
use crate::parser::{following_token, next_position, token_at, Parser};
use crate::span::Span;
use crate::token::TokenKind;
use vstd::prelude::*;

verus! {

fn sync_after_new() -> (v: Vec<TokenKind>)
    ensures
        v@ == seq![
            TokenKind::LParen,
            TokenKind::Semicolon,
            TokenKind::Comma,
            TokenKind::RParen,
            TokenKind::RBrace,
        ],
{
    vec![
        TokenKind::LParen,
        TokenKind::Semicolon,
        TokenKind::Comma,
        TokenKind::RParen,
        TokenKind::RBrace,
    ]
}

/// What skipping a bracketed run from `p` to `q` gives, for the closing
/// kind `close` and the end `last_end` known before: an empty span at the
/// end of the last token consumed (`last_end` when none is). At the end of
/// the input nothing is consumed; at a `close` only that token is.
pub open spec fn balanced_skip(p: &Parser, q: &Parser, close: TokenKind, last_end: u32, sp: Span) -> bool {
    &&& sp.start == sp.end
    &&& p.cur_kind() == TokenKind::Eof ==> *q == *p && sp == Span::at_spec(last_end)
    &&& p.cur_kind() != TokenKind::Eof ==> p.advances_to(q)
    &&& p.cur_kind() == close && close != TokenKind::Eof ==> sp == Span::at_spec(
        p.cur_token().span.end,
    ) && q.position()
        == next_position(p.toks(), p.position())
}

/// `self`, `parent` and `static` name the class of a `new` expression.
pub open spec fn new_class_keyword(k: TokenKind) -> bool {
    k == TokenKind::KwSelf || k == TokenKind::KwParent || k == TokenKind::KwStatic
}

/// `e` refers to the class by the one-part, relative name over `span`.
pub open spec fn is_one_part_fetch(e: Expr, span: Span) -> bool {
    e matches Expr::ConstFetch { name, span: s } && s == span && !name.absolute && name.parts@
        == seq![Ident { span }] && name.span == span
}

impl<'src> Parser<'src> {
    /// `new Class(args)`, where the class is a name, `self`, `parent`,
    /// `static` or a variable. An anonymous class `new class ... { ... }` is
    /// skipped and stands as an error node over its text.
    pub(super) fn parse_new_expr(&mut self) -> (r: Expr)
        requires
            old(self).wf(),
            old(self).cur_kind() == TokenKind::KwNew,
        ensures
            spec_is_operand(r),
            final(self).wf(),
            old(self).advances_to(final(self)),
            r is New || r is Error,
            (r is Error) == (following_token(old(self)).kind == TokenKind::KwClass),
            r is New ==> r->New_span.start == old(self).cur_token().span.start,
            new_class_keyword(following_token(old(self)).kind) ==> (r matches Expr::New {
                class,
                ..
            } && is_one_part_fetch(*class, following_token(old(self)).span)),
            following_token(old(self)).kind == TokenKind::Ident && token_at(
                old(self).toks(),
                next_position(old(self).toks(), next_position(old(self).toks(), old(self).position()) as nat),
            ).kind != TokenKind::Backslash ==> (r matches Expr::New { class, .. }
                && is_one_part_fetch(*class, following_token(old(self)).span)),
        decreases old(self).rem(), 300nat,
    {
        let new_token = self.bump();
        let start_pos = new_token.span.start;
        let mut last_end = new_token.span.end;
        let ghost s1 = *self;
        proof {
            old(self).lemma_cur_token_at();
            self.lemma_cur_token_at();
            assert(self.toks() == old(self).toks());
            assert(self.cur_token() == following_token(old(self)));
        }
        if self.at(TokenKind::KwClass) {
            let anon_span = self.skip_anonymous_class_after_new(&mut last_end);
            proof {
                Self::lemma_evolves_trans(old(self), &s1, self);
            }
            return Expr::Error { span: Span { start: start_pos, end: anon_span.end } };
        }
        let class_expr = if self.at(TokenKind::Backslash) || self.at(TokenKind::Ident) {
            match self.parse_qualified_name() {
                Some(qn) => {
                    proof {
                        if following_token(old(self)).kind == TokenKind::Ident && token_at(
                            old(self).toks(),
                            next_position(old(self).toks(), next_position(old(self).toks(), old(self).position()) as nat),
                        ).kind != TokenKind::Backslash {
                            assert(following_token(&s1).kind != TokenKind::Backslash);
                        }
                    }
                    let class_span = qn.span;
                    Expr::ConstFetch { name: qn, span: class_span }
                },
                None => {
                    let sync = sync_after_new();
                    let ghost s2 = *self;
                    self.error_and_recover(
                        Diagnostic::error_from_code(
                            ParseDiagnosticCode::ExpectedIdent,
                            Span::at(last_end),
                        ),
                        &sync,
                    );
                    proof {
                        Self::lemma_evolves_trans(&s1, &s2, self);
                    }
                    Expr::Error { span: Span::at(last_end) }
                },
            }
        } else if self.at(TokenKind::KwSelf) || self.at(TokenKind::KwParent) || self.at(
            TokenKind::KwStatic,
        ) {
            let tok = self.bump();
            let span = tok.span;
            let parts = vec![Ident { span }];
            assert(parts@ == seq![Ident { span }]);
            Expr::ConstFetch { name: QualifiedName { absolute: false, parts, span }, span }
        } else if self.at_variable_start() {
            self.parse_variable_expr()
        } else {
            let sync = sync_after_new();
            self.error_and_recover(
                Diagnostic::error_from_code(ParseDiagnosticCode::ExpectedIdent, Span::at(last_end)),
                &sync,
            );
            let ghost s2 = *self;
            if self.eat(TokenKind::LParen) {
                let skip_span = self.skip_balanced_parens(last_end);
                last_end = skip_span.end;
            }
            proof {
                Self::lemma_evolves_trans(&s1, &s2, self);
            }
            Expr::Error { span: Span::at(last_end) }
        };
        proof {
            Self::lemma_evolves_trans(old(self), &s1, self);
            if new_class_keyword(following_token(old(self)).kind) || (following_token(old(self)).kind
                == TokenKind::Ident && token_at(
                old(self).toks(),
                next_position(old(self).toks(), next_position(old(self).toks(), old(self).position()) as nat),
            ).kind != TokenKind::Backslash) {
                assert(is_one_part_fetch(class_expr, following_token(old(self)).span));
            }
        }
        let ghost s3 = *self;
        let (args, end_pos) = match self.expect(TokenKind::LParen) {
            Some(lp) => {
                let lparen_span = lp.span;
                let (args_vec, rparen_span) = self.parse_call_arguments(lparen_span);
                (args_vec, rparen_span.end)
            },
            None => (Vec::new(), class_expr.span().end),
        };
        proof {
            Self::lemma_evolves_trans(old(self), &s3, self);
        }
        Expr::New {
            class: Box::new(class_expr),
            args,
            span: Span { start: start_pos, end: end_pos },
        }
    }

    /// Skips `class (args) extends A implements B, C { ... }` after `new`
    /// and returns the span from `class` to the end of what was skipped.
    fn skip_anonymous_class_after_new(&mut self, last_end: &mut u32) -> (sp: Span)
        requires
            old(self).wf(),
            old(self).cur_kind() == TokenKind::KwClass,
        ensures
            final(self).wf(),
            old(self).advances_to(final(self)),
    {
        let class_token = self.bump();
        *last_end = class_token.span.end;
        let ghost s1 = *self;
        if self.eat(TokenKind::LParen) {
            *last_end = self.skip_balanced_parens(*last_end).end;
        }
        let ghost s2 = *self;
        if self.eat(TokenKind::KwExtends) {
            *last_end = self.skip_qualified_name_list(1, *last_end).end;
        }
        let ghost s3 = *self;
        if self.eat(TokenKind::KwImplements) {
            *last_end = self.skip_qualified_name_list(usize::MAX, *last_end).end;
        }
        let ghost s4 = *self;
        if self.eat(TokenKind::LBrace) {
            *last_end = self.skip_balanced_braces(*last_end).end;
        } else {
            let sync = vec![
                TokenKind::LBrace,
                TokenKind::Semicolon,
                TokenKind::Comma,
                TokenKind::RParen,
                TokenKind::RBrace,
            ];
            self.error_and_recover(
                Diagnostic::error_from_code(
                    ParseDiagnosticCode::expected_token(TokenKind::LBrace),
                    Span::at(*last_end),
                ),
                &sync,
            );
            let ghost s5 = *self;
            if self.eat(TokenKind::LBrace) {
                *last_end = self.skip_balanced_braces(*last_end).end;
            }
            proof {
                Self::lemma_evolves_trans(&s4, &s5, self);
            }
        }
        proof {
            Self::lemma_evolves_trans(&s3, &s4, self);
            Self::lemma_evolves_trans(&s2, &s3, self);
            Self::lemma_evolves_trans(&s1, &s2, self);
            Self::lemma_evolves_trans(old(self), &s1, self);
        }
        Span { start: class_token.span.start, end: *last_end }
    }

    /// Skips up to `max` comma-separated names; reports a missing name when
    /// there is none at all. Returns an empty span at the end of what was
    /// skipped.
    fn skip_qualified_name_list(&mut self, max: usize, end_before: u32) -> (sp: Span)
        requires
            old(self).wf(),
        ensures
            final(self).wf(),
            old(self).evolves_to(final(self)),
            sp.start == sp.end,
            max == 0 ==> *final(self) == *old(self) && sp == Span::at_spec(end_before),
            max > 0 && old(self).cur_kind() != TokenKind::Ident ==> sp == Span::at_spec(end_before)
                && old(self).pushed_error(
                final(self),
                ParseDiagnosticCode::ExpectedIdent,
                Span::at_spec(end_before),
            ) && final(self).position() == old(self).position(),
            max > 0 && old(self).cur_kind() == TokenKind::Ident ==> old(self).advances_to(final(self)),
    {
        let mut last_end = end_before;
        let mut consumed: usize = 0;
        while consumed < max
            invariant_except_break
                consumed == 0 ==> *self == *old(self),
            invariant
                self.wf(),
                old(self).evolves_to(self),
                consumed > 0 ==> old(self).advances_to(self),
                consumed == 0 ==> last_end == end_before,
                consumed <= max,
                old(self).cur_kind() != TokenKind::Ident ==> consumed == 0,
            ensures
                self.wf(),
                old(self).evolves_to(self),
                consumed > 0 ==> old(self).advances_to(self),
                consumed == 0 ==> last_end == end_before && (max == 0 ==> *self == *old(self)),
                max > 0 && old(self).cur_kind() != TokenKind::Ident ==> consumed == 0 && old(
                    self,
                ).pushed_error(self, ParseDiagnosticCode::ExpectedIdent, Span::at_spec(end_before))
                    && self.position() == old(self).position(),
                max > 0 && old(self).cur_kind() == TokenKind::Ident ==> consumed > 0,
            decreases self.rem(),
        {
            let ghost it = *self;
            match self.try_skip_qualified_name() {
                Some(name_span) => {
                    last_end = name_span.end;
                    consumed = consumed + 1;
                    let ghost it2 = *self;
                    match self.expect(TokenKind::Comma) {
                        Some(comma) => {
                            last_end = comma.span.end;
                            proof {
                                Self::lemma_evolves_trans(&it, &it2, self);
                                Self::lemma_evolves_trans(old(self), &it, self);
                            }
                        },
                        None => {
                            proof {
                                Self::lemma_evolves_trans(old(self), &it, self);
                            }
                            break;
                        },
                    }
                },
                None => {
                    if consumed == 0 {
                        self.error(
                            Diagnostic::error_from_code(
                                ParseDiagnosticCode::ExpectedIdent,
                                Span::at(last_end),
                            ),
                        );
                    }
                    proof {
                        Self::lemma_evolves_trans(old(self), &it, self);
                    }
                    break;
                },
            }
        }
        Span::at(last_end)
    }

    /// Skips `Ident(\Ident)*` and returns its span; `None`, consuming
    /// nothing, when no identifier is at the cursor.
    fn try_skip_qualified_name(&mut self) -> (r: Option<Span>)
        requires
            old(self).wf(),
        ensures
            final(self).wf(),
            old(self).same_but_cursor(final(self)),
            old(self).evolves_to(final(self)),
            r is Some <==> old(self).cur_kind() == TokenKind::Ident,
            r is Some ==> old(self).advances_to(final(self)),
            r is None ==> *final(self) == *old(self),
    {
        if !self.at(TokenKind::Ident) {
            return None;
        }
        let first = self.bump();
        let mut end = first.span.end;
        loop
            invariant
                self.wf(),
                old(self).same_but_cursor(self),
                old(self).advances_to(self),
            decreases self.rem(),
        {
            let ghost it = *self;
            if self.eat(TokenKind::Backslash) {
                if self.at(TokenKind::Ident) {
                    let id = self.bump();
                    end = id.span.end;
                    proof {
                        Self::lemma_evolves_trans(old(self), &it, self);
                    }
                    continue;
                }
                proof {
                    Self::lemma_evolves_trans(old(self), &it, self);
                }
                break;
            }
            break;
        }
        Some(Span { start: first.span.start, end })
    }

    /// Skips to the token that closes a bracket already opened, counting
    /// nested `open`/`close` pairs; returns an empty span at the end of the
    /// last token skipped.
    fn skip_balanced_core(&mut self, open: TokenKind, close: TokenKind, end_before: u32) -> (sp: Span)
        requires
            old(self).wf(),
            open != close,
        ensures
            final(self).wf(),
            old(self).same_but_cursor(final(self)),
            old(self).evolves_to(final(self)),
            balanced_skip(old(self), final(self), close, end_before, sp),
    {
        let ghost end0 = end_before;
        let mut last_end = end_before;
        let mut depth: usize = 1;
        while depth > 0 && !self.at(TokenKind::Eof)
            invariant
                self.wf(),
                old(self).same_but_cursor(self),
                old(self).evolves_to(self),
                depth <= self.position() - old(self).position() + 1,
                open != close,
                end0 == end_before,
                old(self).cur_kind() == TokenKind::Eof ==> self.position() == old(self).position(),
                self.position() == old(self).position() ==> *self == *old(self) && depth == 1
                    && last_end == end0,
                self.position() != old(self).position() ==> old(self).advances_to(self),
                old(self).cur_kind() == close && self.position() != old(self).position() ==> depth
                    == 0 && last_end == old(self).cur_token().span.end && self.position()
                    == next_position(old(self).toks(), old(self).position()),
            decreases self.rem(),
        {
            let ghost it = *self;
            proof {
                self.lemma_not_eof_room();
            }
            if self.eat(open) {
                depth = depth + 1;
            } else if self.at(close) {
                let r = self.bump();
                last_end = r.span.end;
                depth = depth - 1;
            } else {
                let tok = self.bump();
                last_end = tok.span.end;
            }
            proof {
                Self::lemma_evolves_trans(old(self), &it, self);
            }
        }
        Span::at(last_end)
    }

    fn skip_balanced_parens(&mut self, last_end: u32) -> (sp: Span)
        requires
            old(self).wf(),
        ensures
            final(self).wf(),
            old(self).same_but_cursor(final(self)),
            old(self).evolves_to(final(self)),
            balanced_skip(old(self), final(self), TokenKind::RParen, last_end, sp),
    {
        self.skip_balanced_core(TokenKind::LParen, TokenKind::RParen, last_end)
    }

    fn skip_balanced_braces(&mut self, last_end: u32) -> (sp: Span)
        requires
            old(self).wf(),
        ensures
            final(self).wf(),
            old(self).same_but_cursor(final(self)),
            old(self).evolves_to(final(self)),
            balanced_skip(old(self), final(self), TokenKind::RBrace, last_end, sp),
    {
        self.skip_balanced_core(TokenKind::LBrace, TokenKind::RBrace, last_end)
    }
}

} // verus!
