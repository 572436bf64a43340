//! Attributes: `#[Name(args), Other]`.
use crate::ast::{Attribute, AttributeArg, AttributeGroup, Ident};
use crate::diagnostics::{Diagnostic, ParseDiagnosticCode};
use crate::parser::expr::{single_token_term, term_alone};
use crate::parser::name::spec_is_name_kind;
use crate::parser::{following_token, next_position, token_at, Parser};
use crate::parser::expr::{lemma_term_before_end, token_term};
use crate::span::Span;
use crate::token::TokenKind;
use vstd::prelude::*;

verus! {

impl<'src> Parser<'src> {
    /// The attribute groups `#[...] #[...]` at the cursor; `None` when no
    /// `#[` is there.
    pub(crate) fn parse_attribute_group_list(&mut self) -> (r: Option<Vec<AttributeGroup>>)
        requires
            old(self).wf(),
        ensures
            final(self).wf(),
            old(self).evolves_to(final(self)),
            r is None <==> old(self).cur_kind() != TokenKind::AttrOpen,
            r is None ==> *final(self) == *old(self),
            r is Some ==> old(self).advances_to(final(self)),
            r matches Some(gs) ==> gs@.len() > 0 && gs@[0].span.start == old(self).cur_token().span.start
                && final(self).cur_kind() != TokenKind::AttrOpen,
        decreases old(self).rem(), 200nat,
    {
        if !self.at(TokenKind::AttrOpen) {
            return None;
        }
        let mut groups: Vec<AttributeGroup> = Vec::new();
        let ghost s0 = *self;
        while self.at(TokenKind::AttrOpen)
            invariant
                self.wf(),
                old(self).evolves_to(self),
                s0.evolves_to(self),
                *self == s0 || s0.advances_to(self),
                *self == s0 ==> self.cur_kind() == TokenKind::AttrOpen && groups@.len() == 0,
                s0 == *old(self),
                s0.advances_to(self) ==> groups@.len() > 0 && groups@[0].span.start == old(
                    self,
                ).cur_token().span.start,
            ensures
                self.wf(),
                s0.advances_to(self),
                groups@.len() > 0 && groups@[0].span.start == old(self).cur_token().span.start,
                self.cur_kind() != TokenKind::AttrOpen,
            decreases self.rem(),
        {
            let ghost it = *self;
            let group = self.parse_single_attribute_group();
            groups.push(group);
            proof {
                Self::lemma_evolves_trans(&s0, &it, self);
                Self::lemma_evolves_trans(old(self), &it, self);
            }
        }
        Some(groups)
    }

    /// One `#[...]` group, from its `#[`.
    fn parse_single_attribute_group(&mut self) -> (g: AttributeGroup)
        requires
            old(self).wf(),
            old(self).cur_kind() == TokenKind::AttrOpen,
        ensures
            final(self).wf(),
            old(self).advances_to(final(self)),
            g.span.start == old(self).cur_token().span.start,
            forall|i: int|
                0 <= i < g.attrs@.len() ==> (#[trigger] g.attrs@[i]).span.start <= g.attrs@[i].span.end,
            spec_is_name_kind(following_token(old(self)).kind) ==> g.attrs@.len() > 0
                && g.attrs@[0].span.start == following_token(old(self)).span.start,
            ({
                let toks = old(self).toks();
                let p1 = next_position(toks, old(self).position());
                let p2 = next_position(toks, p1 as nat);
                let p3 = next_position(toks, p2 as nat);
                let p4 = next_position(toks, p3 as nat);
                let p5 = next_position(toks, p4 as nat);
                let name_ok = spec_is_name_kind(token_at(toks, p1).kind);
                let t = token_term(token_at(toks, p3), old(self).src_bytes());
                &&& name_ok && token_at(toks, p2).kind == TokenKind::RBracket ==> g.attrs@.len() == 1
                    && !g.attrs@[0].name.absolute && g.attrs@[0].name.parts@ == seq![
                    Ident { span: token_at(toks, p1).span },
                ] && g.attrs@[0].args@.len() == 0 && g.span.end == token_at(toks, p2).span.end
                    && final(self).position() == next_position(toks, p2 as nat)
                    && final(self).diags() == old(self).diags()
                &&& name_ok && token_at(toks, p2).kind == TokenKind::LParen && t is Some && token_at(
                    toks,
                    p4,
                ).kind == TokenKind::RParen && token_at(toks, p5).kind == TokenKind::RBracket
                    ==> g.attrs@.len() == 1 && !g.attrs@[0].name.absolute && g.attrs@[0].name.parts@
                    == seq![Ident { span: token_at(toks, p1).span }] && g.attrs@[0].args@ == seq![
                    AttributeArg::Positional { expr: t->0, span: token_at(toks, p3).span },
                ] && g.span.end == token_at(toks, p5).span.end && final(self).position()
                    == next_position(toks, p5 as nat)
            }),
        decreases old(self).rem(), 190nat,
    {
        let attr_open_token = self.bump();
        let start_span = attr_open_token.span;
        let mut attrs: Vec<Attribute> = Vec::new();
        let ghost s_after = *self;
        let ghost toks = old(self).toks();
        let ghost p1 = next_position(toks, old(self).position());
        let ghost p2 = next_position(toks, p1 as nat);
        let ghost p3 = next_position(toks, p2 as nat);
        let ghost p4 = next_position(toks, p3 as nat);
        let ghost p5 = next_position(toks, p4 as nat);
        let ghost tt = token_term(token_at(toks, p3), old(self).src_bytes());
        let ghost pat_a = spec_is_name_kind(token_at(toks, p1).kind) && token_at(toks, p2).kind
            == TokenKind::RBracket;
        let ghost pat_b = spec_is_name_kind(token_at(toks, p1).kind) && token_at(toks, p2).kind
            == TokenKind::LParen && tt is Some && token_at(toks, p4).kind == TokenKind::RParen
            && token_at(toks, p5).kind == TokenKind::RBracket;
        proof {
            self.lemma_cur_token_at();
        }
        loop
            invariant_except_break
                pat_a || pat_b ==> attrs@.len() == 0 && *self == s_after,
            invariant
                toks == old(self).toks(),
                p1 == next_position(toks, old(self).position()),
                p2 == next_position(toks, p1 as nat),
                p3 == next_position(toks, p2 as nat),
                p4 == next_position(toks, p3 as nat),
                p5 == next_position(toks, p4 as nat),
                tt == token_term(token_at(toks, p3), old(self).src_bytes()),
                pat_a == (spec_is_name_kind(token_at(toks, p1).kind) && token_at(toks, p2).kind
                    == TokenKind::RBracket),
                pat_b == (spec_is_name_kind(token_at(toks, p1).kind) && token_at(toks, p2).kind
                    == TokenKind::LParen && tt is Some && token_at(toks, p4).kind == TokenKind::RParen
                    && token_at(toks, p5).kind == TokenKind::RBracket),
                s_after.position() == p1,
                s_after.diags() == old(self).diags(),
                self.wf(),
                old(self).advances_to(self),
                start_span == old(self).cur_token().span,
                forall|i: int|
                    0 <= i < attrs@.len() ==> (#[trigger] attrs@[i]).span.start <= attrs@[i].span.end,
                s_after.cur_token() == following_token(old(self)),
                spec_is_name_kind(following_token(old(self)).kind) ==> (attrs@.len() > 0
                    && attrs@[0].span.start == following_token(old(self)).span.start) || (attrs@.len()
                    == 0 && *self == s_after),
            ensures
                self.wf(),
                old(self).advances_to(self),
                start_span == old(self).cur_token().span,
                forall|i: int|
                    0 <= i < attrs@.len() ==> (#[trigger] attrs@[i]).span.start <= attrs@[i].span.end,
                spec_is_name_kind(following_token(old(self)).kind) ==> attrs@.len() > 0
                    && attrs@[0].span.start == following_token(old(self)).span.start,
                pat_a ==> attrs@.len() == 1 && !attrs@[0].name.absolute && attrs@[0].name.parts@
                    == seq![Ident { span: token_at(toks, p1).span }] && attrs@[0].args@.len() == 0
                    && self.position() == p2 && self.diags() == old(self).diags(),
                pat_b ==> attrs@.len() == 1 && !attrs@[0].name.absolute && attrs@[0].name.parts@
                    == seq![Ident { span: token_at(toks, p1).span }] && attrs@[0].args@ == seq![
                    AttributeArg::Positional { expr: tt->0, span: token_at(toks, p3).span },
                ] && self.position() == p5,
            decreases self.rem(),
        {
            let ghost it = *self;
            while self.at(TokenKind::Backslash)
                invariant
                    self.wf(),
                    it.evolves_to(self),
                    old(self).advances_to(self),
                    it.cur_kind() != TokenKind::Backslash ==> *self == it,
                decreases self.rem(),
            {
                let ghost b = *self;
                self.bump();
                proof {
                    Self::lemma_evolves_trans(&it, &b, self);
                    Self::lemma_evolves_trans(old(self), &b, self);
                }
            }
            if self.at(TokenKind::RBracket) {
                break;
            }
            let attr_start = self.current_span().start;
            let last_end = attr_start;
            let ghost s1 = *self;
            proof {
                s1.lemma_cur_token_at();
            }
            let name = match self.parse_qualified_name() {
                Some(n) => n,
                None => {
                    let sync = vec![TokenKind::Comma, TokenKind::RBracket];
                    let ghost s2 = *self;
                    self.error_and_recover(
                        Diagnostic::error_from_code(
                            ParseDiagnosticCode::ExpectedIdent,
                            Span::at(last_end),
                        ),
                        &sync,
                    );
                    proof {
                        Self::lemma_evolves_trans(&s1, &s2, self);
                        Self::lemma_evolves_trans(&it, &s1, self);
                        Self::lemma_evolves_trans(old(self), &it, self);
                    }
                    if self.at(TokenKind::RBracket) {
                        break;
                    }
                    let ghost s3 = *self;
                    if self.eat(TokenKind::Comma) {
                        proof {
                            Self::lemma_evolves_trans(&it, &s3, self);
                        }
                        continue;
                    }
                    // Only the end of the input is left.
                    break;
                },
            };
            let mut args: Vec<AttributeArg> = Vec::new();
            let ghost s4 = *self;
            proof {
                s4.lemma_cur_token_at();
            }
            if self.at(TokenKind::LParen) {
                let lp_tok = self.bump();
                let lp_end = lp_tok.span.end;
                proof {
                    self.lemma_cur_token_at();
                    Self::lemma_same_source_bytes(old(self), self);
                    if pat_b {
                        assert(self.position() == p3);
                        lemma_term_before_end(self);
                    }
                }
                if !self.at(TokenKind::RParen) {
                    args = self.parse_attribute_args(lp_end);
                }
                proof {
                    self.lemma_cur_token_at();
                }
                let mut rp_end = self.current_span().start;
                self.expect_or_err(TokenKind::RParen, &mut rp_end);
            }
            proof {
                Self::lemma_evolves_trans(&s1, &s4, self);
                Self::lemma_evolves_trans(&it, &s1, self);
                Self::lemma_evolves_trans(old(self), &it, self);
            }
            let here = self.current_span().start;
            let before_here = if here > 0 {
                here - 1
            } else {
                0
            };
            let attr_end = if before_here >= attr_start {
                before_here
            } else {
                attr_start
            };
            let ghost attrs_before = attrs@;
            attrs.push(Attribute { name, args, span: Span { start: attr_start, end: attr_end } });
            proof {
                assert(attrs_before.len() > 0 ==> attrs@[0] == attrs_before[0]);
            }
            let ghost s5 = *self;
            if self.eat(TokenKind::Comma) {
                proof {
                    Self::lemma_evolves_trans(&it, &s5, self);
                    Self::lemma_evolves_trans(old(self), &s5, self);
                }
                if self.at(TokenKind::RBracket) {
                    break;
                }
                continue;
            }
            if self.at(TokenKind::RBracket) {
                break;
            }
            let err_pos = self.current_span().start;
            let sync = vec![TokenKind::Comma, TokenKind::RBracket];
            let ghost s6 = *self;
            self.error_and_recover(
                Diagnostic::error_from_code(
                    ParseDiagnosticCode::expected_tokens(
                        vec![TokenKind::Comma, TokenKind::RBracket],
                    ),
                    Span::at(err_pos),
                ),
                &sync,
            );
            proof {
                Self::lemma_evolves_trans(&it, &s6, self);
                Self::lemma_evolves_trans(old(self), &s6, self);
            }
            if self.at(TokenKind::RBracket) {
                break;
            }
        }
        let ghost s7 = *self;
        let mut rb_end = self.current_span().start;
        let end = if self.expect_or_err(TokenKind::RBracket, &mut rb_end) {
            rb_end
        } else {
            start_span.end
        };
        proof {
            Self::lemma_evolves_trans(old(self), &s7, self);
        }
        AttributeGroup { attrs, span: Span { start: start_span.start, end } }
    }

    /// The arguments of an attribute after its `(`, which ends at `lp_end`:
    /// positional `expr` or named `name: expr`, comma-separated.
    fn parse_attribute_args(&mut self, lp_end: u32) -> (args: Vec<AttributeArg>)
        requires
            old(self).wf(),
        ensures
            final(self).wf(),
            old(self).evolves_to(final(self)),
            final(self).diags().len() == old(self).diags().len() ==> args@.len() > 0,
            term_alone(old(self)) && following_token(old(self)).kind != TokenKind::Comma ==> args@
                == seq![
                AttributeArg::Positional {
                    expr: single_token_term(old(self))->0,
                    span: Span {
                        start: old(self).cur_token().span.start,
                        end: old(self).cur_token().span.end,
                    },
                },
            ] && final(self).position() == next_position(old(self).toks(), old(self).position()),
        decreases old(self).rem(), 615nat,
    {
        let mut args: Vec<AttributeArg> = Vec::new();
        loop
            invariant_except_break
                term_alone(old(self)) && following_token(old(self)).kind != TokenKind::Comma ==> *self
                    == *old(self) && args@.len() == 0,
            invariant
                self.wf(),
                old(self).evolves_to(self),
            ensures
                self.wf(),
                old(self).evolves_to(self),
                self.diags().len() == old(self).diags().len() ==> args@.len() > 0,
                term_alone(old(self)) && following_token(old(self)).kind != TokenKind::Comma ==> args@
                    == seq![
                    AttributeArg::Positional {
                        expr: single_token_term(old(self))->0,
                        span: Span {
                            start: old(self).cur_token().span.start,
                            end: old(self).cur_token().span.end,
                        },
                    },
                ] && self.position() == next_position(old(self).toks(), old(self).position()),
            decreases self.rem(),
        {
            let ghost it = *self;
            let arg_start = self.current_span().start;
            let named = (self.at(TokenKind::Ident) || self.is_ident_like_kw(self.kind()))
                && self.at_nth(1, TokenKind::Colon);
            let mut name: Option<Ident> = None;
            let expr_err_span: u32;
            if named {
                let name_tok = self.expect_ident();
                let colon = self.bump();
                expr_err_span = colon.span.end;
                name = match name_tok {
                    Some(t) => Some(Ident { span: t.span }),
                    None => None,
                };
            } else {
                expr_err_span = if arg_start >= lp_end {
                    arg_start
                } else {
                    lp_end
                };
            }
            let ghost s1 = *self;
            let expr = match self.parse_expr() {
                Some(e) => {
                    proof {
                        self.lemma_cur_token_at();
                    }
                    e
                },
                None => {
                    self.error(
                        Diagnostic::error_from_code(
                            ParseDiagnosticCode::ExpectedExpression,
                            Span::at(expr_err_span),
                        ),
                    );
                    proof {
                        Self::lemma_evolves_trans(&it, &s1, self);
                        Self::lemma_evolves_trans(old(self), &it, self);
                    }
                    let ghost s2 = *self;
                    if self.eat(TokenKind::Comma) {
                        proof {
                            Self::lemma_evolves_trans(&it, &s2, self);
                            Self::lemma_evolves_trans(old(self), &s2, self);
                        }
                        if self.at(TokenKind::RParen) {
                            break;
                        }
                        continue;
                    }
                    break;
                },
            };
            proof {
                Self::lemma_evolves_trans(&it, &s1, self);
                Self::lemma_evolves_trans(old(self), &it, self);
            }
            let arg_end = expr.span().end;
            let span = Span { start: arg_start, end: arg_end };
            match name {
                Some(n) => args.push(AttributeArg::Named { name: n, expr, span }),
                None => args.push(AttributeArg::Positional { expr, span }),
            }
            let ghost s3 = *self;
            if self.eat(TokenKind::Comma) {
                proof {
                    Self::lemma_evolves_trans(old(self), &s3, self);
                }
                if self.at(TokenKind::RParen) {
                    break;
                }
                continue;
            }
            break;
        }
        args
    }
}

} // verus!
