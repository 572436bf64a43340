//! Function declarations, parameter lists, type annotations and the
//! statement blocks that form bodies.
use crate::ast::{Block, Ident, Param, QualifiedName, Stmt, TypeRef};
use crate::diagnostics::{Diagnostic, ParseDiagnosticCode};
use crate::parser::stmt::stmt_expr_grouped;
use crate::parser::expr::{lemma_term_before_end, single_token_term, spec_ends_expr, term_alone};
use crate::parser::{
    following_token, next_position, spec_is_ident_like_kw, stmt_read, stmt_read_at, surely_stmt_at,
    token_at, Parser,
};
use crate::span::Span;
use crate::token::TokenKind;
use vstd::prelude::*;

verus! {

/// The parameter list at the cursor of `p` starts with a plain parameter
/// `$name` (no type, no default): the `(` is followed by a variable token
/// that no `=` follows.
pub open spec fn first_param_plain(p: &Parser) -> bool {
    let toks = p.toks();
    let p2 = next_position(toks, p.position());
    &&& p.cur_kind() == TokenKind::LParen
    &&& token_at(toks, p2).kind == TokenKind::VarIdent
    &&& token_at(toks, next_position(toks, p2 as nat)).kind != TokenKind::Eq
}

/// That plain first parameter.
pub open spec fn first_plain_param(p: &Parser) -> Param {
    let t = following_token(p);
    Param { name: Ident { span: t.span }, type_annotation: None, default: None, span: t.span }
}

/// Tokens that stop the skipping after a statement that could not be read
/// inside a block: the start of a class member or of a statement.
pub open spec fn spec_is_block_resync_kw(k: TokenKind) -> bool {
    ||| k == TokenKind::KwPublic
    ||| k == TokenKind::KwPrivate
    ||| k == TokenKind::KwProtected
    ||| k == TokenKind::KwStatic
    ||| k == TokenKind::KwAbstract
    ||| k == TokenKind::KwFinal
    ||| k == TokenKind::KwReadonly
    ||| k == TokenKind::KwFunction
    ||| k == TokenKind::KwConst
    ||| k == TokenKind::KwUse
    ||| k == TokenKind::KwTrait
    ||| k == TokenKind::KwInterface
    ||| k == TokenKind::KwClass
    ||| k == TokenKind::KwDeclare
    ||| k == TokenKind::KwDo
    ||| k == TokenKind::KwEcho
    ||| k == TokenKind::KwFn
    ||| k == TokenKind::KwFor
    ||| k == TokenKind::KwForeach
    ||| k == TokenKind::KwIf
    ||| k == TokenKind::KwInclude
    ||| k == TokenKind::KwIncludeOnce
    ||| k == TokenKind::KwNamespace
    ||| k == TokenKind::KwNew
    ||| k == TokenKind::KwRequire
    ||| k == TokenKind::KwRequireOnce
    ||| k == TokenKind::KwReturn
    ||| k == TokenKind::KwSwitch
    ||| k == TokenKind::KwThrow
    ||| k == TokenKind::KwTry
    ||| k == TokenKind::KwWhile
}

fn is_block_resync_kw(k: TokenKind) -> (b: bool)
    ensures
        b == spec_is_block_resync_kw(k),
{
    match k {
        TokenKind::KwPublic
        | TokenKind::KwPrivate
        | TokenKind::KwProtected
        | TokenKind::KwStatic
        | TokenKind::KwAbstract
        | TokenKind::KwFinal
        | TokenKind::KwReadonly
        | TokenKind::KwFunction
        | TokenKind::KwConst
        | TokenKind::KwUse
        | TokenKind::KwTrait
        | TokenKind::KwInterface
        | TokenKind::KwClass
        | TokenKind::KwDeclare
        | TokenKind::KwDo
        | TokenKind::KwEcho
        | TokenKind::KwFn
        | TokenKind::KwFor
        | TokenKind::KwForeach
        | TokenKind::KwIf
        | TokenKind::KwInclude
        | TokenKind::KwIncludeOnce
        | TokenKind::KwNamespace
        | TokenKind::KwNew
        | TokenKind::KwRequire
        | TokenKind::KwRequireOnce
        | TokenKind::KwReturn
        | TokenKind::KwSwitch
        | TokenKind::KwThrow
        | TokenKind::KwTry
        | TokenKind::KwWhile => true,
        _ => false,
    }
}

/// Tokens that may start a type: a name, `\`, `array`, `self`, `parent` or
/// `static`.
pub open spec fn spec_starts_type(k: TokenKind) -> bool {
    ||| k == TokenKind::Ident
    ||| k == TokenKind::Backslash
    ||| k == TokenKind::KwArray
    ||| k == TokenKind::KwSelf
    ||| k == TokenKind::KwParent
    ||| k == TokenKind::KwStatic
}

/// A type of one word stands at the cursor of `p`: a name, `self`,
/// `parent`, `static` or `array`, with no `\`, `|` or `&` after it.
pub open spec fn one_word_type(p: &Parser) -> bool {
    let k = p.cur_kind();
    let f = following_token(p).kind;
    &&& (k == TokenKind::Ident || k == TokenKind::KwSelf || k == TokenKind::KwParent || k
        == TokenKind::KwStatic || k == TokenKind::KwArray)
    &&& f != TokenKind::Backslash && f != TokenKind::Pipe && f != TokenKind::Amp
}

/// `t` is the type named by the one word over `span`.
pub open spec fn is_one_word_type(t: TypeRef, span: Span) -> bool {
    t matches TypeRef::Named { name, span: s } && s == span && !name.absolute && name.parts@
        == seq![Ident { span }] && name.span == span
}

impl<'src> Parser<'src> {
    /// `function [&]name(params)[: Type] { ... }`.
    pub(super) fn parse_function_stmt(&mut self) -> (r: Option<Stmt>)
        requires
            old(self).wf(),
            old(self).cur_kind() == TokenKind::KwFunction,
        ensures
            final(self).wf(),
            old(self).advances_to(final(self)),
            r matches Some(Stmt::Function { .. }),
            r matches Some(s) && s.spec_span().start == old(self).cur_token().span.start,
            ({
                let toks = old(self).toks();
                let p1 = next_position(toks, old(self).position());
                let name_tok = if token_at(toks, p1).kind == TokenKind::Amp {
                    token_at(toks, next_position(toks, p1 as nat))
                } else {
                    token_at(toks, p1)
                };
                r matches Some(Stmt::Function { name, .. }) && if name_tok.kind == TokenKind::Ident
                    || spec_is_ident_like_kw(name_tok.kind) {
                    name.span == name_tok.span
                } else {
                    name.span == Span::at_spec(old(self).cur_token().span.end) && final(self).diags().len()
                        > old(self).diags().len()
                }
            }),
        decreases old(self).rem(), 700nat,
    {
        let fn_token = self.bump();
        let fn_start = fn_token.span.start;
        let mut last_end = fn_token.span.end;
        let ghost s1 = *self;
        proof {
            s1.lemma_cur_token_at();
        }
        let _by_ref = self.eat(TokenKind::Amp);
        proof {
            self.lemma_cur_token_at();
        }
        let (fn_ident, name_end) = match self.expect_ident_msg(
            "expected function name after 'function'",
        ) {
            Some(name_token) => (Ident { span: name_token.span }, name_token.span.end),
            None => {
                let fake_span = Span { start: last_end, end: last_end };
                (Ident { span: fake_span }, last_end)
            },
        };
        last_end = name_end;
        let ghost s2 = *self;
        let params = match self.parse_param_list() {
            Some((params, end)) => {
                last_end = end;
                params
            },
            None => {
                let sync = vec![TokenKind::LBrace, TokenKind::Semicolon, TokenKind::RBrace];
                self.error_msg_and_recover("failed to parse parameter list", &sync);
                Vec::new()
            },
        };
        let (return_ty, new_last_end) = self.parse_optional_return_type(last_end);
        last_end = new_last_end;
        proof {
            Self::lemma_evolves_trans(&s1, &s2, self);
            Self::lemma_evolves_trans(old(self), &s1, self);
        }
        let ghost s3 = *self;
        let lbrace = match self.expect(TokenKind::LBrace) {
            Some(t) => t,
            None => {
                let sp = self.current_span();
                self.recover_one_token(
                    Diagnostic::error(
                        ParseDiagnosticCode::UnexpectedToken,
                        sp,
                        "expected '{' to start function body",
                    ),
                );
                proof {
                    Self::lemma_evolves_trans(old(self), &s3, self);
                }
                let body_block = Block { items: Vec::new(), span: Span { start: last_end, end: last_end } };
                let span = Span { start: fn_start, end: last_end };
                return Some(
                    Stmt::Function {
                        name: fn_ident,
                        params,
                        return_type: return_ty,
                        body: body_block,
                        span,
                    },
                );
            },
        };
        let (body_block, body_end) = match self.parse_block_after_lbrace(lbrace.span.start) {
            Some(res) => res,
            None => (Block { items: Vec::new(), span: Span::at(lbrace.span.start) }, lbrace.span.end),
        };
        proof {
            Self::lemma_evolves_trans(old(self), &s3, self);
        }
        let fn_span = Span { start: fn_start, end: body_end };
        Some(
            Stmt::Function {
                name: fn_ident,
                params,
                return_type: return_ty,
                body: body_block,
                span: fn_span,
            },
        )
    }

    /// `(param, ...)`, with a trailing comma allowed: the parameters and
    /// the end of the list. `None` when the `(` is missing (after reporting
    /// it).
    pub(crate) fn parse_param_list(&mut self) -> (r: Option<(Vec<Param>, u32)>)
        requires
            old(self).wf(),
        ensures
            final(self).wf(),
            old(self).evolves_to(final(self)),
            r is Some <==> old(self).cur_kind() == TokenKind::LParen,
            r is Some ==> old(self).advances_to(final(self)),
            old(self).cur_kind() == TokenKind::LParen && following_token(old(self)).kind
                == TokenKind::RParen ==> (r matches Some(v) && v.0@.len() == 0 && v.1 == following_token(
                old(self),
            ).span.end) && final(self).position() == next_position(
                old(self).toks(),
                next_position(old(self).toks(), old(self).position()) as nat,
            ),
            r is None ==> final(self).diags().len() > old(self).diags().len(),
            first_param_plain(old(self)) ==> (r matches Some(v) && v.0@.len() > 0 && v.0@[0]
                == first_plain_param(old(self))),
        decreases old(self).rem(), 300nat,
    {
        let lparen_token = match self.expect_msg(TokenKind::LParen, "expected '(' after function name") {
            Some(t) => t,
            None => return None,
        };
        let mut params: Vec<Param> = Vec::new();
        let mut last_end = lparen_token.span.end;
        proof {
            self.lemma_cur_token_at();
        }
        if let Some(rp) = self.expect(TokenKind::RParen) {
            return Some((params, rp.span.end));
        }
        let ghost s_after = *self;
        loop
            invariant
                self.wf(),
                old(self).advances_to(self),
                old(self).cur_kind() == TokenKind::LParen,
                s_after.cur_token() == following_token(old(self)),
                s_after.cur_kind() != TokenKind::RParen,
                s_after.position() == next_position(old(self).toks(), old(self).position()),
                first_param_plain(old(self)) ==> (params@.len() > 0 && params@[0] == first_plain_param(
                    old(self),
                )) || (params@.len() == 0 && *self == s_after),
            ensures
                self.wf(),
                old(self).advances_to(self),
                following_token(old(self)).kind != TokenKind::RParen,
                first_param_plain(old(self)) ==> params@.len() > 0 && params@[0] == first_plain_param(
                    old(self),
                ),
            decreases self.rem(),
        {
            let ghost it = *self;
            if self.at(TokenKind::RParen) {
                break;
            }
            proof {
                self.lemma_cur_token_at();
            }
            let ghost params_before = params@;
            match self.parse_single_param() {
                Some(param) => {
                    last_end = param.span.end;
                    params.push(param);
                    proof {
                        assert(params_before.len() > 0 ==> params@[0] == params_before[0]);
                    }
                },
                None => {
                    let sync = vec![TokenKind::Comma, TokenKind::RParen];
                    let ghost s2 = *self;
                    self.error_msg_and_recover("invalid parameter", &sync);
                    proof {
                        Self::lemma_evolves_trans(&it, &s2, self);
                    }
                },
            }
            proof {
                Self::lemma_evolves_trans(old(self), &it, self);
            }
            let ghost s3 = *self;
            if self.eat(TokenKind::Comma) {
                proof {
                    Self::lemma_evolves_trans(&it, &s3, self);
                    Self::lemma_evolves_trans(old(self), &s3, self);
                }
                if self.at(TokenKind::RParen) {
                    let r = self.bump();
                    last_end = r.span.end;
                    return Some((params, last_end));
                }
                continue;
            }
            break;
        }
        let ghost s4 = *self;
        if self.at(TokenKind::RParen) {
            let rparen_token = self.bump();
            last_end = rparen_token.span.end;
        } else {
            let sync = vec![TokenKind::RParen, TokenKind::LBrace, TokenKind::Semicolon];
            self.error_msg_and_recover("expected ')' to close parameter list", &sync);
        }
        proof {
            Self::lemma_evolves_trans(old(self), &s4, self);
        }
        Some((params, last_end))
    }

    /// One parameter: `[#[...]] [Type] [&] [...] $name [= default]`.
    /// `None` when no `$` follows the type (after reporting it).
    pub(super) fn parse_single_param(&mut self) -> (r: Option<Param>)
        requires
            old(self).wf(),
        ensures
            final(self).wf(),
            old(self).evolves_to(final(self)),
            r matches Some(p) ==> p.span.start == old(self).cur_token().span.start,
            r is None ==> final(self).diags().len() > old(self).diags().len(),
            old(self).cur_kind() == TokenKind::VarIdent && following_token(old(self)).kind
                != TokenKind::Eq ==> r == Some(
                Param {
                    name: Ident { span: old(self).cur_token().span },
                    type_annotation: None,
                    default: None,
                    span: old(self).cur_token().span,
                },
            ) && final(self).diags() == old(self).diags() && final(self).position() == next_position(
                old(self).toks(),
                old(self).position(),
            ),
            ({
                let toks = old(self).toks();
                let v = following_token(old(self));
                let q2 = next_position(toks, old(self).position()) as nat;
                one_word_type(old(self)) && v.kind == TokenKind::VarIdent && token_at(
                    toks,
                    next_position(toks, q2),
                ).kind != TokenKind::Eq ==> (r matches Some(p) && p.name == Ident { span: v.span }
                    && (p.type_annotation matches Some(t) && is_one_word_type(
                    t,
                    old(self).cur_token().span,
                )) && p.default is None && p.span == Span {
                    start: old(self).cur_token().span.start,
                    end: v.span.end,
                }) && final(self).diags() == old(self).diags() && final(self).position()
                    == next_position(toks, q2)
            }),
        decreases old(self).rem(), 250nat,
    {
        let mut param_start = self.current_span().start;
        let ghost s0 = *self;
        proof {
            self.lemma_cur_token_at();
        }
        if self.at(TokenKind::AttrOpen) {
            let attr_start = self.current_span().start;
            match self.parse_attribute_group_list() {
                Some(_attrs) => {
                    param_start = attr_start;
                },
                None => return None,
            }
        }
        let ghost s1 = *self;
        let (maybe_type, type_end) = self.parse_param_type_prefix();
        let mut last_end = type_end;
        proof {
            self.lemma_cur_token_at();
        }
        if let Some(amp) = self.expect(TokenKind::Amp) {
            last_end = amp.span.end;
        }
        if let Some(ell) = self.expect(TokenKind::Ellipsis) {
            last_end = ell.span.end;
        }
        proof {
            Self::lemma_evolves_trans(&s0, &s1, self);
        }
        let ghost s2 = *self;
        let name_ident = if self.at(TokenKind::VarIdent) {
            let token = self.bump();
            proof {
                self.lemma_cur_token_at();
            }
            last_end = token.span.end;
            Ident { span: token.span }
        } else {
            if !self.at(TokenKind::Dollar) {
                let sync = vec![TokenKind::Comma, TokenKind::RParen];
                self.error_msg_and_recover("expected '$' in parameter", &sync);
                proof {
                    Self::lemma_evolves_trans(&s0, &s2, self);
                }
                return None;
            }
            self.bump();
            match self.expect_ident_msg("expected parameter name after '$'") {
                Some(token) => {
                    last_end = token.span.end;
                    Ident { span: token.span }
                },
                None => {
                    let sync = vec![TokenKind::Comma, TokenKind::RParen];
                    self.error_msg_and_recover("missing parameter name", &sync);
                    proof {
                        Self::lemma_evolves_trans(&s0, &s2, self);
                    }
                    let fake = Span { start: last_end, end: last_end };
                    return Some(
                        Param {
                            name: Ident { span: fake },
                            type_annotation: maybe_type,
                            default: None,
                            span: Span { start: param_start, end: last_end },
                        },
                    );
                },
            }
        };
        proof {
            Self::lemma_evolves_trans(&s0, &s2, self);
        }
        let ghost s3 = *self;
        let mut default_expr = None;
        if self.eat(TokenKind::Eq) {
            match self.parse_expr() {
                Some(expr) => {
                    last_end = expr.span().end;
                    default_expr = Some(expr);
                },
                None => {
                    let sync = vec![TokenKind::Comma, TokenKind::RParen];
                    self.error_msg_and_recover(
                        "expected default expression after '=' in parameter",
                        &sync,
                    );
                },
            }
        }
        proof {
            Self::lemma_evolves_trans(&s0, &s3, self);
        }
        let span = Span { start: param_start, end: last_end };
        Some(Param { name: name_ident, type_annotation: maybe_type, default: default_expr, span })
    }

    /// The statements of a `{ ... }` block after its `{`, which starts at
    /// `lbrace_start`, up to the matching `}` or the end of the input;
    /// returns the block and its end.
    pub(crate) fn parse_block_after_lbrace(&mut self, lbrace_start: u32) -> (r: Option<(Block, u32)>)
        requires
            old(self).wf(),
        ensures
            final(self).wf(),
            old(self).evolves_to(final(self)),
            r is Some,
            r matches Some((b, end)) && b.span == (Span { start: lbrace_start, end }),
            old(self).cur_kind() == TokenKind::RBrace ==> (r matches Some((b, end)) && b.items@.len()
                == 0 && end == old(self).cur_token().span.end) && final(self).diags() == old(
                self,
            ).diags() && final(self).position() == next_position(
                old(self).toks(),
                old(self).position(),
            ),
            old(self).cur_kind() == TokenKind::Eof ==> (r matches Some((b, end)) && b.items@.len()
                == 0 && end == lbrace_start) && *final(self) == *old(self),
            final(self).diags().len() == old(self).diags().len() ==> (r matches Some((b, _)) && forall|
                i: int,
            | 0 <= i < b.items@.len() ==> stmt_expr_grouped(#[trigger] b.items@[i])),
            surely_stmt_at(old(self).toks(), old(self).position() as int) ==> (r matches Some((b, _))
                && b.items@.len() > 0 && stmt_read_at(
                old(self),
                old(self).position() as int,
                b.items@[0],
            )),
        decreases old(self).rem(), 900nat,
    {
        let mut items: Vec<Stmt> = Vec::new();
        let mut depth: usize = 1;
        let mut body_end = lbrace_start;
        proof {
            self.lemma_cur_token_at();
            if single_token_term(&*self) is Some && spec_ends_expr(following_token(&*self).kind) {
                lemma_term_before_end(&*self);
            }
        }
        while !self.eof() && depth > 0
            invariant
                self.wf(),
                old(self).evolves_to(self),
                depth <= 1,
                old(self).cur_token() == token_at(old(self).toks(), old(self).position() as int),
                single_token_term(old(self)) is Some && spec_ends_expr(following_token(old(self)).kind)
                    ==> term_alone(old(self)),
                surely_stmt_at(old(self).toks(), old(self).position() as int) ==> (items@.len() > 0
                    && stmt_read_at(old(self), old(self).position() as int, items@[0])) || (*self
                    == *old(self) && items@.len() == 0 && depth == 1),
                self.position() == old(self).position() ==> *self == *old(self) && items@.len() == 0
                    && body_end == lbrace_start && depth == 1,
                old(self).cur_kind() == TokenKind::Eof ==> self.position() == old(self).position(),
                old(self).cur_kind() == TokenKind::RBrace && self.position() != old(self).position()
                    ==> depth == 0 && items@.len() == 0 && body_end == old(self).cur_token().span.end
                    && self.diags() == old(self).diags() && self.position() == next_position(
                    old(self).toks(),
                    old(self).position(),
                ),
                self.diags().len() == old(self).diags().len() ==> forall|i: int|
                    0 <= i < items@.len() ==> stmt_expr_grouped(#[trigger] items@[i]),
            ensures
                self.wf(),
                old(self).evolves_to(self),
                self.position() == old(self).position() ==> *self == *old(self) && items@.len() == 0
                    && body_end == lbrace_start,
                old(self).cur_kind() == TokenKind::Eof ==> self.position() == old(self).position(),
                old(self).cur_kind() == TokenKind::RBrace ==> items@.len() == 0 && body_end == old(
                    self,
                ).cur_token().span.end && self.diags() == old(self).diags() && self.position()
                    == next_position(old(self).toks(), old(self).position()),
                self.diags().len() == old(self).diags().len() ==> forall|i: int|
                    0 <= i < items@.len() ==> stmt_expr_grouped(#[trigger] items@[i]),
                surely_stmt_at(old(self).toks(), old(self).position() as int) ==> items@.len() > 0
                    && stmt_read_at(old(self), old(self).position() as int, items@[0]),
            decreases self.rem(),
        {
            let ghost it = *self;
            if self.at(TokenKind::RBrace) {
                let rbrace = self.bump();
                depth = depth - 1;
                body_end = rbrace.span.end;
                proof {
                    Self::lemma_evolves_trans(old(self), &it, self);
                }
                continue;
            }
            let before = self.cursor();
            match self.parse_stmt() {
                Some(stmt) => {
                    if stmt.span().end > body_end {
                        body_end = stmt.span().end;
                    }
                    let ghost items_before = items@;
                    items.push(stmt);
                    proof {
                        if items_before.len() == 0 {
                            assert(stmt_read(it, stmt));
                        } else {
                            assert(items@[0] == items_before[0]);
                        }
                    }
                    proof {
                        Self::lemma_evolves_trans(old(self), &it, self);
                    }
                    continue;
                },
                None => {},
            }
            if self.cursor() == before {
                let ghost s1 = *self;
                self.recover_stmt_in_block();
                if let Some(span) = self.prev_span() {
                    body_end = span.end;
                }
                proof {
                    Self::lemma_evolves_trans(&it, &s1, self);
                }
                if self.cursor() == before {
                    proof {
                        Self::lemma_evolves_trans(old(self), &it, self);
                    }
                    break;
                }
            }
            proof {
                Self::lemma_progress(&it, self);
                Self::lemma_evolves_trans(old(self), &it, self);
            }
        }
        let block_span = Span { start: lbrace_start, end: body_end };
        let block = Block { items, span: block_span };
        Some((block, body_end))
    }

    /// Skips what could not be read as a statement inside a block: up to
    /// `}`, past `;`, or up to a keyword that starts a member or statement;
    /// at least one token unless at the end of the input.
    fn recover_stmt_in_block(&mut self)
        requires
            old(self).wf(),
        ensures
            final(self).wf(),
            old(self).same_but_cursor(final(self)),
            old(self).evolves_to(final(self)),
            old(self).cur_kind() != TokenKind::Eof ==> old(self).advances_to(final(self)),
    {
        let start_pos = self.cursor();
        let ghost s0 = *self;
        while !self.eof()
            invariant
                self.wf(),
                s0.same_but_cursor(self),
                s0.evolves_to(self),
                *self == s0 || s0.advances_to(self),
            decreases self.rem(),
        {
            let ghost it = *self;
            if self.at(TokenKind::RBrace) {
                break;
            }
            if self.eat(TokenKind::Semicolon) {
                proof {
                    Self::lemma_evolves_trans(&s0, &it, self);
                }
                break;
            }
            let k = self.kind();
            if is_block_resync_kw(k) {
                break;
            }
            self.bump();
            proof {
                Self::lemma_evolves_trans(&s0, &it, self);
            }
        }
        proof {
            if *self != s0 {
                Self::lemma_advances_moves(&s0, self);
            }
        }
        if self.cursor() == start_pos && !self.eof() {
            let ghost s1 = *self;
            self.bump();
            proof {
                Self::lemma_evolves_trans(&s0, &s1, self);
            }
        } else if self.cursor() != start_pos {
            proof {
                Self::lemma_progress(&s0, self);
            }
        }
    }

    /// An optional parameter or property type: `[?]Type`, or a union
    /// `A|B` or intersection `A&B` of names. Returns the type and the end
    /// of what was read (where the name starts when there is no type).
    pub(super) fn parse_param_type_prefix(&mut self) -> (r: (Option<TypeRef>, u32))
        requires
            old(self).wf(),
        ensures
            final(self).wf(),
            old(self).evolves_to(final(self)),
            old(self).cur_kind() != TokenKind::Question && !spec_starts_type(old(self).cur_kind())
                ==> r == (None::<TypeRef>, old(self).cur_token().span.start) && *final(self) == *old(
                self,
            ),
            r.0 is Some ==> old(self).advances_to(final(self)),
            r.0 is Some && old(self).cur_kind() == TokenKind::Question ==> (r.0->0 matches TypeRef::Nullable {
                span,
                ..
            } && span == (Span { start: old(self).cur_token().span.start, end: r.1 })),
            old(self).cur_kind() == TokenKind::KwArray && following_token(old(self)).kind
                != TokenKind::Pipe && following_token(old(self)).kind != TokenKind::Amp ==> (r.0
                matches Some(TypeRef::Named { span, .. }) && span == old(self).cur_token().span
                && r.1 == span.end && final(self).position() == next_position(
                old(self).toks(),
                old(self).position(),
            )),
            one_word_type(old(self)) ==> (r.0 matches Some(t) && is_one_word_type(
                t,
                old(self).cur_token().span,
            )) && r.1 == old(self).cur_token().span.end && final(self).diags() == old(self).diags()
                && final(self).position() == next_position(old(self).toks(), old(self).position()),
    {
        let mut saw_question = false;
        let mut start_pos = self.current_span().start;
        if let Some(q) = self.expect(TokenKind::Question) {
            saw_question = true;
            start_pos = q.span.start;
        }
        let k0 = self.kind();
        let looks_like_type = k0 == TokenKind::Ident || k0 == TokenKind::Backslash || k0
            == TokenKind::KwArray || k0 == TokenKind::KwSelf || k0 == TokenKind::KwParent || k0
            == TokenKind::KwStatic;
        if !looks_like_type {
            let here = self.current_span().start;
            return (None, here);
        }
        let ghost s1 = *self;
        let first_qn = if self.at(TokenKind::KwArray) {
            let token = self.bump();
            proof {
                self.lemma_cur_token_at();
            }
            let span = token.span;
            let parts = vec![Ident { span }];
            assert(parts@ == seq![Ident { span }]);
            QualifiedName { absolute: false, parts, span }
        } else {
            match self.parse_qualified_name() {
                Some(qn) => qn,
                None => {
                    proof {
                        Self::lemma_evolves_trans(old(self), &s1, self);
                    }
                    let here = self.current_span().start;
                    return (None, here);
                },
            }
        };
        let first_span = first_qn.span;
        let mut last_end = first_span.end;
        proof {
            self.lemma_cur_token_at();
        }
        let mut types: Vec<TypeRef> = Vec::new();
        types.push(TypeRef::Named { name: first_qn, span: first_span });
        let ghost s2 = *self;
        let (saw_union, saw_inter) = self.collect_additional_types(&mut types, &mut last_end);
        proof {
            Self::lemma_evolves_trans(&s1, &s2, self);
            Self::lemma_evolves_trans(old(self), &s1, self);
        }
        let mut ty = if types.len() == 1 {
            let token = types.pop().unwrap();
            last_end = token.span().end;
            token
        } else if saw_inter && !saw_union {
            TypeRef::Intersection { types, span: Span { start: start_pos, end: last_end } }
        } else {
            TypeRef::Union { types, span: Span { start: start_pos, end: last_end } }
        };
        if saw_question {
            ty = TypeRef::Nullable {
                inner: Box::new(ty),
                span: Span { start: start_pos, end: last_end },
            };
        }
        (Some(ty), last_end)
    }

    /// An optional return type `: [?]Type` after `last_end_in`: the type and
    /// the end of what was read.
    pub(crate) fn parse_optional_return_type(&mut self, last_end_in: u32) -> (r: (
        Option<TypeRef>,
        u32,
    ))
        requires
            old(self).wf(),
        ensures
            final(self).wf(),
            old(self).evolves_to(final(self)),
            old(self).cur_kind() != TokenKind::Colon ==> r.0 is None && r.1 == last_end_in
                && *final(self) == *old(self),
    {
        let mut last_end = last_end_in;
        if !self.eat(TokenKind::Colon) {
            return (None, last_end);
        }
        let ghost s1 = *self;
        let mut saw_question = false;
        if let Some(q) = self.expect(TokenKind::Question) {
            saw_question = true;
            last_end = q.span.end;
        }
        let first_qn = if self.at(TokenKind::KwArray) {
            let token = self.bump();
            let span = token.span;
            QualifiedName { absolute: false, parts: vec![Ident { span }], span }
        } else {
            match self.parse_qualified_name() {
                Some(qn) => qn,
                None => {
                    proof {
                        Self::lemma_evolves_trans(old(self), &s1, self);
                    }
                    return (None, last_end);
                },
            }
        };
        let first_span = first_qn.span;
        last_end = first_span.end;
        let mut types: Vec<TypeRef> = Vec::new();
        types.push(TypeRef::Named { name: first_qn, span: first_span });
        let ghost s2 = *self;
        let (saw_union, saw_inter) = self.collect_additional_types(&mut types, &mut last_end);
        proof {
            Self::lemma_evolves_trans(&s1, &s2, self);
            Self::lemma_evolves_trans(old(self), &s1, self);
        }
        let mut ty = if types.len() == 1 {
            let token = types.pop().unwrap();
            last_end = token.span().end;
            token
        } else if saw_inter && !saw_union {
            let first_start = types[0].span().start;
            TypeRef::Intersection { types, span: Span { start: first_start, end: last_end } }
        } else {
            let first_start = types[0].span().start;
            TypeRef::Union { types, span: Span { start: first_start, end: last_end } }
        };
        if saw_question {
            ty = TypeRef::Nullable {
                inner: Box::new(ty),
                span: Span { start: last_end_in, end: last_end },
            };
        }
        (Some(ty), last_end)
    }

    /// The further members `|B` or `&B` of a union or intersection type,
    /// appended to `types`: whether a `|` and whether a `&` was seen.
    fn collect_additional_types(&mut self, types: &mut Vec<TypeRef>, last_end: &mut u32) -> (r: (
        bool,
        bool,
    ))
        requires
            old(self).wf(),
        ensures
            final(self).wf(),
            old(self).evolves_to(final(self)),
            final(types)@.len() >= old(types)@.len(),
            final(types)@.subrange(0, old(types)@.len() as int) == old(types)@,
            forall|i: int|
                old(types)@.len() <= i < final(types)@.len() ==> (#[trigger] final(types)@[i]) is Named,
            (r.0 || r.1) <==> final(types)@.len() > old(types)@.len(),
            final(types)@.len() > old(types)@.len() ==> (final(types)@.last() matches TypeRef::Named {
                span,
                ..
            } && *final(last_end) == span.end),
            final(types)@.len() == old(types)@.len() ==> *final(last_end) == *old(last_end),
            old(self).cur_kind() != TokenKind::Pipe && old(self).cur_kind() != TokenKind::Amp ==> r == (
            false,
            false,
            ) && *final(self) == *old(self) && final(types)@ == old(types)@,
    {
        let mut saw_union = false;
        let mut saw_inter = false;
        loop
            invariant
                self.wf(),
                old(self).evolves_to(self),
                types@.len() >= old(types)@.len(),
                types@.subrange(0, old(types)@.len() as int) == old(types)@,
                forall|i: int|
                    old(types)@.len() <= i < types@.len() ==> (#[trigger] types@[i]) is Named,
                (saw_union || saw_inter) <==> types@.len() > old(types)@.len(),
                types@.len() > old(types)@.len() ==> (types@.last() matches TypeRef::Named { span, .. }
                    && *last_end == span.end),
                types@.len() == old(types)@.len() ==> *last_end == *old(last_end),
                old(self).cur_kind() != TokenKind::Pipe && old(self).cur_kind() != TokenKind::Amp
                    ==> *self == *old(self) && types@ == old(types)@,
            decreases self.rem(),
        {
            let ghost it = *self;
            let before = self.cursor();
            if self.eat(TokenKind::Pipe) {
                let ghost m = *self;
                let next_qn = if self.at(TokenKind::KwArray) {
                    let token = self.bump();
                    let span = token.span;
                    Some(QualifiedName { absolute: false, parts: vec![Ident { span }], span })
                } else {
                    self.parse_qualified_name()
                };
                match next_qn {
                    Some(qn) => {
                        let span = qn.span;
                        *last_end = span.end;
                        types.push(TypeRef::Named { name: qn, span });
                        proof {
                            assert(types@.subrange(0, old(types)@.len() as int) =~= old(types)@);
                        }
                        saw_union = true;
                        proof {
                            Self::lemma_evolves_trans(&it, &m, self);
                        }
                    },
                    None => {
                        proof {
                            Self::lemma_evolves_trans(&it, &m, self);
                            Self::lemma_evolves_trans(old(self), &it, self);
                        }
                        break;
                    },
                }
            } else if self.nth_kind(0) == TokenKind::Amp && (self.nth_kind(1) == TokenKind::Ident
                || self.nth_kind(1) == TokenKind::Backslash || self.nth_kind(1)
                == TokenKind::KwArray) {
                self.bump();
                let ghost m = *self;
                let qn = if self.at(TokenKind::KwArray) {
                    let token = self.bump();
                    let span = token.span;
                    Some(QualifiedName { absolute: false, parts: vec![Ident { span }], span })
                } else {
                    self.parse_qualified_name()
                };
                match qn {
                    Some(qn) => {
                        let span = qn.span;
                        *last_end = span.end;
                        types.push(TypeRef::Named { name: qn, span });
                        proof {
                            assert(types@.subrange(0, old(types)@.len() as int) =~= old(types)@);
                        }
                        saw_inter = true;
                        proof {
                            Self::lemma_evolves_trans(&it, &m, self);
                        }
                    },
                    None => {
                        proof {
                            Self::lemma_evolves_trans(&it, &m, self);
                            Self::lemma_evolves_trans(old(self), &it, self);
                        }
                        break;
                    },
                }
            } else {
                break;
            }
            proof {
                Self::lemma_evolves_trans(old(self), &it, self);
            }
            if self.cursor() == before {
                break;
            }
            proof {
                Self::lemma_progress(&it, self);
            }
        }
        (saw_union, saw_inter)
    }
}

} // verus!
