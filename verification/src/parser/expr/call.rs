//! Names used as expressions, static member access on names, and call
//! arguments.
use crate::ast::{Arg, ClassNameRef, Expr, Ident, QualifiedName};
use crate::diagnostics::{Diagnostic, ParseDiagnosticCode};
use crate::parser::expr::sync_postfix;
use crate::parser::expr::binop::spec_is_operand;
use crate::parser::expr::binop::{lemma_pos_after_succ, lemma_term_alone_chain, pos_after};
use crate::parser::expr::{lemma_term_before_end, single_token_term, spec_ends_expr, term_alone, token_term};
use crate::parser::stmt::echo::{is_term_list, list_sep, list_term, list_term_clean, term_list, term_list_len};
use crate::parser::{following_token, next_position, spec_is_ident_like_kw, token_at, Parser};
use crate::span::Span;
use crate::token::{Token, TokenKind};
use vstd::prelude::*;

verus! {

fn sync_call_args() -> (v: Vec<TokenKind>)
    ensures
        v@ == seq![TokenKind::Comma, TokenKind::RParen, TokenKind::Semicolon],
{
    vec![TokenKind::Comma, TokenKind::RParen, TokenKind::Semicolon]
}

/// `e` is a reference to the unqualified one-part name spelled at `span`.
pub open spec fn is_simple_name_ref(e: Expr, span: Span) -> bool {
    e matches Expr::NameRef { name, span: s } && s == span && !name.absolute && name.span == span
        && name.parts@ == seq![Ident { span }]
}

/// `k` is a name: an identifier or a keyword that may serve as one.
pub open spec fn is_name_kind(k: TokenKind) -> bool {
    k == TokenKind::Ident || spec_is_ident_like_kw(k)
}

/// `id` is spelled by a name token of `toks`.
pub open spec fn is_name_token_at(toks: Seq<Token>, id: Ident) -> bool {
    exists|j: int| 0 <= j < toks.len() && is_name_kind(#[trigger] toks[j].kind) && toks[j].span == id.span
}

/// `args`, and `end`, the end of the closing `)`, are what the arguments
/// of a call whose `(` stands just before position `q` of `toks` give: none
/// for `()`, the terms themselves for `(1, $a, 3)`, and at least one
/// whenever a token other than `)` follows the `(` (but for `(...)`).
pub open spec fn args_read(toks: Seq<Token>, bytes: Seq<u8>, q: int, args: Seq<Arg>, end: u32) -> bool {
    let t1 = token_at(toks, q);
    let t2 = token_at(toks, next_position(toks, q as nat));
    &&& t1.kind == TokenKind::RParen ==> args.len() == 0 && end == t1.span.end
    &&& token_term(t1, bytes) is Some && t2.kind == TokenKind::RParen ==> args == seq![
        Arg {
            name: None,
            unpack: false,
            expr: token_term(t1, bytes)->0,
            span: token_term(t1, bytes)->0.spec_span(),
        },
    ] && end == t2.span.end
    &&& t1.kind != TokenKind::RParen && !(t1.kind == TokenKind::Ellipsis && t2.kind
        == TokenKind::RParen) ==> args.len() > 0
    &&& q >= 0 && call_term_list(toks, bytes, q as nat) ==> ({
        let n = term_list_len(toks, bytes, q as nat);
        &&& args.len() == n
        &&& forall|i: int|
            0 <= i < n ==> #[trigger] args[i] == term_arg(list_term(toks, bytes, q as nat, i as nat)->0)
        &&& end == token_at(toks, pos_after(toks, q as nat, (2 * n - 1) as nat) as int).span.end
    })
}

/// Named arguments come last: after a named argument every argument is
/// named, and none is unpacked with `...`.
pub open spec fn named_args_last(args: Seq<Arg>) -> bool {
    forall|i: int, j: int|
        0 <= i < j < args.len() && (#[trigger] args[i]).name is Some ==> (#[trigger] args[j]).name is Some
            && !args[j].unpack
}

/// Some argument of `args` is named.
pub open spec fn has_named(args: Seq<Arg>) -> bool {
    exists|i: int| 0 <= i < args.len() && (#[trigger] args[i]).name is Some
}

/// How many arguments of `args` are unnamed though a named one comes
/// before them.
pub open spec fn misplaced_args(args: Seq<Arg>) -> nat
    decreases args.len(),
{
    if args.len() == 0 {
        0
    } else {
        misplaced_args(args.drop_last()) + if args.last().name is None && has_named(
            args.drop_last(),
        ) {
            1nat
        } else {
            0nat
        }
    }
}

/// Appending `a` to `args` adds it to what `has_named` and
/// `misplaced_args` count.
pub proof fn lemma_push_arg(args: Seq<Arg>, a: Arg)
    ensures
        has_named(args.push(a)) == (has_named(args) || a.name is Some),
        misplaced_args(args.push(a)) == misplaced_args(args) + if a.name is None && has_named(args) {
            1nat
        } else {
            0nat
        },
{
    assert(args.push(a).drop_last() =~= args);
    if has_named(args) {
        let i = choose|i: int| 0 <= i < args.len() && (#[trigger] args[i]).name is Some;
        assert(args.push(a)[i] == args[i]);
    }
    if has_named(args.push(a)) && a.name is None {
        let i = choose|i: int| 0 <= i < args.push(a).len() && (#[trigger] args.push(a)[i]).name is Some;
        assert(i < args.len());
        assert(args[i] == args.push(a)[i]);
    }
    if a.name is Some {
        assert(args.push(a)[args.len() as int] == a);
    }
}

/// The unnamed argument `e`, over the span of `e`.
pub open spec fn term_arg(e: Expr) -> Arg {
    Arg { name: None, unpack: false, expr: e, span: e.spec_span() }
}

/// From position `q` stand integers or variables separated by commas and
/// then the `)` of a call: `1, $a, 3)`.
pub open spec fn call_term_list(toks: Seq<Token>, bytes: Seq<u8>, q: nat) -> bool {
    &&& is_term_list(toks, bytes, q)
    &&& list_sep(toks, q, (term_list_len(toks, bytes, q) - 1) as nat) == TokenKind::RParen
}

impl<'src> Parser<'src> {
    /// A name used as an expression: a constant, a function call, or a
    /// static member access such as `Foo::bar()`.
    pub(super) fn parse_identifier_expr(&mut self) -> (r: Expr)
        requires
            old(self).wf(),
            old(self).cur_kind() == TokenKind::Ident,
        ensures
            spec_is_operand(r),
            final(self).wf(),
            old(self).advances_to(final(self)),
            ({
                let first = old(self).cur_token();
                let next = following_token(old(self));
                &&& next.kind == TokenKind::LParen ==> (r matches Expr::FunctionCall {
                    callee,
                    span,
                    ..
                } && is_simple_name_ref(*callee, first.span) && span.start == first.span.start)
                &&& next.kind != TokenKind::LParen && next.kind != TokenKind::ColCol && next.kind
                    != TokenKind::Backslash ==> is_simple_name_ref(r, first.span)
                    && final(self).position() == next_position(
                    old(self).toks(),
                    old(self).position(),
                ) && final(self).diags() == old(self).diags()
            }),
            ({
                let toks = old(self).toks();
                let p1 = next_position(toks, old(self).position());
                let p2 = next_position(toks, p1 as nat);
                let p3 = next_position(toks, p2 as nat);
                following_token(old(self)).kind == TokenKind::ColCol && token_at(toks, p2).kind
                    == TokenKind::Ident && token_at(toks, p3).kind == TokenKind::LParen ==> (r matches Expr::StaticCall {
                    method,
                    args,
                    span,
                    ..
                } && method == (Ident { span: token_at(toks, p2).span }) && args_read(
                    toks,
                    old(self).src_bytes(),
                    next_position(toks, p3 as nat),
                    args@,
                    span.end,
                ) && span.start == old(self).cur_token().span.start) && (r matches Expr::StaticCall {
                    class,
                    ..
                } && class matches ClassNameRef::Qualified(qn) && !qn.absolute && qn.parts@ == seq![
                    Ident { span: old(self).cur_token().span },
                ] && qn.span == old(self).cur_token().span)
            }),
        decreases old(self).rem(), 300nat,
    {
        let first = self.bump();
        proof {
            self.lemma_cur_token_at();
        }
        let mut parts: Vec<Ident> = vec![Ident { span: first.span }];
        assert(parts@ == seq![Ident { span: first.span }]);
        let mut end = first.span.end;
        self.extend_qn_parts_after_first(&mut parts, &mut end);
        let qn_span = Span { start: first.span.start, end };
        let qn = QualifiedName { absolute: false, parts, span: qn_span };
        if self.at(TokenKind::ColCol) {
            let colcol_end = self.current_span().end;
            self.bump();
            proof {
                self.lemma_cur_token_at();
            }
            return self.parse_static_access_on_name(qn, qn_span, colcol_end);
        }
        if self.at(TokenKind::LParen) {
            let lp_tok = self.bump();
            let lparen_span = lp_tok.span;
            let (args, rparen_span) = self.parse_call_arguments(lparen_span);
            let span = Span { start: qn_span.start, end: rparen_span.end };
            let mut name_parts: Vec<Ident> = Vec::new();
            let mut i: usize = 0;
            while i < qn.parts.len()
                invariant
                    i <= qn.parts@.len(),
                    name_parts@ == qn.parts@.subrange(0, i as int),
                decreases qn.parts.len() - i,
            {
                name_parts.push(Ident { span: qn.parts[i].span });
                i = i + 1;
                assert(name_parts@ =~= qn.parts@.subrange(0, i as int));
            }
            assert(name_parts@ =~= qn.parts@);
            let name_ref = Expr::NameRef {
                name: QualifiedName { absolute: qn.absolute, parts: name_parts, span: qn_span },
                span: qn_span,
            };
            return Expr::FunctionCall { callee: Box::new(name_ref), args, span };
        }
        Expr::NameRef { name: qn, span: qn_span }
    }

    /// The member after `Name::`: `class`, a static property, a braced
    /// expression, or a name, possibly called.
    fn parse_static_access_on_name(&mut self, qn: QualifiedName, qn_span: Span, colcol_end: u32) -> (r:
        Expr)
        requires
            old(self).wf(),
        ensures
            spec_is_operand(r),
            final(self).wf(),
            old(self).evolves_to(final(self)),
            old(self).cur_kind() == TokenKind::KwClass ==> r == (Expr::ClassConstFetch {
                class_name: ClassNameRef::Qualified(qn),
                constant: Ident { span: old(self).cur_token().span },
                span: Span { start: qn_span.start, end: old(self).cur_token().span.end },
            }) && final(self).diags() == old(self).diags(),
            old(self).cur_kind() == TokenKind::VarIdent ==> r == (Expr::StaticPropertyFetch {
                class_name: ClassNameRef::Qualified(qn),
                property: Ident { span: old(self).cur_token().span },
                span: Span { start: qn_span.start, end: old(self).cur_token().span.end },
            }) && final(self).diags() == old(self).diags(),
            (old(self).cur_kind() == TokenKind::Ident || spec_is_ident_like_kw(old(self).cur_kind()))
                && old(self).cur_kind() != TokenKind::KwClass ==> (r matches Expr::StaticCall {
                class,
                method,
                span,
                ..
            } && class == ClassNameRef::Qualified(qn) && method == (Ident {
                span: old(self).cur_token().span,
            }) && span.start == qn_span.start) || r == (Expr::ClassConstFetch {
                class_name: ClassNameRef::Qualified(qn),
                constant: Ident { span: old(self).cur_token().span },
                span: Span { start: qn_span.start, end: old(self).cur_token().span.end },
            }),
            (old(self).cur_kind() == TokenKind::Ident || spec_is_ident_like_kw(old(self).cur_kind()))
                && old(self).cur_kind() != TokenKind::KwClass && following_token(old(self)).kind
                == TokenKind::LParen ==> (r matches Expr::StaticCall { args, span, .. } && args_read(
                old(self).toks(),
                old(self).src_bytes(),
                next_position(
                    old(self).toks(),
                    next_position(old(self).toks(), old(self).position()) as nat,
                ),
                args@,
                span.end,
            )),
            !(old(self).cur_kind() == TokenKind::KwClass || old(self).cur_kind() == TokenKind::VarIdent
                || old(self).cur_kind() == TokenKind::Dollar || old(self).cur_kind() == TokenKind::LBrace
                || old(self).cur_kind() == TokenKind::Ident || spec_is_ident_like_kw(old(self).cur_kind()))
                ==> r == (Expr::Error { span: qn_span }) && final(self).diags().len() == old(self).diags().len()
                + 1,
        decreases old(self).rem(), 290nat,
    {
        let class_name = ClassNameRef::Qualified(qn);
        if self.at(TokenKind::KwClass) {
            let class_token = self.bump();
            let span = Span { start: qn_span.start, end: class_token.span.end };
            return Expr::ClassConstFetch {
                class_name,
                constant: Ident { span: class_token.span },
                span,
            };
        }
        if self.at(TokenKind::VarIdent) {
            let var_token = self.bump();
            let span = Span { start: qn_span.start, end: var_token.span.end };
            return Expr::StaticPropertyFetch {
                class_name,
                property: Ident { span: var_token.span },
                span,
            };
        }
        if self.at(TokenKind::Dollar) {
            let dollar_end = self.current_span().end;
            self.bump();
            if self.at(TokenKind::LBrace) {
                let lbrace_end = self.current_span().end;
                self.bump();
                let sync = vec![TokenKind::RBrace, TokenKind::Semicolon];
                let inner = self.parse_braced_expr_or_error(lbrace_end, qn_span.start, &sync);
                let span = Span { start: qn_span.start, end: inner.span().end };
                return Expr::StaticPropertyFetch {
                    class_name,
                    property: Ident { span: inner.span() },
                    span,
                };
            }
            if let Some(prop_tok) = self.expect_ident() {
                let span = Span { start: qn_span.start, end: prop_tok.span.end };
                return Expr::StaticPropertyFetch {
                    class_name,
                    property: Ident { span: prop_tok.span },
                    span,
                };
            }
            let sync = sync_postfix();
            self.error_and_recover(
                Diagnostic::error_from_code(ParseDiagnosticCode::ExpectedIdent, Span::at(dollar_end)),
                &sync,
            );
            return Expr::Error { span: qn_span };
        }
        if self.at(TokenKind::LBrace) {
            let lbrace_end = self.current_span().end;
            self.bump();
            let sync = vec![TokenKind::RBrace, TokenKind::Semicolon];
            let inner = self.parse_braced_expr_or_error(lbrace_end, qn_span.start, &sync);
            let method_span = inner.span();
            return self.build_static_named_member_or_call(class_name, method_span, qn_span.start);
        }
        if let Some(id_tok) = self.expect_ident() {
            let id_span = id_tok.span;
            proof {
                self.lemma_cur_token_at();
            }
            return self.build_static_named_member_or_call(class_name, id_span, qn_span.start);
        }
        let sync = sync_postfix();
        let code = ParseDiagnosticCode::expected_one_of(
            vec![
                ParseDiagnosticCode::ExpectedIdent,
                ParseDiagnosticCode::expected_tokens(vec![TokenKind::KwClass, TokenKind::Dollar]),
            ],
        );
        self.error_and_recover(Diagnostic::error_from_code(code, Span::at(colcol_end)), &sync);
        Expr::Error { span: qn_span }
    }

    /// `Class::name` or, when `(` follows, `Class::name(...)`, both starting
    /// at `qn_start`.
    fn build_static_named_member_or_call(
        &mut self,
        class_name: ClassNameRef,
        method_span: Span,
        qn_start: u32,
    ) -> (r: Expr)
        requires
            old(self).wf(),
        ensures
            spec_is_operand(r),
            final(self).wf(),
            old(self).evolves_to(final(self)),
            old(self).cur_kind() == TokenKind::LParen ==> (r matches Expr::StaticCall {
                class,
                method,
                span,
                ..
            } && class == class_name && method == (Ident { span: method_span }) && span.start
                == qn_start),
            old(self).cur_kind() == TokenKind::LParen ==> (r matches Expr::StaticCall { args, span, .. }
                && args_read(
                old(self).toks(),
                old(self).src_bytes(),
                next_position(old(self).toks(), old(self).position()),
                args@,
                span.end,
            )),
            old(self).cur_kind() != TokenKind::LParen ==> r == (Expr::ClassConstFetch {
                class_name,
                constant: Ident { span: method_span },
                span: Span { start: qn_start, end: method_span.end },
            }) && *final(self) == *old(self),
        decreases old(self).rem(), 280nat,
    {
        if self.at(TokenKind::LParen) {
            let lp_tok = self.bump();
            let (args, rp) = self.parse_call_arguments(lp_tok.span);
            let span = Span { start: qn_start, end: rp.end };
            Expr::StaticCall { class: class_name, method: Ident { span: method_span }, args, span }
        } else {
            let span = Span { start: qn_start, end: method_span.end };
            Expr::ClassConstFetch { class_name, constant: Ident { span: method_span }, span }
        }
    }

    /// The arguments of a call after its `(`, and the span of the closing
    /// `)` (the `(` when it is missing).
    #[verifier::spinoff_prover]
    #[verifier::rlimit(80)]
    pub(super) fn parse_call_arguments(&mut self, lparen_span: Span) -> (r: (Vec<Arg>, Span))
        requires
            old(self).wf(),
        ensures
            final(self).wf(),
            old(self).evolves_to(final(self)),
            old(self).cur_kind() == TokenKind::RParen ==> r.0@.len() == 0 && r.1
                == old(self).cur_token().span && old(self).same_but_cursor(final(self))
                && final(self).position() == next_position(old(self).toks(), old(self).position()),
            final(self).diags().len() == old(self).diags().len() ==> named_args_last(r.0@),
            old(self).cur_kind() != TokenKind::RParen && !(old(self).cur_kind() == TokenKind::Ellipsis
                && following_token(old(self)).kind == TokenKind::RParen) ==> r.0@.len() > 0,
            term_alone(old(self)) && following_token(old(self)).kind == TokenKind::RParen ==> r.0@
                == seq![
                Arg {
                    name: None,
                    unpack: false,
                    expr: single_token_term(old(self))->0,
                    span: single_token_term(old(self))->0.spec_span(),
                },
            ] && r.1 == following_token(old(self)).span,
            args_read(old(self).toks(), old(self).src_bytes(), old(self).position() as int, r.0@, r.1.end),
            final(self).diags().len() >= old(self).diags().len() + misplaced_args(r.0@),
            ({
                let toks = old(self).toks();
                let bytes = old(self).src_bytes();
                let q = old(self).position();
                let n = term_list_len(toks, bytes, q);
                call_term_list(toks, bytes, q) ==> r.0@.len() == n && (forall|i: int|
                    0 <= i < n ==> #[trigger] r.0@[i] == term_arg(list_term(toks, bytes, q, i as nat)->0))
                    && r.1 == token_at(toks, pos_after(toks, q, (2 * n - 1) as nat) as int).span
                    && ((forall|i: nat| i < n ==> #[trigger] list_term_clean(toks, bytes, q, i))
                    ==> final(self).diags() == old(self).diags())
            }),
        decreases old(self).rem(), 620nat,
    {
        let mut args: Vec<Arg> = Vec::new();
        let mut saw_named = false;
        let mut had_error = false;
        proof {
            self.lemma_cur_token_at();
            let toks = old(self).toks();
            let bytes = old(self).src_bytes();
            let q = old(self).position();
            if call_term_list(toks, bytes, q) {
                assert(term_list(toks, bytes, q, term_list_len(toks, bytes, q)));
                assert(list_term(toks, bytes, q, 0) is Some);
                assert(self.cur_kind() != TokenKind::RParen);
            }
        }
        if !self.at(TokenKind::RParen) {
            loop
                invariant_except_break
                    args@.len() > 0 || *self == *old(self),
                    call_term_list(old(self).toks(), old(self).src_bytes(), old(self).position()) ==> ({
                        let toks = old(self).toks();
                        let bytes = old(self).src_bytes();
                        let q = old(self).position();
                        &&& args@.len() < term_list_len(toks, bytes, q)
                        &&& self.position() == pos_after(toks, q, 2 * args@.len())
                        &&& forall|i: int|
                            0 <= i < args@.len() ==> #[trigger] args@[i] == term_arg(
                                list_term(toks, bytes, q, i as nat)->0,
                            )
                        &&& !saw_named && !had_error
                        &&& ((forall|i: nat|
                            i < term_list_len(toks, bytes, q) ==> #[trigger] list_term_clean(toks, bytes, q, i))
                            ==> self.diags() == old(self).diags())
                    }),
                    term_alone(old(self)) && following_token(old(self)).kind == TokenKind::RParen
                        ==> *self == *old(self) && args@.len() == 0 && !saw_named && !had_error,
                invariant
                    self.wf(),
                    old(self).evolves_to(self),
                    !saw_named ==> forall|i: int| 0 <= i < args@.len() ==> (#[trigger] args@[i]).name is None,
                    self.diags().len() == old(self).diags().len() ==> named_args_last(args@),
                    saw_named == has_named(args@),
                    self.diags().len() >= old(self).diags().len() + misplaced_args(args@),
                ensures
                    self.diags().len() >= old(self).diags().len() + misplaced_args(args@),
                    call_term_list(old(self).toks(), old(self).src_bytes(), old(self).position()) ==> ({
                        let toks = old(self).toks();
                        let bytes = old(self).src_bytes();
                        let q = old(self).position();
                        &&& args@.len() == term_list_len(toks, bytes, q)
                        &&& self.position() == pos_after(toks, q, (2 * args@.len() - 1) as nat)
                        &&& forall|i: int|
                            0 <= i < args@.len() ==> #[trigger] args@[i] == term_arg(
                                list_term(toks, bytes, q, i as nat)->0,
                            )
                        &&& !had_error
                        &&& ((forall|i: nat|
                            i < term_list_len(toks, bytes, q) ==> #[trigger] list_term_clean(toks, bytes, q, i))
                            ==> self.diags() == old(self).diags())
                    }),
                    self.wf(),
                    old(self).evolves_to(self),
                    self.diags().len() == old(self).diags().len() ==> named_args_last(args@),
                    args@.len() > 0 || (old(self).cur_kind() == TokenKind::Ellipsis
                        && following_token(old(self)).kind == TokenKind::RParen),
                    term_alone(old(self)) && following_token(old(self)).kind == TokenKind::RParen
                        ==> args@ == seq![
                        Arg {
                            name: None,
                            unpack: false,
                            expr: single_token_term(old(self))->0,
                            span: single_token_term(old(self))->0.spec_span(),
                        },
                    ] && self.cur_token() == following_token(old(self)) && !had_error,
                decreases self.rem(),
            {
                let ghost it = *self;
                let ghost toks = old(self).toks();
                let ghost bytes = old(self).src_bytes();
                let ghost q = old(self).position();
                let ghost n = term_list_len(toks, bytes, q);
                let ghost m = args@.len();
                proof {
                    it.lemma_cur_token_at();
                    Self::lemma_same_source_bytes(old(self), &it);
                    if call_term_list(toks, bytes, q) {
                        assert(term_list(toks, bytes, q, n));
                        assert(list_term(toks, bytes, q, m) is Some);
                        lemma_pos_after_succ(toks, q, 2 * m);
                        assert(following_token(&it) == token_at(toks, pos_after(toks, q, 2 * m + 1) as int));
                        assert(spec_ends_expr(list_sep(toks, q, m))) by {
                            if m + 1 < n {
                                assert(list_sep(toks, q, m) == TokenKind::Comma);
                            }
                        }
                        lemma_term_before_end(&it);
                        if forall|i: nat| i < n ==> #[trigger] list_term_clean(toks, bytes, q, i) {
                            assert(list_term_clean(toks, bytes, q, m));
                            lemma_term_alone_chain(&it);
                        }
                    }
                }
                let arg_start = self.current_span().start;
                if self.at(TokenKind::Ellipsis) {
                    let ell = self.bump();
                    proof {
                        self.lemma_cur_token_at();
                    }
                    if args.len() == 0 && !saw_named && self.at(TokenKind::RParen) {
                        break;
                    }
                    if saw_named {
                        self.error(
                            Diagnostic::error_from_code(
                                ParseDiagnosticCode::VariadicAfterNamedArg,
                                ell.span,
                            ),
                        );
                    }
                    if let Some(e) = self.parse_expr() {
                        let span = Span { start: arg_start, end: e.span().end };
                        let ghost before_push = args@;
                        args.push(Arg { name: None, unpack: true, expr: e, span });
                        proof {
                            lemma_push_arg(before_push, args@.last());
                            assert(args@ == before_push.push(args@.last()));
                        }
                    } else {
                        let sync = sync_call_args();
                        self.error_and_recover(
                            Diagnostic::error_from_code(
                                ParseDiagnosticCode::ExpectedExpression,
                                Span::at(ell.span.end),
                            ),
                            &sync,
                        );
                        let _ = self.eat(TokenKind::RParen);
                        had_error = true;
                        let span = Span { start: arg_start, end: ell.span.end };
                        let ghost before_push = args@;
                        args.push(
                            Arg { name: None, unpack: true, expr: Expr::Error { span }, span },
                        );
                        proof {
                            lemma_push_arg(before_push, args@.last());
                            assert(args@ == before_push.push(args@.last()));
                        }
                        break;
                    }
                } else if self.at(TokenKind::Ident) && self.at_nth(1, TokenKind::Colon) {
                    let name_token = self.bump();
                    let colon = self.bump();
                    saw_named = true;
                    if let Some(e) = self.parse_expr() {
                        let span = Span { start: arg_start, end: e.span().end };
                        let ghost before_push = args@;
                        args.push(
                            Arg {
                                name: Some(Ident { span: name_token.span }),
                                unpack: false,
                                expr: e,
                                span,
                            },
                        );
                        proof {
                            lemma_push_arg(before_push, args@.last());
                            assert(args@ == before_push.push(args@.last()));
                        }
                    } else {
                        let sync = sync_call_args();
                        self.error_and_recover(
                            Diagnostic::error_from_code(
                                ParseDiagnosticCode::ExpectedExpression,
                                Span::at(colon.span.end),
                            ),
                            &sync,
                        );
                        let _ = self.eat(TokenKind::RParen);
                        had_error = true;
                        let span = Span { start: arg_start, end: colon.span.end };
                        let ghost before_push = args@;
                        args.push(
                            Arg {
                                name: Some(Ident { span: name_token.span }),
                                unpack: false,
                                expr: Expr::Error { span },
                                span,
                            },
                        );
                        proof {
                            lemma_push_arg(before_push, args@.last());
                            assert(args@ == before_push.push(args@.last()));
                        }
                        break;
                    }
                } else if let Some(e) = self.parse_expr() {
                    if saw_named {
                        let sp = Span { start: arg_start, end: e.span().end };
                        self.error(
                            Diagnostic::error_from_code(
                                ParseDiagnosticCode::PositionalAfterNamedArg,
                                sp,
                            ),
                        );
                    }
                    let span = Span { start: arg_start, end: e.span().end };
                    let ghost args_before = args@;
                    let ghost before_push = args@;
                    args.push(Arg { name: None, unpack: false, expr: e, span });
                    proof {
                        lemma_push_arg(before_push, args@.last());
                        assert(args@ == before_push.push(args@.last()));
                    }
                    proof {
                        if call_term_list(toks, bytes, q) {
                            assert(e == list_term(toks, bytes, q, m)->0);
                            assert(args@[m as int] == term_arg(list_term(toks, bytes, q, m)->0));
                            assert forall|i: int| 0 <= i < args@.len() implies #[trigger] args@[i]
                                == term_arg(list_term(toks, bytes, q, i as nat)->0) by {
                                if i < m {
                                    assert(args@[i] == before_push[i]);
                                }
                            }
                            assert(self.position() == pos_after(toks, q, 2 * m + 1));
                        }
                    }
                    proof {
                        self.lemma_cur_token_at();
                        if term_alone(old(self)) && following_token(old(self)).kind == TokenKind::RParen {
                            assert(args_before.len() == 0);
                            assert(e == single_token_term(old(self))->0);
                            assert(span == single_token_term(old(self))->0.spec_span());
                            assert(args@ =~= seq![
                                Arg {
                                    name: None,
                                    unpack: false,
                                    expr: single_token_term(old(self))->0,
                                    span: single_token_term(old(self))->0.spec_span(),
                                },
                            ]);
                            assert(self.cur_token() == following_token(old(self)));
                        }
                    }
                } else {
                    let sync = sync_call_args();
                    self.error_and_recover(
                        Diagnostic::error_from_code(
                            ParseDiagnosticCode::ExpectedExpression,
                            Span::at(arg_start),
                        ),
                        &sync,
                    );
                    let _ = self.eat(TokenKind::RParen);
                    had_error = true;
                    let span = Span::at(arg_start);
                    let ghost before_push = args@;
                    args.push(Arg { name: None, unpack: false, expr: Expr::Error { span }, span });
                    proof {
                        lemma_push_arg(before_push, args@.last());
                        assert(args@ == before_push.push(args@.last()));
                    }
                    break;
                }
                let ghost s_c = *self;
                proof {
                    s_c.lemma_cur_token_at();
                }
                if self.eat(TokenKind::Comma) {
                    proof {
                        self.lemma_cur_token_at();
                        if call_term_list(toks, bytes, q) {
                            assert(term_list(toks, bytes, q, n));
                            assert(m + 1 < n) by {
                                if m + 1 >= n {
                                    assert((2 * (n - 1) + 1) as nat == 2 * m + 1);
                                    assert(list_sep(toks, q, m) == TokenKind::RParen);
                                }
                            }
                            lemma_pos_after_succ(toks, q, 2 * m + 1);
                            assert(self.position() == pos_after(toks, q, 2 * (m + 1)));
                            assert(list_term(toks, bytes, q, (m + 1) as nat) is Some);
                        }
                    }
                    if self.at(TokenKind::RParen) {
                        break;
                    }
                    proof {
                        if call_term_list(toks, bytes, q) {
                            assert(self.position() == pos_after(toks, q, 2 * args@.len()));
                            assert(forall|i: int|
                                0 <= i < args@.len() ==> #[trigger] args@[i] == term_arg(
                                    list_term(toks, bytes, q, i as nat)->0,
                                ));
                        }
                    }
                    continue;
                }
                proof {
                    if call_term_list(toks, bytes, q) {
                        assert(term_list(toks, bytes, q, n));
                        assert(m + 1 == n) by {
                            if m + 1 < n {
                                assert(list_sep(toks, q, m) == TokenKind::Comma);
                            }
                        }
                        assert((2 * (m + 1) - 1) as nat == 2 * m + 1);
                    }
                }
                break;
            }
        }
        proof {
            self.lemma_cur_token_at();
        }
        let rparen_span = if let Some(rp_tok) = self.expect(TokenKind::RParen) {
            rp_tok.span
        } else if had_error {
            lparen_span
        } else {
            let last_end = if args.len() > 0 {
                args[args.len() - 1].span.end
            } else {
                lparen_span.end
            };
            let sync = sync_postfix();
            self.error_and_recover(
                Diagnostic::error_from_code(
                    ParseDiagnosticCode::expected_token(TokenKind::RParen),
                    Span::at(last_end),
                ),
                &sync,
            );
            lparen_span
        };
        proof {
            let toks = old(self).toks();
            let bytes = old(self).src_bytes();
            let q = old(self).position();
            let n = term_list_len(toks, bytes, q);
            if call_term_list(toks, bytes, q) {
                assert(term_list(toks, bytes, q, n));
                assert(rparen_span == token_at(toks, pos_after(toks, q, (2 * n - 1) as nat) as int).span);
                assert(args@.len() == n);
            }
        }
        (args, rparen_span)
    }

    /// The rest of a qualified name after its first part: `\part` as long as
    /// they follow. `end` becomes the end of what was consumed.
    pub(crate) fn extend_qn_parts_after_first(&mut self, parts: &mut Vec<Ident>, end: &mut u32)
        requires
            old(self).wf(),
        ensures
            final(self).wf(),
            old(self).evolves_to(final(self)),
            old(parts)@.len() <= final(parts)@.len(),
            final(parts)@.subrange(0, old(parts)@.len() as int) == old(parts)@,
            old(self).cur_kind() != TokenKind::Backslash ==> *final(self) == *old(self)
                && final(parts)@ == old(parts)@ && *final(end) == *old(end),
            old(self).cur_kind() == TokenKind::Backslash ==> old(self).advances_to(final(self)),
            final(self).cur_kind() != TokenKind::Backslash || final(self).diags().len() > old(
                self,
            ).diags().len(),
            forall|i: int|
                old(parts)@.len() <= i < final(parts)@.len() ==> is_name_token_at(
                    old(self).toks(),
                    #[trigger] final(parts)@[i],
                ),
            old(self).cur_kind() == TokenKind::Backslash && is_name_kind(following_token(old(self)).kind)
                ==> final(parts)@.len() > old(parts)@.len() && final(parts)@[old(parts)@.len() as int]
                == (Ident { span: following_token(old(self)).span }),
    {
        if !self.at(TokenKind::Backslash) {
            return;
        }
        loop
            invariant
                self.wf(),
                old(self).evolves_to(self),
                old(parts)@.len() <= parts@.len(),
                parts@.subrange(0, old(parts)@.len() as int) == old(parts)@,
                *self == *old(self) ==> parts@ == old(parts)@,
                *self != *old(self) ==> old(self).advances_to(self),
                old(self).cur_kind() == TokenKind::Backslash,
                forall|i: int|
                    old(parts)@.len() <= i < parts@.len() ==> is_name_token_at(
                        old(self).toks(),
                        #[trigger] parts@[i],
                    ),
                *self != *old(self) && is_name_kind(following_token(old(self)).kind)
                    ==> parts@.len() > old(parts)@.len() && parts@[old(parts)@.len() as int]
                    == (Ident { span: following_token(old(self)).span }),
            ensures
                self.wf(),
                old(self).evolves_to(self),
                old(parts)@.len() <= parts@.len(),
                parts@.subrange(0, old(parts)@.len() as int) == old(parts)@,
                old(self).advances_to(self),
                self.cur_kind() != TokenKind::Backslash || self.diags().len() > old(self).diags().len(),
                forall|i: int|
                    old(parts)@.len() <= i < parts@.len() ==> is_name_token_at(
                        old(self).toks(),
                        #[trigger] parts@[i],
                    ),
                is_name_kind(following_token(old(self)).kind) ==> parts@.len() > old(parts)@.len()
                    && parts@[old(parts)@.len() as int] == (Ident { span: following_token(old(self)).span }),
            decreases self.rem(),
        {
            if !self.at(TokenKind::Backslash) {
                break;
            }
            let backslash = self.bump();
            proof {
                self.lemma_cur_token_at();
                self.lemma_cur_token_in_toks();
            }
            if let Some(id) = self.expect_ident_or_err(end) {
                *end = id.span.end;
                parts.push(Ident { span: id.span });
                proof {
                    assert(parts@.subrange(0, old(parts)@.len() as int) =~= old(parts)@);
                }
            } else {
                *end = backslash.span.end;
                break;
            }
        }
    }

    /// An expression inside `{...}` after the `{`, with its `}`; on failure
    /// an error node at `error_span_start` after skipping to `sync`.
    pub(super) fn parse_braced_expr_or_error(
        &mut self,
        lbrace_end: u32,
        error_span_start: u32,
        sync: &[TokenKind],
    ) -> (r: Expr)
        requires
            old(self).wf(),
        ensures
            final(self).wf(),
            old(self).evolves_to(final(self)),
            term_alone(old(self)) ==> r == single_token_term(old(self))->0,
            term_alone(old(self)) && following_token(old(self)).kind == TokenKind::RBrace ==> final(self).position()
                == next_position(
                old(self).toks(),
                next_position(old(self).toks(), old(self).position()) as nat,
            ),
        decreases old(self).rem(), 620nat,
    {
        match self.parse_expr() {
            Some(e) => {
                proof {
                    self.lemma_cur_token_at();
                }
                let mut expr_end = e.span().end;
                self.expect_or_err(TokenKind::RBrace, &mut expr_end);
                e
            },
            None => {
                self.error_and_recover(
                    Diagnostic::error_from_code(
                        ParseDiagnosticCode::ExpectedExpression,
                        Span::at(lbrace_end),
                    ),
                    sync,
                );
                let _ = self.eat(TokenKind::RBrace);
                Expr::Error { span: Span::at(error_span_start) }
            },
        }
    }
}

} // verus!
