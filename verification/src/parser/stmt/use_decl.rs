//! `use` imports, including group imports `use A\{B, C as D};`.
use crate::ast::{Ident, QualifiedName, Stmt, UseImport, UseKind};
use crate::diagnostics::ParseDiagnosticCode;
use crate::parser::{following_token, next_position, spec_is_ident_like_kw, token_at, Parser};
use crate::span::Span;
use crate::token::{Token, TokenKind};
use vstd::prelude::*;

verus! {

/// `u` is an item of a group import under `prefix`: its name is `prefix`
/// followed by at least one more part, its span is that of its name, which
/// starts where `prefix` does, and its kind is `default_kind` or the
/// `function` or `const` written before it.
pub open spec fn group_import_of(u: UseImport, prefix: QualifiedName, default_kind: UseKind) -> bool {
    &&& u.full_name.absolute == prefix.absolute
    &&& u.full_name.parts@.len() > prefix.parts@.len()
    &&& u.full_name.parts@.subrange(0, prefix.parts@.len() as int) == prefix.parts@
    &&& u.full_name.span.start == prefix.span.start
    &&& u.span == u.full_name.span
    &&& (u.kind == default_kind || u.kind == UseKind::Function || u.kind == UseKind::Const)
}

/// The kind of import that the token after `use` makes of its imports:
/// `function` and `const` name theirs; any other token leaves them normal.
pub open spec fn use_kind_of(k: TokenKind) -> UseKind {
    if k == TokenKind::KwFunction {
        UseKind::Function
    } else if k == TokenKind::KwConst {
        UseKind::Const
    } else {
        UseKind::Normal
    }
}

/// The name part `id` comes right after a token of kind `k` in `toks`.
pub open spec fn led_by(toks: Seq<Token>, id: Ident, k: TokenKind) -> bool {
    exists|j: int|
        0 <= j < toks.len() && (#[trigger] toks[j]).kind == k && token_at(
            toks,
            next_position(toks, j as nat),
        ).span == id.span
}

/// The kind of `u` is written at one of its name parts: a function import
/// has a part right after `function`, a constant import one right after
/// `const`.
pub open spec fn kind_written(toks: Seq<Token>, u: UseImport) -> bool {
    ||| u.kind == UseKind::Function && exists|p: int|
        0 <= p < u.full_name.parts@.len() && led_by(toks, #[trigger] u.full_name.parts@[p], TokenKind::KwFunction)
    ||| u.kind == UseKind::Const && exists|p: int|
        0 <= p < u.full_name.parts@.len() && led_by(toks, #[trigger] u.full_name.parts@[p], TokenKind::KwConst)
}

/// The position of the first name of the `use` at the cursor of `p`, past
/// its `function` or `const` if it has one.
pub open spec fn use_name_pos(p: &Parser) -> nat {
    let toks = p.toks();
    let q1 = next_position(toks, p.position()) as nat;
    let k = token_at(toks, q1 as int).kind;
    if k == TokenKind::KwFunction || k == TokenKind::KwConst {
        next_position(toks, q1) as nat
    } else {
        q1
    }
}

/// The `use` at the cursor of `p` starts with an import of a one-part name,
/// with an optional `as Alias`, and no group.
pub open spec fn simple_use(p: &Parser) -> bool {
    let toks = p.toks();
    let qn = use_name_pos(p);
    let after = token_at(toks, next_position(toks, qn));
    let alias = token_at(toks, next_position(toks, next_position(toks, qn) as nat));
    &&& token_at(toks, qn as int).kind == TokenKind::Ident
    &&& after.kind != TokenKind::Backslash && after.kind != TokenKind::LBrace
    &&& after.kind == TokenKind::KwAs ==> alias.kind == TokenKind::Ident
}

/// `u` imports the one-part name of the simple `use` at the cursor of `p`,
/// under its alias if one is written.
pub open spec fn is_simple_use_import(p: &Parser, u: UseImport) -> bool {
    let toks = p.toks();
    let qn = use_name_pos(p);
    let after = token_at(toks, next_position(toks, qn));
    let alias = token_at(toks, next_position(toks, next_position(toks, qn) as nat));
    &&& !u.full_name.absolute
    &&& u.full_name.parts@ == seq![Ident { span: token_at(toks, qn as int).span }]
    &&& u.alias == (if after.kind == TokenKind::KwAs {
        Some(Ident { span: alias.span })
    } else {
        None
    })
}

/// The position of the name of the group member at the cursor of `p`,
/// after its `function` or `const` if it has one.
pub open spec fn member_name_pos(p: &Parser) -> int {
    if p.cur_kind() == TokenKind::KwFunction || p.cur_kind() == TokenKind::KwConst {
        next_position(p.toks(), p.position())
    } else {
        p.position() as int
    }
}

/// At the cursor of `p` stands a group member of one part: an optional
/// `function` or `const`, a name and an optional `as Alias`.
pub open spec fn simple_group_member(p: &Parser) -> bool {
    let toks = p.toks();
    let qn = member_name_pos(p);
    let after = token_at(toks, next_position(toks, qn as nat));
    let alias = token_at(toks, next_position(toks, next_position(toks, qn as nat) as nat));
    &&& token_at(toks, qn).kind == TokenKind::Ident
    &&& after.kind != TokenKind::Backslash
    &&& after.kind == TokenKind::KwAs ==> alias.kind == TokenKind::Ident
}

/// `u` is the one-part group member at the cursor of `p` under `prefix`:
/// its kind (`default_kind` unless `function` or `const` is written), its
/// full name and its alias.
pub open spec fn is_simple_group_member(p: &Parser, prefix: QualifiedName, default_kind: UseKind, u: UseImport) -> bool {
    let toks = p.toks();
    let qn = member_name_pos(p);
    let after = token_at(toks, next_position(toks, qn as nat));
    let alias = token_at(toks, next_position(toks, next_position(toks, qn as nat) as nat));
    &&& u.kind == (if p.cur_kind() == TokenKind::KwFunction {
        UseKind::Function
    } else if p.cur_kind() == TokenKind::KwConst {
        UseKind::Const
    } else {
        default_kind
    })
    &&& u.full_name.parts@ == prefix.parts@.push(Ident { span: token_at(toks, qn).span })
    &&& u.alias == (if after.kind == TokenKind::KwAs {
        Some(Ident { span: alias.span })
    } else {
        None
    })
}

impl<'src> Parser<'src> {
    /// `use [function|const] A\B [as C], ...;` and the group form
    /// `use A\{B, function c, const D as E};`.
    pub(super) fn parse_use_stmt(&mut self) -> (r: Option<Stmt>)
        requires
            old(self).wf(),
            old(self).cur_kind() == TokenKind::KwUse,
        ensures
            final(self).wf(),
            old(self).advances_to(final(self)),
            r matches Some(Stmt::Use { .. }),
            r matches Some(s) && s.spec_span().start == old(self).cur_token().span.start,
            following_token(old(self)).kind == TokenKind::Ident && final(self).diags().len() == old(
                self,
            ).diags().len() ==> (r matches Some(Stmt::Use { imports, .. }) && imports@.len() > 0),
            r matches Some(Stmt::Use { imports, .. }) && forall|i: int|
                0 <= i < imports@.len() ==> (#[trigger] imports@[i]).kind == use_kind_of(
                    following_token(old(self)).kind,
                ) || kind_written(old(self).toks(), imports@[i]),
            following_token(old(self)).kind == TokenKind::KwConst ==> (r matches Some(
                Stmt::Use { imports, .. },
            ) && forall|i: int|
                0 <= i < imports@.len() ==> (#[trigger] imports@[i]).kind == UseKind::Const
                    || kind_written(old(self).toks(), imports@[i])),
            following_token(old(self)).kind == TokenKind::KwFunction ==> (r matches Some(
                Stmt::Use { imports, .. },
            ) && forall|i: int|
                0 <= i < imports@.len() ==> (#[trigger] imports@[i]).kind == UseKind::Function
                    || kind_written(old(self).toks(), imports@[i])),
            following_token(old(self)).kind != TokenKind::KwConst && following_token(old(self)).kind
                != TokenKind::KwFunction ==> (r matches Some(Stmt::Use { imports, .. }) && forall|i: int|
                0 <= i < imports@.len() ==> (#[trigger] imports@[i]).kind == UseKind::Normal
                    || kind_written(old(self).toks(), imports@[i])),
            simple_use(old(self)) ==> (r matches Some(Stmt::Use { imports, .. }) && imports@.len() > 0
                && is_simple_use_import(old(self), imports@[0])),
    {
        let use_token = self.bump();
        let start_span = use_token.span;
        let mut import_kind = UseKind::Normal;
        let ghost s1 = *self;
        if self.at(TokenKind::KwFunction) {
            self.bump();
            import_kind = UseKind::Function;
        } else if self.at(TokenKind::KwConst) {
            self.bump();
            import_kind = UseKind::Const;
        }
        proof {
            Self::lemma_evolves_trans(old(self), &s1, self);
            s1.lemma_cur_token_at();
            self.lemma_cur_token_at();
        }
        let ghost s1b = *self;
        proof {
            assert(s1b.position() == use_name_pos(old(self)));
        }
        let mut imports: Vec<UseImport> = Vec::new();
        loop
            invariant
                self.wf(),
                old(self).advances_to(self),
                start_span == old(self).cur_token().span,
                s1.cur_token() == following_token(old(self)),
                following_token(old(self)).kind == TokenKind::Ident ==> imports@.len() > 0 || *self == s1,
                import_kind == use_kind_of(following_token(old(self)).kind),
                self.toks() == old(self).toks(),
                forall|i: int|
                    0 <= i < imports@.len() ==> (#[trigger] imports@[i]).kind == import_kind
                        || kind_written(old(self).toks(), imports@[i]),
                simple_use(old(self)) ==> (*self == s1b && imports@.len() == 0) || (imports@.len() > 0
                    && is_simple_use_import(old(self), imports@[0])),
                s1b.position() == use_name_pos(old(self)),
                s1b.toks() == old(self).toks(),
            ensures
                self.wf(),
                old(self).advances_to(self),
                start_span == old(self).cur_token().span,
                following_token(old(self)).kind == TokenKind::Ident ==> imports@.len() > 0,
                import_kind == use_kind_of(following_token(old(self)).kind),
                forall|i: int|
                    0 <= i < imports@.len() ==> (#[trigger] imports@[i]).kind == import_kind
                        || kind_written(old(self).toks(), imports@[i]),
                simple_use(old(self)) ==> imports@.len() > 0 && is_simple_use_import(old(self), imports@[0]),
            decreases self.rem(),
        {
            let ghost it = *self;
            proof {
                it.lemma_cur_token_at();
                Self::lemma_same_source_bytes(old(self), &it);
            }
            let qn = match self.parse_qualified_name() {
                Some(q) => q,
                None => {
                    let sync = vec![TokenKind::Comma, TokenKind::Semicolon];
                    let ghost s2 = *self;
                    self.recover_to_any(&sync);
                    let ghost s3 = *self;
                    if self.eat(TokenKind::Comma) {
                        proof {
                            Self::lemma_evolves_trans(&s2, &s3, self);
                            Self::lemma_evolves_trans(&it, &s2, self);
                            Self::lemma_evolves_trans(old(self), &it, self);
                        }
                        continue;
                    }
                    proof {
                        Self::lemma_evolves_trans(&it, &s2, self);
                        Self::lemma_evolves_trans(old(self), &it, self);
                    }
                    break;
                },
            };
            let mut last_end = qn.span.end;
            if self.at(TokenKind::LBrace) {
                self.bump();
                let ghost s4 = *self;
                let ghost before = imports@;
                self.parse_group_use_items(&qn, import_kind, &mut imports);
                proof {
                    assert(s4.toks() == old(self).toks());
                    assert forall|i: int| 0 <= i < imports@.len() implies (#[trigger] imports@[i]).kind
                        == import_kind || kind_written(old(self).toks(), imports@[i]) by {
                        if i < before.len() {
                            assert(imports@.subrange(0, before.len() as int)[i] == imports@[i]);
                            assert(before[i] == imports@[i]);
                        }
                    }
                }
                proof {
                    Self::lemma_evolves_trans(&it, &s4, self);
                }
                let ghost s5 = *self;
                match self.expect_msg(TokenKind::RBrace, "expected '}' to close group use") {
                    Some(rb) => {
                        last_end = rb.span.end;
                    },
                    None => {
                        let sync = vec![TokenKind::RBrace, TokenKind::Semicolon];
                        self.error_msg_and_recover("recovered after unterminated group use", &sync);
                    },
                }
                let end_span = match self.expect_msg(
                    TokenKind::Semicolon,
                    "expected ';' after use statement",
                ) {
                    Some(semi) => semi.span,
                    None => {
                        let sync = vec![TokenKind::Semicolon, TokenKind::RBrace];
                        self.error_msg_and_recover("recovered after unterminated use", &sync);
                        Span { start: start_span.start, end: last_end }
                    },
                };
                proof {
                    Self::lemma_evolves_trans(&it, &s5, self);
                    Self::lemma_evolves_trans(old(self), &it, self);
                }
                let full_span = Span { start: start_span.start, end: end_span.end };
                return Some(Stmt::Use { imports, span: full_span });
            }
            let sync = vec![TokenKind::Comma, TokenKind::Semicolon];
            let ghost s6 = *self;
            let alias_ident = self.parse_optional_alias(&mut last_end, &sync);
            let import_span = Span { start: qn.span.start, end: last_end };
            imports.push(
                UseImport { kind: import_kind, full_name: qn, alias: alias_ident, span: import_span },
            );
            let ghost s7 = *self;
            if self.eat(TokenKind::Comma) {
                proof {
                    Self::lemma_evolves_trans(&s6, &s7, self);
                    Self::lemma_evolves_trans(&it, &s6, self);
                    Self::lemma_evolves_trans(old(self), &it, self);
                }
                continue;
            }
            proof {
                Self::lemma_evolves_trans(&it, &s6, self);
                Self::lemma_evolves_trans(old(self), &it, self);
            }
            break;
        }
        let ghost s8 = *self;
        let end_span = match self.expect_msg(TokenKind::Semicolon, "expected ';' after use statement") {
            Some(semi_tok) => semi_tok.span,
            None => {
                let sync = vec![
                    TokenKind::Semicolon,
                    TokenKind::RBrace,
                    TokenKind::Dollar,
                    TokenKind::Ident,
                    TokenKind::AttrOpen,
                ];
                self.error_msg_and_recover("recovered after unterminated use", &sync);
                match imports.last() {
                    Some(i) => i.span,
                    None => start_span,
                }
            },
        };
        proof {
            Self::lemma_evolves_trans(old(self), &s8, self);
        }
        let full_span = Span { start: start_span.start, end: end_span.end };
        Some(Stmt::Use { imports, span: full_span })
    }

    /// The items of a group import after `prefix\{`, each appended to
    /// `imports` with `prefix` in front of its name.
    fn parse_group_use_items(
        &mut self,
        prefix: &QualifiedName,
        import_kind: UseKind,
        imports: &mut Vec<UseImport>,
    )
        requires
            old(self).wf(),
        ensures
            final(self).wf(),
            old(self).evolves_to(final(self)),
            old(imports)@.len() <= final(imports)@.len(),
            final(imports)@.subrange(0, old(imports)@.len() as int) == old(imports)@,
            forall|i: int|
                old(imports)@.len() <= i < final(imports)@.len() ==> group_import_of(
                    #[trigger] final(imports)@[i],
                    *prefix,
                    import_kind,
                ),
            final(self).diags().len() == old(self).diags().len() ==> final(imports)@.len() > old(
                imports,
            )@.len(),
            simple_group_member(old(self)) ==> final(imports)@.len() > old(imports)@.len()
                && is_simple_group_member(
                old(self),
                *prefix,
                import_kind,
                final(imports)@[old(imports)@.len() as int],
            ),
            forall|i: int|
                old(imports)@.len() <= i < final(imports)@.len() ==> (#[trigger] final(imports)@[i]).kind
                    == import_kind || kind_written(old(self).toks(), final(imports)@[i]),
    {
        proof {
            old(self).lemma_cur_token_at();
        }
        loop
            invariant
                self.wf(),
                old(self).evolves_to(self),
                old(imports)@.len() <= imports@.len(),
                imports@.subrange(0, old(imports)@.len() as int) == old(imports)@,
                forall|i: int|
                    old(imports)@.len() <= i < imports@.len() ==> group_import_of(
                        #[trigger] imports@[i],
                        *prefix,
                        import_kind,
                    ),
                simple_group_member(old(self)) ==> (imports@.len() == old(imports)@.len() && *self
                    == *old(self)) || (imports@.len() > old(imports)@.len() && is_simple_group_member(
                    old(self),
                    *prefix,
                    import_kind,
                    imports@[old(imports)@.len() as int],
                )),
                forall|i: int|
                    old(imports)@.len() <= i < imports@.len() ==> (#[trigger] imports@[i]).kind
                        == import_kind || kind_written(old(self).toks(), imports@[i]),
            ensures
                self.wf(),
                old(self).evolves_to(self),
                old(imports)@.len() <= imports@.len(),
                imports@.subrange(0, old(imports)@.len() as int) == old(imports)@,
                forall|i: int|
                    old(imports)@.len() <= i < imports@.len() ==> group_import_of(
                        #[trigger] imports@[i],
                        *prefix,
                        import_kind,
                    ),
                self.diags().len() == old(self).diags().len() ==> imports@.len() > old(imports)@.len(),
                simple_group_member(old(self)) ==> imports@.len() > old(imports)@.len()
                    && is_simple_group_member(
                    old(self),
                    *prefix,
                    import_kind,
                    imports@[old(imports)@.len() as int],
                ),
                forall|i: int|
                    old(imports)@.len() <= i < imports@.len() ==> (#[trigger] imports@[i]).kind
                        == import_kind || kind_written(old(self).toks(), imports@[i]),
            decreases self.rem(),
        {
            let ghost it = *self;
            let mut item_kind = import_kind;
            proof {
                it.lemma_cur_token_at();
            }
            if self.at(TokenKind::KwFunction) {
                self.bump();
                item_kind = UseKind::Function;
            } else if self.at(TokenKind::KwConst) {
                self.bump();
                item_kind = UseKind::Const;
            }
            let ghost s1 = *self;
            let ghost at_first = simple_group_member(old(self)) && it == *old(self);
            proof {
                s1.lemma_cur_token_at();
            }
            let first = match self.expect_ident_msg("expected name in group use") {
                Some(token) => token,
                None => {
                    let sync = vec![TokenKind::Comma, TokenKind::RBrace];
                    let ghost s2 = *self;
                    self.error_msg_and_recover("expected name in group use", &sync);
                    let ghost s3 = *self;
                    if self.eat(TokenKind::Comma) {
                        proof {
                            Self::lemma_evolves_trans(&s2, &s3, self);
                            Self::lemma_evolves_trans(&s1, &s2, self);
                            Self::lemma_evolves_trans(&it, &s1, self);
                            Self::lemma_evolves_trans(old(self), &it, self);
                        }
                        continue;
                    }
                    proof {
                        Self::lemma_evolves_trans(&s1, &s2, self);
                        Self::lemma_evolves_trans(&it, &s1, self);
                        Self::lemma_evolves_trans(old(self), &it, self);
                    }
                    break;
                },
            };
            let mut tail_parts: Vec<Ident> = Vec::new();
            tail_parts.push(Ident { span: first.span });
            let mut tail_end = first.span.end;
            let ghost s4 = *self;
            proof {
                s4.lemma_cur_token_at();
            }
            self.extend_qn_parts_after_first(&mut tail_parts, &mut tail_end);
            let sync = vec![TokenKind::Comma, TokenKind::RBrace];
            let alias_ident = self.parse_optional_alias(&mut tail_end, &sync);
            let mut full_parts: Vec<Ident> = Vec::new();
            let mut i: usize = 0;
            while i < prefix.parts.len()
                invariant
                    i <= prefix.parts@.len(),
                    full_parts@ == prefix.parts@.subrange(0, i as int),
                decreases prefix.parts.len() - i,
            {
                full_parts.push(Ident { span: prefix.parts[i].span });
                i = i + 1;
                proof {
                    assert(full_parts@ =~= prefix.parts@.subrange(0, i as int));
                }
            }
            let mut j: usize = 0;
            while j < tail_parts.len()
                invariant
                    j <= tail_parts@.len(),
                    full_parts@ == prefix.parts@ + tail_parts@.subrange(0, j as int),
                decreases tail_parts.len() - j,
            {
                full_parts.push(tail_parts[j]);
                j = j + 1;
                proof {
                    assert(full_parts@ =~= prefix.parts@ + tail_parts@.subrange(0, j as int));
                }
            }
            proof {
                assert(full_parts@.subrange(0, prefix.parts@.len() as int) =~= prefix.parts@);
            }
            let full_qn_span = Span { start: prefix.span.start, end: tail_end };
            let full_qn = QualifiedName {
                absolute: prefix.absolute,
                parts: full_parts,
                span: full_qn_span,
            };
            imports.push(
                UseImport {
                    kind: item_kind,
                    full_name: full_qn,
                    alias: alias_ident,
                    span: full_qn_span,
                },
            );
            proof {
                assert(imports@.subrange(0, old(imports)@.len() as int) =~= old(imports)@);
                if item_kind != import_kind {
                    let pi = prefix.parts@.len() as int;
                    let j = it.position() as int;
                    assert(tail_parts@.subrange(0, 1) =~= seq![Ident { span: first.span }]);
                    assert(full_parts@[pi] == tail_parts@[0]);
                    assert(old(self).toks()[j] == it.cur_token());
                    assert(*first == s1.cur_token());
                    if item_kind == UseKind::Function {
                        assert(led_by(old(self).toks(), full_parts@[pi], TokenKind::KwFunction));
                    } else {
                        assert(led_by(old(self).toks(), full_parts@[pi], TokenKind::KwConst));
                    }
                    assert(kind_written(old(self).toks(), imports@[imports@.len() - 1]));
                }
                if at_first {
                    assert(tail_parts@ == seq![Ident { span: first.span }]);
                    assert(full_parts@ =~= prefix.parts@.push(Ident { span: first.span }));
                    assert(is_simple_group_member(
                        old(self),
                        *prefix,
                        import_kind,
                        imports@[old(imports)@.len() as int],
                    ));
                }
            }
            proof {
                Self::lemma_evolves_trans(&it, &s1, &s4);
                Self::lemma_evolves_trans(&it, &s4, self);
                Self::lemma_evolves_trans(old(self), &it, self);
            }
            let ghost s5 = *self;
            if self.eat(TokenKind::Comma) {
                if !self.at(TokenKind::RBrace) {
                    proof {
                        Self::lemma_evolves_trans(old(self), &s5, self);
                    }
                    continue;
                }
                proof {
                    Self::lemma_evolves_trans(old(self), &s5, self);
                }
            }
            break;
        }
    }

    /// `as Alias`, if present; a missing alias is reported and skipped to a
    /// token in `recover`.
    fn parse_optional_alias(&mut self, end_ref: &mut u32, recover: &[TokenKind]) -> (r: Option<
        Ident,
    >)
        requires
            old(self).wf(),
        ensures
            final(self).wf(),
            old(self).evolves_to(final(self)),
            old(self).cur_kind() != TokenKind::KwAs ==> r is None && *final(self) == *old(self)
                && *final(end_ref) == *old(end_ref),
            old(self).cur_kind() == TokenKind::KwAs ==> ({
                let alias = following_token(old(self));
                if alias.kind == TokenKind::Ident || spec_is_ident_like_kw(alias.kind) {
                    &&& r == Some(Ident { span: alias.span })
                    &&& *final(end_ref) == alias.span.end
                    &&& final(self).diags() == old(self).diags()
                    &&& final(self).position() == next_position(
                        old(self).toks(),
                        next_position(old(self).toks(), old(self).position()) as nat,
                    )
                } else {
                    &&& r is None
                    &&& *final(end_ref) == *old(end_ref)
                    &&& final(self).diags().len() == old(self).diags().len() + 2
                    &&& final(self).diags().last().code == ParseDiagnosticCode::UnexpectedToken
                    &&& final(self).diags().last().span == alias.span
                    &&& final(self).diags().last().message@ == "expected alias after 'as'"@
                }
            }),
    {
        if self.at(TokenKind::KwAs) {
            self.bump();
            let ghost s1 = *self;
            proof {
                s1.lemma_cur_token_at();
            }
            match self.expect_ident_msg("expected alias after 'as'") {
                Some(as_token) => {
                    *end_ref = as_token.span.end;
                    proof {
                        Self::lemma_evolves_trans(old(self), &s1, self);
                    }
                    return Some(Ident { span: as_token.span });
                },
                None => {
                    let ghost s2 = *self;
                    self.error_msg_and_recover("expected alias after 'as'", recover);
                    proof {
                        Self::lemma_evolves_trans(&s1, &s2, self);
                        Self::lemma_evolves_trans(old(self), &s1, self);
                    }
                },
            }
        }
        None
    }
}

} // verus!
