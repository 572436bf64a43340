//! Class declarations and their members: constants, methods, properties
//! with asymmetric visibility and hooks, and trait uses.
use crate::ast::{
    AttributeGroup, Block, ClassFlags, ClassMember, ClassNameRef, Expr, HookBody, Ident,
    MemberFlags, PropertyHookGet, PropertyHookSet, PropertyHooks, QualifiedName, Stmt, Visibility,
};
use crate::diagnostics::{Diagnostic, ParseDiagnosticCode};
use crate::parser::stmt::function_decl::spec_starts_type;
use crate::parser::{name_after_keyword, next_position, nth_kind_from, token_at, Parser};
use crate::token::Token;
use crate::span::Span;
use crate::token::TokenKind;
use vstd::prelude::*;

verus! {

/// `public`, `protected` or `private`.
pub open spec fn spec_is_visibility(k: TokenKind) -> bool {
    k == TokenKind::KwPublic || k == TokenKind::KwProtected || k == TokenKind::KwPrivate
}

/// Keywords that modify a class member: visibilities, `static`, `final`,
/// `abstract`, `readonly` and `var`.
pub open spec fn is_member_modifier(k: TokenKind) -> bool {
    ||| k == TokenKind::KwPublic
    ||| k == TokenKind::KwProtected
    ||| k == TokenKind::KwPrivate
    ||| k == TokenKind::KwStatic
    ||| k == TokenKind::KwFinal
    ||| k == TokenKind::KwAbstract
    ||| k == TokenKind::KwReadonly
    ||| k == TokenKind::KwVar
}

/// The modifiers of a member written without any: public, and nothing
/// else.
pub open spec fn public_flags() -> MemberFlags {
    MemberFlags {
        is_public: true,
        is_protected: false,
        is_private: false,
        is_static: false,
        is_final: false,
        is_abstract: false,
        is_readonly: false,
    }
}

/// No modifier at all.
pub open spec fn no_flags() -> MemberFlags {
    MemberFlags {
        is_public: false,
        is_protected: false,
        is_private: false,
        is_static: false,
        is_final: false,
        is_abstract: false,
        is_readonly: false,
    }
}

/// `f` with the modifier `k` added; `var` is `public`.
pub open spec fn add_modifier(f: MemberFlags, k: TokenKind) -> MemberFlags {
    MemberFlags {
        is_public: f.is_public || k == TokenKind::KwPublic || k == TokenKind::KwVar,
        is_protected: f.is_protected || k == TokenKind::KwProtected,
        is_private: f.is_private || k == TokenKind::KwPrivate,
        is_static: f.is_static || k == TokenKind::KwStatic,
        is_final: f.is_final || k == TokenKind::KwFinal,
        is_abstract: f.is_abstract || k == TokenKind::KwAbstract,
        is_readonly: f.is_readonly || k == TokenKind::KwReadonly,
    }
}

/// A visibility keyword, or `var`.
pub open spec fn sets_visibility(k: TokenKind) -> bool {
    k == TokenKind::KwPublic || k == TokenKind::KwProtected || k == TokenKind::KwPrivate || k
        == TokenKind::KwVar
}

/// The modifiers of a member from position `q` on, added to `f`, and
/// whether a visibility stands among them (`vis` for those before `q`):
/// read up to the first token that is no modifier. `None` where a
/// visibility keyword is followed by `(`, as in `private(set)`.
pub open spec fn modifier_run(toks: Seq<Token>, q: nat, f: MemberFlags, vis: bool) -> Option<
    (MemberFlags, bool),
>
    decreases toks.len() - q,
{
    let k = token_at(toks, q as int).kind;
    let q2 = next_position(toks, q);
    if !is_member_modifier(k) {
        Some((f, vis))
    } else if !(q < q2 && q2 <= toks.len()) {
        None
    } else if k != TokenKind::KwVar && sets_visibility(k) && nth_kind_from(toks, q as int, 1)
        == TokenKind::LParen {
        None
    } else {
        modifier_run(toks, q2 as nat, add_modifier(f, k), vis || sets_visibility(k))
    }
}

/// The flags of a member whose modifiers read as `run`: public where no
/// visibility was written.
pub open spec fn flags_of_run(run: (MemberFlags, bool)) -> MemberFlags {
    if run.1 {
        run.0
    } else {
        add_modifier(run.0, TokenKind::KwPublic)
    }
}

/// The flags of a constant, method or property.
pub open spec fn member_flags(m: ClassMember) -> Option<MemberFlags> {
    match m {
        ClassMember::Const { flags, .. } => Some(flags),
        ClassMember::Method { flags, .. } => Some(flags),
        ClassMember::Property { flags, .. } => Some(flags),
        _ => None,
    }
}

impl<'src> Parser<'src> {
    /// `class Name extends Parent implements A, B { members }` with its
    /// modifiers `flags` and the attribute groups before it.
    pub(super) fn parse_class_stmt(
        &mut self,
        flags: ClassFlags,
        attributes: Vec<AttributeGroup>,
    ) -> (r: Option<Stmt>)
        requires
            old(self).wf(),
            old(self).cur_kind() == TokenKind::KwClass,
        ensures
            final(self).wf(),
            old(self).advances_to(final(self)),
            r matches Some(Stmt::Class { flags: f, .. }) && f == flags,
            r matches Some(s) && s.spec_span().start == old(self).cur_token().span.start,
            r matches Some(Stmt::Class { name: ClassNameRef::Qualified(qn), attributes: a, .. })
                && a@ == attributes@ && !qn.absolute && qn.parts@.len() == 1 && qn.span
                == qn.parts@[0].span && name_after_keyword(old(self), final(self), qn.parts@[0]),
        decreases old(self).rem(), 700nat,
    {
        let class_token = self.bump();
        proof {
            self.lemma_cur_token_at();
        }
        let class_start = class_token.span.start;
        let mut last_end = class_token.span.end;
        let ghost s1 = *self;
        let class_ident = self.expect_ident_ast_or_err(&mut last_end);
        let ghost s_id = *self;
        let class_ident_span = class_ident.span;
        let class_name_qn = QualifiedName {
            absolute: false,
            parts: vec![class_ident],
            span: class_ident_span,
        };
        let mut extends_name: Option<QualifiedName> = None;
        if self.at(TokenKind::KwExtends) {
            self.bump();
            if let Some(parent_qn) = self.parse_qualified_name() {
                last_end = parent_qn.span.end;
                extends_name = Some(parent_qn);
            }
        }
        let (implements_list, impl_last_end) = self.parse_implements_clause();
        if let Some(end) = impl_last_end {
            last_end = end;
        }
        proof {
            Self::lemma_evolves_trans(old(self), &s1, self);
        }
        let ghost s2 = *self;
        if !self.expect_or_err(TokenKind::LBrace, &mut last_end) {
            proof {
                Self::lemma_evolves_trans(old(self), &s2, self);
                Self::lemma_evolves_trans(&s_id, &s2, self);
            }
            let span = Span { start: class_start, end: last_end };
            return Some(
                Stmt::Class {
                    flags,
                    name: ClassNameRef::Qualified(class_name_qn),
                    extends: extends_name,
                    implements: implements_list,
                    body: Vec::<ClassMember>::new(),
                    attributes,
                    span,
                },
            );
        }
        let body_start = last_end;
        let (body_end_pos, members) = self.consume_class_body(body_start);
        proof {
            Self::lemma_evolves_trans(old(self), &s2, self);
            Self::lemma_evolves_trans(&s_id, &s2, self);
        }
        let class_span = Span { start: class_start, end: body_end_pos };
        Some(
            Stmt::Class {
                flags,
                name: ClassNameRef::Qualified(class_name_qn),
                extends: extends_name,
                implements: implements_list,
                body: members,
                attributes,
                span: class_span,
            },
        )
    }

    /// The members of a class body after its `{`, and the end of the `}`
    /// (or `body_start_pos` when it is missing). A member that cannot be
    /// read is reported and skipped.
    fn consume_class_body(&mut self, body_start_pos: u32) -> (r: (u32, Vec<ClassMember>))
        requires
            old(self).wf(),
        ensures
            final(self).wf(),
            old(self).evolves_to(final(self)),
            old(self).cur_kind() == TokenKind::RBrace ==> r.1@.len() == 0 && r.0 == old(self).cur_token().span.end && final(self).diags() == old(self).diags() && final(self).position()
                == next_position(old(self).toks(), old(self).position()),
            old(self).cur_kind() == TokenKind::Eof ==> r.1@.len() == 0 && r.0 == body_start_pos && old(self).pushed_error(
                final(self),
                ParseDiagnosticCode::ExpectedToken(TokenKind::RBrace),
                Span::at_spec(body_start_pos),
            ),
        decreases old(self).rem(), 460nat,
    {
        let mut members: Vec<ClassMember> = Vec::new();
        while !self.eof() && !self.at(TokenKind::RBrace)
            invariant
                self.wf(),
                old(self).evolves_to(self),
                self.position() == old(self).position() ==> *self == *old(self) && members@.len() == 0,
                old(self).cur_kind() == TokenKind::RBrace || old(self).cur_kind() == TokenKind::Eof
                    ==> self.position() == old(self).position(),
            ensures
                self.wf(),
                old(self).evolves_to(self),
                self.position() == old(self).position() ==> *self == *old(self) && members@.len() == 0,
                old(self).cur_kind() == TokenKind::RBrace || old(self).cur_kind() == TokenKind::Eof
                    ==> self.position() == old(self).position(),
                self.cur_kind() == TokenKind::Eof || self.cur_kind() == TokenKind::RBrace,
            decreases self.rem(),
        {
            let ghost it = *self;
            if self.eat(TokenKind::Semicolon) {
                proof {
                    Self::lemma_evolves_trans(old(self), &it, self);
                }
                continue;
            }
            if self.at(TokenKind::KwUse) {
                if let Some(trait_use) = self.parse_trait_use() {
                    members.push(trait_use);
                }
                proof {
                    Self::lemma_evolves_trans(old(self), &it, self);
                }
                continue;
            }
            let before = self.cursor();
            match self.parse_class_member() {
                Some(member) => {
                    members.push(member);
                },
                None => {
                    let err_pos = self.current_span().start;
                    let sync = vec![
                        TokenKind::KwPublic,
                        TokenKind::KwProtected,
                        TokenKind::KwPrivate,
                        TokenKind::KwStatic,
                        TokenKind::KwFinal,
                        TokenKind::KwAbstract,
                        TokenKind::KwReadonly,
                        TokenKind::KwFunction,
                        TokenKind::KwConst,
                        TokenKind::VarIdent,
                        TokenKind::RBrace,
                    ];
                    let ghost s1 = *self;
                    self.error_and_recover(
                        Diagnostic::error_from_code(
                            ParseDiagnosticCode::ExpectedStatement,
                            Span::at(err_pos),
                        ),
                        &sync,
                    );
                    proof {
                        Self::lemma_evolves_trans(&it, &s1, self);
                        Self::lemma_evolves_trans(old(self), &it, self);
                    }
                    if self.at(TokenKind::RBrace) {
                        break;
                    }
                },
            }
            proof {
                Self::lemma_evolves_trans(old(self), &it, self);
            }
            if self.cursor() == before {
                // Nothing of a member could be read here: skip the token.
                if self.eof() {
                    break;
                }
                let sp = self.current_span();
                let ghost s2 = *self;
                self.recover_one_token(
                    Diagnostic::error_from_code(ParseDiagnosticCode::UnexpectedToken, sp),
                );
                proof {
                    Self::lemma_evolves_trans(&it, &s2, self);
                    Self::lemma_evolves_trans(old(self), &it, self);
                }
            } else {
                proof {
                    Self::lemma_progress(&it, self);
                }
            }
        }
        let mut end = body_start_pos;
        let ghost s3 = *self;
        self.expect_or_err(TokenKind::RBrace, &mut end);
        proof {
            Self::lemma_evolves_trans(old(self), &s3, self);
        }
        (end, members)
    }

    /// One class member, after any attributes and modifiers: a constant, a
    /// method, or else a property. Members without a visibility are
    /// public.
    fn parse_class_member(&mut self) -> (r: Option<ClassMember>)
        requires
            old(self).wf(),
        ensures
            final(self).wf(),
            old(self).evolves_to(final(self)),
            r is Some,
            old(self).cur_kind() == TokenKind::KwConst ==> (r matches Some(
                ClassMember::Const { flags, .. },
            ) && flags == public_flags()),
            old(self).cur_kind() == TokenKind::KwFunction ==> (r matches Some(
                ClassMember::Method { flags, .. },
            ) && flags == public_flags()),
            old(self).cur_kind() == TokenKind::VarIdent ==> (r matches Some(
                ClassMember::Property { name, flags, set_visibility, span, .. },
            ) && flags == public_flags() && set_visibility is None && name == (Ident {
                span: old(self).cur_token().span,
            }) && span.start == old(self).cur_token().span.start),
            old(self).cur_kind() != TokenKind::AttrOpen && modifier_run(
                old(self).toks(),
                old(self).position(),
                no_flags(),
                false,
            ) is Some ==> (r matches Some(m) && member_flags(m) == Some(
                flags_of_run(modifier_run(old(self).toks(), old(self).position(), no_flags(), false)->0),
            )),
        decreases old(self).rem(), 450nat,
    {
        let ghost s0 = *self;
        if self.at(TokenKind::AttrOpen) {
            let _attrs = self.parse_attribute_group_list();
        }
        let start_pos = self.current_span().start;
        let mut flags = MemberFlags::empty();
        let mut set_visibility: Option<Visibility> = None;
        let mut saw_visibility = false;
        let ghost s1 = *self;
        loop
            invariant
                self.wf(),
                s1.evolves_to(self),
                !is_member_modifier(s1.cur_kind()) ==> *self == s1 && flags == (MemberFlags {
                    is_public: false,
                    is_protected: false,
                    is_private: false,
                    is_static: false,
                    is_final: false,
                    is_abstract: false,
                    is_readonly: false,
                }) && !saw_visibility && set_visibility is None,
                s1.toks() == self.toks(),
                s0.cur_kind() != TokenKind::AttrOpen ==> s1 == s0,
                ({
                    let run0 = modifier_run(s1.toks(), s1.position(), no_flags(), false);
                    run0 is Some ==> set_visibility is None && modifier_run(
                        self.toks(),
                        self.position(),
                        flags,
                        saw_visibility,
                    ) == run0
                }),
            ensures
                self.wf(),
                s1.evolves_to(self),
                !is_member_modifier(s1.cur_kind()) ==> *self == s1 && flags == (MemberFlags {
                    is_public: false,
                    is_protected: false,
                    is_private: false,
                    is_static: false,
                    is_final: false,
                    is_abstract: false,
                    is_readonly: false,
                }) && !saw_visibility && set_visibility is None,
                s1.toks() == self.toks(),
                s0.cur_kind() != TokenKind::AttrOpen ==> s1 == s0,
                ({
                    let run0 = modifier_run(s1.toks(), s1.position(), no_flags(), false);
                    run0 is Some ==> set_visibility is None && modifier_run(
                        self.toks(),
                        self.position(),
                        flags,
                        saw_visibility,
                    ) == run0
                }),
                !is_member_modifier(self.cur_kind()),
            decreases self.rem(),
        {
            let ghost it = *self;
            proof {
                it.lemma_cur_token_at();
            }
            let k = self.kind();
            if k == TokenKind::KwPublic || k == TokenKind::KwProtected || k == TokenKind::KwPrivate {
                if self.at_set_visibility_clause() {
                    set_visibility = Some(self.bump_set_visibility_clause());
                } else {
                    self.bump();
                    if k == TokenKind::KwPublic {
                        flags.is_public = true;
                    } else if k == TokenKind::KwProtected {
                        flags.is_protected = true;
                    } else {
                        flags.is_private = true;
                    }
                    saw_visibility = true;
                }
            } else if k == TokenKind::KwStatic {
                self.bump();
                flags.is_static = true;
            } else if k == TokenKind::KwFinal {
                self.bump();
                flags.is_final = true;
            } else if k == TokenKind::KwAbstract {
                self.bump();
                flags.is_abstract = true;
            } else if k == TokenKind::KwReadonly {
                self.bump();
                flags.is_readonly = true;
            } else if k == TokenKind::KwVar {
                // `var` declares a public property.
                self.bump();
                saw_visibility = true;
                flags.is_public = true;
            } else {
                break;
            }
            proof {
                Self::lemma_evolves_trans(&s1, &it, self);
                Self::lemma_advances_moves(&it, self);
            }
        }
        proof {
            self.lemma_cur_token_at();
        }
        let ghost run = modifier_run(self.toks(), self.position(), flags, saw_visibility);
        proof {
            assert(!is_member_modifier(token_at(self.toks(), self.position() as int).kind));
            assert(run == Some((flags, saw_visibility)));
        }
        if !saw_visibility {
            flags.is_public = true;
        }
        proof {
            assert(flags == flags_of_run(run->0));
        }
        proof {
            Self::lemma_evolves_trans(&s0, &s1, self);
        }
        let ghost s2 = *self;
        let r = if self.at(TokenKind::KwConst) {
            self.parse_class_const(start_pos, flags)
        } else if self.at(TokenKind::KwFunction) {
            self.parse_class_method(start_pos, flags)
        } else {
            self.parse_class_property(start_pos, flags, set_visibility)
        };
        proof {
            Self::lemma_evolves_trans(&s0, &s2, self);
        }
        r
    }

    /// `const NAME = value;` inside a class.
    fn parse_class_const(&mut self, start_pos: u32, flags: MemberFlags) -> (r: Option<ClassMember>)
        requires
            old(self).wf(),
            old(self).cur_kind() == TokenKind::KwConst,
        ensures
            final(self).wf(),
            old(self).advances_to(final(self)),
            r matches Some(ClassMember::Const { flags: f, .. }) && f == flags,
        decreases old(self).rem(), 440nat,
    {
        let const_tok = self.bump();
        let mut last_end = const_tok.span.end;
        let ghost s1 = *self;
        let name = self.expect_ident_ast_or_err(&mut last_end);
        let ghost s2 = *self;
        if !self.expect_or_err(TokenKind::Eq, &mut last_end) {
            proof {
                Self::lemma_evolves_trans(&s1, &s2, self);
                Self::lemma_evolves_trans(old(self), &s1, self);
            }
            return Some(
                ClassMember::Const {
                    name,
                    flags,
                    value: Expr::Error { span: Span::at(last_end) },
                    span: Span { start: start_pos, end: last_end },
                },
            );
        }
        let value = self.parse_expr_or_err(&mut last_end);
        self.expect_or_err(TokenKind::Semicolon, &mut last_end);
        proof {
            Self::lemma_evolves_trans(&s1, &s2, self);
            Self::lemma_evolves_trans(old(self), &s1, self);
        }
        Some(ClassMember::Const { name, flags, value, span: Span { start: start_pos, end: last_end } })
    }

    /// `function [&]name(params)[: Type] { ... }` or an abstract method
    /// ending in `;`.
    fn parse_class_method(&mut self, start_pos: u32, flags: MemberFlags) -> (r: Option<ClassMember>)
        requires
            old(self).wf(),
            old(self).cur_kind() == TokenKind::KwFunction,
        ensures
            final(self).wf(),
            old(self).advances_to(final(self)),
            r matches Some(ClassMember::Method { flags: f, .. }) && f == flags,
        decreases old(self).rem(), 440nat,
    {
        let fn_tok = self.bump();
        let mut last_end = fn_tok.span.end;
        let ghost s1 = *self;
        let _by_ref = self.eat(TokenKind::Amp);
        let name = self.expect_ident_ast_or_err(&mut last_end);
        self.expect_or_err(TokenKind::LParen, &mut last_end);
        let mut params = Vec::new();
        let ghost s2 = *self;
        if !self.at(TokenKind::RParen) {
            loop
                invariant
                    self.wf(),
                    s2.evolves_to(self),
                    old(self).advances_to(self),
                decreases self.rem(),
            {
                let ghost it = *self;
                match self.parse_single_param() {
                    Some(param) => params.push(param),
                    None => {
                        proof {
                            Self::lemma_evolves_trans(&s2, &it, self);
                            Self::lemma_evolves_trans(old(self), &it, self);
                        }
                        break;
                    },
                }
                proof {
                    Self::lemma_evolves_trans(&s2, &it, self);
                    Self::lemma_evolves_trans(old(self), &it, self);
                }
                let ghost s3 = *self;
                if self.eat(TokenKind::Comma) {
                    proof {
                        Self::lemma_evolves_trans(&it, &s3, self);
                        Self::lemma_evolves_trans(&s2, &s3, self);
                        Self::lemma_evolves_trans(old(self), &s3, self);
                    }
                    if self.at(TokenKind::RParen) {
                        break;
                    }
                    continue;
                }
                break;
            }
        } else {
            proof {
                Self::lemma_evolves_trans(old(self), &s1, self);
            }
        }
        let ghost s4 = *self;
        self.expect_or_err(TokenKind::RParen, &mut last_end);
        let (return_type, end) = self.parse_optional_return_type(last_end);
        last_end = end;
        let mut body = None;
        if self.at(TokenKind::LBrace) {
            let lb = self.bump();
            if let Some((block, block_end)) = self.parse_block_after_lbrace(lb.span.start) {
                body = Some(block);
                last_end = block_end;
            }
        } else {
            self.expect_or_err(TokenKind::Semicolon, &mut last_end);
        }
        proof {
            Self::lemma_evolves_trans(old(self), &s4, self);
        }
        Some(
            ClassMember::Method {
                name,
                flags,
                params,
                return_type,
                body,
                span: Span { start: start_pos, end: last_end },
            },
        )
    }

    /// `[Type] $name [= default];` or with hooks `[Type] $name { ... }`.
    /// A missing `$name` is reported and gives a property without a name.
    fn parse_class_property(
        &mut self,
        start_pos: u32,
        flags: MemberFlags,
        set_visibility: Option<Visibility>,
    ) -> (r: Option<ClassMember>)
        requires
            old(self).wf(),
        ensures
            final(self).wf(),
            old(self).evolves_to(final(self)),
            r matches Some(ClassMember::Property { .. }),
            r matches Some(ClassMember::Property { flags: f, set_visibility: sv, span, .. }) && f
                == flags && sv == set_visibility && span.start == start_pos,
            old(self).cur_kind() == TokenKind::VarIdent ==> (r matches Some(
                ClassMember::Property { name, type_annotation, .. },
            ) && name == (Ident { span: old(self).cur_token().span }) && type_annotation is None),
            old(self).cur_kind() != TokenKind::VarIdent && old(self).cur_kind() != TokenKind::Question
                && !spec_starts_type(old(self).cur_kind()) ==> (r matches Some(
                ClassMember::Property { name, type_annotation, default, hooks, .. },
            ) && name == (Ident { span: Span::at_spec(old(self).cur_token().span.start) })
                && type_annotation is None && default is None && hooks is None) && old(self).pushed_error(
                final(self),
                ParseDiagnosticCode::ExpectedToken(TokenKind::VarIdent),
                Span::at_spec(old(self).cur_token().span.start),
            ),
        decreases old(self).rem(), 440nat,
    {
        let (type_annotation, type_end) = self.parse_param_type_prefix();
        let mut last_end = type_end;
        let ghost s1 = *self;
        let name_tok = match self.expect(TokenKind::VarIdent) {
            Some(t) => t,
            None => {
                self.error(
                    Diagnostic::error_from_code(
                        ParseDiagnosticCode::expected_token(TokenKind::VarIdent),
                        Span::at(last_end),
                    ),
                );
                return Some(
                    ClassMember::Property {
                        name: Ident { span: Span::at(last_end) },
                        flags,
                        set_visibility,
                        type_annotation,
                        default: None,
                        hooks: None,
                        span: Span { start: start_pos, end: last_end },
                    },
                );
            },
        };
        let name = Ident { span: name_tok.span };
        last_end = name_tok.span.end;
        let ghost s2 = *self;
        let mut default = None;
        if self.eat(TokenKind::Eq) {
            default = Some(self.parse_expr_or_err(&mut last_end));
        }
        let ghost s3 = *self;
        let hooks = if self.at(TokenKind::LBrace) {
            Some(self.parse_property_hooks(&mut last_end))
        } else {
            self.expect_or_err(TokenKind::Semicolon, &mut last_end);
            None
        };
        proof {
            Self::lemma_evolves_trans(&s2, &s3, self);
            Self::lemma_evolves_trans(&s1, &s2, self);
            Self::lemma_evolves_trans(old(self), &s1, self);
        }
        Some(
            ClassMember::Property {
                name,
                flags,
                set_visibility,
                type_annotation,
                default,
                hooks,
                span: Span { start: start_pos, end: last_end },
            },
        )
    }

    /// `use A, B;` inside a class; an adaptation block `{ ... }` is
    /// skipped.
    fn parse_trait_use(&mut self) -> (r: Option<ClassMember>)
        requires
            old(self).wf(),
            old(self).cur_kind() == TokenKind::KwUse,
        ensures
            final(self).wf(),
            old(self).advances_to(final(self)),
            r matches Some(ClassMember::TraitUse { .. }),
    {
        let use_tok = self.bump();
        let start_pos = use_tok.span.start;
        let mut traits: Vec<QualifiedName> = Vec::new();
        let mut last_end = use_tok.span.end;
        loop
            invariant
                self.wf(),
                old(self).advances_to(self),
            decreases self.rem(),
        {
            let ghost it = *self;
            match self.parse_qualified_name() {
                Some(qn) => {
                    last_end = qn.span.end;
                    traits.push(qn);
                },
                None => {
                    proof {
                        Self::lemma_evolves_trans(old(self), &it, self);
                    }
                    break;
                },
            }
            let ghost s1 = *self;
            if self.eat(TokenKind::Comma) {
                proof {
                    Self::lemma_evolves_trans(&it, &s1, self);
                    Self::lemma_evolves_trans(old(self), &it, self);
                }
                continue;
            }
            proof {
                Self::lemma_evolves_trans(old(self), &it, self);
            }
            break;
        }
        let ghost s2 = *self;
        if self.eat(TokenKind::LBrace) {
            // Adaptations (`insteadof`, `as`) are skipped.
            let mut depth: usize = 1;
            while !self.eof() && depth > 0
                invariant
                    self.wf(),
                    s2.evolves_to(self),
                    depth <= self.position() + 1,
                decreases self.rem(),
            {
                let ghost it = *self;
                proof {
                    self.lemma_not_eof_room();
                }
                if self.at(TokenKind::LBrace) {
                    depth = depth + 1;
                } else if self.at(TokenKind::RBrace) {
                    depth = depth - 1;
                }
                let t = self.bump();
                last_end = t.span.end;
                proof {
                    Self::lemma_evolves_trans(&s2, &it, self);
                }
            }
        } else {
            self.expect_or_err(TokenKind::Semicolon, &mut last_end);
        }
        proof {
            Self::lemma_evolves_trans(old(self), &s2, self);
        }
        Some(ClassMember::TraitUse { traits, span: Span { start: start_pos, end: last_end } })
    }

    /// Whether `public(set)`, `protected(set)` or `private(set)` starts
    /// here.
    fn at_set_visibility_clause(&self) -> (b: bool)
        requires
            self.wf(),
        ensures
            b ==> spec_is_visibility(self.cur_kind()),
            b == ((self.cur_kind() == TokenKind::KwPublic || self.cur_kind() == TokenKind::KwProtected
                || self.cur_kind() == TokenKind::KwPrivate) && nth_kind_from(
                self.toks(),
                self.position() as int,
                1,
            ) == TokenKind::LParen && nth_kind_from(self.toks(), self.position() as int, 2)
                == TokenKind::KwSet && nth_kind_from(self.toks(), self.position() as int, 3)
                == TokenKind::RParen),
    {
        let k = self.kind();
        (k == TokenKind::KwPublic || k == TokenKind::KwProtected || k == TokenKind::KwPrivate)
            && self.nth_kind(1) == TokenKind::LParen && self.nth_kind(2) == TokenKind::KwSet
            && self.nth_kind(3) == TokenKind::RParen
    }

    /// Consumes `vis(set)` and returns the visibility `vis`.
    fn bump_set_visibility_clause(&mut self) -> (v: Visibility)
        requires
            old(self).wf(),
            spec_is_visibility(old(self).cur_kind()),
        ensures
            final(self).wf(),
            old(self).same_but_cursor(final(self)),
            old(self).advances_to(final(self)),
            old(self).cur_kind() == TokenKind::KwPublic ==> v == Visibility::Public,
            old(self).cur_kind() == TokenKind::KwProtected ==> v == Visibility::Protected,
            old(self).cur_kind() == TokenKind::KwPrivate ==> v == Visibility::Private,
    {
        let k = self.kind();
        let visibility = if k == TokenKind::KwPublic {
            Visibility::Public
        } else if k == TokenKind::KwProtected {
            Visibility::Protected
        } else {
            Visibility::Private
        };
        self.bump();
        let ghost a = *self;
        self.bump();
        let ghost b = *self;
        self.bump();
        let ghost c = *self;
        self.bump();
        proof {
            Self::lemma_evolves_trans(old(self), &a, &b);
            Self::lemma_evolves_trans(old(self), &b, &c);
            Self::lemma_evolves_trans(old(self), &c, self);
        }
        visibility
    }

    /// The hooks `{ get ...; set(...) ... }` of a property, from the `{`.
    fn parse_property_hooks(&mut self, last_end: &mut u32) -> (h: PropertyHooks)
        requires
            old(self).wf(),
            old(self).cur_kind() == TokenKind::LBrace,
        ensures
            final(self).wf(),
            old(self).advances_to(final(self)),
        decreases old(self).rem(), 430nat,
    {
        let lb = self.bump();
        let start = lb.span.start;
        let mut get: Option<PropertyHookGet> = None;
        let mut set: Option<PropertyHookSet> = None;
        while !self.eof() && !self.at(TokenKind::RBrace)
            invariant
                self.wf(),
                old(self).advances_to(self),
            decreases self.rem(),
        {
            let ghost it = *self;
            let k = self.kind();
            if k == TokenKind::KwGet {
                let kw = self.bump();
                let ghost m = *self;
                let body = self.parse_hook_body(last_end);
                proof {
                    Self::lemma_evolves_trans(&it, &m, self);
                }
                get = Some(PropertyHookGet { body, span: Span { start: kw.span.start, end: *last_end } });
            } else if k == TokenKind::KwSet {
                let kw = self.bump();
                let ghost s1 = *self;
                let param = if self.eat(TokenKind::LParen) {
                    let p = if self.at(TokenKind::RParen) {
                        None
                    } else {
                        self.parse_single_param()
                    };
                    self.expect_or_err(TokenKind::RParen, last_end);
                    p
                } else {
                    None
                };
                let ghost s2 = *self;
                let body = self.parse_hook_body(last_end);
                proof {
                    Self::lemma_evolves_trans(&s1, &s2, self);
                    Self::lemma_evolves_trans(&it, &s1, self);
                }
                set = Some(
                    PropertyHookSet { param, body, span: Span { start: kw.span.start, end: *last_end } },
                );
            } else if k == TokenKind::Semicolon {
                self.bump();
            } else {
                // Skip to the next `get`, `set`, `;` or `}`.
                let err_pos = self.current_span().start;
                let sync = vec![
                    TokenKind::KwGet,
                    TokenKind::KwSet,
                    TokenKind::Semicolon,
                    TokenKind::RBrace,
                ];
                self.error_and_recover(
                    Diagnostic::error_from_code(
                        ParseDiagnosticCode::ExpectedStatement,
                        Span::at(err_pos),
                    ),
                    &sync,
                );
            }
            proof {
                Self::lemma_evolves_trans(old(self), &it, self);
            }
        }
        let ghost s3 = *self;
        self.expect_or_err(TokenKind::RBrace, last_end);
        proof {
            Self::lemma_evolves_trans(old(self), &s3, self);
        }
        PropertyHooks { get, set, span: Span { start, end: *last_end } }
    }

    /// The body of a hook: `=> expr;` or a `{ ... }` block.
    fn parse_hook_body(&mut self, last_end: &mut u32) -> (b: HookBody)
        requires
            old(self).wf(),
        ensures
            final(self).wf(),
            old(self).evolves_to(final(self)),
            old(self).cur_kind() == TokenKind::FatArrow ==> b is Expr && old(self).advances_to(final(self)),
            old(self).cur_kind() == TokenKind::LBrace ==> (b matches HookBody::Block(block)
                && block.span == (Span { start: old(self).cur_token().span.start, end: *final(last_end) })),
            old(self).cur_kind() != TokenKind::FatArrow && old(self).cur_kind() != TokenKind::LBrace
                ==> b == HookBody::Expr(Expr::Error { span: Span::at_spec(old(self).cur_token().span.start) })
                && *final(last_end) == *old(last_end) && old(self).pushed_error(
                final(self),
                ParseDiagnosticCode::ExpectedExpression,
                Span::at_spec(old(self).cur_token().span.start),
            ) && final(self).position() == old(self).position(),
        decreases old(self).rem(), 420nat,
    {
        if self.eat(TokenKind::FatArrow) {
            let ghost s1 = *self;
            let expr = self.parse_expr_or_err(last_end);
            self.expect_or_err(TokenKind::Semicolon, last_end);
            proof {
                Self::lemma_evolves_trans(old(self), &s1, self);
            }
            HookBody::Expr(expr)
        } else if self.at(TokenKind::LBrace) {
            let lb = self.bump();
            let ghost s1 = *self;
            let r = match self.parse_block_after_lbrace(lb.span.start) {
                Some((block, end)) => {
                    *last_end = end;
                    HookBody::Block(block)
                },
                None => HookBody::Block(Block { items: Vec::new(), span: Span::at(lb.span.end) }),
            };
            proof {
                Self::lemma_evolves_trans(old(self), &s1, self);
            }
            r
        } else {
            let err_pos = self.current_span().start;
            self.error(
                Diagnostic::error_from_code(
                    ParseDiagnosticCode::ExpectedExpression,
                    Span::at(err_pos),
                ),
            );
            HookBody::Expr(Expr::Error { span: Span::at(err_pos) })
        }
    }
}

} // verus!
