//! Statements: the dispatch on the first token, and the loops that read a
//! run of statements.
mod attribute;
mod break_stmt;
mod class_decl;
mod const_decl;
mod declare;
pub mod echo;
mod enum_decl;
mod expr_stmt;
mod for_like;
mod function_decl;
mod global;
mod goto;
mod if_stmt;
mod interface_decl;
mod label;
mod namespace;
mod print;
mod return_stmt;
mod switch;
mod throw;
mod trait_decl;
mod try_catch;
mod unset;
mod use_decl;
mod varlike;

use crate::ast::{Block, Stmt};
use crate::diagnostics::{Diagnostic, ParseDiagnosticCode};
use crate::parser::expr::binop::{
    expr_chain_alone, expr_chain_end, expr_chain_valid, expr_chain_whole, flat_ops, lemma_ops_read_widen, ops_read,
};
use crate::parser::expr::{
    cond_else_pos, expr_grouped, prefix_term_end, single_token_term, term_alone, ternary_terms,
    ternary_terms_clean, ternary_terms_expr, unary_alone, unary_term,
};
use crate::parser::stmt::echo::{echo_next, echo_ok};
use crate::parser::{following_token, next_position, nth_kind_from, token_at, Parser};
use crate::span::Span;
use crate::token::TokenKind;
use vstd::prelude::*;

verus! {

/// `public`, `private` and `protected`, which start a class member and
/// never a statement.
pub open spec fn spec_is_visibility_kw(k: TokenKind) -> bool {
    ||| k == TokenKind::KwPublic
    ||| k == TokenKind::KwPrivate
    ||| k == TokenKind::KwProtected
}

/// An expression statement holds an expression grouped as `expr_grouped`
/// says; other statements are not looked into.
pub open spec fn stmt_expr_grouped(s: Stmt) -> bool {
    match s {
        Stmt::ExprStmt { expr, .. } => expr_grouped(expr),
        _ => true,
    }
}

/// Keywords that always start a statement of one kind.
pub open spec fn is_stmt_keyword(k: TokenKind) -> bool {
    ||| k == TokenKind::KwIf
    ||| k == TokenKind::KwWhile
    ||| k == TokenKind::KwDo
    ||| k == TokenKind::KwFor
    ||| k == TokenKind::KwForeach
    ||| k == TokenKind::KwSwitch
    ||| k == TokenKind::KwTry
    ||| k == TokenKind::KwReturn
    ||| k == TokenKind::KwThrow
    ||| k == TokenKind::KwBreak
    ||| k == TokenKind::KwContinue
    ||| k == TokenKind::KwEcho
    ||| k == TokenKind::KwGlobal
    ||| k == TokenKind::KwUnset
    ||| k == TokenKind::KwConst
    ||| k == TokenKind::KwDeclare
    ||| k == TokenKind::KwNamespace
    ||| k == TokenKind::KwUse
    ||| k == TokenKind::KwInterface
    ||| k == TokenKind::KwTrait
    ||| k == TokenKind::KwEnum
    ||| k == TokenKind::KwClass
}

/// `s` is the kind of statement that the keyword `k` starts.
pub open spec fn stmt_of_keyword(k: TokenKind, s: Stmt) -> bool {
    match k {
        TokenKind::KwIf => s is If,
        TokenKind::KwWhile => s is While,
        TokenKind::KwDo => s is DoWhile,
        TokenKind::KwFor => s is For,
        TokenKind::KwForeach => s is Foreach,
        TokenKind::KwSwitch => s is Switch,
        TokenKind::KwTry => s is Try,
        TokenKind::KwReturn => s is Return,
        TokenKind::KwThrow => s is Throw,
        TokenKind::KwBreak => s is Break,
        TokenKind::KwContinue => s is Continue,
        TokenKind::KwEcho => s is Echo,
        TokenKind::KwGlobal => s is Global,
        TokenKind::KwUnset => s is Unset,
        TokenKind::KwConst => s is ConstDecl,
        TokenKind::KwDeclare => s is Declare,
        TokenKind::KwNamespace => s is Namespace,
        TokenKind::KwUse => s is Use,
        TokenKind::KwInterface => s is Interface,
        TokenKind::KwTrait => s is Trait,
        TokenKind::KwEnum => s is Enum,
        TokenKind::KwClass => s is Class,
        _ => true,
    }
}

impl<'src> Parser<'src> {
    /// One statement. `None`, with the cursor where the statement would
    /// have started, when none starts at the current token: at `}`, at a
    /// member modifier, or where no expression can be read.
    #[verifier::spinoff_prover]
    #[verifier::rlimit(60)]
    pub fn parse_stmt(&mut self) -> (r: Option<Stmt>)
        requires
            old(self).wf(),
        ensures
            final(self).wf(),
            old(self).evolves_to(final(self)),
            r is Some ==> old(self).advances_to(final(self)),
            old(self).cur_kind() == TokenKind::RBrace ==> r is None && *final(self) == *old(self),
            spec_is_visibility_kw(old(self).cur_kind()) ==> r is None,
            old(self).cur_kind() == TokenKind::HtmlChunk ==> r == Some(
                Stmt::HtmlChunk { span: old(self).cur_token().span },
            ),
            old(self).cur_kind() == TokenKind::Semicolon ==> r == Some(
                Stmt::Noop { span: old(self).cur_token().span },
            ),
            is_stmt_keyword(old(self).cur_kind()) ==> (r matches Some(s) && stmt_of_keyword(
                old(self).cur_kind(),
                s,
            ) && s.spec_span().start == old(self).cur_token().span.start),
            final(self).diags().len() == old(self).diags().len() ==> (r matches Some(s)
                ==> stmt_expr_grouped(s)),
            r matches Some(Stmt::ExprStmt { expr, .. }) ==> ops_read(
                old(self).toks(),
                old(self).position() as int,
                final(self).position() as int,
                flat_ops(expr),
            ),
            old(self).cur_kind() == TokenKind::KwFunction && nth_kind_from(
                old(self).toks(),
                old(self).position() as int,
                1,
            ) != TokenKind::LParen && nth_kind_from(old(self).toks(), old(self).position() as int, 1)
                != TokenKind::Amp ==> (r matches Some(s) && s is Function && s.spec_span().start
                == old(self).cur_token().span.start),
            old(self).cur_kind() == TokenKind::KwStatic && nth_kind_from(
                old(self).toks(),
                old(self).position() as int,
                1,
            ) == TokenKind::VarIdent ==> (r matches Some(s) && s is Noop),
            unary_alone(old(self)) && token_at(old(self).toks(), prefix_term_end(old(self))).kind
                == TokenKind::Semicolon ==> r == Some(
                Stmt::ExprStmt {
                    expr: unary_term(old(self)),
                    span: Span {
                        start: old(self).cur_token().span.start,
                        end: token_at(old(self).toks(), prefix_term_end(old(self))).span.end,
                    },
                },
            ),
            expr_chain_alone(old(self)) && final(self).diags().len() == old(self).diags().len() ==> (
            r matches Some(Stmt::ExprStmt { expr, .. }) && expr_chain_whole(
                old(self),
                expr,
                expr_chain_end(old(self)),
            )),
            expr_chain_alone(old(self)) && expr_chain_valid(old(self)) && (token_at(
                old(self).toks(),
                expr_chain_end(old(self)) as int,
            ).kind == TokenKind::Semicolon || token_at(
                old(self).toks(),
                expr_chain_end(old(self)) as int,
            ).kind == TokenKind::PhpClose || token_at(
                old(self).toks(),
                expr_chain_end(old(self)) as int,
            ).kind == TokenKind::Eof) ==> final(self).diags() == old(self).diags(),
            expr_chain_alone(old(self)) && expr_chain_valid(old(self)) && token_at(
                old(self).toks(),
                expr_chain_end(old(self)) as int,
            ).kind == TokenKind::Semicolon ==> final(self).position() == next_position(
                old(self).toks(),
                expr_chain_end(old(self)),
            ),
            old(self).cur_kind() == TokenKind::AttrOpen ==> (r matches Some(Stmt::Class { attributes: a, .. })
                ==> a@.len() > 0),
            old(self).cur_kind() != TokenKind::AttrOpen ==> (r matches Some(Stmt::Class { attributes: a, .. })
                ==> a@.len() == 0),
            term_alone(old(self)) && following_token(old(self)).kind == TokenKind::Semicolon ==> r
                == Some(
                Stmt::ExprStmt {
                    expr: single_token_term(old(self))->0,
                    span: Span {
                        start: old(self).cur_token().span.start,
                        end: following_token(old(self)).span.end,
                    },
                },
            ),
            echo_ok(old(self).toks(), old(self).src_bytes(), old(self).position()) ==> final(self).diags()
                == old(self).diags() && final(self).position() == echo_next(
                old(self).toks(),
                old(self).src_bytes(),
                old(self).position(),
            ),
            ({
                let toks = old(self).toks();
                let e = next_position(toks, cond_else_pos(old(self)));
                let k = token_at(toks, e).kind;
                ternary_terms(old(self)) && (k == TokenKind::Semicolon || k == TokenKind::PhpClose || k
                    == TokenKind::Eof) ==> (r matches Some(Stmt::ExprStmt { expr, .. }) && expr
                    == ternary_terms_expr(old(self))) && (ternary_terms_clean(old(self))
                    ==> final(self).diags() == old(self).diags()) && (k == TokenKind::Semicolon
                    ==> final(self).position() == next_position(toks, e as nat))
            }),
        decreases old(self).rem(), 800nat,
    {
        if self.at(TokenKind::HtmlChunk) {
            let tok = self.bump();
            return Some(Stmt::HtmlChunk { span: tok.span });
        }
        if self.at(TokenKind::EchoOpen) {
            let tok = self.bump();
            let sp = tok.span;
            let ghost s1 = *self;
            let r = self.parse_echo_open_stmt(sp);
            proof {
                Self::lemma_evolves_trans(old(self), &s1, self);
            }
            return r;
        }
        if self.at(TokenKind::RBrace) {
            return None;
        }
        let ghost s0 = *self;
        let attributes = if self.at(TokenKind::AttrOpen) {
            match self.parse_attribute_group_list() {
                Some(a) => a,
                None => return None,
            }
        } else {
            Vec::new()
        };
        let ghost s1 = *self;
        let r = self.parse_stmt_after_attributes(attributes);
        let ghost rg0 = r;
        proof {
            Self::lemma_evolves_trans(&s0, &s1, self);
            if s1 != s0 {
                assert(s0.advances_to(&s1));
            }
            let rg = rg0;
            if let Some(Stmt::ExprStmt { expr, .. }) = rg {
                lemma_ops_read_widen(
                    s1.toks(),
                    s1.position() as int,
                    self.position() as int,
                    s0.position() as int,
                    self.position() as int,
                    flat_ops(expr),
                );
            }
        }
        r
    }

    /// The part of `parse_stmt` after any leading attributes.
    #[verifier::spinoff_prover]
    #[verifier::rlimit(60)]
    fn parse_stmt_after_attributes(
        &mut self,
        attributes: Vec<crate::ast::AttributeGroup>,
    ) -> (r: Option<Stmt>)
        requires
            old(self).wf(),
        ensures
            final(self).wf(),
            old(self).evolves_to(final(self)),
            r is Some ==> old(self).advances_to(final(self)),
            spec_is_visibility_kw(old(self).cur_kind()) ==> r is None,
            old(self).cur_kind() == TokenKind::Semicolon ==> r == Some(
                Stmt::Noop { span: old(self).cur_token().span },
            ),
            is_stmt_keyword(old(self).cur_kind()) ==> (r matches Some(s) && stmt_of_keyword(
                old(self).cur_kind(),
                s,
            ) && s.spec_span().start == old(self).cur_token().span.start),
            final(self).diags().len() == old(self).diags().len() ==> (r matches Some(s)
                ==> stmt_expr_grouped(s)),
            r matches Some(Stmt::ExprStmt { expr, .. }) ==> ops_read(
                old(self).toks(),
                old(self).position() as int,
                final(self).position() as int,
                flat_ops(expr),
            ),
            old(self).cur_kind() == TokenKind::KwFunction && nth_kind_from(
                old(self).toks(),
                old(self).position() as int,
                1,
            ) != TokenKind::LParen && nth_kind_from(old(self).toks(), old(self).position() as int, 1)
                != TokenKind::Amp ==> (r matches Some(s) && s is Function && s.spec_span().start
                == old(self).cur_token().span.start),
            old(self).cur_kind() == TokenKind::KwStatic && nth_kind_from(
                old(self).toks(),
                old(self).position() as int,
                1,
            ) == TokenKind::VarIdent ==> (r matches Some(s) && s is Noop),
            unary_alone(old(self)) && token_at(old(self).toks(), prefix_term_end(old(self))).kind
                == TokenKind::Semicolon ==> r == Some(
                Stmt::ExprStmt {
                    expr: unary_term(old(self)),
                    span: Span {
                        start: old(self).cur_token().span.start,
                        end: token_at(old(self).toks(), prefix_term_end(old(self))).span.end,
                    },
                },
            ),
            expr_chain_alone(old(self)) && final(self).diags().len() == old(self).diags().len() ==> (
            r matches Some(Stmt::ExprStmt { expr, .. }) && expr_chain_whole(
                old(self),
                expr,
                expr_chain_end(old(self)),
            )),
            expr_chain_alone(old(self)) && expr_chain_valid(old(self)) && (token_at(
                old(self).toks(),
                expr_chain_end(old(self)) as int,
            ).kind == TokenKind::Semicolon || token_at(
                old(self).toks(),
                expr_chain_end(old(self)) as int,
            ).kind == TokenKind::PhpClose || token_at(
                old(self).toks(),
                expr_chain_end(old(self)) as int,
            ).kind == TokenKind::Eof) ==> final(self).diags() == old(self).diags(),
            expr_chain_alone(old(self)) && expr_chain_valid(old(self)) && token_at(
                old(self).toks(),
                expr_chain_end(old(self)) as int,
            ).kind == TokenKind::Semicolon ==> final(self).position() == next_position(
                old(self).toks(),
                expr_chain_end(old(self)),
            ),
            r matches Some(Stmt::Class { attributes: a, .. }) ==> a@ == attributes@,
            term_alone(old(self)) && following_token(old(self)).kind == TokenKind::Semicolon ==> r
                == Some(
                Stmt::ExprStmt {
                    expr: single_token_term(old(self))->0,
                    span: Span {
                        start: old(self).cur_token().span.start,
                        end: following_token(old(self)).span.end,
                    },
                },
            ),
            echo_ok(old(self).toks(), old(self).src_bytes(), old(self).position()) ==> final(self).diags()
                == old(self).diags() && final(self).position() == echo_next(
                old(self).toks(),
                old(self).src_bytes(),
                old(self).position(),
            ),
            ({
                let toks = old(self).toks();
                let e = next_position(toks, cond_else_pos(old(self)));
                let k = token_at(toks, e).kind;
                ternary_terms(old(self)) && (k == TokenKind::Semicolon || k == TokenKind::PhpClose || k
                    == TokenKind::Eof) ==> (r matches Some(Stmt::ExprStmt { expr, .. }) && expr
                    == ternary_terms_expr(old(self))) && (ternary_terms_clean(old(self))
                    ==> final(self).diags() == old(self).diags()) && (k == TokenKind::Semicolon
                    ==> final(self).position() == next_position(toks, e as nat))
            }),
        decreases old(self).rem(), 790nat,
    {
        if self.at(TokenKind::KwAbstract) || self.at(TokenKind::KwFinal) || self.at(
            TokenKind::KwReadonly,
        ) || self.at(TokenKind::KwClass) {
            let save_pos = self.cursor();
            let ghost s0 = *self;
            let flags = self.parse_class_flags();
            if self.at(TokenKind::KwClass) {
                let ghost s1 = *self;
                let r = self.parse_class_stmt(flags, attributes);
                proof {
                    Self::lemma_evolves_trans(&s0, &s1, self);
                }
                return r;
            }
            let ghost s1 = *self;
            proof {
                Self::lemma_can_reset(&s0, &s1);
            }
            self.rewind(save_pos);
            proof {
                Self::lemma_rewound(&s0, &s1, self);
            }
        }
        let ghost s2 = *self;
        let r = self.parse_keyword_stmt();
        proof {
            Self::lemma_evolves_trans(old(self), &s2, self);
        }
        r
    }

    /// The statements that start with a keyword or a fixed token, then
    /// expression statements.
    #[verifier::spinoff_prover]
    #[verifier::rlimit(60)]
    fn parse_keyword_stmt(&mut self) -> (r: Option<Stmt>)
        requires
            old(self).wf(),
        ensures
            final(self).wf(),
            old(self).evolves_to(final(self)),
            r is Some ==> old(self).advances_to(final(self)),
            spec_is_visibility_kw(old(self).cur_kind()) ==> r is None,
            old(self).cur_kind() == TokenKind::Semicolon ==> r == Some(
                Stmt::Noop { span: old(self).cur_token().span },
            ),
            old(self).cur_kind() != TokenKind::KwClass && is_stmt_keyword(old(self).cur_kind()) ==> (
            r matches Some(s) && stmt_of_keyword(old(self).cur_kind(), s) && s.spec_span().start
                == old(self).cur_token().span.start),
            final(self).diags().len() == old(self).diags().len() ==> (r matches Some(s)
                ==> stmt_expr_grouped(s)),
            r matches Some(Stmt::ExprStmt { expr, .. }) ==> ops_read(
                old(self).toks(),
                old(self).position() as int,
                final(self).position() as int,
                flat_ops(expr),
            ),
            old(self).cur_kind() == TokenKind::KwFunction && nth_kind_from(
                old(self).toks(),
                old(self).position() as int,
                1,
            ) != TokenKind::LParen && nth_kind_from(old(self).toks(), old(self).position() as int, 1)
                != TokenKind::Amp ==> (r matches Some(s) && s is Function && s.spec_span().start
                == old(self).cur_token().span.start),
            old(self).cur_kind() == TokenKind::KwStatic && nth_kind_from(
                old(self).toks(),
                old(self).position() as int,
                1,
            ) == TokenKind::VarIdent ==> (r matches Some(s) && s is Noop),
            unary_alone(old(self)) && token_at(old(self).toks(), prefix_term_end(old(self))).kind
                == TokenKind::Semicolon ==> r == Some(
                Stmt::ExprStmt {
                    expr: unary_term(old(self)),
                    span: Span {
                        start: old(self).cur_token().span.start,
                        end: token_at(old(self).toks(), prefix_term_end(old(self))).span.end,
                    },
                },
            ),
            expr_chain_alone(old(self)) && final(self).diags().len() == old(self).diags().len() ==> (
            r matches Some(Stmt::ExprStmt { expr, .. }) && expr_chain_whole(
                old(self),
                expr,
                expr_chain_end(old(self)),
            )),
            expr_chain_alone(old(self)) && expr_chain_valid(old(self)) && (token_at(
                old(self).toks(),
                expr_chain_end(old(self)) as int,
            ).kind == TokenKind::Semicolon || token_at(
                old(self).toks(),
                expr_chain_end(old(self)) as int,
            ).kind == TokenKind::PhpClose || token_at(
                old(self).toks(),
                expr_chain_end(old(self)) as int,
            ).kind == TokenKind::Eof) ==> final(self).diags() == old(self).diags(),
            expr_chain_alone(old(self)) && expr_chain_valid(old(self)) && token_at(
                old(self).toks(),
                expr_chain_end(old(self)) as int,
            ).kind == TokenKind::Semicolon ==> final(self).position() == next_position(
                old(self).toks(),
                expr_chain_end(old(self)),
            ),
            !(r matches Some(Stmt::Class { .. })),
            term_alone(old(self)) && following_token(old(self)).kind == TokenKind::Semicolon ==> r
                == Some(
                Stmt::ExprStmt {
                    expr: single_token_term(old(self))->0,
                    span: Span {
                        start: old(self).cur_token().span.start,
                        end: following_token(old(self)).span.end,
                    },
                },
            ),
            echo_ok(old(self).toks(), old(self).src_bytes(), old(self).position()) ==> final(self).diags()
                == old(self).diags() && final(self).position() == echo_next(
                old(self).toks(),
                old(self).src_bytes(),
                old(self).position(),
            ),
            ({
                let toks = old(self).toks();
                let e = next_position(toks, cond_else_pos(old(self)));
                let k = token_at(toks, e).kind;
                ternary_terms(old(self)) && (k == TokenKind::Semicolon || k == TokenKind::PhpClose || k
                    == TokenKind::Eof) ==> (r matches Some(Stmt::ExprStmt { expr, .. }) && expr
                    == ternary_terms_expr(old(self))) && (ternary_terms_clean(old(self))
                    ==> final(self).diags() == old(self).diags()) && (k == TokenKind::Semicolon
                    ==> final(self).position() == next_position(toks, e as nat))
            }),
        decreases old(self).rem(), 780nat,
    {
        if self.at(TokenKind::KwConst) {
            return self.parse_const_decl_stmt();
        }
        if self.at(TokenKind::KwDeclare) {
            return self.parse_declare_stmt();
        }
        if self.at(TokenKind::KwDo) {
            return self.parse_do_while_stmt();
        }
        if self.at(TokenKind::KwEcho) {
            return self.parse_echo_stmt();
        }
        if self.at(TokenKind::KwEnum) {
            return self.parse_enum_stmt();
        }
        if self.at(TokenKind::KwFor) {
            return self.parse_for_stmt();
        }
        if self.at(TokenKind::KwForeach) {
            return self.parse_foreach_stmt();
        }
        if self.at(TokenKind::KwFunction) {
            // `function (...)` and `function &(...)` start a closure.
            return if self.at_nth(1, TokenKind::LParen) || (self.at_nth(1, TokenKind::Amp)
                && self.at_nth(2, TokenKind::LParen)) {
                self.parse_expr_stmt()
            } else {
                self.parse_function_stmt()
            };
        }
        if self.at(TokenKind::KwGlobal) {
            return self.parse_global_stmt();
        }
        if self.at(TokenKind::KwIf) {
            return self.parse_if_stmt();
        }
        if self.at(TokenKind::KwInterface) {
            return self.parse_interface_stmt();
        }
        if self.at(TokenKind::KwNamespace) {
            return self.parse_namespace_stmt();
        }
        if self.at(TokenKind::KwPrint) {
            return self.parse_expr_stmt();
        }
        if self.at(TokenKind::KwReturn) {
            return self.parse_return_stmt();
        }
        if self.at(TokenKind::KwThrow) {
            return self.parse_throw_stmt();
        }
        if self.at(TokenKind::KwTrait) {
            return self.parse_trait_stmt();
        }
        if self.at(TokenKind::KwTry) {
            return self.parse_try_catch_stmt();
        }
        if self.at(TokenKind::KwUnset) {
            return self.parse_unset_stmt();
        }
        if self.at(TokenKind::KwUse) {
            return self.parse_use_stmt();
        }
        if self.at(TokenKind::KwWhile) {
            return self.parse_while_stmt();
        }
        if self.at(TokenKind::KwSwitch) {
            return self.parse_switch_stmt();
        }
        if let Some(semi_token) = self.expect(TokenKind::Semicolon) {
            return Some(self.parse_empty_stmt(semi_token.span));
        }
        if self.at(TokenKind::KwBreak) {
            return self.parse_break_stmt();
        }
        if self.at(TokenKind::KwContinue) {
            return self.parse_continue_stmt();
        }
        if self.at(TokenKind::Ident) && self.at_nth(1, TokenKind::Colon) {
            return self.parse_label_stmt();
        }
        if self.at(TokenKind::KwGoto) {
            return self.parse_goto_stmt();
        }
        if self.at(TokenKind::KwStatic) && self.at_nth(1, TokenKind::VarIdent) {
            return Some(self.parse_static_var_stmt());
        }
        if self.at(TokenKind::KwPublic) || self.at(TokenKind::KwPrivate) || self.at(
            TokenKind::KwProtected,
        ) || self.at(TokenKind::KwStatic) || self.at(TokenKind::KwAbstract) || self.at(
            TokenKind::KwFinal,
        ) || self.at(TokenKind::KwReadonly) {
            return None;
        }
        self.parse_expr_stmt()
    }

    /// `static $a = 1, $b;`, read as a statement that does nothing.
    fn parse_static_var_stmt(&mut self) -> (r: Stmt)
        requires
            old(self).wf(),
            old(self).cur_kind() == TokenKind::KwStatic,
        ensures
            final(self).wf(),
            old(self).advances_to(final(self)),
            r is Noop,
        decreases old(self).rem(), 700nat,
    {
        let static_tok = self.bump();
        let start = static_tok.span.start;
        let mut last_end = static_tok.span.end;
        loop
            invariant
                self.wf(),
                old(self).advances_to(self),
            decreases self.rem(),
        {
            let ghost it = *self;
            if self.at(TokenKind::VarIdent) {
                let var_tok = self.bump();
                last_end = var_tok.span.end;
                let ghost s1 = *self;
                if self.eat(TokenKind::Eq) {
                    self.parse_expr_or_err(&mut last_end);
                }
                proof {
                    Self::lemma_evolves_trans(&it, &s1, self);
                }
            } else {
                self.error(
                    Diagnostic::error_from_code(
                        ParseDiagnosticCode::ExpectedIdent,
                        Span::at(last_end),
                    ),
                );
                proof {
                    Self::lemma_evolves_trans(old(self), &it, self);
                }
                break;
            }
            let ghost s2 = *self;
            if self.eat(TokenKind::Comma) {
                proof {
                    Self::lemma_evolves_trans(&it, &s2, self);
                    Self::lemma_evolves_trans(old(self), &it, self);
                }
                continue;
            }
            proof {
                Self::lemma_evolves_trans(old(self), &it, self);
            }
            break;
        }
        let ghost s3 = *self;
        self.expect_or_err(TokenKind::Semicolon, &mut last_end);
        proof {
            Self::lemma_evolves_trans(old(self), &s3, self);
        }
        Stmt::Noop { span: Span { start, end: last_end } }
    }

    /// Statements up to a token in `stop` or the end of the input, stepping
    /// over `?>`, inline HTML and `<?php`. A token where no statement starts
    /// is skipped. Returns the block and the end of the last thing read.
    pub(crate) fn parse_until_any(&mut self, stop: &[TokenKind]) -> (r: (Block, u32))
        requires
            old(self).wf(),
        ensures
            final(self).wf(),
            old(self).evolves_to(final(self)),
            final(self).cur_kind() == TokenKind::Eof || stop@.contains(final(self).cur_kind()),
        decreases old(self).rem(), 900nat,
    {
        let start = self.current_span().start;
        let mut items: Vec<Stmt> = Vec::new();
        let mut end = start;
        loop
            invariant
                self.wf(),
                old(self).evolves_to(self),
            ensures
                self.wf(),
                old(self).evolves_to(self),
                self.cur_kind() == TokenKind::Eof || stop@.contains(self.cur_kind()),
            decreases self.rem(),
        {
            if self.eof() || self.at_any(stop) {
                break;
            }
            let ghost it = *self;
            if self.at(TokenKind::PhpClose) || self.at(TokenKind::HtmlChunk) {
                self.bounce_out_of_php();
                proof {
                    Self::lemma_evolves_trans(old(self), &it, self);
                }
                if self.eof() || self.at_any(stop) {
                    break;
                }
                continue;
            }
            let before_pos = self.cursor();
            match self.parse_stmt() {
                Some(stmt) => {
                    end = stmt.span().end;
                    items.push(stmt);
                },
                None => {
                    let sp = self.current_span();
                    let ghost mid = *self;
                    if !self.eof() {
                        let _ = self.advance();
                    }
                    end = sp.end;
                    proof {
                        Self::lemma_evolves_trans(&it, &mid, self);
                    }
                },
            }
            if self.cursor() == before_pos {
                if self.eof() {
                    proof {
                        Self::lemma_evolves_trans(old(self), &it, self);
                    }
                    break;
                }
                let sp = self.current_span();
                let ghost s3 = *self;
                let _ = self.advance();
                end = sp.end;
                proof {
                    Self::lemma_evolves_trans(&it, &s3, self);
                }
            } else {
                proof {
                    Self::lemma_progress(&it, self);
                }
            }
            proof {
                Self::lemma_evolves_trans(old(self), &it, self);
            }
        }
        (Block { items, span: Span { start, end } }, end)
    }

    /// Steps over `?>`, the inline HTML after it, and the `<?php` that
    /// resumes code.
    fn bounce_out_of_php(&mut self)
        requires
            old(self).wf(),
            old(self).cur_kind() == TokenKind::PhpClose || old(self).cur_kind()
                == TokenKind::HtmlChunk,
        ensures
            final(self).wf(),
            old(self).same_but_cursor(final(self)),
            old(self).advances_to(final(self)),
    {
        let ghost s0 = *self;
        if self.at(TokenKind::PhpClose) {
            let _ = self.bump();
        }
        while self.at(TokenKind::HtmlChunk)
            invariant
                self.wf(),
                s0.same_but_cursor(self),
                s0.evolves_to(self),
                *self == s0 ==> s0.cur_kind() == TokenKind::HtmlChunk,
                *self != s0 ==> s0.advances_to(self),
            decreases self.rem(),
        {
            let ghost it = *self;
            let _ = self.bump();
            proof {
                Self::lemma_evolves_trans(&s0, &it, self);
            }
        }
        let ghost s1 = *self;
        if self.at(TokenKind::PhpOpen) {
            let _ = self.bump();
            proof {
                Self::lemma_evolves_trans(&s0, &s1, self);
            }
        }
    }
}

} // verus!
