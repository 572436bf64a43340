//! `echo` statements and `<?= ... ?>`.
use crate::ast::{Expr, Stmt};
use crate::diagnostics::{Diagnostic, ParseDiagnosticCode};
use crate::parser::expr::binop::{lemma_pos_after_succ, lemma_term_alone_chain, pos_after};
use crate::parser::expr::{
    lemma_term_before_end, single_token_term, spec_ends_expr, token_term, token_term_clean,
};
use crate::token::Token;
use crate::parser::{following_token, next_position, token_at, Parser};
use crate::span::Span;
use crate::token::TokenKind;
use vstd::prelude::*;

verus! {

/// The `i`-th term of a comma-separated list of terms from position `q`.
pub open spec fn list_term(toks: Seq<Token>, bytes: Seq<u8>, q: nat, i: nat) -> Option<Expr> {
    token_term(token_at(toks, pos_after(toks, q, 2 * i) as int), bytes)
}

/// The token after the `i`-th term of a list from `q`.
pub open spec fn list_sep(toks: Seq<Token>, q: nat, i: nat) -> TokenKind {
    token_at(toks, pos_after(toks, q, 2 * i + 1) as int).kind
}

/// From position `q` stand `n` integers or variables separated by commas,
/// and then a token that closes the list: `1, $a, 3;`.
pub open spec fn term_list(toks: Seq<Token>, bytes: Seq<u8>, q: nat, n: nat) -> bool {
    &&& n > 0
    &&& forall|i: nat| i < n ==> (#[trigger] list_term(toks, bytes, q, i)) is Some
    &&& forall|i: nat| i + 1 < n ==> #[trigger] list_sep(toks, q, i) == TokenKind::Comma
    &&& list_sep(toks, q, (n - 1) as nat) != TokenKind::Comma
    &&& spec_ends_expr(list_sep(toks, q, (n - 1) as nat))
}

/// A list of terms starts at `q`.
pub open spec fn is_term_list(toks: Seq<Token>, bytes: Seq<u8>, q: nat) -> bool {
    exists|n: nat| term_list(toks, bytes, q, n)
}

/// The length of the list of terms at `q`.
pub open spec fn term_list_len(toks: Seq<Token>, bytes: Seq<u8>, q: nat) -> nat {
    choose|n: nat| term_list(toks, bytes, q, n)
}

/// The `i`-th term of the list at `q` reads without a diagnostic.
pub open spec fn list_term_clean(toks: Seq<Token>, bytes: Seq<u8>, q: nat, i: nat) -> bool {
    token_term_clean(token_at(toks, pos_after(toks, q, 2 * i) as int), bytes)
}

/// A list of terms at `q` that is a whole, well-formed `echo` operand
/// list: every term reads cleanly and the list ends with `;`, `?>` or the
/// end of the input.
pub open spec fn clean_term_list(toks: Seq<Token>, bytes: Seq<u8>, q: nat) -> bool {
    let n = term_list_len(toks, bytes, q);
    let k = list_sep(toks, q, (n - 1) as nat);
    &&& is_term_list(toks, bytes, q)
    &&& forall|i: nat| i < n ==> #[trigger] list_term_clean(toks, bytes, q, i)
    &&& (k == TokenKind::Semicolon || k == TokenKind::PhpClose || k == TokenKind::Eof)
}

/// A well-formed `echo` of a list of terms stands at position `q`.
pub open spec fn echo_ok(toks: Seq<Token>, bytes: Seq<u8>, q: nat) -> bool {
    &&& token_at(toks, q as int).kind == TokenKind::KwEcho
    &&& clean_term_list(toks, bytes, next_position(toks, q) as nat)
}

/// The position after the `echo` statement at `q`: past its `;`, or at the
/// `?>` or the end of the input that closes it.
pub open spec fn echo_next(toks: Seq<Token>, bytes: Seq<u8>, q: nat) -> int {
    let q1 = next_position(toks, q) as nat;
    let e = pos_after(toks, q1, (2 * term_list_len(toks, bytes, q1) - 1) as nat);
    if token_at(toks, e as int).kind == TokenKind::Semicolon {
        next_position(toks, e)
    } else {
        e as int
    }
}

impl<'src> Parser<'src> {
    /// `echo a, b, ...;`. The `;` may be left out before `?>` and at the
    /// end of the input.
    #[verifier::spinoff_prover]
    pub fn parse_echo_stmt(&mut self) -> (r: Option<Stmt>)
        requires
            old(self).wf(),
            old(self).cur_kind() == TokenKind::KwEcho,
        ensures
            final(self).wf(),
            old(self).advances_to(final(self)),
            r matches Some(Stmt::Echo { .. }),
            r matches Some(s) && s.spec_span().start == old(self).cur_token().span.start,
            final(self).diags().len() == old(self).diags().len() ==> (r matches Some(
                Stmt::Echo { exprs, .. },
            ) && exprs@.len() > 0),
            ({
                let toks = old(self).toks();
                let t = token_term(following_token(old(self)), old(self).src_bytes());
                let k = token_at(
                    toks,
                    next_position(toks, next_position(toks, old(self).position()) as nat),
                ).kind;
                t is Some && spec_ends_expr(k) ==> (r matches Some(Stmt::Echo { exprs, .. })
                    && exprs@.len() > 0 && exprs@[0] == t->0)
            }),
            ({
                let toks = old(self).toks();
                let bytes = old(self).src_bytes();
                let q = next_position(toks, old(self).position()) as nat;
                is_term_list(toks, bytes, q) ==> (r matches Some(Stmt::Echo { exprs, .. })
                    && exprs@.len() == term_list_len(toks, bytes, q) && forall|i: int|
                    0 <= i < exprs@.len() ==> exprs@[i] == list_term(toks, bytes, q, i as nat)->0)
            }),
            ({
                let toks = old(self).toks();
                let bytes = old(self).src_bytes();
                let q = next_position(toks, old(self).position()) as nat;
                clean_term_list(toks, bytes, q) ==> final(self).diags() == old(self).diags()
                    && final(self).position() == echo_next(toks, bytes, old(self).position())
            }),
        decreases old(self).rem(), 700nat,
    {
        let echo_token = self.bump();
        let start_span = echo_token.span;
        let mut last_end = echo_token.span.end;
        let mut exprs: Vec<Expr> = Vec::new();
        let ghost s1 = *self;
        proof {
            s1.lemma_cur_token_at();
            Self::lemma_same_source_bytes(old(self), &s1);
            if single_token_term(&s1) is Some && spec_ends_expr(following_token(&s1).kind) {
                lemma_term_before_end(&s1);
            }
        }
        let ghost toks = s1.toks();
        let ghost bytes = s1.src_bytes();
        let ghost q = s1.position();
        let ghost n = term_list_len(toks, bytes, q);
        proof {
            if is_term_list(toks, bytes, q) {
                assert(term_list(toks, bytes, q, n));
                assert(pos_after(toks, q, 0) == q);
                lemma_pos_after_succ(toks, q, 0);
                assert(list_term(toks, bytes, q, 0) is Some);
                assert(following_token(&s1) == token_at(toks, pos_after(toks, q, 1) as int));
                assert(spec_ends_expr(list_sep(toks, q, 0))) by {
                    if n > 1 {
                        assert(list_sep(toks, q, 0) == TokenKind::Comma);
                    }
                }
                lemma_term_before_end(&s1);
                if clean_term_list(toks, bytes, q) {
                    assert(list_term_clean(toks, bytes, q, 0));
                    lemma_term_alone_chain(&s1);
                }
            }
        }
        match self.parse_expr() {
            Some(first) => {
                last_end = first.span().end;
                let ghost first0 = first;
                exprs.push(first);
                proof {
                    if is_term_list(toks, bytes, q) {
                        lemma_pos_after_succ(toks, q, 0);
                        assert(exprs@[0] == list_term(toks, bytes, q, 0)->0);
                    }
                }
                loop
                    invariant
                        self.wf(),
                        s1.evolves_to(self),
                        old(self).advances_to(self),
                        exprs@.len() > 0,
                        exprs@[0] == first0,
                        toks == s1.toks(),
                        bytes == s1.src_bytes(),
                        q == s1.position(),
                        n == term_list_len(toks, bytes, q),
                        is_term_list(toks, bytes, q) ==> exprs@.len() <= n && (forall|i: int|
                            0 <= i < exprs@.len() ==> exprs@[i] == list_term(toks, bytes, q, i as nat)->0)
                            && self.position() == pos_after(toks, q, (2 * exprs@.len() - 1) as nat),
                        clean_term_list(toks, bytes, q) ==> self.diags() == old(self).diags(),
                    ensures
                        self.wf(),
                        s1.evolves_to(self),
                        old(self).advances_to(self),
                        exprs@.len() > 0,
                        exprs@[0] == first0,
                        is_term_list(toks, bytes, q) ==> exprs@.len() == n && (forall|i: int|
                            0 <= i < exprs@.len() ==> exprs@[i] == list_term(toks, bytes, q, i as nat)->0)
                            && self.position() == pos_after(toks, q, (2 * exprs@.len() - 1) as nat),
                        clean_term_list(toks, bytes, q) ==> self.diags() == old(self).diags(),
                    decreases self.rem(),
                {
                    let ghost it = *self;
                    proof {
                        it.lemma_cur_token_at();
                        if is_term_list(toks, bytes, q) {
                            assert(term_list(toks, bytes, q, n));
                            let m = exprs@.len();
                            assert(it.cur_kind() == list_sep(toks, q, (m - 1) as nat)) by {
                                assert((2 * (m - 1) + 1) as nat == (2 * m - 1) as nat);
                            }
                        }
                    }
                    let comma_span = self.current_span();
                    if !self.eat(TokenKind::Comma) {
                        break;
                    }
                    last_end = comma_span.end;
                    let ghost s_e = *self;
                    proof {
                        s_e.lemma_cur_token_at();
                        Self::lemma_same_source_bytes(&s1, &s_e);
                        if is_term_list(toks, bytes, q) {
                            let m = exprs@.len();
                            assert(m < n);
                            lemma_pos_after_succ(toks, q, (2 * m - 1) as nat);
                            assert((2 * m - 1 + 1) as nat == 2 * m);
                            lemma_pos_after_succ(toks, q, 2 * m);
                            assert(s_e.position() == pos_after(toks, q, 2 * m));
                            assert(list_term(toks, bytes, q, m) is Some);
                            assert(following_token(&s_e) == token_at(toks, pos_after(toks, q, 2 * m + 1) as int));
                            assert(spec_ends_expr(list_sep(toks, q, m))) by {
                                if m + 1 < n {
                                    assert(list_sep(toks, q, m) == TokenKind::Comma);
                                }
                            }
                            lemma_term_before_end(&s_e);
                            if clean_term_list(toks, bytes, q) {
                                assert(list_term_clean(toks, bytes, q, m));
                                lemma_term_alone_chain(&s_e);
                            }
                        }
                    }
                    match self.parse_expr() {
                        Some(next) => {
                            last_end = next.span().end;
                            let ghost before = exprs@;
                            exprs.push(next);
                            proof {
                                assert(exprs@[0] == before[0]);
                                if is_term_list(toks, bytes, q) {
                                    let m = before.len();
                                    assert(next == list_term(toks, bytes, q, m)->0);
                                    assert((2 * (m + 1) - 1) as nat == 2 * m + 1);
                                    assert forall|i: int| 0 <= i < exprs@.len() implies exprs@[i]
                                        == list_term(toks, bytes, q, i as nat)->0 by {
                                        if i < m {
                                            assert(exprs@[i] == before[i]);
                                        }
                                    }
                                }
                            }
                        },
                        None => {
                            self.error(
                                Diagnostic::error_from_code(
                                    ParseDiagnosticCode::ExpectedExpression,
                                    Span::at(last_end),
                                ),
                            );
                            proof {
                                Self::lemma_evolves_trans(&s1, &it, self);
                                Self::lemma_evolves_trans(old(self), &it, self);
                            }
                            break;
                        },
                    }
                    proof {
                        Self::lemma_evolves_trans(&s1, &it, self);
                        Self::lemma_evolves_trans(old(self), &it, self);
                    }
                }
            },
            None => {
                self.error(
                    Diagnostic::error_from_code(
                        ParseDiagnosticCode::ExpectedExpression,
                        Span::at(last_end),
                    ),
                );
                proof {
                    Self::lemma_evolves_trans(old(self), &s1, self);
                }
            },
        }
        self.skip_trivia_and_cache();
        let ghost s2 = *self;
        let semi_span = self.current_span();
        let end_span = if self.eat(TokenKind::Semicolon) {
            semi_span
        } else if self.at(TokenKind::PhpClose) || self.at(TokenKind::Eof) {
            match exprs.last() {
                Some(e) => e.span(),
                None => start_span,
            }
        } else {
            let sync = vec![
                TokenKind::Semicolon,
                TokenKind::PhpClose,
                TokenKind::RBrace,
                TokenKind::Dollar,
                TokenKind::Ident,
                TokenKind::AttrOpen,
            ];
            self.error_and_recover(
                Diagnostic::error_from_code(
                    ParseDiagnosticCode::expected_token(TokenKind::Semicolon),
                    Span::at(last_end),
                ),
                &sync,
            );
            let recovered_semi_span = self.current_span();
            let ghost s3 = *self;
            let _ = self.eat(TokenKind::Semicolon);
            proof {
                Self::lemma_evolves_trans(&s2, &s3, self);
            }
            if self.at(TokenKind::Semicolon) {
                recovered_semi_span
            } else {
                match exprs.last() {
                    Some(e) => e.span(),
                    None => start_span,
                }
            }
        };
        proof {
            Self::lemma_evolves_trans(old(self), &s2, self);
        }
        let span = Span { start: start_span.start, end: end_span.end };
        Some(Stmt::Echo { exprs, span })
    }

    /// The rest of `<?= expr ?>` after the opening tag, whose span is
    /// `open_span`.
    pub(crate) fn parse_echo_open_stmt(&mut self, open_span: Span) -> (r: Option<Stmt>)
        requires
            old(self).wf(),
        ensures
            final(self).wf(),
            old(self).evolves_to(final(self)),
            r matches Some(Stmt::Echo { exprs, .. }) && exprs@.len() == 1,
        decreases old(self).rem(), 700nat,
    {
        let start = open_span.start;
        let mut last_end = open_span.end;
        let expr = self.parse_expr_or_err(&mut last_end);
        let ghost s1 = *self;
        let _ = self.eat(TokenKind::Semicolon);
        let ghost s2 = *self;
        self.expect_or_err(TokenKind::PhpClose, &mut last_end);
        proof {
            Self::lemma_evolves_trans(&s1, &s2, self);
            Self::lemma_evolves_trans(old(self), &s1, self);
        }
        let span = Span { start, end: last_end };
        Some(Stmt::Echo { exprs: vec![expr], span })
    }
}

} // verus!
