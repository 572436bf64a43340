//! `namespace Name;` and `namespace Name { ... }`.
use crate::ast::{Block, Ident, Stmt};
use crate::diagnostics::ParseDiagnosticCode;
use crate::parser::{following_token, next_position, token_at, Parser};
use crate::span::Span;
use crate::token::TokenKind;
use vstd::prelude::*;

verus! {

impl<'src> Parser<'src> {
    /// `namespace [Name];`, whose body runs to the next `namespace` or the
    /// end of the input, or `namespace [Name] { ... }`.
    pub(super) fn parse_namespace_stmt(&mut self) -> (r: Option<Stmt>)
        requires
            old(self).wf(),
            old(self).cur_kind() == TokenKind::KwNamespace,
        ensures
            final(self).wf(),
            old(self).advances_to(final(self)),
            r matches Some(Stmt::Namespace { .. }),
            r matches Some(s) && s.spec_span().start == old(self).cur_token().span.start,
            r matches Some(Stmt::Namespace { name, .. }) && (following_token(old(self)).kind
                == TokenKind::Ident ==> name is Some) && (following_token(old(self)).kind
                != TokenKind::Ident && following_token(old(self)).kind != TokenKind::Backslash
                ==> name is None),
            ({
                let n = following_token(old(self));
                let toks = old(self).toks();
                n.kind == TokenKind::Ident && token_at(
                    toks,
                    next_position(toks, next_position(toks, old(self).position()) as nat),
                ).kind != TokenKind::Backslash ==> (r matches Some(Stmt::Namespace { name, .. })
                    && name matches Some(qn) && !qn.absolute && qn.parts@ == seq![Ident { span: n.span }]
                    && qn.span == n.span)
            }),
        decreases old(self).rem(), 700nat,
    {
        let ns_token = self.bump();
        proof {
            self.lemma_cur_token_at();
        }
        let ns_start = ns_token.span.start;
        let ghost s1 = *self;
        let ns_name_opt = if self.at(TokenKind::Backslash) || (self.peek().is_some() && self.at(
            TokenKind::Ident,
        )) {
            self.parse_qualified_name()
        } else {
            None
        };
        let err_pos = match &ns_name_opt {
            Some(n) => n.span.end,
            None => ns_token.span.end,
        };
        proof {
            Self::lemma_evolves_trans(old(self), &s1, self);
        }
        let ghost s2 = *self;
        if self.at(TokenKind::Semicolon) {
            self.bump();
            let (body_block, body_end) = self.parse_namespace_body_until_next();
            proof {
                Self::lemma_evolves_trans(old(self), &s2, self);
            }
            let span = Span { start: ns_start, end: body_end };
            return Some(Stmt::Namespace { name: ns_name_opt, body: body_block, span });
        }
        if self.at(TokenKind::LBrace) {
            let lb = self.bump();
            let (body_block, body_end) = match self.parse_block_after_lbrace(lb.span.start) {
                Some((block, end)) => (block, end),
                None => {
                    let span = Span { start: lb.span.start, end: lb.span.start };
                    (Block { items: Vec::new(), span }, span.end)
                },
            };
            proof {
                Self::lemma_evolves_trans(old(self), &s2, self);
            }
            let span = Span { start: ns_start, end: body_end };
            return Some(Stmt::Namespace { name: ns_name_opt, body: body_block, span });
        }
        self.error_span(
            ParseDiagnosticCode::expected_tokens(vec![TokenKind::Semicolon, TokenKind::LBrace]),
            Span { start: err_pos, end: err_pos },
            "expected ';' or '{' after namespace name",
        );
        let sync = vec![
            TokenKind::LBrace,
            TokenKind::Semicolon,
            TokenKind::KwNamespace,
            TokenKind::RBrace,
        ];
        self.recover_to_any(&sync);
        proof {
            Self::lemma_evolves_trans(old(self), &s2, self);
        }
        let last_end = match self.prev_span() {
            Some(s) => s.end,
            None => ns_start,
        };
        let empty = Block { items: Vec::new(), span: Span { start: last_end, end: last_end } };
        let span = Span { start: ns_start, end: last_end };
        Some(Stmt::Namespace { name: ns_name_opt, body: empty, span })
    }

    /// The statements of `namespace Name;` up to the next `namespace` or
    /// the end of the input; a token where no statement starts is skipped.
    fn parse_namespace_body_until_next(&mut self) -> (r: (Block, u32))
        requires
            old(self).wf(),
        ensures
            final(self).wf(),
            old(self).evolves_to(final(self)),
            final(self).cur_kind() == TokenKind::Eof || final(self).cur_kind() == TokenKind::KwNamespace,
        decreases old(self).rem(), 900nat,
    {
        let start = self.current_span().start;
        let mut items: Vec<Stmt> = Vec::new();
        while !self.at(TokenKind::Eof) && !self.at(TokenKind::KwNamespace)
            invariant
                self.wf(),
                old(self).evolves_to(self),
            ensures
                self.wf(),
                old(self).evolves_to(self),
                self.cur_kind() == TokenKind::Eof || self.cur_kind() == TokenKind::KwNamespace,
            decreases self.rem(),
        {
            let ghost it = *self;
            let p0 = self.cursor();
            match self.parse_stmt() {
                Some(stmt) => {
                    items.push(stmt);
                },
                None => {
                    if !self.at(TokenKind::Eof) {
                        let ghost s1 = *self;
                        let _ = self.bump();
                        proof {
                            Self::lemma_evolves_trans(&it, &s1, self);
                        }
                    }
                },
            }
            proof {
                Self::lemma_evolves_trans(old(self), &it, self);
            }
            if self.cursor() == p0 {
                // Only a parse that stopped at the end can leave the cursor here.
                proof {
                    assert(self.cur_kind() == TokenKind::Eof);
                }
                break;
            }
            proof {
                Self::lemma_progress(&it, self);
            }
        }
        let end = match items.last() {
            Some(s) => s.span().end,
            None => start,
        };
        (Block { items, span: Span { start, end } }, end)
    }
}

} // verus!
