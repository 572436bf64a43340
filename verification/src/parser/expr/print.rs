//! `print expr` as an expression.
use crate::ast::Expr;
use crate::parser::expr::binop::spec_is_operand;
use crate::parser::Parser;
use crate::span::Span;
use crate::token::TokenKind;
use vstd::prelude::*;

verus! {

impl<'src> Parser<'src> {
    /// `print` followed by a term.
    pub(crate) fn parse_print_expr(&mut self) -> (r: Expr)
        requires
            old(self).wf(),
            old(self).cur_kind() == TokenKind::KwPrint,
        ensures
            spec_is_operand(r),
            final(self).wf(),
            old(self).advances_to(final(self)),
        decreases old(self).rem(), 300nat,
    {
        let kw = self.bump();
        let start = kw.span.start;
        let inner = match self.parse_prefix_term() {
            Some(e) => e,
            None => {
                let sync = vec![
                    TokenKind::Semicolon,
                    TokenKind::Comma,
                    TokenKind::RParen,
                    TokenKind::RBracket,
                    TokenKind::RBrace,
                    TokenKind::PhpClose,
                ];
                self.error_msg_and_recover("expected expression after 'print'", &sync);
                Expr::Error { span: kw.span }
            },
        };
        let end = inner.span().end;
        Expr::Print { expr: Box::new(inner), span: Span { start, end } }
    }
}

} // verus!
