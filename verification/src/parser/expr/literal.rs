//! Literals: numbers, strings, arrays, and `isset(...)` / `empty(...)`.
use crate::ast::{ArrayItemExpr, Expr, StringStyle};
use crate::diagnostics::{Diagnostic, ParseDiagnosticCode};
use crate::parser::expr::binop::{lemma_pos_after_succ, pos_after, spec_is_operand};
use crate::parser::expr::{lemma_term_before_end, single_token_term, spec_ends_expr, token_term};
use crate::parser::stmt::echo::{is_term_list, list_sep, list_term, term_list, term_list_len};
use crate::parser::{following_token, next_position, token_at, Parser};
use crate::span::Span;
use crate::token::{Token, TokenKind};
use vstd::prelude::*;

verus! {

/// The value of the ASCII digit `b` in bases up to 36 (`0-9`, `a-z`,
/// `A-Z`), if it is one.
pub open spec fn spec_digit_value(b: u8) -> Option<nat> {
    if 48 <= b <= 57 {
        Some((b - 48) as nat)
    } else if 97 <= b <= 122 {
        Some((b - 97 + 10) as nat)
    } else if 65 <= b <= 90 {
        Some((b - 65 + 10) as nat)
    } else {
        None
    }
}

/// Whether every byte of `s` is a digit of base `radix`.
pub open spec fn all_digits(s: Seq<u8>, radix: nat) -> bool {
    forall|i: int|
        0 <= i < s.len() ==> #[trigger] spec_digit_value(s[i]) is Some && spec_digit_value(
            s[i],
        )->0 < radix
}

/// The number that the digits `s` denote in base `radix`.
pub open spec fn digits_value(s: Seq<u8>, radix: nat) -> nat
    decreases s.len(),
{
    if s.len() == 0 {
        0
    } else {
        digits_value(s.drop_last(), radix) * radix + match spec_digit_value(s.last()) {
            Some(d) => d,
            None => 0,
        }
    }
}

/// What `i64::from_str_radix(s, radix)` returns, as an option: an optional
/// sign followed by at least one digit of base `radix`, whose value fits in
/// an `i64`.
pub open spec fn spec_i64_from_str_radix(s: Seq<u8>, radix: nat) -> Option<i64> {
    let neg = s.len() > 0 && s[0] == 45u8;
    let signed = s.len() > 0 && (s[0] == 43u8 || s[0] == 45u8);
    let digits = if signed {
        s.drop_first()
    } else {
        s
    };
    if digits.len() == 0 || !all_digits(digits, radix) {
        None
    } else {
        let v: int = if neg {
            -(digits_value(digits, radix) as int)
        } else {
            digits_value(digits, radix) as int
        };
        if i64::MIN <= v <= i64::MAX {
            Some(v as i64)
        } else {
            None
        }
    }
}

fn digit_value(b: u8) -> (r: Option<u32>)
    ensures
        r is Some == spec_digit_value(b) is Some,
        r is Some ==> r->0 as nat == spec_digit_value(b)->0,
        r is Some ==> r->0 < 36,
{
    if 48 <= b && b <= 57 {
        Some((b - 48) as u32)
    } else if 97 <= b && b <= 122 {
        Some((b - 97 + 10) as u32)
    } else if 65 <= b && b <= 90 {
        Some((b - 65 + 10) as u32)
    } else {
        None
    }
}

/// `i64::from_str_radix` on the bytes `s[start..]`: an optional sign and at
/// least one digit of base `radix`, whose value fits in an `i64`.
pub fn i64_from_str_radix(s: &[u8], start: usize, radix: u32) -> (r: Option<i64>)
    requires
        start <= s@.len(),
        2 <= radix <= 36,
    ensures
        r == spec_i64_from_str_radix(s@.subrange(start as int, s@.len() as int), radix as nat),
{
    let ghost whole = s@.subrange(start as int, s@.len() as int);
    let mut i = start;
    let mut neg = false;
    if i < s.len() && (s[i] == 43u8 || s[i] == 45u8) {
        neg = s[i] == 45u8;
        i = i + 1;
    }
    let ghost digits = s@.subrange(i as int, s@.len() as int);
    proof {
        if whole.len() > 0 && (whole[0] == 43u8 || whole[0] == 45u8) {
            assert(digits =~= whole.drop_first());
        } else {
            assert(digits =~= whole);
        }
    }
    if i == s.len() {
        return None;
    }
    let digits_start = i;
    let limit: u128 = 0x8000_0000_0000_0000u128;
    let mut acc: u128 = 0;
    let mut overflow = false;
    while i < s.len()
        invariant
            digits_start <= i <= s@.len(),
            digits == s@.subrange(digits_start as int, s@.len() as int),
            digits.len() > 0,
            limit == 0x8000_0000_0000_0000u128,
            whole == s@.subrange(start as int, s@.len() as int),
            neg == (whole.len() > 0 && whole[0] == 45u8),
            (whole.len() > 0 && (whole[0] == 43u8 || whole[0] == 45u8)) ==> digits
                == whole.drop_first(),
            !(whole.len() > 0 && (whole[0] == 43u8 || whole[0] == 45u8)) ==> digits == whole,
            2 <= radix <= 36,
            all_digits(s@.subrange(digits_start as int, i as int), radix as nat),
            !overflow ==> acc as nat == digits_value(
                s@.subrange(digits_start as int, i as int),
                radix as nat,
            ),
            !overflow ==> acc <= limit,
            overflow ==> digits_value(s@.subrange(digits_start as int, i as int), radix as nat)
                > limit,
        decreases s.len() - i,
    {
        let ghost pre = s@.subrange(digits_start as int, i as int);
        let ghost next = s@.subrange(digits_start as int, i + 1);
        assert(next.drop_last() =~= pre);
        let d = match digit_value(s[i]) {
            Some(d) => d,
            None => {
                proof {
                    assert(digits[i - digits_start] == s@[i as int]);
                    assert(spec_digit_value(digits[i - digits_start]) is None);
                    assert(!all_digits(digits, radix as nat));
                }
                return None;
            },
        };
        if d >= radix {
            proof {
                assert(digits[i - digits_start] == s@[i as int]);
                assert(!(spec_digit_value(digits[i - digits_start])->0 < radix as nat));
                assert(!all_digits(digits, radix as nat));
            }
            return None;
        }
        proof {
            assert forall|j: int| 0 <= j < next.len() implies #[trigger] spec_digit_value(next[j])
                is Some && spec_digit_value(next[j])->0 < radix as nat by {
                if j < pre.len() {
                    assert(next[j] == pre[j]);
                }
            }
        }
        if !overflow {
            let r128 = radix as u128;
            assert(acc * r128 <= 0x8000_0000_0000_0000u128 * 36) by (nonlinear_arith)
                requires
                    acc <= 0x8000_0000_0000_0000u128,
                    r128 <= 36,
            ;
            let prod = acc * r128;
            let next_acc = prod + (d as u128);
            if next_acc > limit {
                overflow = true;
            } else {
                acc = next_acc;
            }
        } else {
            proof {
                let a = digits_value(pre, radix as nat);
                assert(a <= a * (radix as nat) + (d as nat)) by (nonlinear_arith)
                    requires
                        radix >= 2,
                ;
            }
        }
        i = i + 1;
    }
    proof {
        assert(s@.subrange(digits_start as int, i as int) =~= digits);
    }
    if overflow {
        return None;
    }
    if neg {
        if acc == limit {
            Some(i64::MIN)
        } else {
            Some(-(acc as i64))
        }
    } else {
        if acc == limit {
            None
        } else {
            Some(acc as i64)
        }
    }
}

/// The item `key => value` of two integer literals or variables at the
/// cursor of `p`, when one stands there followed by a token that closes or
/// separates expressions: `1 => $a,`.
pub open spec fn keyed_term_item(p: &Parser) -> Option<ArrayItemExpr> {
    let toks = p.toks();
    let bytes = p.src_bytes();
    let q2 = next_position(toks, next_position(toks, p.position()) as nat);
    let k = token_term(p.cur_token(), bytes);
    let v = token_term(token_at(toks, q2), bytes);
    if k is Some && following_token(p).kind == TokenKind::FatArrow && v is Some && spec_ends_expr(
        token_at(toks, next_position(toks, q2 as nat)).kind,
    ) {
        Some(
            ArrayItemExpr {
                key: Some(k->0),
                value: v->0,
                unpack: false,
                span: Span { start: k->0.spec_span().start, end: v->0.spec_span().end },
            },
        )
    } else {
        None
    }
}

/// The unkeyed array item made of the term `e`, over its span.
pub open spec fn term_item(e: Expr) -> ArrayItemExpr {
    ArrayItemExpr { key: None, value: e, unpack: false, span: e.spec_span() }
}

/// From position `q` stand integers or variables separated by commas and
/// then the token `close` that ends the array: `1, $a, 3]`.
pub open spec fn array_term_list(toks: Seq<Token>, bytes: Seq<u8>, q: nat, close: TokenKind) -> bool {
    &&& close == TokenKind::RBracket || close == TokenKind::RParen
    &&& is_term_list(toks, bytes, q)
    &&& list_sep(toks, q, (term_list_len(toks, bytes, q) - 1) as nat) == close
}

/// The position after the keyed item at the cursor of `p`.
pub open spec fn keyed_term_item_end(p: &Parser) -> int {
    let toks = p.toks();
    next_position(toks, next_position(toks, next_position(toks, p.position()) as nat) as nat)
}

impl<'src> Parser<'src> {
    /// An integer literal; its value is read in base 16, 2, 8 or 10 after a
    /// `0x`, `0b` or `0o` prefix (any case), ignoring `_` separators. A value
    /// that does not fit in an `i64` is reported and read as 0.
    pub(crate) fn parse_int_literal(&mut self) -> (r: Expr)
        requires
            old(self).wf(),
            old(self).cur_kind() == TokenKind::Int,
        ensures
            spec_is_operand(r),
            final(self).wf(),
            old(self).advances_to(final(self)),
            r is IntLiteral,
            ({
                let span = old(self).cur_token().span;
                let value = spec_int_literal_value(
                    old(self).src_bytes().subrange(span.start as int, span.end as int),
                );
                &&& r == Expr::IntLiteral {
                    value: match value {
                        Some(v) => v,
                        None => 0,
                    },
                    span,
                }
                &&& value is Some ==> final(self).diags() == old(self).diags()
                &&& value is None ==> old(self).pushed_error(
                    final(self),
                    ParseDiagnosticCode::InvalidIntLiteral,
                    span,
                )
                &&& final(self).position() == next_position(old(self).toks(), old(self).position())
            }),
    {
        proof {
            self.lemma_cur_span_in_bounds();
        }
        let span = self.current_span();
        let token = self.bump();
        let text = self.slice_without_underscores(span);
        let (radix, start) = int_literal_radix(&text);
        match i64_from_str_radix(&text, start, radix) {
            Some(v) => Expr::IntLiteral { value: v, span: token.span },
            None => {
                self.error(
                    Diagnostic::error_from_code(ParseDiagnosticCode::InvalidIntLiteral, token.span),
                );
                Expr::IntLiteral { value: 0, span: token.span }
            },
        }
    }

    /// A floating-point literal. Its value is not computed here: it is the
    /// number that the source text of the span denotes.
    pub(crate) fn parse_float_literal(&mut self) -> (r: Expr)
        requires
            old(self).wf(),
            old(self).cur_kind() == TokenKind::Float,
        ensures
            spec_is_operand(r),
            final(self).wf(),
            old(self).advances_to(final(self)),
            r is FloatLiteral,
            r.spec_span() == old(self).cur_token().span,
    {
        let token = self.bump();
        Expr::FloatLiteral { span: token.span }
    }

    /// A single-quoted, double-quoted (or heredoc/nowdoc), or backtick string.
    pub(super) fn parse_string_like_literal(&mut self) -> (r: Option<Expr>)
        requires
            old(self).wf(),
        ensures
            r is Some ==> spec_is_operand(r->0),
            final(self).wf(),
            old(self).evolves_to(final(self)),
            (old(self).cur_kind() == TokenKind::StrSq || old(self).cur_kind() == TokenKind::StrDq
                || old(self).cur_kind() == TokenKind::StrBt) ==> r is Some && old(self).advances_to(
                final(self),
            ),
            old(self).cur_kind() == TokenKind::StrSq ==> r == Some(
                Expr::StringLiteral { style: StringStyle::SingleQuoted, span: old(self).cur_token().span },
            ),
            old(self).cur_kind() == TokenKind::StrDq ==> r == Some(
                Expr::StringLiteral {
                    style: spec_double_quoted_style(
                        old(self).src_bytes().subrange(
                            old(self).cur_token().span.start as int,
                            old(self).cur_token().span.end as int,
                        ),
                    ),
                    span: old(self).cur_token().span,
                },
            ),
            old(self).cur_kind() == TokenKind::StrBt ==> r == Some(
                Expr::ShellExec { span: old(self).cur_token().span },
            ),
    {
        proof {
            self.lemma_cur_span_in_bounds();
        }
        let span = self.current_span();
        let token = self.bump();
        match token.kind {
            TokenKind::StrSq => Some(
                Expr::StringLiteral { style: StringStyle::SingleQuoted, span: token.span },
            ),
            TokenKind::StrDq => {
                let style = self.string_style_of_double_quoted(span);
                Some(Expr::StringLiteral { style, span: token.span })
            },
            TokenKind::StrBt => Some(Expr::ShellExec { span: token.span }),
            _ => None,
        }
    }

    /// `Heredoc` or `Nowdoc` when the text of `span` starts with `<<<`
    /// (`Nowdoc` when a `'` follows), otherwise `DoubleQuoted`.
    fn string_style_of_double_quoted(&self, span: Span) -> (s: StringStyle)
        requires
            self.wf(),
            span.start <= span.end <= self.bytes@.len(),
        ensures
            s == spec_double_quoted_style(
                self.src_bytes().subrange(span.start as int, span.end as int),
            ),
    {
        let b = self.bytes;
        let start = span.start as usize;
        let end = span.end as usize;
        if end - start >= 3 && b[start] == 60u8 && b[start + 1] == 60u8 && b[start + 2] == 60u8 {
            if end - start >= 4 && b[start + 3] == 39u8 {
                StringStyle::Nowdoc
            } else {
                StringStyle::Heredoc
            }
        } else {
            StringStyle::DoubleQuoted
        }
    }

    /// An array literal `[...]`. `already_saw_lbracket` says whether the
    /// `[` was consumed; `lbracket_span` is its span when known.
    pub(super) fn parse_array_literal(
        &mut self,
        already_saw_lbracket: bool,
        lbracket_span: Option<Span>,
    ) -> (r: Option<Expr>)
        requires
            old(self).wf(),
        ensures
            r is Some ==> spec_is_operand(r->0),
            final(self).wf(),
            old(self).evolves_to(final(self)),
            already_saw_lbracket ==> r is Some,
            already_saw_lbracket && lbracket_span is Some ==> r->0.spec_span().start
                == lbracket_span->0.start,
            !already_saw_lbracket && r is Some ==> r->0.spec_span().start
                == old(self).cur_token().span.start,
            !already_saw_lbracket ==> (r is Some <==> old(self).cur_kind() == TokenKind::LBracket),
            r matches Some(e) ==> e matches Expr::ArrayLiteral { items, .. } && forall|i: int|
                0 <= i < items@.len() ==> (#[trigger] items@[i]).unpack ==> items@[i].key is None,
        decreases old(self).rem(), 640nat,
    {
        let array_start_span = if already_saw_lbracket {
            match lbracket_span {
                Some(s) => s,
                None => self.current_span(),
            }
        } else {
            let lb_span = self.current_span();
            let mut lb_end = lb_span.start;
            if !self.expect_or_err(TokenKind::LBracket, &mut lb_end) {
                return None;
            }
            lb_span
        };
        let start_pos = array_start_span.start;
        let (items, end_pos) = self.parse_array_items_until(TokenKind::RBracket, array_start_span);
        Some(Expr::ArrayLiteral { items, span: Span { start: start_pos, end: end_pos } })
    }

    /// `array(...)`.
    pub(crate) fn parse_array_construct(&mut self) -> (r: Option<Expr>)
        requires
            old(self).wf(),
            old(self).cur_kind() == TokenKind::KwArray,
        ensures
            r is Some ==> spec_is_operand(r->0),
            final(self).wf(),
            old(self).advances_to(final(self)),
            r is Some <==> token_at(
                old(self).toks(),
                next_position(old(self).toks(), old(self).position()),
            ).kind == TokenKind::LParen,
            r matches Some(e) ==> e matches Expr::ArrayLiteral { items, span } && span.start
                == old(self).cur_token().span.start && forall|i: int|
                0 <= i < items@.len() ==> (#[trigger] items@[i]).unpack ==> items@[i].key is None,
        decreases old(self).rem(), 300nat,
    {
        let array_token = self.bump();
        proof {
            self.lemma_cur_token_at();
        }
        let mut lp_end = array_token.span.end;
        if !self.expect_or_err(TokenKind::LParen, &mut lp_end) {
            return None;
        }
        let lp_span = Span { start: array_token.span.end, end: lp_end };
        let start_pos = array_token.span.start;
        let (items, end_pos) = self.parse_array_items_until(TokenKind::RParen, lp_span);
        Some(Expr::ArrayLiteral { items, span: Span { start: start_pos, end: end_pos } })
    }

    fn parse_array_literal_expr_with_default(&mut self, default_span: Span) -> (r: Expr)
        requires
            old(self).wf(),
        ensures
            (r matches Expr::ArrayLiteral { items, span } && span.start == default_span.start
                && forall|i: int|
                0 <= i < items@.len() ==> (#[trigger] items@[i]).unpack ==> items@[i].key is None),
            spec_is_operand(r),
            final(self).wf(),
            old(self).evolves_to(final(self)),
        decreases old(self).rem(), 650nat,
    {
        match self.parse_array_literal(true, Some(default_span)) {
            Some(expr) => expr,
            None => Expr::Error { span: Span::at(default_span.end) },
        }
    }

    fn parse_array_construct_expr_with_default(&mut self, default_span: Span) -> (r: Expr)
        requires
            old(self).wf(),
            old(self).cur_kind() == TokenKind::KwArray,
        ensures
            spec_is_operand(r),
            final(self).wf(),
            old(self).advances_to(final(self)),
        decreases old(self).rem(), 625nat,
    {
        match self.parse_array_construct() {
            Some(expr) => expr,
            None => Expr::Error { span: Span::at(default_span.end) },
        }
    }

    /// Consumes a token of kind `end` and returns the end of its span.
    fn eat_end_get_end(&mut self, end: TokenKind) -> (r: Option<u32>)
        requires
            old(self).wf(),
        ensures
            final(self).wf(),
            old(self).same_but_cursor(final(self)),
            old(self).evolves_to(final(self)),
            r is Some == (old(self).cur_kind() == end),
            r is Some ==> r->0 == old(self).cur_token().span.end,
            r is Some && end != TokenKind::Eof ==> old(self).advances_to(final(self)),
            r is Some ==> final(self).position() == next_position(old(self).toks(), old(self).position()),
            r is None ==> *final(self) == *old(self),
    {
        let span = self.current_span();
        if self.eat(end) {
            Some(span.end)
        } else {
            None
        }
    }

    /// `isset(expr, ...)`.
    pub(crate) fn parse_isset_expr(&mut self) -> (r: Expr)
        requires
            old(self).wf(),
            old(self).cur_kind() == TokenKind::KwIsset,
        ensures
            spec_is_operand(r),
            final(self).wf(),
            old(self).advances_to(final(self)),
        decreases old(self).rem(), 300nat,
    {
        let kw = self.bump();
        let start = kw.span.start;
        let mut lp_end = kw.span.end;
        self.expect_or_err(TokenKind::LParen, &mut lp_end);
        let mut exprs: Vec<Expr> = Vec::new();
        let rp_span = self.current_span();
        if self.eat(TokenKind::RParen) {
            let end = rp_span.end;
            self.error(
                Diagnostic::error_from_code(ParseDiagnosticCode::ExpectedIdent, Span::at(lp_end)),
            );
            return Expr::Isset { exprs, span: Span { start, end } };
        }
        loop
            invariant
                self.wf(),
                old(self).advances_to(self),
            decreases self.rem(),
        {
            let loop_start = self.current_span().start;
            if let Some(e) = self.parse_expr() {
                exprs.push(e);
            } else {
                let sync = vec![TokenKind::Comma, TokenKind::RParen];
                self.error_and_recover(
                    Diagnostic::error_from_code(
                        ParseDiagnosticCode::ExpectedExpression,
                        Span::at(loop_start),
                    ),
                    &sync,
                );
            }
            if self.eat(TokenKind::Comma) {
                if self.at(TokenKind::RParen) {
                    break;
                }
                continue;
            }
            break;
        }
        let mut end = kw.span.end;
        self.expect_or_err(TokenKind::RParen, &mut end);
        Expr::Isset { exprs, span: Span { start, end } }
    }

    /// `empty(expr)`.
    pub(crate) fn parse_empty_expr(&mut self) -> (r: Expr)
        requires
            old(self).wf(),
            old(self).cur_kind() == TokenKind::KwEmpty,
        ensures
            spec_is_operand(r),
            final(self).wf(),
            old(self).advances_to(final(self)),
        decreases old(self).rem(), 300nat,
    {
        let kw = self.bump();
        let start = kw.span.start;
        let lp_span = self.current_span();
        let lp_end = if self.expect(TokenKind::LParen).is_some() {
            self.current_span().start
        } else {
            self.error(
                Diagnostic::error_from_code(
                    ParseDiagnosticCode::expected_token(TokenKind::LParen),
                    Span::at(kw.span.end),
                ),
            );
            kw.span.end
        };
        let expr = match self.parse_expr() {
            Some(e) => e,
            None => {
                let sync = vec![TokenKind::RParen];
                self.error_and_recover(
                    Diagnostic::error_from_code(
                        ParseDiagnosticCode::ExpectedExpression,
                        Span::at(lp_end),
                    ),
                    &sync,
                );
                Expr::Error { span: Span::at(lp_span.end) }
            },
        };
        let mut end = expr.span().end;
        self.expect_or_err(TokenKind::RParen, &mut end);
        Expr::Empty { expr: Box::new(expr), span: Span { start, end } }
    }

    /// The source bytes of `span` without the `_` digit separators.
    fn slice_without_underscores(&self, span: Span) -> (out: Vec<u8>)
        requires
            self.wf(),
            span.start <= span.end <= self.bytes@.len(),
        ensures
            out@ == self.bytes@.subrange(span.start as int, span.end as int).filter(
                |b: u8| b != 95u8,
            ),
    {
        let start = span.start as usize;
        let end = span.end as usize;
        let mut out: Vec<u8> = Vec::new();
        let mut i = start;
        while i < end
            invariant
                self.wf(),
                start <= i <= end <= self.bytes@.len(),
                out@ == self.bytes@.subrange(start as int, i as int).filter(|b: u8| b != 95u8),
            decreases end - i,
        {
            let b = self.bytes[i];
            proof {
                let pre = self.bytes@.subrange(start as int, i as int);
                let next = self.bytes@.subrange(start as int, i + 1);
                assert(next.drop_last() =~= pre);
                reveal_with_fuel(Seq::filter, 1);
            }
            if b != 95u8 {
                out.push(b);
            }
            i = i + 1;
        }
        out
    }

    /// One item of an array literal: `value`, `key => value` or
    /// `...value`.
    fn parse_array_item(&mut self, close: TokenKind, default_span: Span) -> (item: ArrayItemExpr)
        requires
            old(self).wf(),
        ensures
            final(self).wf(),
            old(self).evolves_to(final(self)),
            item.unpack == (old(self).cur_kind() == TokenKind::Ellipsis),
            item.unpack ==> item.key is None,
            item.span.end == item.value.spec_span().end,
            keyed_term_item(old(self)) is Some ==> item == keyed_term_item(old(self))->0
                && final(self).position() == keyed_term_item_end(old(self)),
            single_token_term(old(self)) is Some && spec_ends_expr(following_token(old(self)).kind)
                && following_token(old(self)).kind != TokenKind::FatArrow ==> item == term_item(
                single_token_term(old(self))->0,
            ) && final(self).position() == next_position(old(self).toks(), old(self).position()),
        decreases old(self).rem(), 628nat,
    {
        let mut is_unpack = false;
        let item_start: u32;
        let first_expr: Expr;
        let ghost s0 = *self;
        proof {
            self.lemma_cur_token_at();
            if single_token_term(self) is Some && spec_ends_expr(following_token(self).kind) {
                lemma_term_before_end(self);
            }
        }
        if self.at(TokenKind::Ellipsis) {
            let ell = self.bump();
            is_unpack = true;
            item_start = ell.span.start;
            let ghost s1 = *self;
            first_expr = match self.parse_expr() {
                Some(e) => e,
                None => {
                    let sync = vec![TokenKind::Comma, close];
                    let ghost s2 = *self;
                    self.error_and_recover(
                        Diagnostic::error_from_code(
                            ParseDiagnosticCode::ExpectedExpression,
                            Span::at(ell.span.end),
                        ),
                        &sync,
                    );
                    proof {
                        Self::lemma_evolves_trans(&s1, &s2, self);
                    }
                    Expr::Error { span: Span::at(ell.span.end) }
                },
            };
            proof {
                Self::lemma_evolves_trans(&s0, &s1, self);
            }
        } else if self.at(TokenKind::LBracket) {
            let lb = self.bump();
            item_start = lb.span.start;
            let ghost s1 = *self;
            first_expr = self.parse_array_literal_expr_with_default(default_span);
            proof {
                Self::lemma_evolves_trans(&s0, &s1, self);
            }
        } else if self.at(TokenKind::KwArray) {
            first_expr = self.parse_array_construct_expr_with_default(default_span);
            item_start = first_expr.span().start;
        } else if let Some(first) = self.parse_expr() {
            item_start = first.span().start;
            first_expr = first;
        } else {
            let err_pos = self.current_span().start;
            let sync = vec![TokenKind::Comma, close];
            let ghost s1 = *self;
            self.error_and_recover(
                Diagnostic::error_from_code(ParseDiagnosticCode::ExpectedExpression, Span::at(err_pos)),
                &sync,
            );
            proof {
                Self::lemma_evolves_trans(&s0, &s1, self);
            }
            let fake = Span::at(default_span.end);
            item_start = fake.start;
            first_expr = Expr::Error { span: fake };
        }
        let ghost s3 = *self;
        let mut key_expr: Option<Expr> = None;
        let value_expr: Expr;
        let fat_arrow_span = self.current_span();
        if !is_unpack && self.at(TokenKind::FatArrow) {
            self.bump();
            key_expr = Some(first_expr);
            let ghost s4 = *self;
            proof {
                self.lemma_cur_token_at();
                if keyed_term_item(&s0) is Some {
                    assert(self.toks() == s0.toks());
                    assert(self.position() == next_position(s0.toks(), next_position(s0.toks(), s0.position()) as nat));
                    Self::lemma_same_source_bytes(&s0, self);
                    lemma_term_before_end(self);
                }
            }
            if self.at(TokenKind::LBracket) {
                let lb = self.bump();
                let ghost s5 = *self;
                value_expr = self.parse_array_literal_expr_with_default(lb.span);
                proof {
                    Self::lemma_evolves_trans(&s4, &s5, self);
                }
            } else if self.at(TokenKind::KwArray) {
                value_expr = self.parse_array_construct_expr_with_default(default_span);
            } else {
                let mut fat_arrow_end = fat_arrow_span.end;
                value_expr = self.parse_expr_or_err(&mut fat_arrow_end);
            }
            proof {
                Self::lemma_evolves_trans(&s3, &s4, self);
            }
        } else {
            value_expr = first_expr;
            if is_unpack && self.at(TokenKind::FatArrow) {
                let arrow_span = self.current_span();
                self.error(
                    Diagnostic::error_from_code(
                        ParseDiagnosticCode::UnpackedArrayItemWithFatArrow,
                        arrow_span,
                    ),
                );
            }
        }
        proof {
            Self::lemma_evolves_trans(&s0, &s3, self);
        }
        let item_end = value_expr.span().end;
        ArrayItemExpr {
            key: key_expr,
            value: value_expr,
            unpack: is_unpack,
            span: Span { start: item_start, end: item_end },
        }
    }

    /// The items of an array literal up to the closing `close`, and the end
    /// of the literal.
    #[verifier::spinoff_prover]
    #[verifier::rlimit(80)]
    fn parse_array_items_until(&mut self, close: TokenKind, default_span: Span) -> (r: (
        Vec<ArrayItemExpr>,
        u32,
    ))
        requires
            old(self).wf(),
        ensures
            final(self).wf(),
            old(self).evolves_to(final(self)),
            forall|i: int| 0 <= i < r.0@.len() ==> (#[trigger] r.0@[i]).unpack ==> r.0@[i].key is None,
            old(self).cur_kind() == close ==> r.0@.len() == 0 && r.1 == old(self).cur_token().span.end,
            keyed_term_item(old(self)) is Some && token_at(
                old(self).toks(),
                keyed_term_item_end(old(self)),
            ).kind == close && close != TokenKind::Comma ==> r.0@ == seq![keyed_term_item(old(self))->0] && r.1 == token_at(
                old(self).toks(),
                keyed_term_item_end(old(self)),
            ).span.end,
            ({
                let toks = old(self).toks();
                let bytes = old(self).src_bytes();
                let q = old(self).position();
                let n = term_list_len(toks, bytes, q);
                array_term_list(toks, bytes, q, close) ==> r.0@.len() == n && (forall|i: int|
                    0 <= i < n ==> #[trigger] r.0@[i] == term_item(list_term(toks, bytes, q, i as nat)->0))
                    && r.1 == token_at(toks, pos_after(toks, q, (2 * n - 1) as nat) as int).span.end
            }),
        decreases old(self).rem(), 630nat,
    {
        let mut items: Vec<ArrayItemExpr> = Vec::new();
        proof {
            self.lemma_cur_token_at();
            let toks = old(self).toks();
            let bytes = old(self).src_bytes();
            let q = old(self).position();
            if array_term_list(toks, bytes, q, close) {
                assert(term_list(toks, bytes, q, term_list_len(toks, bytes, q)));
                assert(list_term(toks, bytes, q, 0) is Some);
                assert(pos_after(toks, q, 0) == q);
            }
        }
        if let Some(end) = self.eat_end_get_end(close) {
            return (items, end);
        }
        loop
            invariant
                self.wf(),
                old(self).evolves_to(self),
                forall|i: int| 0 <= i < items@.len() ==> (#[trigger] items@[i]).unpack ==> items@[i].key is None,
                old(self).cur_kind() != close,
                keyed_term_item(old(self)) is Some && token_at(
                    old(self).toks(),
                    keyed_term_item_end(old(self)),
                ).kind == close && close != TokenKind::Comma ==> items@.len() == 0 && *self == *old(self),
                array_term_list(old(self).toks(), old(self).src_bytes(), old(self).position(), close)
                    ==> ({
                    let toks = old(self).toks();
                    let bytes = old(self).src_bytes();
                    let q = old(self).position();
                    &&& items@.len() < term_list_len(toks, bytes, q)
                    &&& self.position() == pos_after(toks, q, 2 * items@.len())
                    &&& forall|i: int|
                        0 <= i < items@.len() ==> #[trigger] items@[i] == term_item(
                            list_term(toks, bytes, q, i as nat)->0,
                        )
                }),
            decreases self.rem(),
        {
            let ghost it = *self;
            let ghost toks = old(self).toks();
            let ghost bytes = old(self).src_bytes();
            let ghost q = old(self).position();
            let ghost n = term_list_len(toks, bytes, q);
            let ghost m = items@.len();
            let ghost listed = array_term_list(toks, bytes, q, close);
            proof {
                it.lemma_cur_token_at();
                Self::lemma_same_source_bytes(old(self), &it);
                if listed {
                    assert(term_list(toks, bytes, q, n));
                    assert(list_term(toks, bytes, q, m) is Some);
                    lemma_pos_after_succ(toks, q, 2 * m);
                    assert(following_token(&it) == token_at(toks, pos_after(toks, q, 2 * m + 1) as int));
                    assert(list_sep(toks, q, m) == TokenKind::Comma || list_sep(toks, q, m) == close) by {
                        if m + 1 < n {
                            assert(list_sep(toks, q, m) == TokenKind::Comma);
                        } else {
                            assert(m + 1 == n);
                        }
                    }
                }
            }
            let item = self.parse_array_item(close, default_span);
            let item_end = item.span.end;
            let ghost before = items@;
            items.push(item);
            let ghost s1 = *self;
            proof {
                self.lemma_cur_token_at();
                if listed {
                    assert(items@[m as int] == term_item(list_term(toks, bytes, q, m)->0));
                    assert forall|i: int| 0 <= i < items@.len() implies #[trigger] items@[i] == term_item(
                        list_term(toks, bytes, q, i as nat)->0,
                    ) by {
                        if i < m {
                            assert(items@[i] == before[i]);
                        }
                    }
                    assert(self.position() == pos_after(toks, q, 2 * m + 1));
                }
            }
            let had_comma = self.eat(TokenKind::Comma);
            let ghost s2 = *self;
            proof {
                self.lemma_cur_token_at();
                if listed && had_comma {
                    assert(m + 1 < n) by {
                        if m + 1 >= n {
                            assert((2 * (n - 1) + 1) as nat == 2 * m + 1);
                            assert(list_sep(toks, q, m) == close);
                        }
                    }
                    lemma_pos_after_succ(toks, q, 2 * m + 1);
                    assert(self.position() == pos_after(toks, q, 2 * (m + 1)));
                    assert(list_term(toks, bytes, q, (m + 1) as nat) is Some);
                }
                if listed && !had_comma {
                    assert(m + 1 == n) by {
                        if m + 1 < n {
                            assert(list_sep(toks, q, m) == TokenKind::Comma);
                        }
                    }
                    assert((2 * (m + 1) - 1) as nat == 2 * m + 1);
                    assert((2 * n - 1) as nat == 2 * m + 1);
                }
            }
            if let Some(end_pos) = self.eat_end_get_end(close) {
                proof {
                    Self::lemma_evolves_trans(&s1, &s2, self);
                    Self::lemma_evolves_trans(&it, &s1, self);
                    Self::lemma_evolves_trans(old(self), &it, self);
                }
                return (items, end_pos);
            }
            proof {
                Self::lemma_evolves_trans(&it, &s1, self);
                Self::lemma_evolves_trans(old(self), &it, self);
            }
            if had_comma {
                continue;
            }
            let sync = vec![close, TokenKind::Semicolon, TokenKind::Comma, TokenKind::RBrace];
            let ghost s3 = *self;
            self.error_and_recover(
                Diagnostic::error_from_code(
                    ParseDiagnosticCode::expected_tokens(vec![TokenKind::Comma, TokenKind::RBracket]),
                    Span::at(item_end),
                ),
                &sync,
            );
            let ghost s4 = *self;
            let end_pos = match self.eat_end_get_end(close) {
                Some(e) => e,
                None => item_end,
            };
            proof {
                Self::lemma_evolves_trans(&s3, &s4, self);
                Self::lemma_evolves_trans(old(self), &s3, self);
            }
            return (items, end_pos);
        }
    }
}

/// The style of a string literal token whose text is `t`: a heredoc when it
/// starts with `<<<`, a nowdoc when `<<<` is followed by `'`, otherwise a
/// double-quoted string.
pub open spec fn spec_double_quoted_style(t: Seq<u8>) -> StringStyle {
    if t.len() >= 3 && t[0] == 60u8 && t[1] == 60u8 && t[2] == 60u8 {
        if t.len() >= 4 && t[3] == 39u8 {
            StringStyle::Nowdoc
        } else {
            StringStyle::Heredoc
        }
    } else {
        StringStyle::DoubleQuoted
    }
}

/// The base of the integer literal text `t` and where its digits start:
/// after a `0x`, `0b` or `0o` prefix (in either case) base 16, 2 or 8 from
/// offset 2; otherwise base 10 from offset 0.
pub open spec fn spec_int_literal_radix(t: Seq<u8>) -> (nat, nat) {
    if t.len() >= 2 && t[0] == 48u8 && (t[1] == 120u8 || t[1] == 88u8) {
        (16, 2)
    } else if t.len() >= 2 && t[0] == 48u8 && (t[1] == 98u8 || t[1] == 66u8) {
        (2, 2)
    } else if t.len() >= 2 && t[0] == 48u8 && (t[1] == 111u8 || t[1] == 79u8) {
        (8, 2)
    } else {
        (10, 0)
    }
}

/// The value of the integer literal spelled `src` (its `_` separators
/// included), when it fits in an `i64`.
pub open spec fn spec_int_literal_value(src: Seq<u8>) -> Option<i64> {
    let t = src.filter(|b: u8| b != 95u8);
    let (radix, start) = spec_int_literal_radix(t);
    spec_i64_from_str_radix(t.subrange(start as int, t.len() as int), radix)
}

/// The base of an integer literal and where its digits start, from its
/// `0x`, `0b` or `0o` prefix (in either case); base 10 without one.
pub fn int_literal_radix(t: &Vec<u8>) -> (r: (u32, usize))
    ensures
        (r.0 as nat, r.1 as nat) == spec_int_literal_radix(t@),
        2 <= r.0 <= 36,
        r.1 <= t@.len(),
{
    if t.len() >= 2 && t[0] == 48u8 {
        let c = t[1];
        if c == 120u8 || c == 88u8 {
            return (16, 2);
        }
        if c == 98u8 || c == 66u8 {
            return (2, 2);
        }
        if c == 111u8 || c == 79u8 {
            return (8, 2);
        }
    }
    (10, 0)
}

} // verus!
