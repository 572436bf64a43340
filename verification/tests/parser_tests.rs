use phynix_parse::ast::{
    BinOpKind, Block, ClassMember, ClassNameRef, Expr, HookBody, Script, Stmt, TypeRef, UnOpKind,
    Visibility,
};
use phynix_parse::config::{LanguageKind, Strictness};
use phynix_parse::diagnostics::{Diagnostic, ParseDiagnosticCode};
use phynix_parse::parser::Parser;
use phynix_parse::span::Span;
use phynix_parse::token::{Token, TokenKind};

// ---------------------------------------------------------------------------
// A small PHP lexer, enough for the sources below.
// ---------------------------------------------------------------------------

fn keyword(word: &str) -> Option<TokenKind> {
    let k = match word.to_ascii_lowercase().as_str() {
        "abstract" => TokenKind::KwAbstract,
        "and" => TokenKind::KwAnd,
        "array" => TokenKind::KwArray,
        "as" => TokenKind::KwAs,
        "break" => TokenKind::KwBreak,
        "callable" => TokenKind::KwCallable,
        "case" => TokenKind::KwCase,
        "catch" => TokenKind::KwCatch,
        "class" => TokenKind::KwClass,
        "clone" => TokenKind::KwClone,
        "const" => TokenKind::KwConst,
        "continue" => TokenKind::KwContinue,
        "declare" => TokenKind::KwDeclare,
        "default" => TokenKind::KwDefault,
        "die" => TokenKind::KwDie,
        "do" => TokenKind::KwDo,
        "echo" => TokenKind::KwEcho,
        "else" => TokenKind::KwElse,
        "elseif" => TokenKind::KwElseIf,
        "empty" => TokenKind::KwEmpty,
        "enddeclare" => TokenKind::KwEndDeclare,
        "endfor" => TokenKind::KwEndFor,
        "endforeach" => TokenKind::KwEndForeach,
        "endif" => TokenKind::KwEndIf,
        "endswitch" => TokenKind::KwEndSwitch,
        "endwhile" => TokenKind::KwEndWhile,
        "enum" => TokenKind::KwEnum,
        "eval" => TokenKind::KwEval,
        "exit" => TokenKind::KwExit,
        "extends" => TokenKind::KwExtends,
        "final" => TokenKind::KwFinal,
        "finally" => TokenKind::KwFinally,
        "fn" => TokenKind::KwFn,
        "for" => TokenKind::KwFor,
        "foreach" => TokenKind::KwForeach,
        "from" => TokenKind::KwFrom,
        "function" => TokenKind::KwFunction,
        "global" => TokenKind::KwGlobal,
        "goto" => TokenKind::KwGoto,
        "if" => TokenKind::KwIf,
        "implements" => TokenKind::KwImplements,
        "include" => TokenKind::KwInclude,
        "include_once" => TokenKind::KwIncludeOnce,
        "instanceof" => TokenKind::KwInstanceof,
        "insteadof" => TokenKind::KwInsteadof,
        "interface" => TokenKind::KwInterface,
        "isset" => TokenKind::KwIsset,
        "list" => TokenKind::KwList,
        "match" => TokenKind::KwMatch,
        "namespace" => TokenKind::KwNamespace,
        "new" => TokenKind::KwNew,
        "or" => TokenKind::KwOr,
        "parent" => TokenKind::KwParent,
        "print" => TokenKind::KwPrint,
        "private" => TokenKind::KwPrivate,
        "protected" => TokenKind::KwProtected,
        "public" => TokenKind::KwPublic,
        "readonly" => TokenKind::KwReadonly,
        "require" => TokenKind::KwRequire,
        "require_once" => TokenKind::KwRequireOnce,
        "return" => TokenKind::KwReturn,
        "self" => TokenKind::KwSelf,
        "static" => TokenKind::KwStatic,
        "switch" => TokenKind::KwSwitch,
        "throw" => TokenKind::KwThrow,
        "trait" => TokenKind::KwTrait,
        "try" => TokenKind::KwTry,
        "unset" => TokenKind::KwUnset,
        "use" => TokenKind::KwUse,
        "var" => TokenKind::KwVar,
        "while" => TokenKind::KwWhile,
        "xor" => TokenKind::KwXor,
        "yield" => TokenKind::KwYield,
        _ => return None,
    };
    Some(k)
}

const PUNCT: &[(&str, TokenKind)] = &[
    ("<=>", TokenKind::Spaceship),
    ("**=", TokenKind::PowEq),
    ("...", TokenKind::Ellipsis),
    ("===", TokenKind::StrictEq),
    ("!==", TokenKind::StrictNe),
    ("??=", TokenKind::NullCoalesceAssign),
    ("?->", TokenKind::NullsafeArrow),
    ("<<=", TokenKind::ShlEq),
    (">>=", TokenKind::ShrEq),
    ("**", TokenKind::Pow),
    ("==", TokenKind::EqEq),
    ("!=", TokenKind::NotEq),
    ("<>", TokenKind::NotEqAlt),
    ("<=", TokenKind::Le),
    (">=", TokenKind::Ge),
    ("<<", TokenKind::Shl),
    (">>", TokenKind::Shr),
    ("&&", TokenKind::AndAnd),
    ("||", TokenKind::OrOr),
    ("??", TokenKind::NullCoalesce),
    ("->", TokenKind::Arrow),
    ("=>", TokenKind::FatArrow),
    ("::", TokenKind::ColCol),
    ("++", TokenKind::PlusPlus),
    ("--", TokenKind::MinusMinus),
    ("+=", TokenKind::PlusEq),
    ("-=", TokenKind::MinusEq),
    ("*=", TokenKind::MulEq),
    ("/=", TokenKind::DivEq),
    ("%=", TokenKind::ModEq),
    (".=", TokenKind::DotEq),
    ("&=", TokenKind::AmpEq),
    ("|=", TokenKind::PipeEq),
    ("^=", TokenKind::CaretEq),
    ("#[", TokenKind::AttrOpen),
    ("+", TokenKind::Plus),
    ("-", TokenKind::Minus),
    ("*", TokenKind::Star),
    ("/", TokenKind::Slash),
    ("%", TokenKind::Percent),
    (".", TokenKind::Dot),
    ("&", TokenKind::Amp),
    ("|", TokenKind::Pipe),
    ("^", TokenKind::Caret),
    ("~", TokenKind::Tilde),
    ("!", TokenKind::Bang),
    ("?", TokenKind::Question),
    (":", TokenKind::Colon),
    (";", TokenKind::Semicolon),
    (",", TokenKind::Comma),
    ("(", TokenKind::LParen),
    (")", TokenKind::RParen),
    ("[", TokenKind::LBracket),
    ("]", TokenKind::RBracket),
    ("{", TokenKind::LBrace),
    ("}", TokenKind::RBrace),
    ("=", TokenKind::Eq),
    ("<", TokenKind::Lt),
    (">", TokenKind::Gt),
    ("@", TokenKind::Silence),
    ("\\", TokenKind::Backslash),
    ("$", TokenKind::Dollar),
];

fn is_ident_start(c: u8) -> bool {
    c == b'_' || c.is_ascii_alphabetic() || c >= 0x80
}

fn is_ident_char(c: u8) -> bool {
    is_ident_start(c) || c.is_ascii_digit()
}

fn tok(kind: TokenKind, start: usize, end: usize) -> Token {
    Token { kind, span: Span { start: start as u32, end: end as u32 } }
}

/// The tokens of `src`, ending with `Eof`.
fn lex(src: &str) -> Vec<Token> {
    let b = src.as_bytes();
    let mut out = Vec::new();
    let mut i = 0;
    let mut in_php = false;
    while i < b.len() {
        if !in_php {
            let rest = &src[i..];
            let (open_at, open_len, open_kind) = match (rest.find("<?php"), rest.find("<?=")) {
                (Some(a), Some(e)) if e < a => (e, 3, TokenKind::EchoOpen),
                (Some(a), _) => (a, 5, TokenKind::PhpOpen),
                (None, Some(e)) => (e, 3, TokenKind::EchoOpen),
                (None, None) => (rest.len(), 0, TokenKind::HtmlChunk),
            };
            if open_at > 0 {
                out.push(tok(TokenKind::HtmlChunk, i, i + open_at));
            }
            i += open_at;
            if open_len > 0 {
                out.push(tok(open_kind, i, i + open_len));
                i += open_len;
                in_php = true;
            }
            continue;
        }
        let c = b[i];
        let start = i;
        if c.is_ascii_whitespace() {
            while i < b.len() && b[i].is_ascii_whitespace() {
                i += 1;
            }
            out.push(tok(TokenKind::Whitespace, start, i));
            continue;
        }
        if src[i..].starts_with("?>") {
            i += 2;
            out.push(tok(TokenKind::PhpClose, start, i));
            in_php = false;
            continue;
        }
        if src[i..].starts_with("//") || (c == b'#' && !src[i..].starts_with("#[")) {
            while i < b.len() && b[i] != b'\n' {
                i += 1;
            }
            out.push(tok(TokenKind::Comment, start, i));
            continue;
        }
        if src[i..].starts_with("/*") {
            let end = src[i + 2..].find("*/").map(|e| i + 2 + e + 2).unwrap_or(b.len());
            i = end;
            out.push(tok(TokenKind::Comment, start, i));
            continue;
        }
        if c == b'$' && i + 1 < b.len() && is_ident_start(b[i + 1]) {
            i += 1;
            while i < b.len() && is_ident_char(b[i]) {
                i += 1;
            }
            out.push(tok(TokenKind::VarIdent, start, i));
            continue;
        }
        if is_ident_start(c) {
            while i < b.len() && is_ident_char(b[i]) {
                i += 1;
            }
            let word = &src[start..i];
            let mut j = i;
            while j < b.len() && b[j].is_ascii_whitespace() {
                j += 1;
            }
            let next = if j < b.len() { b[j] } else { 0 };
            let lower = word.to_ascii_lowercase();
            let kind = if (lower == "get" || lower == "set")
                && (next == b'{' || next == b'=' || next == b';' || next == b'(' || next == b')')
            {
                if lower == "get" { TokenKind::KwGet } else { TokenKind::KwSet }
            } else {
                keyword(word).unwrap_or(TokenKind::Ident)
            };
            out.push(tok(kind, start, i));
            continue;
        }
        if c.is_ascii_digit() || (c == b'.' && i + 1 < b.len() && b[i + 1].is_ascii_digit()) {
            let mut is_float = false;
            if src[i..].starts_with("0x") || src[i..].starts_with("0X") || src[i..].starts_with("0b")
                || src[i..].starts_with("0B") || src[i..].starts_with("0o") || src[i..].starts_with("0O")
            {
                i += 2;
                while i < b.len() && (b[i].is_ascii_alphanumeric() || b[i] == b'_') {
                    i += 1;
                }
            } else {
                while i < b.len() && (b[i].is_ascii_digit() || b[i] == b'_') {
                    i += 1;
                }
                if i < b.len() && b[i] == b'.' && i + 1 < b.len() && b[i + 1].is_ascii_digit() {
                    is_float = true;
                    i += 1;
                    while i < b.len() && (b[i].is_ascii_digit() || b[i] == b'_') {
                        i += 1;
                    }
                }
                if i < b.len() && (b[i] == b'e' || b[i] == b'E') {
                    is_float = true;
                    i += 1;
                    if i < b.len() && (b[i] == b'+' || b[i] == b'-') {
                        i += 1;
                    }
                    while i < b.len() && b[i].is_ascii_digit() {
                        i += 1;
                    }
                }
            }
            out.push(tok(if is_float { TokenKind::Float } else { TokenKind::Int }, start, i));
            continue;
        }
        if c == b'\'' || c == b'"' || c == b'`' {
            i += 1;
            while i < b.len() && b[i] != c {
                if b[i] == b'\\' {
                    i += 1;
                }
                i += 1;
            }
            i = (i + 1).min(b.len());
            let kind = match c {
                b'\'' => TokenKind::StrSq,
                b'"' => TokenKind::StrDq,
                _ => TokenKind::StrBt,
            };
            out.push(tok(kind, start, i));
            continue;
        }
        let mut matched = false;
        for (text, kind) in PUNCT {
            if src[i..].starts_with(text) {
                i += text.len();
                out.push(tok(*kind, start, i));
                matched = true;
                break;
            }
        }
        if !matched {
            i += 1;
            out.push(tok(TokenKind::Unknown, start, i));
        }
    }
    out.push(tok(TokenKind::Eof, b.len(), b.len()));
    out
}

fn parse(src: &str) -> (Script, Vec<Diagnostic>) {
    let tokens = lex(src);
    Parser::new(src, &tokens, LanguageKind::PhpCompat, Strictness::Lenient).parse_script()
}

fn parse_ok(src: &str) -> Script {
    let (script, diags) = parse(src);
    assert!(diags.is_empty(), "expected no diagnostics, got:\n{:#?}", diags);
    script
}

fn text<'a>(src: &'a str, span: Span) -> &'a str {
    &src[span.start as usize..span.end as usize]
}

/// The expression of the only statement of `src`, which must be an
/// expression statement.
fn single_expr(script: &Script) -> &Expr {
    assert_eq!(script.items.len(), 1, "{:#?}", script.items);
    match &script.items[0] {
        Stmt::ExprStmt { expr, .. } => expr,
        other => panic!("expected an expression statement, got {:#?}", other),
    }
}

fn expr_text<'a>(src: &'a str, e: &Expr) -> &'a str {
    text(src, e.span())
}

fn assert_binop<'e>(e: &'e Expr, want: BinOpKind) -> (&'e Expr, &'e Expr) {
    match e {
        Expr::BinaryOp { op, left, right, .. } => {
            assert_eq!(*op, want);
            (left, right)
        },
        other => panic!("expected {:?}, got {:#?}", want, other),
    }
}

fn block_len(b: &Block) -> usize {
    b.items.len()
}

// ---------------------------------------------------------------------------
// Literals
// ---------------------------------------------------------------------------

#[test]
fn int_literal() {
    let src = "<?php 42;";
    let script = parse_ok(src);
    match single_expr(&script) {
        Expr::IntLiteral { value, span } => {
            assert_eq!(*value, 42);
            assert_eq!(text(src, *span), "42");
        },
        other => panic!("{:#?}", other),
    }
}

#[test]
fn float_literal() {
    let src = "<?php 3.14;";
    let script = parse_ok(src);
    match single_expr(&script) {
        Expr::FloatLiteral { span } => assert_eq!(text(src, *span), "3.14"),
        other => panic!("{:#?}", other),
    }
}

#[test]
fn string_literal() {
    let src = "<?php 'hello';";
    let script = parse_ok(src);
    match single_expr(&script) {
        Expr::StringLiteral { span, .. } => assert_eq!(text(src, *span), "'hello'"),
        other => panic!("{:#?}", other),
    }
}

#[test]
fn bool_literal() {
    let src = "<?php true;";
    let script = parse_ok(src);
    match single_expr(&script) {
        Expr::NameRef { name, .. } => {
            assert_eq!(name.parts.len(), 1);
            assert_eq!(text(src, name.parts[0].span), "true");
        },
        other => panic!("{:#?}", other),
    }
}

#[test]
fn null_literal() {
    let src = "<?php null;";
    let script = parse_ok(src);
    match single_expr(&script) {
        Expr::NameRef { name, .. } => assert_eq!(text(src, name.span), "null"),
        other => panic!("{:#?}", other),
    }
}

#[test]
fn array_literal() {
    let src = "<?php [1, 2, 3];";
    let script = parse_ok(src);
    match single_expr(&script) {
        Expr::ArrayLiteral { items, span } => {
            assert_eq!(items.len(), 3);
            assert!(items.iter().all(|i| i.key.is_none() && !i.unpack));
            assert_eq!(text(src, *span), "[1, 2, 3]");
        },
        other => panic!("{:#?}", other),
    }
}

#[test]
fn array_literal_with_keys() {
    let src = "<?php ['a' => 1, 'b' => 2];";
    let script = parse_ok(src);
    match single_expr(&script) {
        Expr::ArrayLiteral { items, .. } => {
            assert_eq!(items.len(), 2);
            let key = items[0].key.as_ref().expect("a key");
            assert_eq!(expr_text(src, key), "'a'");
            assert_eq!(expr_text(src, &items[1].value), "2");
        },
        other => panic!("{:#?}", other),
    }
}

// ---------------------------------------------------------------------------
// Expressions
// ---------------------------------------------------------------------------

#[test]
fn binary_op() {
    let src = "<?php 1 + 2 * 3;";
    let script = parse_ok(src);
    let (l, r) = assert_binop(single_expr(&script), BinOpKind::Add);
    assert_eq!(expr_text(src, l), "1");
    let (rl, rr) = assert_binop(r, BinOpKind::Mul);
    assert_eq!(expr_text(src, rl), "2");
    assert_eq!(expr_text(src, rr), "3");
}

#[test]
fn assignment() {
    let src = "<?php $a = 1;";
    let script = parse_ok(src);
    match single_expr(&script) {
        Expr::Assign { target, value, .. } => {
            assert_eq!(expr_text(src, target), "$a");
            assert_eq!(expr_text(src, value), "1");
        },
        other => panic!("{:#?}", other),
    }
}

#[test]
fn compound_assignment() {
    let src = "<?php $a += 1;";
    let script = parse_ok(src);
    match single_expr(&script) {
        Expr::CompoundAssign { op, target, value, .. } => {
            assert_eq!(*op, BinOpKind::Add);
            assert_eq!(expr_text(src, target), "$a");
            assert_eq!(expr_text(src, value), "1");
        },
        other => panic!("{:#?}", other),
    }
}

#[test]
fn function_call() {
    let src = "<?php foo(1, 2);";
    let script = parse_ok(src);
    match single_expr(&script) {
        Expr::FunctionCall { callee, args, span } => {
            assert_eq!(expr_text(src, callee), "foo");
            assert_eq!(args.len(), 2);
            assert_eq!(text(src, *span), "foo(1, 2)");
        },
        other => panic!("{:#?}", other),
    }
}

#[test]
fn method_call() {
    let src = "<?php $obj->foo(1);";
    let script = parse_ok(src);
    match single_expr(&script) {
        Expr::MethodCall { target, method, args, .. } => {
            assert_eq!(expr_text(src, target), "$obj");
            assert_eq!(text(src, method.span), "foo");
            assert_eq!(args.len(), 1);
        },
        other => panic!("{:#?}", other),
    }
}

#[test]
fn static_call() {
    let src = "<?php Foo::bar(1);";
    let script = parse_ok(src);
    match single_expr(&script) {
        Expr::StaticCall { class, method, args, .. } => {
            match class {
                ClassNameRef::Qualified(qn) => assert_eq!(text(src, qn.span), "Foo"),
                other => panic!("{:#?}", other),
            }
            assert_eq!(text(src, method.span), "bar");
            assert_eq!(args.len(), 1);
        },
        other => panic!("{:#?}", other),
    }
}

#[test]
fn match_expr() {
    let src = "<?php match ($a) { 1 => 'one', default => 'other' };";
    let script = parse_ok(src);
    match single_expr(&script) {
        Expr::Match { scrutinee, arms, .. } => {
            assert_eq!(expr_text(src, scrutinee), "$a");
            assert_eq!(arms.len(), 2);
            assert_eq!(expr_text(src, &arms[1].expr), "'other'");
        },
        other => panic!("{:#?}", other),
    }
}

#[test]
fn ternary() {
    let src = "<?php $a ? $b : $c;";
    let script = parse_ok(src);
    match single_expr(&script) {
        Expr::Ternary { condition, then_expr, else_expr, .. } => {
            assert_eq!(expr_text(src, condition), "$a");
            assert_eq!(expr_text(src, then_expr.as_ref().unwrap()), "$b");
            assert_eq!(expr_text(src, else_expr), "$c");
        },
        other => panic!("{:#?}", other),
    }
}

#[test]
fn null_coalesce() {
    let src = "<?php $a ?? $b;";
    let script = parse_ok(src);
    match single_expr(&script) {
        Expr::NullCoalesce { left, right, .. } => {
            assert_eq!(expr_text(src, left), "$a");
            assert_eq!(expr_text(src, right), "$b");
        },
        other => panic!("{:#?}", other),
    }
}

#[test]
fn test_precedence_null_coalesce_vs_binary() {
    // `$a || $b ?? $c` is `($a || $b) ?? $c`.
    let src = "<?php $a || $b ?? $c;";
    let script = parse_ok(src);
    match single_expr(&script) {
        Expr::NullCoalesce { left, right, .. } => {
            assert_binop(left, BinOpKind::OrOr);
            assert_eq!(expr_text(src, right), "$c");
        },
        other => panic!("{:#?}", other),
    }
}

#[test]
fn test_precedence_ternary_vs_null_coalesce() {
    // `$a ?? $b ? $c : $d` is `($a ?? $b) ? $c : $d`.
    let src = "<?php $a ?? $b ? $c : $d;";
    let script = parse_ok(src);
    match single_expr(&script) {
        Expr::Ternary { condition, .. } => {
            assert!(matches!(**condition, Expr::NullCoalesce { .. }), "{:#?}", condition);
        },
        other => panic!("{:#?}", other),
    }
}

#[test]
fn test_precedence_assignment_vs_ternary() {
    // `$a = $b ? $c : $d` is `$a = ($b ? $c : $d)`.
    let src = "<?php $a = $b ? $c : $d;";
    let script = parse_ok(src);
    match single_expr(&script) {
        Expr::Assign { target, value, .. } => {
            assert_eq!(expr_text(src, target), "$a");
            assert!(matches!(**value, Expr::Ternary { .. }), "{:#?}", value);
        },
        other => panic!("{:#?}", other),
    }
}

#[test]
fn test_right_associativity_pow() {
    // `$a ** $b ** $c` is `$a ** ($b ** $c)`.
    let src = "<?php $a ** $b ** $c;";
    let script = parse_ok(src);
    let (l, r) = assert_binop(single_expr(&script), BinOpKind::Pow);
    assert_eq!(expr_text(src, l), "$a");
    assert_binop(r, BinOpKind::Pow);
    assert_eq!(expr_text(src, r), "$b ** $c");
}

#[test]
fn test_right_associativity_null_coalesce() {
    // `$a ?? $b ?? $c` is `$a ?? ($b ?? $c)`.
    let src = "<?php $a ?? $b ?? $c;";
    let script = parse_ok(src);
    match single_expr(&script) {
        Expr::NullCoalesce { left, right, .. } => {
            assert_eq!(expr_text(src, left), "$a");
            assert!(matches!(**right, Expr::NullCoalesce { .. }), "{:#?}", right);
        },
        other => panic!("{:#?}", other),
    }
}

#[test]
fn test_non_associativity_ternary() {
    let (_script, diags) = parse("<?php $a ? $b : $c ? $d : $e;");
    assert!(!diags.is_empty());
    assert!(diags[0].message.contains("non-associative"), "{:#?}", diags);
}

#[test]
fn test_precedence_instanceof_vs_arithmetic() {
    // `$a * $b instanceof C` is `$a * ($b instanceof C)`.
    let src = "<?php $a * $b instanceof C;";
    let script = parse_ok(src);
    let (l, r) = assert_binop(single_expr(&script), BinOpKind::Mul);
    assert_eq!(expr_text(src, l), "$a");
    match r {
        Expr::InstanceOf { expr, .. } => assert_eq!(expr_text(src, expr), "$b"),
        other => panic!("{:#?}", other),
    }
}

#[test]
fn test_precedence_comparison_non_associative() {
    let (_script, diags) = parse("<?php $a < $b < $c;");
    assert!(!diags.is_empty());
    assert!(diags[0].message.contains("non-associative"), "{:#?}", diags);
}

#[test]
fn test_elvis_chaining() {
    let (_script, diags) = parse("<?php $a ?: $b ?: $c;");
    assert!(diags.is_empty(), "Elvis chaining should be valid, but got: {:?}", diags);
}

#[test]
fn test_mixed_ternary_elvis_allowed() {
    let (_script, diags) = parse("<?php $a ?: $b ? $c : $d;");
    assert!(diags.is_empty(), "Elvis followed by ternary should be valid, but got: {:?}", diags);
}

#[test]
fn test_standard_ternary_non_associative_error() {
    let (_script, diags) = parse("<?php $a ? $b : $c ? $d : $e;");
    assert!(!diags.is_empty(), "Standard ternary chaining should be an error");
    assert!(diags[0].message.contains("non-associative"));
}

#[test]
fn test_test2_php_fragment() {
    let src = "<?php
    $a['offsetClean'] <=> $b['offsetClean']
        ?: $a['order'] <=> $b['order']
        ?: ($a['type'] === SequenceMatcher::OP_DEL ? -1 : 1);";
    let (_script, diags) = parse(src);
    assert!(diags.is_empty(), "test2.php fragment should be valid, but got: {:?}", diags);
}

#[test]
fn test_parenthesized_ternary_allowed() {
    let (_script, diags) = parse("<?php $a ? $b : ($c ? $d : $e);");
    assert!(diags.is_empty(), "Parenthesized ternary should be valid, but got: {:?}", diags);
}

// ---------------------------------------------------------------------------
// Declarations
// ---------------------------------------------------------------------------

fn single_stmt(script: &Script) -> &Stmt {
    assert_eq!(script.items.len(), 1, "{:#?}", script.items);
    &script.items[0]
}

fn check_class_simple() {
    let src = "<?php class Foo {}";
    let script = parse_ok(src);
    match single_stmt(&script) {
        Stmt::Class { flags, name, extends, implements, body, span, .. } => {
            assert!(!flags.is_abstract && !flags.is_final && !flags.is_readonly);
            match name {
                ClassNameRef::Qualified(qn) => assert_eq!(text(src, qn.span), "Foo"),
                other => panic!("{:#?}", other),
            }
            assert!(extends.is_none());
            assert!(implements.is_empty());
            assert!(body.is_empty());
            assert_eq!(text(src, *span), "class Foo {}");
        },
        other => panic!("{:#?}", other),
    }
}

fn check_class_modifiers() {
    let script = parse_ok("<?php abstract final class Foo {}");
    match single_stmt(&script) {
        Stmt::Class { flags, .. } => {
            assert!(flags.is_abstract);
            assert!(flags.is_final);
            assert!(!flags.is_readonly);
        },
        other => panic!("{:#?}", other),
    }
}

fn check_class_extends_implements() {
    let src = "<?php class Foo extends Bar implements Baz, Qux {}";
    let script = parse_ok(src);
    match single_stmt(&script) {
        Stmt::Class { extends, implements, .. } => {
            assert_eq!(text(src, extends.as_ref().unwrap().span), "Bar");
            let names: Vec<&str> = implements.iter().map(|q| text(src, q.span)).collect();
            assert_eq!(names, vec!["Baz", "Qux"]);
        },
        other => panic!("{:#?}", other),
    }
}

fn check_class_members() {
    let src = "<?php
class Foo {
    public $a;
    protected $b;
    private $c;
    var $d;
    public static $e;
    public const F = 1;
    public function g() {}
}
";
    let script = parse_ok(src);
    match single_stmt(&script) {
        Stmt::Class { body, .. } => {
            assert_eq!(body.len(), 7);
            match &body[0] {
                ClassMember::Property { name, flags, .. } => {
                    assert_eq!(text(src, name.span), "$a");
                    assert!(flags.is_public);
                },
                other => panic!("{:#?}", other),
            }
            match &body[1] {
                ClassMember::Property { flags, .. } => assert!(flags.is_protected),
                other => panic!("{:#?}", other),
            }
            match &body[2] {
                ClassMember::Property { flags, .. } => assert!(flags.is_private),
                other => panic!("{:#?}", other),
            }
            match &body[3] {
                ClassMember::Property { flags, .. } => assert!(flags.is_public),
                other => panic!("{:#?}", other),
            }
            match &body[4] {
                ClassMember::Property { flags, .. } => assert!(flags.is_public && flags.is_static),
                other => panic!("{:#?}", other),
            }
            match &body[5] {
                ClassMember::Const { name, value, .. } => {
                    assert_eq!(text(src, name.span), "F");
                    assert_eq!(expr_text(src, value), "1");
                },
                other => panic!("{:#?}", other),
            }
            match &body[6] {
                ClassMember::Method { name, params, body, .. } => {
                    assert_eq!(text(src, name.span), "g");
                    assert!(params.is_empty());
                    assert!(body.is_some());
                },
                other => panic!("{:#?}", other),
            }
        },
        other => panic!("{:#?}", other),
    }
}

fn check_special_parameter_types() {
    let src = "<?php class A { public function f(self $s, parent $p, static $st) {} }";
    let script = parse_ok(src);
    match single_stmt(&script) {
        Stmt::Class { body, .. } => match &body[0] {
            ClassMember::Method { params, .. } => {
                assert_eq!(params.len(), 3);
                let types: Vec<&str> = params
                    .iter()
                    .map(|p| match p.type_annotation.as_ref().unwrap() {
                        TypeRef::Named { span, .. } => text(src, *span),
                        other => panic!("{:#?}", other),
                    })
                    .collect();
                assert_eq!(types, vec!["self", "parent", "static"]);
                let names: Vec<&str> = params.iter().map(|p| text(src, p.name.span)).collect();
                assert_eq!(names, vec!["$s", "$p", "$st"]);
            },
            other => panic!("{:#?}", other),
        },
        other => panic!("{:#?}", other),
    }
}

fn check_function_simple() {
    let src = "<?php function foo() {}";
    let script = parse_ok(src);
    match single_stmt(&script) {
        Stmt::Function { name, params, return_type, body, span } => {
            assert_eq!(text(src, name.span), "foo");
            assert!(params.is_empty());
            assert!(return_type.is_none());
            assert_eq!(block_len(body), 0);
            assert_eq!(text(src, *span), "function foo() {}");
        },
        other => panic!("{:#?}", other),
    }
}

fn check_function_with_params() {
    let src = "<?php function foo($a, $b = 1) {}";
    let script = parse_ok(src);
    match single_stmt(&script) {
        Stmt::Function { params, .. } => {
            assert_eq!(params.len(), 2);
            assert_eq!(text(src, params[0].name.span), "$a");
            assert!(params[0].default.is_none());
            assert_eq!(text(src, params[1].name.span), "$b");
            assert_eq!(expr_text(src, params[1].default.as_ref().unwrap()), "1");
        },
        other => panic!("{:#?}", other),
    }
}

fn check_function_with_return_type() {
    let src = "<?php function foo(): int {}";
    let script = parse_ok(src);
    match single_stmt(&script) {
        Stmt::Function { return_type, .. } => match return_type.as_ref().unwrap() {
            TypeRef::Named { name, .. } => assert_eq!(text(src, name.span), "int"),
            other => panic!("{:#?}", other),
        },
        other => panic!("{:#?}", other),
    }
}

fn check_interface_simple() {
    let src = "<?php interface Foo {}";
    let script = parse_ok(src);
    match single_stmt(&script) {
        Stmt::Interface { name, extends, body, .. } => {
            assert_eq!(text(src, name.span), "Foo");
            assert!(extends.is_empty());
            assert!(body.is_empty());
        },
        other => panic!("{:#?}", other),
    }
}

fn check_trait_simple() {
    let src = "<?php trait Foo {}";
    let script = parse_ok(src);
    match single_stmt(&script) {
        Stmt::Trait { name, body, .. } => {
            assert_eq!(text(src, name.span), "Foo");
            assert!(body.is_empty());
        },
        other => panic!("{:#?}", other),
    }
}

fn check_enum_simple() {
    let src = "<?php enum Foo {}";
    let script = parse_ok(src);
    match single_stmt(&script) {
        Stmt::Enum { name, backed_type, span, .. } => {
            assert_eq!(text(src, name.span), "Foo");
            assert!(backed_type.is_none());
            assert_eq!(text(src, *span), "enum Foo {}");
        },
        other => panic!("{:#?}", other),
    }
}

fn check_enum_backed() {
    let src = "<?php enum Foo: string {}";
    let script = parse_ok(src);
    match single_stmt(&script) {
        Stmt::Enum { backed_type, .. } => match backed_type.as_ref().unwrap() {
            TypeRef::Named { span, .. } => assert_eq!(text(src, *span), "string"),
            other => panic!("{:#?}", other),
        },
        other => panic!("{:#?}", other),
    }
}

#[test]
fn class_decl_class_simple() {
    check_class_simple();
}

#[test]
fn class_decl_class_modifiers() {
    check_class_modifiers();
}

#[test]
fn class_decl_class_extends_implements() {
    check_class_extends_implements();
}

#[test]
fn class_decl_class_members() {
    check_class_members();
}

#[test]
fn class_decl_special_parameter_types() {
    check_special_parameter_types();
}

#[test]
fn class_property_asymmetric_visibility_implied_public() {
    let src = "<?php
class AsymVisibility {
    private(set) $x = 'hello';
}
";
    let script = parse_ok(src);
    match single_stmt(&script) {
        Stmt::Class { body, .. } => match &body[0] {
            ClassMember::Property { name, flags, set_visibility, default, .. } => {
                assert_eq!(text(src, name.span), "$x");
                assert!(flags.is_public && !flags.is_private);
                assert_eq!(*set_visibility, Some(Visibility::Private));
                assert_eq!(expr_text(src, default.as_ref().unwrap()), "'hello'");
            },
            other => panic!("{:#?}", other),
        },
        other => panic!("{:#?}", other),
    }
}

#[test]
fn class_property_asymmetric_visibility_explicit_public() {
    let src = "<?php
class AsymVisibility {
    public private(set) $x = 'hello';
}
";
    let script = parse_ok(src);
    match single_stmt(&script) {
        Stmt::Class { body, .. } => match &body[0] {
            ClassMember::Property { flags, set_visibility, .. } => {
                assert!(flags.is_public);
                assert_eq!(*set_visibility, Some(Visibility::Private));
            },
            other => panic!("{:#?}", other),
        },
        other => panic!("{:#?}", other),
    }
}

#[test]
fn class_property_hooks_block_get_set() {
    let src = "<?php
class Hooks {
    public string $x {
        get { return $this->x; }
        set(string $value) { $this->x = $value; }
    }
}
";
    let script = parse_ok(src);
    match single_stmt(&script) {
        Stmt::Class { body, .. } => match &body[0] {
            ClassMember::Property { type_annotation, hooks, .. } => {
                assert!(type_annotation.is_some());
                let hooks = hooks.as_ref().expect("hooks");
                let get = hooks.get.as_ref().expect("get hook");
                assert!(matches!(&get.body, HookBody::Block(b) if b.items.len() == 1));
                let set = hooks.set.as_ref().expect("set hook");
                assert_eq!(text(src, set.param.as_ref().unwrap().name.span), "$value");
                assert!(matches!(&set.body, HookBody::Block(b) if b.items.len() == 1));
            },
            other => panic!("{:#?}", other),
        },
        other => panic!("{:#?}", other),
    }
}

#[test]
fn class_property_hooks_short_get() {
    let src = "<?php
class Hooks {
    public string $x {
        get => $this->x;
    }
}
";
    let script = parse_ok(src);
    match single_stmt(&script) {
        Stmt::Class { body, .. } => match &body[0] {
            ClassMember::Property { hooks, .. } => {
                let hooks = hooks.as_ref().expect("hooks");
                let get = hooks.get.as_ref().expect("get hook");
                match &get.body {
                    HookBody::Expr(e) => assert_eq!(expr_text(src, e), "$this->x"),
                    other => panic!("{:#?}", other),
                }
                assert!(hooks.set.is_none());
            },
            other => panic!("{:#?}", other),
        },
        other => panic!("{:#?}", other),
    }
}

#[test]
fn decl_function_simple() {
    check_function_simple();
}

#[test]
fn decl_function_with_params() {
    check_function_with_params();
}

#[test]
fn decl_function_with_return_type() {
    check_function_with_return_type();
}

#[test]
fn decl_class_simple() {
    check_class_simple();
}

#[test]
fn decl_class_modifiers() {
    check_class_modifiers();
}

#[test]
fn decl_class_extends_implements() {
    check_class_extends_implements();
}

#[test]
fn decl_class_members() {
    check_class_members();
}

#[test]
fn decl_interface_simple() {
    check_interface_simple();
}

#[test]
fn decl_trait_simple() {
    check_trait_simple();
}

#[test]
fn decl_enum_simple() {
    check_enum_simple();
}

#[test]
fn decl_enum_backed() {
    check_enum_backed();
}

#[test]
fn decl_special_parameter_types() {
    check_special_parameter_types();
}

#[test]
fn enum_decl_enum_simple() {
    check_enum_simple();
}

#[test]
fn enum_decl_enum_backed() {
    check_enum_backed();
}

#[test]
fn function_decl_function_simple() {
    check_function_simple();
}

#[test]
fn function_decl_function_with_params() {
    check_function_with_params();
}

#[test]
fn function_decl_function_with_return_type() {
    check_function_with_return_type();
}

#[test]
fn interface_decl_interface_simple() {
    check_interface_simple();
}

#[test]
fn trait_decl_trait_simple() {
    check_trait_simple();
}

// ---------------------------------------------------------------------------
// Statements
// ---------------------------------------------------------------------------

fn echo_texts<'a>(src: &'a str, stmt: &Stmt) -> Vec<&'a str> {
    match stmt {
        Stmt::Echo { exprs, .. } => exprs.iter().map(|e| expr_text(src, e)).collect(),
        other => panic!("expected echo, got {:#?}", other),
    }
}

fn block_echoes<'a>(src: &'a str, b: &Block) -> Vec<&'a str> {
    b.items.iter().flat_map(|s| echo_texts(src, s)).collect()
}

#[test]
fn echo_simple() {
    let src = "<?php echo 1;";
    let script = parse_ok(src);
    assert_eq!(echo_texts(src, single_stmt(&script)), vec!["1"]);
    assert_eq!(text(src, single_stmt(&script).span()), "echo 1;");
}

#[test]
fn echo_multiple() {
    let src = "<?php echo 1, 2, 3;";
    let script = parse_ok(src);
    assert_eq!(echo_texts(src, single_stmt(&script)), vec!["1", "2", "3"]);
}

#[test]
fn echo_no_semicolon_at_end_of_file() {
    let src = "<?php echo 1";
    let script = parse_ok(src);
    assert_eq!(echo_texts(src, single_stmt(&script)), vec!["1"]);
}

#[test]
fn echo_no_semicolon_before_close_tag() {
    let src = "<?php echo 1 ?>";
    let script = parse_ok(src);
    assert_eq!(echo_texts(src, single_stmt(&script)), vec!["1"]);
}

fn if_parts(stmt: &Stmt) -> (&Expr, &Block, &Vec<(Expr, Block)>, &Option<Block>) {
    match stmt {
        Stmt::If { cond, then_block, else_if_blocks, else_block, .. } => {
            (cond, then_block, else_if_blocks, else_block)
        },
        other => panic!("expected if, got {:#?}", other),
    }
}

#[test]
fn else_body_accepts_single_statement() {
    let src = r#"<?php
        if (true) echo 1;
        else echo 2;
    "#;
    let script = parse_ok(src);
    let (cond, then_b, elifs, else_b) = if_parts(single_stmt(&script));
    assert_eq!(expr_text(src, cond), "true");
    assert_eq!(block_echoes(src, then_b), vec!["1"]);
    assert!(elifs.is_empty());
    assert_eq!(block_echoes(src, else_b.as_ref().unwrap()), vec!["2"]);
}

#[test]
fn if_body_accepts_single_statement_without_braces() {
    let src = r#"<?php
        if (true) echo 1;
    "#;
    let script = parse_ok(src);
    let (_, then_b, elifs, else_b) = if_parts(single_stmt(&script));
    assert_eq!(block_echoes(src, then_b), vec!["1"]);
    assert!(elifs.is_empty());
    assert!(else_b.is_none());
}

#[test]
fn if_body_accepts_brace_block() {
    let src = r#"<?php
        if (true) { echo 1; echo 2; }
    "#;
    let script = parse_ok(src);
    let (_, then_b, _, else_b) = if_parts(single_stmt(&script));
    assert_eq!(block_echoes(src, then_b), vec!["1", "2"]);
    assert!(else_b.is_none());
}

#[test]
fn else_body_accepts_brace_block() {
    let src = r#"<?php
        if (true) echo 1;
        else { echo 2; echo 3; }
    "#;
    let script = parse_ok(src);
    let (_, _, _, else_b) = if_parts(single_stmt(&script));
    assert_eq!(block_echoes(src, else_b.as_ref().unwrap()), vec!["2", "3"]);
}

#[test]
fn elseif_accepts_brace_block() {
    let src = r#"<?php
        if (true) echo 1;
        elseif (false) { echo 2; }
    "#;
    let script = parse_ok(src);
    let (_, _, elifs, else_b) = if_parts(single_stmt(&script));
    assert_eq!(elifs.len(), 1);
    assert_eq!(expr_text(src, &elifs[0].0), "false");
    assert_eq!(block_echoes(src, &elifs[0].1), vec!["2"]);
    assert!(else_b.is_none());
}

#[test]
fn elseif_accepts_single_statement_without_braces() {
    let src = r#"<?php
        if (true) echo 1;
        elseif (false) echo 2;
    "#;
    let script = parse_ok(src);
    let (_, _, elifs, _) = if_parts(single_stmt(&script));
    assert_eq!(elifs.len(), 1);
    assert_eq!(block_echoes(src, &elifs[0].1), vec!["2"]);
}

#[test]
fn multiple_elseifs_and_else_single_stmt() {
    let src = r#"<?php
        if (false) echo 1;
        elseif (false) echo 2;
        elseif (true) echo 3;
        else echo 4;
    "#;
    let script = parse_ok(src);
    let (_, then_b, elifs, else_b) = if_parts(single_stmt(&script));
    assert_eq!(block_echoes(src, then_b), vec!["1"]);
    assert_eq!(elifs.len(), 2);
    assert_eq!(block_echoes(src, &elifs[0].1), vec!["2"]);
    assert_eq!(block_echoes(src, &elifs[1].1), vec!["3"]);
    assert_eq!(block_echoes(src, else_b.as_ref().unwrap()), vec!["4"]);
}

#[test]
fn else_if_is_parsed_as_nested_if_in_else_block() {
    let src = r#"<?php
        if (true) echo 1;
        else if (false) echo 2;
    "#;
    let script = parse_ok(src);
    let (_, _, elifs, else_b) = if_parts(single_stmt(&script));
    assert!(elifs.is_empty());
    let else_b = else_b.as_ref().unwrap();
    assert_eq!(else_b.items.len(), 1);
    let (cond, then_b, _, _) = if_parts(&else_b.items[0]);
    assert_eq!(expr_text(src, cond), "false");
    assert_eq!(block_echoes(src, then_b), vec!["2"]);
}

#[test]
fn colon_syntax_if_without_else_is_parsed_and_endif_semicolon_optional() {
    let src = r#"<?php
        if (true):
            echo 1;
        endif
    "#;
    let script = parse_ok(src);
    let (_, then_b, elifs, else_b) = if_parts(single_stmt(&script));
    assert_eq!(block_echoes(src, then_b), vec!["1"]);
    assert!(elifs.is_empty());
    assert!(else_b.is_none());
}

#[test]
fn colon_syntax_if_with_else_and_semicolon_after_endif() {
    let src = r#"<?php
        if (false):
            echo 1;
        else:
            echo 2;
        endif;
    "#;
    let script = parse_ok(src);
    let (_, then_b, _, else_b) = if_parts(single_stmt(&script));
    assert_eq!(block_echoes(src, then_b), vec!["1"]);
    assert_eq!(block_echoes(src, else_b.as_ref().unwrap()), vec!["2"]);
}

#[test]
fn colon_syntax_if_with_elseifs_and_else() {
    let src = r#"<?php
        if (false):
            echo 1;
        elseif (false):
            echo 2;
        elseif (true):
            echo 3;
        else:
            echo 4;
        endif;
    "#;
    let script = parse_ok(src);
    let (_, then_b, elifs, else_b) = if_parts(single_stmt(&script));
    assert_eq!(block_echoes(src, then_b), vec!["1"]);
    assert_eq!(elifs.len(), 2);
    assert_eq!(block_echoes(src, &elifs[1].1), vec!["3"]);
    assert_eq!(block_echoes(src, else_b.as_ref().unwrap()), vec!["4"]);
}

#[test]
fn while_simple() {
    let src = "<?php while (true) echo 1;";
    let script = parse_ok(src);
    match single_stmt(&script) {
        Stmt::While { cond, body, .. } => {
            assert_eq!(expr_text(src, cond.as_ref().unwrap()), "true");
            assert_eq!(block_echoes(src, body), vec!["1"]);
        },
        other => panic!("{:#?}", other),
    }
}

#[test]
fn while_colon_syntax() {
    let src = "<?php while (true): echo 1; endwhile;";
    let script = parse_ok(src);
    match single_stmt(&script) {
        Stmt::While { body, span, .. } => {
            assert_eq!(block_echoes(src, body), vec!["1"]);
            assert_eq!(text(src, *span), "while (true): echo 1; endwhile");
        },
        other => panic!("{:#?}", other),
    }
}

#[test]
fn do_while_simple() {
    let src = "<?php do { echo 1; } while (true);";
    let script = parse_ok(src);
    match single_stmt(&script) {
        Stmt::DoWhile { cond, body, span } => {
            assert_eq!(expr_text(src, cond), "true");
            assert_eq!(block_echoes(src, body), vec!["1"]);
            assert_eq!(text(src, *span), "do { echo 1; } while (true);");
        },
        other => panic!("{:#?}", other),
    }
}

#[test]
fn for_simple() {
    let src = "<?php for ($i = 0; $i < 10; $i++) echo $i;";
    let script = parse_ok(src);
    match single_stmt(&script) {
        Stmt::For { init, cond, increment, body, .. } => {
            assert_eq!(expr_text(src, init.as_ref().unwrap()), "$i = 0");
            assert_eq!(expr_text(src, cond.as_ref().unwrap()), "$i < 10");
            assert_eq!(expr_text(src, increment.as_ref().unwrap()), "$i++");
            assert_eq!(block_echoes(src, body), vec!["$i"]);
        },
        other => panic!("{:#?}", other),
    }
}

#[test]
fn for_multiple_exprs() {
    let src = "<?php for ($i = 0, $j = 0; $i < 10; $i++, $j++) echo $i;";
    let script = parse_ok(src);
    match single_stmt(&script) {
        Stmt::For { init, increment, .. } => {
            // Of several expressions in a clause the last is kept.
            assert_eq!(expr_text(src, init.as_ref().unwrap()), "$j = 0");
            assert_eq!(expr_text(src, increment.as_ref().unwrap()), "$j++");
        },
        other => panic!("{:#?}", other),
    }
}

#[test]
fn for_empty() {
    let src = "<?php for (;;);";
    let script = parse_ok(src);
    match single_stmt(&script) {
        Stmt::For { init, cond, increment, body, .. } => {
            assert!(init.is_none() && cond.is_none() && increment.is_none());
            assert_eq!(body.items.len(), 1);
            assert!(matches!(body.items[0], Stmt::Noop { .. }));
        },
        other => panic!("{:#?}", other),
    }
}

#[test]
fn foreach_simple() {
    let src = "<?php foreach ($arr as $val) echo $val;";
    let script = parse_ok(src);
    match single_stmt(&script) {
        Stmt::Foreach { expr, key, value, body, .. } => {
            assert_eq!(expr_text(src, expr.as_ref().unwrap()), "$arr");
            assert!(key.is_none());
            assert_eq!(expr_text(src, value.as_ref().unwrap()), "$val");
            assert_eq!(block_echoes(src, body), vec!["$val"]);
        },
        other => panic!("{:#?}", other),
    }
}

#[test]
fn foreach_with_key() {
    let src = "<?php foreach ($arr as $key => $val) echo $val;";
    let script = parse_ok(src);
    match single_stmt(&script) {
        Stmt::Foreach { key, value, .. } => {
            assert_eq!(expr_text(src, key.as_ref().unwrap()), "$key");
            assert_eq!(expr_text(src, value.as_ref().unwrap()), "$val");
        },
        other => panic!("{:#?}", other),
    }
}

#[test]
fn foreach_colon_syntax() {
    let src = "<?php foreach ($arr as $val): echo $val; endforeach;";
    let script = parse_ok(src);
    match single_stmt(&script) {
        Stmt::Foreach { body, .. } => assert_eq!(block_echoes(src, body), vec!["$val"]),
        other => panic!("{:#?}", other),
    }
}

#[test]
fn return_simple() {
    let src = "<?php return;";
    let script = parse_ok(src);
    match single_stmt(&script) {
        Stmt::Return { expr, span } => {
            assert!(expr.is_none());
            assert_eq!(text(src, *span), "return;");
        },
        other => panic!("{:#?}", other),
    }
}

#[test]
fn return_value() {
    let src = "<?php return 1;";
    let script = parse_ok(src);
    match single_stmt(&script) {
        Stmt::Return { expr, .. } => assert_eq!(expr_text(src, expr.as_ref().unwrap()), "1"),
        other => panic!("{:#?}", other),
    }
}

#[test]
fn throw_simple() {
    let src = "<?php throw $e;";
    let script = parse_ok(src);
    match single_stmt(&script) {
        Stmt::Throw { expr, span } => {
            assert_eq!(expr_text(src, expr), "$e");
            assert_eq!(text(src, *span), "throw $e;");
        },
        other => panic!("{:#?}", other),
    }
}

#[test]
fn break_simple() {
    let script = parse_ok("<?php break;");
    assert!(matches!(single_stmt(&script), Stmt::Break { level: None, .. }));
}

#[test]
fn break_level() {
    let src = "<?php break 2;";
    let script = parse_ok(src);
    match single_stmt(&script) {
        Stmt::Break { level, .. } => assert_eq!(expr_text(src, level.as_ref().unwrap()), "2"),
        other => panic!("{:#?}", other),
    }
}

#[test]
fn break_parenthesized_level() {
    let src = "<?php break(2);";
    let script = parse_ok(src);
    match single_stmt(&script) {
        Stmt::Break { level, .. } => {
            let level = level.as_ref().unwrap();
            assert!(matches!(level, Expr::Parenthesized { .. }));
            assert_eq!(expr_text(src, level), "(2)");
        },
        other => panic!("{:#?}", other),
    }
}

#[test]
fn continue_parenthesized_level() {
    let src = "<?php continue(2);";
    let script = parse_ok(src);
    match single_stmt(&script) {
        Stmt::Continue { level, .. } => assert_eq!(expr_text(src, level.as_ref().unwrap()), "(2)"),
        other => panic!("{:#?}", other),
    }
}

#[test]
fn continue_simple() {
    let script = parse_ok("<?php continue;");
    assert!(matches!(single_stmt(&script), Stmt::Continue { level: None, .. }));
}

#[test]
fn global_simple() {
    let src = "<?php global $a, $b;";
    let script = parse_ok(src);
    match single_stmt(&script) {
        Stmt::Global { span } => assert_eq!(text(src, *span), "global $a, $b;"),
        other => panic!("{:#?}", other),
    }
}

#[test]
fn static_var_simple() {
    let src = "<?php static $a, $b = 1;";
    let script = parse_ok(src);
    match single_stmt(&script) {
        Stmt::Noop { span } => assert_eq!(text(src, *span), "static $a, $b = 1;"),
        other => panic!("{:#?}", other),
    }
}

#[test]
fn unset_simple() {
    let src = "<?php unset($a, $b);";
    let script = parse_ok(src);
    match single_stmt(&script) {
        Stmt::Unset { exprs, .. } => {
            let texts: Vec<&str> = exprs.iter().map(|e| expr_text(src, e)).collect();
            assert_eq!(texts, vec!["$a", "$b"]);
        },
        other => panic!("{:#?}", other),
    }
}

// ---------------------------------------------------------------------------
// Recovery: malformed input is reported, and the parse still ends.
// ---------------------------------------------------------------------------

fn assert_reports(src: &str) -> (Script, Vec<Diagnostic>) {
    let (script, diags) = parse(src);
    assert!(!diags.is_empty(), "expected diagnostics for {:?}", src);
    (script, diags)
}

#[test]
fn if_missing_paren_recovery() {
    assert_reports("<?php if (true echo 1;");
}

#[test]
fn if_missing_cond_recovery() {
    assert_reports("<?php if () echo 1;");
}

#[test]
fn while_missing_paren_recovery() {
    assert_reports("<?php while (true echo 1;");
}

#[test]
fn for_missing_semicolon_recovery() {
    assert_reports("<?php for ($i = 0 $i < 10; $i++) echo $i;");
}

#[test]
fn switch_missing_brace_recovery() {
    assert_reports("<?php switch ($a) case 1: echo 1; endswitch;");
}

#[test]
fn match_missing_expr_recovery() {
    assert_reports("<?php match ($a) { 1 => , 2 => 'two' };");
}

#[test]
fn missing_semicolon_in_block_recovery() {
    assert_reports("<?php { echo 1 echo 2; }");
}

#[test]
fn class_missing_name_recovery() {
    let (script, diags) = assert_reports("<?php class { }");
    assert!(matches!(script.items[0], Stmt::Class { .. }));
    assert!(diags.iter().any(|d| d.message == "expected identifier"));
}

#[test]
fn function_missing_params_recovery() {
    assert_reports("<?php function foo echo 1;");
}

#[test]
fn class_member_single_error() {
    let (_script, diags) = assert_reports("<?php class Foo { public; }");
    assert_eq!(diags.len(), 1, "{:#?}", diags);
}

#[test]
fn unclosed_match_at_end_of_input_terminates() {
    assert_reports("<?php match ($x) {");
}

#[test]
fn stray_paren_in_class_body_terminates() {
    let (script, _diags) = assert_reports("<?php class A { ) } echo 1;");
    assert!(matches!(script.items[0], Stmt::Class { .. }));
}

#[test]
fn unterminated_attribute_terminates() {
    assert_reports("<?php #[Foo(");
}

#[test]
fn stray_tokens_at_top_level_are_reported_one_by_one() {
    let (script, diags) = parse("<?php ) ] echo 1;");
    assert_eq!(diags.len(), 2, "{:#?}", diags);
    assert!(diags.iter().all(|d| d.message == "unexpected token at top level"));
    assert_eq!(script.items.len(), 1);
}

// ---------------------------------------------------------------------------
// More constructs
// ---------------------------------------------------------------------------

#[test]
fn declare_strict_types() {
    let script = parse_ok("<?php declare(strict_types=1);");
    assert!(matches!(single_stmt(&script), Stmt::Declare { strict_types: Some(true), .. }));
    let script = parse_ok("<?php declare(strict_types=0);");
    assert!(matches!(single_stmt(&script), Stmt::Declare { strict_types: Some(false), .. }));
    let script = parse_ok("<?php declare(ticks=1);");
    assert!(matches!(single_stmt(&script), Stmt::Declare { strict_types: None, .. }));
}

#[test]
fn declare_missing_value_is_reported() {
    let (_s, diags) = parse("<?php declare(strict_types=);");
    assert_eq!(diags.len(), 1);
    assert_eq!(diags[0].message, "expected integer literal");
}

#[test]
fn namespace_forms() {
    let src = "<?php namespace A\\B; function f() {} namespace C { echo 1; }";
    let script = parse_ok(src);
    assert_eq!(script.items.len(), 2);
    match &script.items[0] {
        Stmt::Namespace { name, body, .. } => {
            assert_eq!(text(src, name.as_ref().unwrap().span), "A\\B");
            assert_eq!(body.items.len(), 1);
        },
        other => panic!("{:#?}", other),
    }
    match &script.items[1] {
        Stmt::Namespace { body, .. } => assert_eq!(block_echoes(src, body), vec!["1"]),
        other => panic!("{:#?}", other),
    }
}

#[test]
fn use_group_import() {
    let src = "<?php use A\\{B, function c, const D as E};";
    let script = parse_ok(src);
    match single_stmt(&script) {
        Stmt::Use { imports, .. } => {
            assert_eq!(imports.len(), 3);
            assert_eq!(text(src, imports[0].full_name.span), "A\\{B");
            assert_eq!(imports[0].full_name.parts.len(), 2);
            assert_eq!(imports[1].kind, phynix_parse::ast::UseKind::Function);
            assert_eq!(text(src, imports[2].alias.unwrap().span), "E");
        },
        other => panic!("{:#?}", other),
    }
}

#[test]
fn try_catch_finally() {
    let src = "<?php try { f(); } catch (A | B $e) { g(); } finally { h(); }";
    let script = parse_ok(src);
    match single_stmt(&script) {
        Stmt::Try { try_block, catches, finally_block, .. } => {
            assert_eq!(try_block.items.len(), 1);
            assert_eq!(catches.len(), 1);
            assert_eq!(catches[0].exception_types.len(), 2);
            assert_eq!(text(src, catches[0].var.unwrap().span), "$e");
            assert!(finally_block.is_some());
        },
        other => panic!("{:#?}", other),
    }
}

#[test]
fn try_without_catch_is_reported() {
    let (_s, diags) = parse("<?php try { f(); }");
    assert_eq!(diags.len(), 1);
}

#[test]
fn switch_cases() {
    let src = "<?php switch ($a) { case 1: echo 1; break; default: echo 2; }";
    let script = parse_ok(src);
    match single_stmt(&script) {
        Stmt::Switch { cases, .. } => {
            assert_eq!(cases.len(), 2);
            assert!(cases[0].condition.is_some());
            assert_eq!(cases[0].body.items.len(), 2);
            assert!(cases[1].condition.is_none());
        },
        other => panic!("{:#?}", other),
    }
}

#[test]
fn closures_and_arrow_functions() {
    let src = "<?php $f = function ($x) use (&$y) { return $x; }; $g = static fn ($x) => $x * 2;";
    let script = parse_ok(src);
    assert_eq!(script.items.len(), 2);
    match &script.items[0] {
        Stmt::ExprStmt { expr: Expr::Assign { value, .. }, .. } => match &**value {
            Expr::Closure { uses, params, is_static, .. } => {
                assert!(!is_static);
                assert_eq!(params.len(), 1);
                assert_eq!(uses.len(), 1);
                assert!(uses[0].by_ref);
            },
            other => panic!("{:#?}", other),
        },
        other => panic!("{:#?}", other),
    }
    match &script.items[1] {
        Stmt::ExprStmt { expr: Expr::Assign { value, .. }, .. } => {
            assert!(matches!(&**value, Expr::ArrowClosure { is_static: true, .. }), "{:#?}", value)
        },
        other => panic!("{:#?}", other),
    }
}

#[test]
fn new_list_include_isset_empty() {
    let src = "<?php new Foo(1); list($a, , $b) = $c; require_once 'x.php'; isset($a, $b); empty($a);";
    let script = parse_ok(src);
    assert_eq!(script.items.len(), 5);
    let exprs: Vec<&Expr> = script
        .items
        .iter()
        .map(|s| match s {
            Stmt::ExprStmt { expr, .. } => expr,
            other => panic!("{:#?}", other),
        })
        .collect();
    assert!(matches!(exprs[0], Expr::New { args, .. } if args.len() == 1));
    match exprs[1] {
        Expr::Assign { target, .. } => {
            assert!(matches!(&**target, Expr::ListDestructure { items, .. } if items.len() == 3))
        },
        other => panic!("{:#?}", other),
    }
    assert!(matches!(exprs[2], Expr::Include { kind: phynix_parse::ast::IncludeKind::RequireOnce, .. }));
    assert!(matches!(exprs[3], Expr::Isset { exprs, .. } if exprs.len() == 2));
    assert!(matches!(exprs[4], Expr::Empty { .. }));
}

#[test]
fn casts_and_unary_operators() {
    let src = "<?php (int) $a; !$b; -1;";
    let script = parse_ok(src);
    assert_eq!(script.items.len(), 3);
    match &script.items[0] {
        Stmt::ExprStmt { expr: Expr::Cast { kind, .. }, .. } => {
            assert_eq!(*kind, phynix_parse::ast::CastKind::Int)
        },
        other => panic!("{:#?}", other),
    }
}

#[test]
fn integer_literal_bases() {
    let src = "<?php 0x1F; 0b101; 0o17; 1_000;";
    let script = parse_ok(src);
    let values: Vec<i64> = script
        .items
        .iter()
        .map(|s| match s {
            Stmt::ExprStmt { expr: Expr::IntLiteral { value, .. }, .. } => *value,
            other => panic!("{:#?}", other),
        })
        .collect();
    assert_eq!(values, vec![31, 5, 15, 1000]);
}

#[test]
fn integer_literal_out_of_range_is_reported() {
    let (_s, diags) = parse("<?php 99999999999999999999;");
    assert_eq!(diags.len(), 1);
    assert_eq!(diags[0].message, "invalid integer literal");
}

#[test]
fn html_and_tags_are_stepped_over() {
    let src = "<h1>x</h1><?php echo 1; ?><p>y</p><?php echo 2;";
    let script = parse_ok(src);
    let echoes: Vec<&str> = script.items.iter().flat_map(|s| echo_texts(src, s)).collect();
    assert_eq!(echoes, vec!["1", "2"]);
}

#[test]
fn phx_code_starts_in_code_mode() {
    let src = "echo 1;";
    let tokens = vec![
        tok(TokenKind::KwEcho, 0, 4),
        tok(TokenKind::Whitespace, 4, 5),
        tok(TokenKind::Int, 5, 6),
        tok(TokenKind::Semicolon, 6, 7),
        tok(TokenKind::Eof, 7, 7),
    ];
    let (script, diags) =
        Parser::new(src, &tokens, LanguageKind::PhxCode, Strictness::Strict).parse_script();
    assert!(diags.is_empty());
    assert_eq!(script.items.len(), 1);
}

// ---------------------------------------------------------------------------
// The operator table and the number reader
// ---------------------------------------------------------------------------

use phynix_parse::parser::expr::binop::{
    is_non_associative, is_right_associative, non_associative_message, op_kind_to_str,
    precedence_of, token_to_binop,
};
use phynix_parse::parser::expr::literal::{i64_from_str_radix, int_literal_radix};

#[test]
fn precedence_table_values() {
    assert_eq!(precedence_of(BinOpKind::Pow), 100);
    assert_eq!(precedence_of(BinOpKind::InstanceOf), 90);
    assert_eq!(precedence_of(BinOpKind::Mul), 80);
    assert_eq!(precedence_of(BinOpKind::Concat), 70);
    assert_eq!(precedence_of(BinOpKind::CmpLt), 50);
    assert_eq!(precedence_of(BinOpKind::CmpSpaceship), 45);
    assert_eq!(precedence_of(BinOpKind::NullCoalesce), 8);
    assert_eq!(precedence_of(BinOpKind::Or), 2);
    assert!(precedence_of(BinOpKind::InstanceOf) > precedence_of(BinOpKind::Mul));
    assert!(precedence_of(BinOpKind::OrOr) > precedence_of(BinOpKind::NullCoalesce));
}

#[test]
fn associativity_table() {
    assert!(is_right_associative(BinOpKind::Pow));
    assert!(is_right_associative(BinOpKind::NullCoalesce));
    assert!(!is_right_associative(BinOpKind::Add));
    assert!(is_non_associative(BinOpKind::CmpLt));
    assert!(is_non_associative(BinOpKind::InstanceOf));
    assert!(!is_non_associative(BinOpKind::Add));
}

#[test]
fn operator_texts_and_messages() {
    assert_eq!(op_kind_to_str(BinOpKind::CmpSpaceship), "<=>");
    assert_eq!(op_kind_to_str(BinOpKind::Xor), "xor");
    assert_eq!(non_associative_message(BinOpKind::CmpLt), "operator '<' is non-associative");
    assert_eq!(token_to_binop(&TokenKind::NotEqAlt), Some(BinOpKind::CmpNe));
    assert_eq!(token_to_binop(&TokenKind::Semicolon), None);
}

#[test]
fn reads_integers_in_bases() {
    assert_eq!(i64_from_str_radix(b"ff", 0, 16), Some(255));
    assert_eq!(i64_from_str_radix(b"-101", 0, 2), Some(-5));
    assert_eq!(i64_from_str_radix(b"xx+7", 2, 10), Some(7));
    assert_eq!(i64_from_str_radix(b"9223372036854775807", 0, 10), Some(i64::MAX));
    assert_eq!(i64_from_str_radix(b"-9223372036854775808", 0, 10), Some(i64::MIN));
    assert_eq!(i64_from_str_radix(b"9223372036854775808", 0, 10), None);
    assert_eq!(i64_from_str_radix(b"12a", 0, 10), None);
    assert_eq!(i64_from_str_radix(b"", 0, 10), None);
    assert_eq!(i64_from_str_radix(b"-", 0, 10), None);
    assert_eq!(int_literal_radix(&b"0x1F".to_vec()), (16, 2));
    assert_eq!(int_literal_radix(&b"0B1".to_vec()), (2, 2));
    assert_eq!(int_literal_radix(&b"0o7".to_vec()), (8, 2));
    assert_eq!(int_literal_radix(&b"017".to_vec()), (10, 0));
}

// ---------------------------------------------------------------------------
// The laws on concrete inputs
// ---------------------------------------------------------------------------

#[test]
fn same_precedence_groups_to_the_left() {
    // `-`, `+` and `.` share a precedence and all group to the left.
    let src = "<?php $a - $b + $c . $d;";
    let script = parse_ok(src);
    let (l, r) = assert_binop(single_expr(&script), BinOpKind::Concat);
    assert_eq!(expr_text(src, r), "$d");
    let (ll, lr) = assert_binop(l, BinOpKind::Add);
    assert_eq!(expr_text(src, lr), "$c");
    assert_binop(ll, BinOpKind::Sub);
}

#[test]
fn equality_chain_is_reported() {
    let (_s, diags) = parse("<?php $a == $b != $c;");
    assert_eq!(diags[0].message, "operator '!=' is non-associative", "{:#?}", diags);
}

#[test]
fn instanceof_chain_is_reported() {
    let (_s, diags) = parse("<?php $a instanceof B instanceof C;");
    assert!(diags[0].message.contains("non-associative"), "{:#?}", diags);
}

#[test]
fn tighter_operators_nest_on_the_right() {
    let src = "<?php $a || $b && $c | $d ^ $e & $f == $g < $h << $i + $j * $k ** $l;";
    let script = parse_ok(src);
    let mut e = single_expr(&script);
    let chain = [
        BinOpKind::OrOr,
        BinOpKind::AndAnd,
        BinOpKind::BitOr,
        BinOpKind::BitXor,
        BinOpKind::BitAnd,
        BinOpKind::CmpEq,
        BinOpKind::CmpLt,
        BinOpKind::Shl,
        BinOpKind::Add,
        BinOpKind::Mul,
        BinOpKind::Pow,
    ];
    for op in chain {
        let (_, r) = assert_binop(e, op);
        e = r;
    }
    assert_eq!(expr_text(src, e), "$l");
}

#[test]
fn assignment_chain_groups_to_the_right() {
    let src = "<?php $a = $b = $c;";
    let script = parse_ok(src);
    match single_expr(&script) {
        Expr::Assign { target, value, .. } => {
            assert_eq!(expr_text(src, target), "$a");
            assert!(matches!(&**value, Expr::Assign { .. }), "{:#?}", value);
        },
        other => panic!("{:#?}", other),
    }
}

#[test]
fn keywords_decide_statement_kinds() {
    let src = "<?php if (1) {} while (1) {} do {} while (1); for (;;) {} foreach ($a as $b) {} \
               switch ($a) {} try {} finally {} return; throw $e; echo 1; global $g; unset($u); \
               const C = 1; declare(ticks=1); use A; interface I {} trait T {} enum E {} class K {}";
    let script = parse_ok(src);
    let kinds: Vec<&str> = script
        .items
        .iter()
        .map(|s| match s {
            Stmt::If { .. } => "if",
            Stmt::While { .. } => "while",
            Stmt::DoWhile { .. } => "do",
            Stmt::For { .. } => "for",
            Stmt::Foreach { .. } => "foreach",
            Stmt::Switch { .. } => "switch",
            Stmt::Try { .. } => "try",
            Stmt::Return { .. } => "return",
            Stmt::Throw { .. } => "throw",
            Stmt::Echo { .. } => "echo",
            Stmt::Global { .. } => "global",
            Stmt::Unset { .. } => "unset",
            Stmt::ConstDecl { .. } => "const",
            Stmt::Declare { .. } => "declare",
            Stmt::Use { .. } => "use",
            Stmt::Interface { .. } => "interface",
            Stmt::Trait { .. } => "trait",
            Stmt::Enum { .. } => "enum",
            Stmt::Class { .. } => "class",
            _ => "other",
        })
        .collect();
    assert_eq!(
        kinds,
        vec![
            "if", "while", "do", "for", "foreach", "switch", "try", "return", "throw", "echo",
            "global", "unset", "const", "declare", "use", "interface", "trait", "enum", "class"
        ]
    );
    for s in &script.items {
        let first_word = text(src, s.span()).split(|c: char| !c.is_ascii_alphabetic()).next();
        assert!(first_word.map(|w| !w.is_empty()).unwrap_or(false), "{:?}", text(src, s.span()));
    }
}

#[test]
fn recovery_stops_at_the_first_stop_token() {
    // The missing `;` is reported once; recovery skips `2 3 $b` and stops
    // at the `;`, which then stands as an empty statement.
    let src = "<?php return 1 2 3 $b;";
    let (script, diags) = parse(src);
    assert_eq!(diags.len(), 1, "{:#?}", diags);
    assert_eq!(script.items.len(), 2);
    assert_eq!(text(src, script.items[1].span()), ";");
}

#[test]
fn diagnostics_are_never_lost() {
    // Every error of a malformed script is returned, in source order.
    let (_s, diags) = parse("<?php ) ; 99999999999999999999; ]");
    assert_eq!(diags.len(), 3, "{:#?}", diags);
    assert!(diags.windows(2).all(|w| w[0].span.start <= w[1].span.start));
}

// ---------------------------------------------------------------------------
// Rules that a parse without diagnostics obeys
// ---------------------------------------------------------------------------

#[test]
fn goto_and_label_spans() {
    let src = "<?php goto end; end:";
    let script = parse_ok(src);
    assert_eq!(script.items.len(), 2);
    match &script.items[0] {
        Stmt::Goto { target, span } => {
            assert_eq!(text(src, target.span), "end");
            assert_eq!(text(src, *span), "goto end;");
        },
        other => panic!("{:#?}", other),
    }
    match &script.items[1] {
        Stmt::Label { name, span } => {
            assert_eq!(text(src, name.span), "end");
            assert_eq!(text(src, *span), "end:");
        },
        other => panic!("{:#?}", other),
    }
}

#[test]
fn goto_without_label_is_reported() {
    let (_s, diags) = parse("<?php goto;");
    assert!(matches!(diags[0].code, ParseDiagnosticCode::ExpectedIdent));
    assert_eq!(diags[0].message, "expected identifier");
    assert_eq!(diags[0].span, Span { start: 10, end: 10 });
}

#[test]
fn named_arguments_come_last() {
    let src = "<?php f(1, a: 2, b: 3);";
    let script = parse_ok(src);
    match single_expr(&script) {
        Expr::FunctionCall { args, .. } => {
            assert_eq!(args.len(), 3);
            assert!(args[0].name.is_none());
            assert_eq!(text(src, args[1].name.unwrap().span), "a");
            assert_eq!(text(src, args[2].name.unwrap().span), "b");
        },
        other => panic!("{:#?}", other),
    }
    let (_s, diags) = parse("<?php f(a: 1, 2);");
    assert_eq!(diags.len(), 1);
    assert!(matches!(diags[0].code, ParseDiagnosticCode::PositionalAfterNamedArg));
    assert_eq!(diags[0].message, "positional argument after named argument");
    let (_s, diags) = parse("<?php f(a: 1, ...$x);");
    assert_eq!(diags.len(), 1);
    assert!(matches!(diags[0].code, ParseDiagnosticCode::VariadicAfterNamedArg));
}

#[test]
fn unset_needs_an_argument() {
    let (script, diags) = parse("<?php unset();");
    assert_eq!(diags.len(), 1);
    assert!(matches!(diags[0].code, ParseDiagnosticCode::ExpectedAtLeastOneArgument));
    assert_eq!(diags[0].message, "expected at least one argument");
    assert!(matches!(single_stmt(&script), Stmt::Unset { exprs, .. } if exprs.is_empty()));
    let script = parse_ok("<?php unset($a, $b);");
    assert!(matches!(single_stmt(&script), Stmt::Unset { exprs, .. } if exprs.len() == 2));
}

#[test]
fn catch_needs_a_type() {
    let (script, diags) = parse("<?php try { f(); } catch ($e) { g(); }");
    assert!(diags
        .iter()
        .any(|d| matches!(d.code, ParseDiagnosticCode::ExpectedCatchExceptionType)));
    match single_stmt(&script) {
        Stmt::Try { catches, .. } => assert!(catches[0].exception_types.is_empty()),
        other => panic!("{:#?}", other),
    }
}

#[test]
fn unpacked_array_item_has_no_key() {
    let (script, diags) = parse("<?php [...$a => 1];");
    assert!(matches!(diags[0].code, ParseDiagnosticCode::UnpackedArrayItemWithFatArrow));
    match &script.items[0] {
        Stmt::ExprStmt { expr: Expr::ArrayLiteral { items, .. }, .. } => {
            assert!(items[0].unpack);
            assert!(items[0].key.is_none());
        },
        other => panic!("{:#?}", other),
    }
}

#[test]
fn break_before_close_tag_is_reported() {
    let src = "<?php break ?>";
    let (script, diags) = parse(src);
    assert!(matches!(diags[0].code, ParseDiagnosticCode::ExpectedToken(TokenKind::Semicolon)));
    assert_eq!(diags[0].span, Span { start: 11, end: 11 });
    match &script.items[0] {
        Stmt::Break { level, span } => {
            assert!(level.is_none());
            assert_eq!(text(src, *span), "break");
        },
        other => panic!("{:#?}", other),
    }
}

/// The statement that `parse_varlike_stmt` reads from the `$` after
/// `<?php `, and whether it reported anything.
fn varlike(src: &str) -> (Option<Stmt>, bool) {
    let tokens = lex(src);
    let mut p = Parser::new(src, &tokens, LanguageKind::PhpCompat, Strictness::Lenient);
    p.bump();
    assert!(p.at(TokenKind::Dollar));
    let stmt = p.parse_varlike_stmt();
    let (_script, diags) = p.parse_script();
    (stmt, diags.is_empty())
}

#[test]
fn typed_variable_declarations() {
    let src = "<?php $ x: Foo = 1;";
    match varlike(src) {
        (Some(Stmt::VarDecl { name, type_annotation, init, span }), true) => {
            assert_eq!(text(src, name.span), "x");
            assert!(matches!(type_annotation, Some(TypeRef::Named { .. })));
            assert_eq!(expr_text(src, init.as_ref().unwrap()), "1");
            assert_eq!(text(src, span), "$ x: Foo = 1;");
        },
        other => panic!("{:#?}", other),
    }
    let src = "<?php $ y = 2;";
    match varlike(src) {
        (Some(Stmt::Assign { target, value, span }), true) => {
            assert_eq!(text(src, target.span), "y");
            assert_eq!(expr_text(src, &value), "2");
            assert_eq!(text(src, span), "$ y = 2;");
        },
        other => panic!("{:#?}", other),
    }
    match varlike("<?php $ z: Bar;") {
        (Some(Stmt::VarDecl { init, .. }), true) => assert!(init.is_none()),
        other => panic!("{:#?}", other),
    }
    match varlike("<?php $ w;") {
        (Some(Stmt::ExprStmt { .. }), _) => {},
        other => panic!("{:#?}", other),
    }
}

#[test]
fn names_after_declaration_keywords() {
    let src = "<?php function &f() {} trait T {} interface I {} const C = 1;";
    let script = parse_ok(src);
    let names: Vec<&str> = script
        .items
        .iter()
        .map(|s| match s {
            Stmt::Function { name, .. } => text(src, name.span),
            Stmt::Trait { name, .. } => text(src, name.span),
            Stmt::Interface { name, .. } => text(src, name.span),
            Stmt::ConstDecl { name, .. } => text(src, name.span),
            other => panic!("{:#?}", other),
        })
        .collect();
    assert_eq!(names, vec!["f", "T", "I", "C"]);
}

#[test]
fn missing_names_are_reported() {
    let (script, diags) = parse("<?php enum { }");
    assert_eq!(diags[0].message, "expected enum name after 'enum'");
    assert!(matches!(diags[0].code, ParseDiagnosticCode::UnexpectedToken));
    match &script.items[0] {
        Stmt::Enum { name, .. } => assert_eq!(name.span, Span { start: 10, end: 10 }),
        other => panic!("{:#?}", other),
    }
    let (script, diags) = parse("<?php const = 1;");
    assert!(matches!(diags[0].code, ParseDiagnosticCode::ExpectedIdent));
    assert_eq!(diags[0].span, Span { start: 11, end: 11 });
    match &script.items[0] {
        Stmt::ConstDecl { name, value, span } => {
            assert_eq!(name.span, Span { start: 11, end: 11 });
            assert!(value.is_none());
            assert_eq!(*span, Span { start: 6, end: 11 });
        },
        other => panic!("{:#?}", other),
    }
}

#[test]
fn namespace_name_is_optional() {
    let script = parse_ok("<?php namespace { echo 1; }");
    match single_stmt(&script) {
        Stmt::Namespace { name, body, .. } => {
            assert!(name.is_none());
            assert_eq!(body.items.len(), 1);
        },
        other => panic!("{:#?}", other),
    }
}

#[test]
fn prefix_operator_covers_the_whole_postfix_chain() {
    let src = "<?php -$a->b; !f(1);";
    let script = parse_ok(src);
    match &script.items[0] {
        Stmt::ExprStmt { expr: Expr::UnaryOp { op, expr, span }, .. } => {
            assert_eq!(*op, phynix_parse::ast::UnOpKind::Neg);
            assert!(matches!(**expr, Expr::PropertyFetch { .. }));
            assert_eq!(text(src, *span), "-$a->b");
        },
        other => panic!("{:#?}", other),
    }
    match &script.items[1] {
        Stmt::ExprStmt { expr: Expr::UnaryOp { op, expr, span }, .. } => {
            assert_eq!(*op, phynix_parse::ast::UnOpKind::Not);
            match &**expr {
                Expr::FunctionCall { callee, args, .. } => {
                    assert!(matches!(**callee, Expr::NameRef { .. }));
                    assert_eq!(args.len(), 1);
                },
                other => panic!("{:#?}", other),
            }
            assert_eq!(text(src, *span), "!f(1)");
        },
        other => panic!("{:#?}", other),
    }
}

#[test]
fn single_tokens_are_whole_expressions() {
    let src = "<?php 7; $v; [1 => $w];";
    let script = parse_ok(src);
    match &script.items[0] {
        Stmt::ExprStmt { expr: Expr::IntLiteral { value, span: lit }, span } => {
            assert_eq!(*value, 7);
            assert_eq!(text(src, *lit), "7");
            assert_eq!(text(src, *span), "7;");
        },
        other => panic!("{:#?}", other),
    }
    match &script.items[1] {
        Stmt::ExprStmt { expr: Expr::VarRef { name, span: var }, span } => {
            assert_eq!(text(src, name.span), "v");
            assert_eq!(text(src, *var), "$v");
            assert_eq!(text(src, *span), "$v;");
        },
        other => panic!("{:#?}", other),
    }
    match &script.items[2] {
        Stmt::ExprStmt { expr: Expr::ArrayLiteral { items, .. }, .. } => {
            assert!(matches!(items[0].key, Some(Expr::IntLiteral { value: 1, .. })));
            assert!(matches!(&items[0].value, Expr::VarRef { .. }));
        },
        other => panic!("{:#?}", other),
    }
}

// ---------------------------------------------------------------------------
// What the parser reads is what stands in the source
// ---------------------------------------------------------------------------

#[test]
fn operators_come_out_as_read() {
    let src = "<?php $a - $b * $c;";
    let script = parse_ok(src);
    let (left, right) = assert_binop(single_expr(&script), BinOpKind::Sub);
    assert_eq!(expr_text(src, left), "$a");
    let (l2, r2) = assert_binop(right, BinOpKind::Mul);
    assert_eq!(expr_text(src, l2), "$b");
    assert_eq!(expr_text(src, r2), "$c");
}

#[test]
fn prefix_operator_takes_the_following_term() {
    let src = "<?php -1;";
    let script = parse_ok(src);
    match single_expr(&script) {
        Expr::UnaryOp { op, expr, span } => {
            assert_eq!(*op, UnOpKind::Neg);
            assert!(matches!(**expr, Expr::IntLiteral { value: 1, .. }), "{:#?}", expr);
            assert_eq!(*span, Span { start: 6, end: 8 });
        },
        other => panic!("{:#?}", other),
    }
    assert_eq!(script.span, Span { start: 6, end: 9 });
}

#[test]
fn script_span_runs_from_first_token_to_last_item() {
    let src = "<?php 1; 2;";
    let script = parse_ok(src);
    assert_eq!(script.items.len(), 2);
    assert_eq!(script.span, Span { start: 6, end: 11 });
}

#[test]
fn static_call_keeps_its_argument() {
    let src = "<?php Foo::bar(1);";
    let script = parse_ok(src);
    match single_expr(&script) {
        Expr::StaticCall { args, method, span, .. } => {
            assert_eq!(text(src, method.span), "bar");
            assert_eq!(args.len(), 1);
            assert!(args[0].name.is_none());
            assert!(!args[0].unpack);
            assert!(matches!(args[0].expr, Expr::IntLiteral { value: 1, .. }));
            assert_eq!(span.end, 17);
        },
        other => panic!("{:#?}", other),
    }
}

#[test]
fn call_without_arguments() {
    let src = "<?php f();";
    let script = parse_ok(src);
    match single_expr(&script) {
        Expr::FunctionCall { args, .. } => assert!(args.is_empty()),
        other => panic!("{:#?}", other),
    }
}

#[test]
fn use_statement_has_its_import() {
    let src = "<?php use A\\B;";
    let script = parse_ok(src);
    match &script.items[0] {
        Stmt::Use { imports, .. } => assert_eq!(imports.len(), 1),
        other => panic!("{:#?}", other),
    }
}

#[test]
fn closure_keeps_its_first_parameter() {
    let src = "<?php $f = function ($x) { return $x; };";
    let script = parse_ok(src);
    match single_expr(&script) {
        Expr::Assign { value, .. } => match &**value {
            Expr::Closure { params, .. } => {
                assert_eq!(params.len(), 1);
                assert_eq!(text(src, params[0].name.span), "$x");
                assert!(params[0].default.is_none());
            },
            other => panic!("{:#?}", other),
        },
        other => panic!("{:#?}", other),
    }
}

#[test]
fn echo_keeps_its_expressions_in_order() {
    let src = "<?php echo $a, 2;";
    let script = parse_ok(src);
    match &script.items[0] {
        Stmt::Echo { exprs, .. } => {
            assert_eq!(exprs.len(), 2);
            assert_eq!(expr_text(src, &exprs[0]), "$a");
            assert!(matches!(exprs[1], Expr::IntLiteral { value: 2, .. }));
        },
        other => panic!("{:#?}", other),
    }
}

#[test]
fn class_keeps_its_attributes() {
    let src = "<?php #[A] class C {}";
    let script = parse_ok(src);
    match &script.items[0] {
        Stmt::Class { attributes, .. } => assert_eq!(attributes.len(), 1),
        other => panic!("{:#?}", other),
    }
}

#[test]
fn if_keeps_its_condition_and_else_block() {
    let src = "<?php if ($a) {} else { 1; }";
    let script = parse_ok(src);
    match &script.items[0] {
        Stmt::If { cond, else_block, .. } => {
            assert_eq!(expr_text(src, cond), "$a");
            let b = else_block.as_ref().expect("else block");
            assert_eq!(block_len(b), 1);
        },
        other => panic!("{:#?}", other),
    }
}

#[test]
fn subtraction_groups_to_the_left() {
    let src = "<?php $a - $b - $c;";
    let script = parse_ok(src);
    let (left, right) = assert_binop(single_expr(&script), BinOpKind::Sub);
    assert_eq!(expr_text(src, right), "$c");
    let (l2, r2) = assert_binop(left, BinOpKind::Sub);
    assert_eq!(expr_text(src, l2), "$a");
    assert_eq!(expr_text(src, r2), "$b");
}

#[test]
fn new_with_self_names_the_class_by_keyword() {
    let src = "<?php new self(1);";
    let script = parse_ok(src);
    match single_expr(&script) {
        Expr::New { class, args, span } => {
            assert_eq!(expr_text(src, class), "self");
            assert!(matches!(**class, Expr::ConstFetch { .. }));
            assert_eq!(args.len(), 1);
            assert_eq!(text(src, *span), "new self(1)");
        },
        other => panic!("{:#?}", other),
    }
}

#[test]
fn echo_of_terms_at_end_of_input() {
    let src = "<?php echo 1, $a, 3";
    let script = parse_ok(src);
    match &script.items[0] {
        Stmt::Echo { exprs, span } => {
            assert_eq!(exprs.len(), 3);
            assert_eq!(expr_text(src, &exprs[1]), "$a");
            assert_eq!(text(src, *span), "echo 1, $a, 3");
        },
        other => panic!("{:#?}", other),
    }
}

#[test]
fn script_of_chains_and_echoes_has_no_diagnostics() {
    let (script, diags) = parse("<?php 1 + 2 * 3; echo $a, 2; $b ** $c;");
    assert!(diags.is_empty(), "{:#?}", diags);
    assert_eq!(script.items.len(), 3);
}

#[test]
fn member_modifiers_set_their_flags() {
    let src = "<?php class A { private static function f() {} var $x; }";
    let script = parse_ok(src);
    match &script.items[0] {
        Stmt::Class { body, .. } => {
            assert_eq!(body.len(), 2);
            match &body[0] {
                ClassMember::Method { flags, .. } => {
                    assert!(flags.is_private && flags.is_static && !flags.is_public);
                },
                other => panic!("{:#?}", other),
            }
            match &body[1] {
                ClassMember::Property { flags, .. } => {
                    assert!(flags.is_public && !flags.is_static);
                },
                other => panic!("{:#?}", other),
            }
        },
        other => panic!("{:#?}", other),
    }
}

#[test]
fn try_without_catch_or_finally_is_reported() {
    let src = "<?php try { }";
    let (script, diags) = parse(src);
    assert_eq!(script.items.len(), 1);
    let last = diags.last().expect("a diagnostic");
    match &last.code {
        ParseDiagnosticCode::ExpectedTokens(ks) => {
            assert_eq!(ks, &vec![TokenKind::KwCatch, TokenKind::KwFinally]);
        },
        other => panic!("{:#?}", other),
    }
    assert_eq!(last.span, Span { start: 13, end: 13 });
}

#[test]
fn keyed_array_item_of_terms() {
    let src = "<?php [1 => $a];";
    let script = parse_ok(src);
    match single_expr(&script) {
        Expr::ArrayLiteral { items, .. } => {
            assert_eq!(items.len(), 1);
            assert_eq!(expr_text(src, items[0].key.as_ref().expect("key")), "1");
            assert_eq!(expr_text(src, &items[0].value), "$a");
            assert_eq!(text(src, items[0].span), "1 => $a");
            assert!(!items[0].unpack);
        },
        other => panic!("{:#?}", other),
    }
}

#[test]
fn parameter_typed_with_self() {
    let src = "<?php function f(self $x, parent $y) {}";
    let script = parse_ok(src);
    match &script.items[0] {
        Stmt::Function { params, .. } => {
            assert_eq!(params.len(), 2);
            match params[0].type_annotation.as_ref().expect("type") {
                TypeRef::Named { name, span } => {
                    assert_eq!(text(src, *span), "self");
                    assert_eq!(name.parts.len(), 1);
                },
                other => panic!("{:#?}", other),
            }
            assert_eq!(text(src, params[1].span), "parent $y");
        },
        other => panic!("{:#?}", other),
    }
}

#[test]
fn each_positional_argument_after_a_named_one_is_reported() {
    let src = "<?php f(a: 1, 2, 3);";
    let (script, diags) = parse(src);
    assert_eq!(script.items.len(), 1);
    let n = diags
        .iter()
        .filter(|d| matches!(d.code, ParseDiagnosticCode::PositionalAfterNamedArg))
        .count();
    assert_eq!(n, 2);
    match single_expr(&script) {
        Expr::FunctionCall { args, .. } => assert_eq!(args.len(), 3),
        other => panic!("{:#?}", other),
    }
}

#[test]
fn call_arguments_of_terms() {
    let src = "<?php f(1, $a, 3);";
    let script = parse_ok(src);
    match single_expr(&script) {
        Expr::FunctionCall { args, span, .. } => {
            assert_eq!(args.len(), 3);
            assert!(args.iter().all(|a| a.name.is_none() && !a.unpack));
            assert_eq!(expr_text(src, &args[2].expr), "3");
            assert_eq!(text(src, *span), "f(1, $a, 3)");
        },
        other => panic!("{:#?}", other),
    }
}

#[test]
fn typed_declaration_with_a_value() {
    let src = "<?php $ x: Foo = $a;";
    match varlike(src) {
        (Some(Stmt::VarDecl { type_annotation, init, .. }), true) => {
            match type_annotation.as_ref().expect("type") {
                TypeRef::Named { name, span } => {
                    assert_eq!(text(src, *span), "Foo");
                    assert_eq!(name.parts.len(), 1);
                },
                other => panic!("{:#?}", other),
            }
            assert_eq!(expr_text(src, init.as_ref().expect("init")), "$a");
        },
        other => panic!("{:#?}", other),
    }
}

#[test]
fn nested_prefix_operators_apply_inside_out() {
    let src = "<?php -!$a;";
    let script = parse_ok(src);
    match single_expr(&script) {
        Expr::UnaryOp { op, expr, span } => {
            assert_eq!(*op, UnOpKind::Neg);
            assert_eq!(text(src, *span), "-!$a");
            match &**expr {
                Expr::UnaryOp { op, expr, .. } => {
                    assert_eq!(*op, UnOpKind::Not);
                    assert_eq!(expr_text(src, expr), "$a");
                },
                other => panic!("{:#?}", other),
            }
        },
        other => panic!("{:#?}", other),
    }
}

#[test]
fn levelled_break_keeps_its_level() {
    let src = "<?php break 2;";
    let script = parse_ok(src);
    match &script.items[0] {
        Stmt::Break { level, span } => {
            assert_eq!(expr_text(src, level.as_ref().expect("level")), "2");
            assert_eq!(text(src, *span), "break 2;");
        },
        other => panic!("{:#?}", other),
    }
}

#[test]
fn conditional_of_terms() {
    let src = "<?php $a ? 1 : $b;";
    let script = parse_ok(src);
    match single_expr(&script) {
        Expr::Ternary { condition, then_expr, else_expr, span } => {
            assert_eq!(expr_text(src, condition), "$a");
            assert_eq!(expr_text(src, then_expr.as_ref().expect("then")), "1");
            assert_eq!(expr_text(src, else_expr), "$b");
            assert_eq!(text(src, *span), "$a ? 1 : $b");
        },
        other => panic!("{:#?}", other),
    }
}

#[test]
fn short_conditional_of_terms_has_no_middle() {
    let src = "<?php $a ?: 2;";
    let script = parse_ok(src);
    match single_expr(&script) {
        Expr::Ternary { then_expr, else_expr, .. } => {
            assert!(then_expr.is_none());
            assert_eq!(expr_text(src, else_expr), "2");
        },
        other => panic!("{:#?}", other),
    }
}

#[test]
fn script_with_conditionals_has_no_diagnostics() {
    let (script, diags) = parse("<?php $a ? 1 : 2; $b ?: $c; 1 - 2 - 3;");
    assert!(diags.is_empty(), "{:#?}", diags);
    assert_eq!(script.items.len(), 3);
}

#[test]
fn if_with_empty_block_and_no_branches() {
    let src = "<?php if ($a) {} $b;";
    let script = parse_ok(src);
    match &script.items[0] {
        Stmt::If { then_block, else_if_blocks, else_block, span, .. } => {
            assert_eq!(block_len(then_block), 0);
            assert!(else_if_blocks.is_empty());
            assert!(else_block.is_none());
            assert_eq!(text(src, *span), "if ($a) {}");
        },
        other => panic!("{:#?}", other),
    }
    let script = parse_ok("<?php if ($a) {} elseif ($b) { 1; }");
    match &script.items[0] {
        Stmt::If { else_if_blocks, .. } => assert_eq!(else_if_blocks.len(), 1),
        other => panic!("{:#?}", other),
    }
}

#[test]
fn group_use_member_keeps_kind_name_and_alias() {
    let src = "<?php use A\\{B as C, function d};";
    let script = parse_ok(src);
    match &script.items[0] {
        Stmt::Use { imports, .. } => {
            assert_eq!(imports.len(), 2);
            assert_eq!(imports[0].kind, phynix_parse::ast::UseKind::Normal);
            assert_eq!(imports[0].full_name.parts.len(), 2);
            assert_eq!(text(src, imports[0].full_name.parts[1].span), "B");
            assert_eq!(text(src, imports[0].alias.expect("alias").span), "C");
            assert_eq!(imports[1].kind, phynix_parse::ast::UseKind::Function);
            assert!(imports[1].alias.is_none());
        },
        other => panic!("{:#?}", other),
    }
}
