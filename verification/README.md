# phynix_parse

A recursive-descent parser for PHP that works on a token stream and always
produces a syntax tree, together with the diagnostics it reported while
recovering from malformed input. Every function is verified with Verus,
except one thin wrapper whose contract is taken on trust: it takes a byte
range of a `&str`.

## Layout

- `src/token.rs`, `src/span.rs`: tokens and the byte ranges they cover.
- `src/config.rs`: the dialect (`PhpCompat`, `PhxCode`) and strictness.
- `src/diagnostics.rs`: diagnostic codes and messages.
- `src/ast.rs`: the syntax tree.
- `src/parser/mod.rs`: the parser state, its invariant (`wf`), the cursor
  operations and `parse_script`.
- `src/parser/expr/`: expressions, from conditionals down to primary terms;
  `binop.rs` holds the operator table and precedence climbing.
- `src/parser/stmt/`: statements and declarations.

## What is proved

- No function panics, overflows or indexes out of bounds, and every parse
  terminates: each grammar rule is ranked by the tokens left to read.
- The cursor never moves back and diagnostics are only ever appended
  (`evolves_to`); every rule that returns a node has consumed input.
- An expression read without diagnostics is grouped by precedence and
  associativity (`grouped`, `expr_grouped`): operands bind at least as
  tightly as their operator, on the side its associativity allows;
  comparisons and `instanceof` are not chained; and a full conditional never
  has an unparenthesized full conditional as its else branch. A script read
  without diagnostics has every top-level expression statement so grouped.
- Operators of one precedence share their associativity.
- A leading keyword decides the kind of statement and where its span starts.
- Recovery skips only tokens outside its stop set and stops at the first
  token in it.
- What a parse free of diagnostics guarantees: named call arguments come
  after every positional one and are never followed by `...`; `unset`
  has an argument; a `try` has a `catch` or a `finally`, and every `catch`
  names a type; `echo` has an expression.
- Unpacked array items never carry a key.
- `goto`, labels, `break`/`continue` without a level, `return;` and the
  `strict_types` value of `declare` are given exactly in terms of the
  tokens; so are the names after `class`, `function`, `enum`, `trait`,
  `interface` and `const`, and how a missing one is reported.
- Integer literals are read in bases 2, 8, 10 and 16 exactly as
  `i64::from_str_radix` does, and an out-of-range one is reported.
- An integer literal or a variable followed by a token that closes or
  separates expressions is parsed as exactly that term, at every level of
  the expression grammar.
- A prefix operator at the start of a term applies to the whole term with
  its postfix chain; a term followed by no postfix token is left as it is;
  a run of prefix operators before a term nests from the inside out.
- A script made only of well-formed operator chains, conditionals of terms
  (`$a ? 1 : 2;`, `$a ?: 2;`) and `echo` statements of terms parses
  without a single diagnostic.
- Exact trees are stated for: conditionals of terms, comma lists of terms
  as `echo` operands and as call arguments, `key => value` array items of
  terms, one-word types of parameters and typed declarations, the flags
  that member modifiers give, the first one-part member of a group `use`
  (its kind, full name and alias), `new` with a keyword or simple class
  name, and `->name(...)` calls.
- Every unnamed argument after a named one is reported, and so is a full
  conditional left unparenthesized as the else branch of another one.

The tests in `tests/` lex small PHP sources with a minimal lexer of their own
and check the trees and diagnostics that the parser gives.
