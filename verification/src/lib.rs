//! A recursive-descent parser for PHP source, working on a token stream.
//!
//! The parser never fails: it always produces a `Script` together with the
//! diagnostics that were reported while recovering from malformed input.
use vstd::prelude::*;

pub mod ast;
pub mod config;
pub mod diagnostics;
pub mod parser;
pub mod span;
pub mod token;

verus! {

} // verus!
