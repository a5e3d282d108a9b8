//! The FEEL script toolchain: a lexer whose tokens carry byte offsets, a
//! syntax tree, and a parser for `;`-separated expression lists and
//! unary tests on `?`.
pub mod token;
pub mod ast;
pub mod grammar;
pub mod parse;
pub mod value;
pub mod semantics;
pub mod eval;
pub mod laws;
