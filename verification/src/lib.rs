//! A miniature pattern-matching language, verified end to end: a scanner
//! turns pattern text into tokens, a recursive-descent parser turns tokens
//! into a syntax tree, a backtracking matcher decides whether a subject
//! string is exactly described by a tree, and a printer renders a tree in a
//! canonical form that re-parses to the very same tree.

pub mod eval;
pub mod expr;
pub mod parser;
pub mod printer;
pub mod tokenizer;

pub use expr::Expr;
pub use parser::{ParseError, Parser};
pub use tokenizer::{tokenize, LexError, Token, TokenKind};
