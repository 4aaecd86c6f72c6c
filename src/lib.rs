//! A small recursive-descent parser for lambda-style expressions:
//! integer literals, variables, and one-parameter functions `\x -> body`.

pub mod expr;
pub mod lexer;
pub mod grammar;
pub mod laws;

pub use expr::{Expr, ParseError};
pub use grammar::{int_primary, parse_my_expr, parse_my_fn, parse_my_int, parse_my_var};
pub use lexer::{from_int, is_int_digit};
