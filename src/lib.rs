//! A small formula language over exact rational numbers: lexing and parsing
//! of expressions and equations, an evaluator with lexical function scope, and
//! the extraction of function definitions from equations.

pub mod ast;
pub mod errors;
pub mod eval;
pub mod lexer;
pub mod models;
pub mod parser;
pub mod problem;
pub mod rational;
pub mod reactions;

pub use ast::{Command, Expr, Pred};
pub use parser::{parse_command, parse_expr};
