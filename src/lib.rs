//! A small arithmetic and assignment language: a hand-written recursive-descent
//! parser that builds a syntax tree, and a tree-walking interpreter over a flat
//! environment of integer variables.

pub mod ast;
pub mod env;
pub mod interp;
pub mod laws;
pub mod lexer;
pub mod parser;

pub use ast::ASTNode;
pub use env::Variables;
pub use interp::{EvalError, Interpreter};
pub use parser::{parse_program, ParseError, Rule, TinyLangParser};
