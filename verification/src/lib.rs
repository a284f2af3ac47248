//! Silq quantum programming language: lexer, parser, AST and static analyses.

pub mod text;
pub mod token;
pub mod errors;
pub mod options;
pub mod lexer;
pub mod bignum;
pub mod ast;
pub mod syntax;
pub mod grammar;
pub mod parser;
pub mod scope;
pub mod checker;
pub mod semantic;
pub mod consteval;
pub mod reverse;
pub mod hqir;
pub mod json;
pub mod basis;
pub mod qsim;
pub mod wasm;
pub mod conversion;
pub mod modules;

pub use ast::{Declaration, Expression, NumericType};
pub use errors::SimpleErrorHandler;
pub use lexer::Lexer;
pub use parser::Parser;
