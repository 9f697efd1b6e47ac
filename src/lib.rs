//! A small ahead-of-time compiler for integer expressions built from `+` and `-`,
//! emitting assembly for a stack machine with two scratch registers.
//!
//! The pipeline is: [`tokenize`] (text to tokens), [`parse`] (tokens to [`Expr`]),
//! [`codegen`] (tree to [`Code`] list) and [`to_assembly`] (code list to text).

pub mod assembly;
pub mod ast;
pub mod codegen;
pub mod parser;
pub mod token;
pub mod tokenizer;
pub mod x64;

pub use assembly::to_assembly;
pub use ast::Expr;
pub use codegen::codegen;
pub use parser::{add_sub, int_literal, parse, ParseError};
pub use token::{Token, TokenKind};
pub use tokenizer::{tokenize, TokenizationContext, TokenizeError};
pub use x64::Code;
