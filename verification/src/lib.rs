//! Front end for a minimal bracket-structured esoteric language: eight
//! command characters, everything else commentary.
//!
//! The crate parses source text into a nested abstract syntax tree and
//! defines the canonical execution semantics (fixed byte tape, saturating
//! pointer movement, wrapping cell arithmetic, while-nonzero loops) that any
//! downstream evaluator or code generator must reproduce. Code generation
//! itself is left to an external collaborator consuming the validated AST.

pub mod ast;
pub mod config;
pub mod eval;
pub mod laws;
pub mod lexer;
pub mod token;

pub use ast::AstNode;
pub use ast::Command;
pub use ast::contains_input;
pub use ast::count_operations;
pub use config::BrainfuckConfig;
pub use eval::evaluate;
pub use eval::evaluate_with_tape;
pub use lexer::Lexer;
pub use lexer::LexerError;
pub use lexer::Position;
pub use lexer::parse_brainfuck;
pub use token::Token;
