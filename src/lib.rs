//! Static analysis for LOLCODE source text: a lexer, a recursive-descent parser
//! that builds a syntax tree, and a linter that reports undeclared, redeclared
//! and unused variables, comparisons fixed by their literal operands, and empty
//! control-flow bodies.

pub mod ast;
pub mod lexer;
pub mod linter;
pub mod parser;
pub mod types;
