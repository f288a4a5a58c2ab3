//! Front end for a small statically scoped scripting language: a lexer that
//! turns source text into tokens, and a table-driven precedence-climbing
//! (Pratt) parser that turns those tokens into an abstract syntax tree of
//! expressions and statements. The symbol table and type checker consume the
//! tree the parser produces.

pub mod ast;
pub mod expression_parser;
pub mod lexer;
pub mod parse_spec;
pub mod parser;
pub mod statement_parser;
pub mod symbol_table;
pub mod token;
pub mod type_system;
