//! Parsers of RLF templates and `.rlf` files.
pub mod lex;
pub mod template;
pub mod validate;
pub mod file;
