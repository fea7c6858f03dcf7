//! Command-language core of an interactive shell: a lexer and parser for a
//! POSIX-like command line, an evaluator that plans the processes of a parsed
//! line, and the job table that places them in the foreground or background.

pub mod lexer;
pub mod ast;
pub mod parser;
pub mod eval;
pub mod jobs;
pub mod highlight;
pub mod lang;
