//! Tokenization and syntax-disambiguation core of a JavaScript/TypeScript
//! front end: a context-sensitive lexer with a re-lex protocol, a small parser
//! that drives it, and the plain-value rules of the tools built around them.

pub mod token;
pub mod chars;
pub mod runs;
pub mod punct;
pub mod strings;
pub mod regex;
pub mod numbers;
pub mod words;
pub mod scan;
pub mod cursor;
pub mod diagnostics;
pub mod lexer;
pub mod pass;
pub mod typecheck;
pub mod source;
pub mod runner;
pub mod ast;
pub mod state;
pub mod grammar;
pub mod parser;
