pub mod analyzer;
pub mod ast;
pub mod grammar;
pub mod lexer;
pub mod parser;
pub mod source;
pub mod span;
pub mod token;
pub mod tokenizer;
pub mod unicode;
