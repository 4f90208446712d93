pub mod ast;
pub mod laws;
pub mod lexer;
pub mod parser;
pub mod token;
