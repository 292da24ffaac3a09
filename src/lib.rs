pub mod text;
pub mod token;
pub mod lexer;
pub mod ast;
pub mod number;
pub mod environment;
pub mod interpreter;
pub mod parser;
pub mod relex;
