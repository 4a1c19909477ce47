pub mod token;
pub mod lexer;
