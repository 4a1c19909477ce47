pub mod types;
pub mod expression;
pub mod statement;
pub mod program;
pub mod parser;
pub mod labels;
pub mod grammar;
