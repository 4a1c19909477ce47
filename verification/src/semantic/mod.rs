pub mod symbol;
pub mod scope;
pub mod warning;
pub mod statement;
pub mod program;
pub mod model;
pub mod analyzer;
