pub mod text;
pub mod error;
