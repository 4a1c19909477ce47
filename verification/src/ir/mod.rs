pub mod instruction;
pub mod program;
pub mod translate;
pub mod generator;
pub mod ir_generator;
