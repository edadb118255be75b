pub mod arrays;
pub mod engine;
pub mod function;
pub mod laws;
pub mod ops;
pub mod tensor;
