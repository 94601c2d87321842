pub mod ast;
pub mod machine;
pub mod context;
pub mod codegen;
pub mod correctness;
pub mod laws;
pub mod text;
