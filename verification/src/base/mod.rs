pub mod function;
pub mod policy;
pub mod process;
