//! The recursive descent parser over tokens.
pub mod decl;
pub mod errors;
pub mod func;
pub mod parser;
pub mod statement;
