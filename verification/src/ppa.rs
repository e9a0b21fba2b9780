//! Analysis of parsed programs: the symbols they declare and the types of their code.
pub mod errors;
pub mod rules;
pub mod symbol_collector;
pub mod symbols;
pub mod typecheck;
