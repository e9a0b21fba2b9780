//! Combinators over raw bytes: whitespace and comments, string literals, identifiers, and
//! prefix operator expressions.
pub mod base;
pub mod identifier;
pub mod unary;
pub mod util;
