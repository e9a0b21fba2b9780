//! Parsiphae: a lexer, parser and typechecker for the Daedalus scripting language.
#![allow(unused_imports)]
#![allow(non_camel_case_types)]

pub mod config;
pub mod dat;
pub mod diagnostics;
pub mod errors;
pub mod file;
pub mod inner_errors;
pub mod json;
pub mod lexer;
pub mod types;
pub mod parser;
pub mod parsers;
pub mod ppa;
pub mod src_parser;
