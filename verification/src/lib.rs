//! A compiler for the Dubious programming language (DPL): preprocessing,
//! lexing, parsing and type checking of DPL source text.
pub mod ast_build;
pub mod lexer;
mod pattern;
pub mod shared;
pub mod immutable_map;
pub mod logic_checker;
pub mod names;
pub mod preprocessor;
mod text;
