//! The GML scripting front end the asset parser feeds: a compiler that
//! keeps the registries scripts and constants are resolved through, and a
//! lexer over GML source text.

pub mod compiler;
pub mod lexer;
