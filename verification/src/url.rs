//! URL pattern lexing and parsing, path patterns, and routing trees.

pub mod lexer;
pub mod pattern;
pub mod parser;
pub mod params;
pub mod node;
pub mod error;
pub mod root;
pub mod split;
