pub mod errors;
pub mod eval;
pub mod floats;
pub mod lexer;
pub mod parser;
pub mod report;
pub mod strutil;
pub mod tree;
pub mod tokens;
