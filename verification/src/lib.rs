pub mod ast;
pub mod text;
pub mod value;
pub mod ops;
pub mod env;
pub mod semantics;
pub mod interp;
pub mod token;
pub mod lexer;
pub mod parser;
pub mod laws;
pub mod positions;
pub mod meaning;
