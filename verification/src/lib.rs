pub mod token;
pub mod lexer;
pub mod ast;
pub mod parser;
pub mod value;
pub mod interp;
pub mod laws;
