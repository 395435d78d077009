pub mod ast;
pub mod bytes;
pub mod eval;
pub mod lexer;
pub mod token;
pub mod value;
