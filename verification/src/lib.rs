pub mod aula;
pub mod lexer;
pub mod parser;
pub mod paths;
pub mod runtime;
pub mod text;
