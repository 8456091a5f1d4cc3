pub mod classes;
pub mod model;
pub mod scanner;
pub mod span;
pub mod tokens;

pub use scanner::{tokenize, LexError, Scanner, Token};
pub use span::Span;
pub use tokens::{keyword, TokenKind};
