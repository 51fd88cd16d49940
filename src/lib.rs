pub mod charset;
pub mod lexer;
pub mod proofs;
pub mod token;

pub use lexer::Lexer;
pub use token::{Token, TokenKind};
