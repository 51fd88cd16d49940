use vstd::prelude::*;

verus! {

/// The category of a scanned token.
///
/// `Unknown` is only ever produced by the dispatcher's error recovery: one
/// character that no scanner recognised.
#[derive(Debug, Clone, Copy, PartialEq, Eq, Structural)]
pub enum TokenKind {
    Identifier,
    Keyword,
    Boolean,
    Operator,
    Separator,
    Space,
    SingleLineComment,
    Unknown,
}

/// A classified span `[start_position, end_position)` of the source, with the
/// characters it covers.
#[derive(Debug, Clone, PartialEq, Eq)]
pub struct Token {
    pub kind: TokenKind,
    pub start_position: usize,
    pub end_position: usize,
    pub lexeme: String,
}

impl Token {
    pub fn new(kind: TokenKind, start_position: usize, end_position: usize, lexeme: String) -> (r:
        Token)
        ensures
            r.kind == kind,
            r.start_position == start_position,
            r.end_position == end_position,
            r.lexeme == lexeme,
    {
        Token { kind, start_position, end_position, lexeme }
    }
}

} // verus!
