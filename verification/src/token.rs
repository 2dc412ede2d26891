//! The token produced on successful lexing of a string literal.

use vstd::prelude::*;

use crate::position::Span;

verus! {

/// The payload of a token. This sub-lexer produces only string literals,
/// whose content is the decoded sequence of Unicode scalar values.
#[derive(Debug, Clone, PartialEq, Eq)]
pub enum TokenKind {
    StringLiteral { content: Vec<char> },
}

impl TokenKind {
    /// Builds a string-literal token kind from its decoded content.
    pub fn string_literal(content: Vec<char>) -> (r: TokenKind)
        ensures
            r == (TokenKind::StringLiteral { content }),
    {
        TokenKind::StringLiteral { content }
    }

    /// The decoded content carried by this kind.
    pub open spec fn spec_content(self) -> Seq<char> {
        match self {
            TokenKind::StringLiteral { content } => content@,
        }
    }
}

/// A token: its payload and the source range it was read from.
#[derive(Debug, Clone, PartialEq, Eq)]
pub struct Token {
    pub kind: TokenKind,
    pub span: Span,
}

impl Token {
    pub fn new(kind: TokenKind, span: Span) -> (r: Token)
        ensures
            r == (Token { kind, span }),
    {
        Token { kind, span }
    }

    /// The decoded content of the token.
    pub open spec fn spec_content(self) -> Seq<char> {
        self.kind.spec_content()
    }

    /// Hands out the decoded content for callers outside the lexer.
    pub fn content(&self) -> (r: &Vec<char>)
        ensures
            r@ == self.spec_content(),
    {
        match &self.kind {
            TokenKind::StringLiteral { content } => content,
        }
    }
}

} // verus!
