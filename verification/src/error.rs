//! Diagnostics produced when a string literal cannot be lexed.

use vstd::prelude::*;

use crate::position::Position;

verus! {

/// What the lexer was in the middle of when the input ran out.
#[derive(Clone, Copy, Debug, PartialEq, Eq, Structural)]
pub enum EndOfInputContext {
    /// The closing quote was never found.
    StringLiteral,
    /// The input ended inside an escape sequence.
    EscapeSequence,
}

/// The precise way an escape sequence was malformed.
#[derive(Clone, Copy, Debug, PartialEq, Eq, Structural)]
pub enum SyntaxErrorKind {
    /// A fixed-width hexadecimal escape (`\xHH` or a bare `\uHHHH` code unit)
    /// held a character that is not a hexadecimal digit, and the lexer was not
    /// asked to coerce such digits to zero.
    MalformedHexEscape,
    /// The value of a `\xHH` escape is not a Unicode scalar value.
    NotAScalarValue { value: u32 },
    /// A `\u{...}` escape held no digits, a non-digit, or a value too large to
    /// read as a 32-bit number.
    MalformedUnicodeEscape,
    /// A `\u{...}` value exceeds 0x10FFFF.
    CodePointOutOfRange,
    /// A `\u{...}` value is a surrogate, hence not a scalar value on its own.
    InvalidUnicodeEscape,
    /// The code units of a bare `\uHHHH` run left a surrogate unpaired.
    LoneSurrogate,
    /// The character after the backslash introduces no known escape.
    InvalidEscape { escapee: char },
}

/// A diagnostic that ends one lexing attempt; no partial token accompanies it.
#[derive(Clone, Copy, Debug, PartialEq, Eq, Structural)]
pub enum LexError {
    /// The character stream ended before the literal or an escape completed.
    UnexpectedEndOfInput { context: EndOfInputContext },
    /// A malformed escape, with the position of the offending construct: the
    /// backslash for an unrecognized escape, the end of the escape body for
    /// hexadecimal and Unicode escapes.
    SyntaxError { kind: SyntaxErrorKind, position: Position },
}

impl EndOfInputContext {
    /// The fixed diagnostic phrase for this context.
    pub fn message(&self) -> (r: &'static str)
        ensures
            *self == EndOfInputContext::StringLiteral ==> r@ == "unterminated string literal"@,
            *self == EndOfInputContext::EscapeSequence ==> r@
                == "unterminated escape sequence in string literal"@,
    {
        match self {
            EndOfInputContext::StringLiteral => "unterminated string literal",
            EndOfInputContext::EscapeSequence => "unterminated escape sequence in string literal",
        }
    }
}

impl SyntaxErrorKind {
    /// The fixed part of the diagnostic phrase for this kind; the offending
    /// value or character travels in the variant's field.
    pub fn message(&self) -> (r: &'static str)
        ensures
            *self == SyntaxErrorKind::MalformedHexEscape ==> r@
                == "malformed hexadecimal escape sequence"@,
            (*self matches SyntaxErrorKind::NotAScalarValue { .. }) ==> r@
                == "is not a valid Unicode scalar value"@,
            *self == SyntaxErrorKind::MalformedUnicodeEscape ==> r@
                == "malformed Unicode character escape sequence"@,
            *self == SyntaxErrorKind::CodePointOutOfRange ==> r@
                == "Unicode codepoint must not be greater than 0x10FFFF in escape sequence"@,
            *self == SyntaxErrorKind::InvalidUnicodeEscape ==> r@
                == "invalid Unicode escape sequence"@,
            *self == SyntaxErrorKind::LoneSurrogate ==> r@
                == "unpaired surrogate in escape sequence"@,
            (*self matches SyntaxErrorKind::InvalidEscape { .. }) ==> r@
                == "invalid escape sequence"@,
    {
        match self {
            SyntaxErrorKind::MalformedHexEscape => "malformed hexadecimal escape sequence",
            SyntaxErrorKind::NotAScalarValue { .. } => "is not a valid Unicode scalar value",
            SyntaxErrorKind::MalformedUnicodeEscape => "malformed Unicode character escape sequence",
            SyntaxErrorKind::CodePointOutOfRange => "Unicode codepoint must not be greater than 0x10FFFF in escape sequence",
            SyntaxErrorKind::InvalidUnicodeEscape => "invalid Unicode escape sequence",
            SyntaxErrorKind::LoneSurrogate => "unpaired surrogate in escape sequence",
            SyntaxErrorKind::InvalidEscape { .. } => "invalid escape sequence",
        }
    }
}

} // verus!
