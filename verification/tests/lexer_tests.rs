use string_lexer::cursor::Cursor;
use string_lexer::error::{EndOfInputContext, LexError, SyntaxErrorKind};
use string_lexer::position::{Position, Span};
use string_lexer::string::StringLiteral;
use string_lexer::token::Token;

fn lex_str(term: char, input: &str) -> Result<Token, LexError> {
    let chars: Vec<char> = input.chars().collect();
    let mut cursor = Cursor::new(chars);
    let lexer = StringLiteral::new(term);
    lexer.lex(&mut cursor, Position::new(1, 1))
}

fn lex_str_coercing(term: char, input: &str) -> Result<Token, LexError> {
    let chars: Vec<char> = input.chars().collect();
    let mut cursor = Cursor::new(chars);
    let lexer = StringLiteral::new_with_policy(term, true);
    lexer.lex(&mut cursor, Position::new(1, 1))
}

fn content_of(tok: &Token) -> String {
    tok.content().iter().collect()
}

fn expect_content(term: char, input: &str, expected: &str) {
    let tok = lex_str(term, input).expect("expected a token");
    assert_eq!(content_of(&tok), expected);
}

#[test]
fn single_character_escapes() {
    expect_content('\'', "\\n'", "\n");
    expect_content('\'', "\\r'", "\r");
    expect_content('\'', "\\t'", "\t");
    expect_content('\'', "\\b'", "\u{8}");
    expect_content('\'', "\\f'", "\u{c}");
    expect_content('\'', "\\0'", "\0");
    expect_content('\'', "\\''", "'");
    expect_content('\'', "\\\"'", "\"");
    expect_content('\'', "\\\\'", "\\");
}

#[test]
fn hex_escape() {
    expect_content('\'', "\\x41'", "A");
    expect_content('\'', "\\x00'", "\0");
    expect_content('\'', "a\\x62c'", "abc");
}

#[test]
fn unicode_escapes() {
    expect_content('\'', "\\u0041'", "A");
    expect_content('\'', "\\u{1F600}'", "\u{1F600}");
    expect_content('\'', "\\u{41}'", "A");
    expect_content('\'', "\\u{000041}'", "A");
}

#[test]
fn unicode_escape_out_of_range() {
    let err = lex_str('\'', "\\u{110000}'").unwrap_err();
    match err {
        LexError::SyntaxError { kind, .. } => {
            assert_eq!(kind, SyntaxErrorKind::CodePointOutOfRange);
        }
        other => panic!("expected a syntax error, got {:?}", other),
    }
}

#[test]
fn surrogate_pair_reconstruction() {
    let a = lex_str('\'', "\\uD83D\\uDE00'").expect("pair should decode");
    let b = lex_str('\'', "\\u{1F600}'").expect("codepoint should decode");
    assert_eq!(content_of(&a), content_of(&b));
    assert_eq!(content_of(&a), "\u{1F600}");
}

#[test]
fn bare_units_decode_in_sequence() {
    expect_content('\'', "\\u0041\\u0042'", "AB");
    // lookahead that is not `\u` is left in place
    expect_content('\'', "\\u0041x'", "Ax");
    expect_content('\'', "\\u0041\\x42'", "AB");
}

#[test]
fn lone_surrogate_is_rejected() {
    let err = lex_str('\'', "\\uD800'").unwrap_err();
    match err {
        LexError::SyntaxError { kind, .. } => {
            assert_eq!(kind, SyntaxErrorKind::LoneSurrogate);
        }
        other => panic!("expected a syntax error, got {:?}", other),
    }
    let err = lex_str('\'', "\\u{D800}'").unwrap_err();
    match err {
        LexError::SyntaxError { kind, .. } => {
            assert_eq!(kind, SyntaxErrorKind::InvalidUnicodeEscape);
        }
        other => panic!("expected a syntax error, got {:?}", other),
    }
}

#[test]
fn line_continuation() {
    expect_content('\'', "a\\\nb'", "ab");
}

#[test]
fn terminator_symmetry() {
    expect_content('"', "it's\"", "it's");
    expect_content('\'', "she said \"hi\"'", "she said \"hi\"");
}

#[test]
fn unterminated_literal() {
    let err = lex_str('\'', "abc").unwrap_err();
    assert_eq!(
        err,
        LexError::UnexpectedEndOfInput { context: EndOfInputContext::StringLiteral }
    );
}

#[test]
fn unterminated_escape() {
    let err = lex_str('\'', "ab\\").unwrap_err();
    assert_eq!(
        err,
        LexError::UnexpectedEndOfInput { context: EndOfInputContext::EscapeSequence }
    );
    let err = lex_str('\'', "\\x4").unwrap_err();
    assert_eq!(
        err,
        LexError::UnexpectedEndOfInput { context: EndOfInputContext::EscapeSequence }
    );
    let err = lex_str('\'', "\\u12").unwrap_err();
    assert_eq!(
        err,
        LexError::UnexpectedEndOfInput { context: EndOfInputContext::EscapeSequence }
    );
    let err = lex_str('\'', "\\u{1F600").unwrap_err();
    assert_eq!(
        err,
        LexError::UnexpectedEndOfInput { context: EndOfInputContext::EscapeSequence }
    );
}

#[test]
fn unrecognized_escape() {
    let err = lex_str('\'', "\\q'").unwrap_err();
    assert_eq!(
        err,
        LexError::SyntaxError {
            kind: SyntaxErrorKind::InvalidEscape { escapee: 'q' },
            position: Position::new(1, 1),
        }
    );
}

#[test]
fn unrecognized_escape_position_is_the_backslash() {
    let err = lex_str('\'', "ab\\q'").unwrap_err();
    assert_eq!(
        err,
        LexError::SyntaxError {
            kind: SyntaxErrorKind::InvalidEscape { escapee: 'q' },
            position: Position::new(1, 3),
        }
    );
}

#[test]
fn relexing_is_deterministic() {
    let inputs = ["abc'", "\\u{1F600}'", "\\q'", "abc", "a\\\nb'"];
    for input in inputs {
        let a = lex_str('\'', input);
        let b = lex_str('\'', input);
        assert_eq!(a, b);
    }
}

#[test]
fn malformed_hex_escape_is_rejected_by_default() {
    let err = lex_str('\'', "\\xzz'").unwrap_err();
    match err {
        LexError::SyntaxError { kind, .. } => {
            assert_eq!(kind, SyntaxErrorKind::MalformedHexEscape);
        }
        other => panic!("expected a syntax error, got {:?}", other),
    }
    let err = lex_str('\'', "\\uzzzz'").unwrap_err();
    match err {
        LexError::SyntaxError { kind, .. } => {
            assert_eq!(kind, SyntaxErrorKind::MalformedHexEscape);
        }
        other => panic!("expected a syntax error, got {:?}", other),
    }
}

#[test]
fn malformed_hex_escape_coerces_to_nul_under_the_policy_flag() {
    let tok = lex_str_coercing('\'', "\\xzz'").expect("coercing lexer accepts bad digits");
    assert_eq!(content_of(&tok), "\0");
    let tok = lex_str_coercing('\'', "\\uzzzz'").expect("coercing lexer accepts bad digits");
    assert_eq!(content_of(&tok), "\0");
}

#[test]
fn malformed_unicode_escape() {
    for input in ["\\u{}'", "\\u{zz}'", "\\u{FFFFFFFFF}'"] {
        let err = lex_str('\'', input).unwrap_err();
        match err {
            LexError::SyntaxError { kind, .. } => {
                assert_eq!(kind, SyntaxErrorKind::MalformedUnicodeEscape);
            }
            other => panic!("expected a syntax error, got {:?}", other),
        }
    }
}

#[test]
fn token_span_tracks_positions() {
    let chars: Vec<char> = "ab'".chars().collect();
    let mut cursor = Cursor::new(chars);
    let lexer = StringLiteral::new('\'');
    let start = cursor.pos();
    let tok = lexer.lex(&mut cursor, start).expect("expected a token");
    assert_eq!(tok.span, Span::new(Position::new(1, 1), Position::new(1, 4)));
}

#[test]
fn positions_advance_over_line_feeds() {
    let chars: Vec<char> = "a\nb'".chars().collect();
    let mut cursor = Cursor::new(chars);
    let lexer = StringLiteral::new('\'');
    let start = cursor.pos();
    let tok = lexer.lex(&mut cursor, start).expect("expected a token");
    assert_eq!(content_of(&tok), "a\nb");
    assert_eq!(tok.span, Span::new(Position::new(1, 1), Position::new(2, 3)));
}

#[test]
fn raw_unicode_passes_through() {
    expect_content('\'', "caf\u{e9} \u{1F600}'", "caf\u{e9} \u{1F600}");
}

#[test]
fn error_messages() {
    assert_eq!(
        EndOfInputContext::StringLiteral.message(),
        "unterminated string literal"
    );
    assert_eq!(
        EndOfInputContext::EscapeSequence.message(),
        "unterminated escape sequence in string literal"
    );
    assert_eq!(
        SyntaxErrorKind::CodePointOutOfRange.message(),
        "Unicode codepoint must not be greater than 0x10FFFF in escape sequence"
    );
    assert_eq!(
        SyntaxErrorKind::MalformedUnicodeEscape.message(),
        "malformed Unicode character escape sequence"
    );
    assert_eq!(
        SyntaxErrorKind::InvalidUnicodeEscape.message(),
        "invalid Unicode escape sequence"
    );
}

#[test]
fn cursor_contract_basics() {
    let chars: Vec<char> = "a}b".chars().collect();
    let mut cursor = Cursor::new(chars);
    let mut out: Vec<char> = Vec::new();
    cursor.take_until('}', &mut out).expect("terminator is present");
    assert_eq!(out, vec!['a']);
    assert!(cursor.next_is('b'));
    assert_eq!(cursor.next(), None);
}

#[test]
fn cursor_fill_bytes_reads_ascii() {
    let chars: Vec<char> = "0a1F".chars().collect();
    let mut cursor = Cursor::new(chars);
    let mut out = [0u8; 4];
    cursor.fill_bytes(&mut out).expect("four ASCII characters");
    assert_eq!(&out, b"0a1F");
}
