//! String literal lexing.
//!
//! Expects the initializing quote (`'` or `"`) to have been consumed from the
//! cursor already. The recursive functions `lex_from`, `decode_escape_spec`
//! and `collect_units_spec` are the single source of truth for what lexing
//! means; the executable lexer is proved to return exactly their verdict.

use vstd::prelude::*;
use vstd::utf8::is_scalar;

use crate::cursor::{all_ascii, lemma_split_at_char_len, split_at_char, Cursor, CursorError};
use crate::error::{EndOfInputContext, LexError, SyntaxErrorKind};
use crate::position::{advance_position, advance_position_over, Position, Span};
use crate::token::{Token, TokenKind};
use crate::unicode::{
    all_hex, decode_code_units, hex_digit_val, hex_val_seq, hex_digit_value, is_hex_digit,
    lemma_hex_val_seq4, lemma_hex_val_seq_nonneg, lemma_hex_val_seq_prefix, utf16_decode,
};

verus! {

/// `e` is one of the escapees with a fixed single-character meaning.
pub open spec fn is_single_escape(e: char) -> bool {
    e == 'n' || e == 'r' || e == 't' || e == 'b' || e == 'f' || e == '0' || e == '\'' || e == '"'
        || e == '\\'
}

/// The character written by a fixed single-character escape.
pub open spec fn single_escape_char(e: char) -> char {
    if e == 'n' {
        '\n'
    } else if e == 'r' {
        '\r'
    } else if e == 't' {
        '\t'
    } else if e == 'b' {
        '\u{8}'
    } else if e == 'f' {
        '\u{c}'
    } else if e == '0' {
        '\0'
    } else {
        e
    }
}

/// The verdict on one escape sequence, consulted after the escapee was read.
#[verifier::ext_equal]
pub enum EscapeOutcome {
    /// The escape wrote `chars`; `rest` and `pos` are the input and position
    /// after everything the escape consumed.
    Got { chars: Seq<char>, rest: Seq<char>, pos: Position },
    /// The input ended inside the escape.
    Ended,
    /// The escape was malformed, diagnosed at `pos`.
    Bad { kind: SyntaxErrorKind, pos: Position },
}

/// The verdict on a run of bare `\uHHHH` code units.
#[verifier::ext_equal]
pub enum UnitsOutcome {
    Units { units: Seq<u16>, rest: Seq<char>, pos: Position },
    Ended,
    Bad { kind: SyntaxErrorKind, pos: Position },
}

/// The verdict on a whole string literal.
#[verifier::ext_equal]
pub enum LexOutcome {
    /// The literal closed; `content` is the decoded text, `rest` and `end`
    /// are the input and position after the closing quote.
    Token { content: Seq<char>, rest: Seq<char>, end: Position },
    /// The input ended before the literal or an escape completed.
    Ended { context: EndOfInputContext },
    /// A malformed escape, diagnosed at `pos`.
    Bad { kind: SyntaxErrorKind, pos: Position },
}

/// Reads one four-digit hexadecimal code unit. Non-ASCII characters are
/// always rejected; hexadecimal misfits are rejected unless the lexer was
/// asked to coerce them to zero.
pub open spec fn parse_unit_spec(coerce: bool, quad: Seq<char>) -> Result<u16, SyntaxErrorKind> {
    if !all_ascii(quad) {
        Err(SyntaxErrorKind::MalformedHexEscape)
    } else if all_hex(quad) {
        Ok(hex_val_seq(quad) as u16)
    } else if coerce {
        Ok(0u16)
    } else {
        Err(SyntaxErrorKind::MalformedHexEscape)
    }
}

/// Accumulates bare `\u` code units: one four-digit unit, then further units
/// as long as the lookahead reads `\u`.
pub open spec fn collect_units_spec(coerce: bool, tail: Seq<char>, pos: Position) -> UnitsOutcome
    decreases tail.len(),
{
    if tail.len() < 4 {
        UnitsOutcome::Ended
    } else {
        let quad = tail.take(4);
        let pos4 = advance_position_over(pos, quad);
        match parse_unit_spec(coerce, quad) {
            Err(kind) => UnitsOutcome::Bad { kind, pos: pos4 },
            Ok(u) => {
                if tail.len() >= 6 && tail[4] == '\\' && tail[5] == 'u' {
                    let pos6 = advance_position(advance_position(pos4, '\\'), 'u');
                    match collect_units_spec(coerce, tail.skip(6), pos6) {
                        UnitsOutcome::Units { units, rest, pos } => UnitsOutcome::Units {
                            units: seq![u] + units,
                            rest,
                            pos,
                        },
                        UnitsOutcome::Ended => UnitsOutcome::Ended,
                        UnitsOutcome::Bad { kind, pos } => UnitsOutcome::Bad { kind, pos },
                    }
                } else {
                    UnitsOutcome::Units { units: seq![u], rest: tail.skip(4), pos: pos4 }
                }
            },
        }
    }
}

/// A unit run consumes at least its first four characters.
pub proof fn lemma_collect_units_rest(coerce: bool, tail: Seq<char>, pos: Position)
    ensures
        match collect_units_spec(coerce, tail, pos) {
            UnitsOutcome::Units { rest, .. } => rest.len() + 4 <= tail.len(),
            _ => true,
        },
    decreases tail.len(),
{
    if tail.len() >= 4 {
        let quad = tail.take(4);
        let pos4 = advance_position_over(pos, quad);
        match parse_unit_spec(coerce, quad) {
            Err(_) => {
            },
            Ok(u) => {
                if tail.len() >= 6 && tail[4] == '\\' && tail[5] == 'u' {
                    let pos6 = advance_position(advance_position(pos4, '\\'), 'u');
                    lemma_collect_units_rest(coerce, tail.skip(6), pos6);
                }
            },
        }
    }
}

/// The verdict on the escape starting after the escapee `e`, with `tail` the
/// input after `e`, `pos_bs` the position of the backslash and `pos_e` the
/// position after `e`.
pub open spec fn decode_escape_spec(
    coerce: bool,
    e: char,
    tail: Seq<char>,
    pos_bs: Position,
    pos_e: Position,
) -> EscapeOutcome {
    if is_single_escape(e) {
        EscapeOutcome::Got { chars: seq![single_escape_char(e)], rest: tail, pos: pos_e }
    } else if e == 'x' {
        if tail.len() < 2 {
            EscapeOutcome::Ended
        } else {
            let d1 = tail[0];
            let d2 = tail[1];
            let pos2 = advance_position(advance_position(pos_e, d1), d2);
            if is_hex_digit(d1) && is_hex_digit(d2) {
                let v = (hex_digit_val(d1) * 16 + hex_digit_val(d2)) as u32;
                if is_scalar(v) {
                    EscapeOutcome::Got { chars: seq![v as char], rest: tail.skip(2), pos: pos2 }
                } else {
                    EscapeOutcome::Bad {
                        kind: SyntaxErrorKind::NotAScalarValue { value: v },
                        pos: pos2,
                    }
                }
            } else if coerce {
                EscapeOutcome::Got { chars: seq!['\0'], rest: tail.skip(2), pos: pos2 }
            } else {
                EscapeOutcome::Bad { kind: SyntaxErrorKind::MalformedHexEscape, pos: pos2 }
            }
        }
    } else if e == 'u' {
        if tail.len() >= 1 && tail[0] == '{' {
            let t = tail.skip(1);
            match split_at_char(t, '}') {
                None => EscapeOutcome::Ended,
                Some(p) => {
                    let digits = p.0;
                    let posd = advance_position_over(
                        advance_position(pos_e, '{'),
                        digits.push('}'),
                    );
                    if digits.len() == 0 || !all_hex(digits) || hex_val_seq(digits) > 0xFFFFFFFF {
                        EscapeOutcome::Bad {
                            kind: SyntaxErrorKind::MalformedUnicodeEscape,
                            pos: posd,
                        }
                    } else {
                        let v = hex_val_seq(digits) as u32;
                        if v > 0x10FFFF {
                            EscapeOutcome::Bad {
                                kind: SyntaxErrorKind::CodePointOutOfRange,
                                pos: posd,
                            }
                        } else if !is_scalar(v) {
                            EscapeOutcome::Bad {
                                kind: SyntaxErrorKind::InvalidUnicodeEscape,
                                pos: posd,
                            }
                        } else {
                            EscapeOutcome::Got { chars: seq![v as char], rest: p.1, pos: posd }
                        }
                    }
                },
            }
        } else {
            match collect_units_spec(coerce, tail, pos_e) {
                UnitsOutcome::Ended => EscapeOutcome::Ended,
                UnitsOutcome::Bad { kind, pos } => EscapeOutcome::Bad { kind, pos },
                UnitsOutcome::Units { units, rest, pos } => match utf16_decode(units) {
                    None => EscapeOutcome::Bad { kind: SyntaxErrorKind::LoneSurrogate, pos },
                    Some(chars) => EscapeOutcome::Got { chars, rest, pos },
                },
            }
        }
    } else {
        EscapeOutcome::Bad { kind: SyntaxErrorKind::InvalidEscape { escapee: e }, pos: pos_bs }
    }
}

/// An escape never leaves more input than it was given.
pub proof fn lemma_decode_escape_rest(
    coerce: bool,
    e: char,
    tail: Seq<char>,
    pos_bs: Position,
    pos_e: Position,
)
    ensures
        match decode_escape_spec(coerce, e, tail, pos_bs, pos_e) {
            EscapeOutcome::Got { rest, .. } => rest.len() <= tail.len(),
            _ => true,
        },
{
    if !is_single_escape(e) && e == 'u' {
        if tail.len() >= 1 && tail[0] == '{' {
            lemma_split_at_char_len(tail.skip(1), '}');
        } else {
            lemma_collect_units_rest(coerce, tail, pos_e);
        }
    }
}

/// Prepends already-decoded content to a lexing verdict.
pub open spec fn prepend_content(pre: Seq<char>, o: LexOutcome) -> LexOutcome {
    match o {
        LexOutcome::Token { content, rest, end } => LexOutcome::Token {
            content: pre + content,
            rest,
            end,
        },
        LexOutcome::Ended { context } => LexOutcome::Ended { context },
        LexOutcome::Bad { kind, pos } => LexOutcome::Bad { kind, pos },
    }
}

/// Prepending twice is prepending the concatenation.
pub proof fn lemma_prepend_content_compose(a: Seq<char>, b: Seq<char>, o: LexOutcome)
    ensures
        prepend_content(a, prepend_content(b, o)) == prepend_content(a + b, o),
{
    match o {
        LexOutcome::Token { content, .. } => {
            assert(a + (b + content) =~= (a + b) + content);
        },
        _ => {
        },
    }
}

/// The verdict on the input `rest` at position `pos`, scanned for a literal
/// closed by `term`: the loop of the lexer, one character at a time.
pub open spec fn lex_from(term: char, coerce: bool, rest: Seq<char>, pos: Position) -> LexOutcome
    decreases rest.len(),
    via lex_from_decreases
{
    if rest.len() == 0 {
        LexOutcome::Ended { context: EndOfInputContext::StringLiteral }
    } else {
        let c = rest[0];
        let pos1 = advance_position(pos, c);
        if c == term {
            LexOutcome::Token { content: Seq::empty(), rest: rest.skip(1), end: pos1 }
        } else if c == '\\' {
            if rest.len() == 1 {
                LexOutcome::Ended { context: EndOfInputContext::EscapeSequence }
            } else {
                let e = rest[1];
                let pos2 = advance_position(pos1, e);
                if e == '\n' {
                    lex_from(term, coerce, rest.skip(2), pos2)
                } else {
                    match decode_escape_spec(coerce, e, rest.skip(2), pos, pos2) {
                        EscapeOutcome::Ended => LexOutcome::Ended {
                            context: EndOfInputContext::EscapeSequence,
                        },
                        EscapeOutcome::Bad { kind, pos } => LexOutcome::Bad { kind, pos },
                        EscapeOutcome::Got { chars, rest: rest2, pos: pos3 } => prepend_content(
                            chars,
                            lex_from(term, coerce, rest2, pos3),
                        ),
                    }
                }
            }
        } else {
            prepend_content(seq![c], lex_from(term, coerce, rest.skip(1), pos1))
        }
    }
}

#[via_fn]
proof fn lex_from_decreases(term: char, coerce: bool, rest: Seq<char>, pos: Position) {
    if rest.len() >= 2 && rest[0] != term && rest[0] == '\\' && rest[1] != '\n' {
        let pos1 = advance_position(pos, rest[0]);
        let pos2 = advance_position(pos1, rest[1]);
        lemma_decode_escape_rest(coerce, rest[1], rest.skip(2), pos, pos2);
    }
}

/// Terminator for the string.
#[derive(Debug, Clone, Copy, PartialEq, Eq, Structural)]
pub enum StringTerminator {
    SingleQuote,
    DoubleQuote,
}

/// String literal lexer, bound to the already-consumed opening quote.
#[derive(Debug, Clone, Copy)]
pub struct StringLiteral {
    terminator: StringTerminator,
    coerce_invalid_hex: bool,
}

impl StringLiteral {
    /// The quote character that closes this literal.
    pub closed spec fn term_char(self) -> char {
        match self.terminator {
            StringTerminator::SingleQuote => '\'',
            StringTerminator::DoubleQuote => '"',
        }
    }

    /// Whether fixed-width hexadecimal escapes with bad digits are silently
    /// read as zero instead of rejected.
    pub closed spec fn coerces_invalid_hex(self) -> bool {
        self.coerce_invalid_hex
    }

    /// Creates a new string literal lexer from the opening quote. Bad digits
    /// in fixed-width hexadecimal escapes are rejected.
    pub fn new(init: char) -> (r: StringLiteral)
        requires
            init == '\'' || init == '"',
        ensures
            r.term_char() == init,
            !r.coerces_invalid_hex(),
    {
        StringLiteral::new_with_policy(init, false)
    }

    /// Creates a new string literal lexer from the opening quote; when
    /// `coerce_invalid_hex` is set, bad digits in `\xHH` and bare `\uHHHH`
    /// escapes silently give the value zero instead of a syntax error.
    pub fn new_with_policy(init: char, coerce_invalid_hex: bool) -> (r: StringLiteral)
        requires
            init == '\'' || init == '"',
        ensures
            r.term_char() == init,
            r.coerces_invalid_hex() == coerce_invalid_hex,
    {
        let terminator = if init == '\'' {
            StringTerminator::SingleQuote
        } else {
            StringTerminator::DoubleQuote
        };
        StringLiteral { terminator, coerce_invalid_hex }
    }

    fn terminator_char(&self) -> (c: char)
        ensures
            c == self.term_char(),
    {
        match self.terminator {
            StringTerminator::SingleQuote => '\'',
            StringTerminator::DoubleQuote => '"',
        }
    }

    /// Drives the cursor to the closing quote and returns the decoded token,
    /// whose span runs from `start_pos` to just past the closing quote, or
    /// the exact diagnostic that `lex_from` assigns to the input.
    #[verifier::loop_isolation(false)]
    #[verifier::rlimit(60)]
    pub fn lex(&self, cursor: &mut Cursor, start_pos: Position) -> (r: Result<Token, LexError>)
        requires
            old(cursor).wf(),
        ensures
            final(cursor).wf(),
            match lex_from(
                self.term_char(),
                self.coerces_invalid_hex(),
                old(cursor).remaining(),
                old(cursor).position(),
            ) {
                LexOutcome::Token { content, rest, end } => r matches Ok(tok)
                    && tok.spec_content() == content && tok.span == (Span {
                    start: start_pos,
                    end,
                }) && final(cursor).remaining() == rest && final(cursor).position() == end,
                LexOutcome::Ended { context } => r == Err::<Token, LexError>(
                    LexError::UnexpectedEndOfInput { context },
                ),
                LexOutcome::Bad { kind, pos } => r == Err::<Token, LexError>(
                    LexError::SyntaxError { kind, position: pos },
                ),
            },
    {
        let term = self.terminator_char();
        let coerce = self.coerce_invalid_hex;
        let mut buf: Vec<char> = Vec::new();
        let ghost whole = lex_from(
            self.term_char(),
            self.coerces_invalid_hex(),
            old(cursor).remaining(),
            old(cursor).position(),
        );
        proof {
            match lex_from(term, coerce, cursor.remaining(), cursor.position()) {
                LexOutcome::Token { content, .. } => {
                    assert(buf@ + content =~= content);
                },
                _ => {
                },
            }
        }
        loop
            invariant
                cursor.wf(),
                prepend_content(buf@, lex_from(term, coerce, cursor.remaining(), cursor.position()))
                    == whole,
            decreases cursor.remaining().len(),
        {
            let ghost rem = cursor.remaining();
            let ghost p = cursor.position();
            let next_chr_start = cursor.pos();
            match cursor.next() {
                None => {
                    return Err(
                        LexError::UnexpectedEndOfInput {
                            context: EndOfInputContext::StringLiteral,
                        },
                    );
                },
                Some(c) => {
                    if c == term {
                        proof {
                            assert(buf@ + Seq::<char>::empty() =~= buf@);
                        }
                        let end = cursor.pos();
                        return Ok(
                            Token::new(
                                TokenKind::string_literal(buf),
                                Span::new(start_pos, end),
                            ),
                        );
                    } else if c == '\\' {
                        match cursor.next() {
                            None => {
                                proof {
                                    assert(rem.len() == 1);
                                }
                                return Err(
                                    LexError::UnexpectedEndOfInput {
                                        context: EndOfInputContext::EscapeSequence,
                                    },
                                );
                            },
                            Some(e) => {
                                proof {
                                    assert(rem.skip(1)[0] == rem[1]);
                                    assert(rem.skip(1).skip(1) =~= rem.skip(2));
                                }
                                if e == '\n' {
                                    // line continuation: contributes nothing
                                } else {
                                    let ghost pos2 = cursor.position();
                                    let ghost buf_before = buf@;
                                    match decode_escape(
                                        cursor,
                                        coerce,
                                        e,
                                        next_chr_start,
                                        &mut buf,
                                    ) {
                                        Err(err) => {
                                            return Err(err);
                                        },
                                        Ok(()) => {
                                            proof {
                                                lemma_decode_escape_rest(
                                                    coerce,
                                                    e,
                                                    rem.skip(2),
                                                    p,
                                                    pos2,
                                                );
                                                match decode_escape_spec(
                                                    coerce,
                                                    e,
                                                    rem.skip(2),
                                                    p,
                                                    pos2,
                                                ) {
                                                    EscapeOutcome::Got { chars, rest: rest2, pos: pos3 } => {
                                                        let tail_outcome = lex_from(
                                                            term,
                                                            coerce,
                                                            rest2,
                                                            pos3,
                                                        );
                                                        lemma_prepend_content_compose(
                                                            buf_before,
                                                            chars,
                                                            tail_outcome,
                                                        );
                                                        assert(buf@ == buf_before + chars);
                                                    },
                                                    _ => {
                                                        assert(false);
                                                    },
                                                }
                                            }
                                        },
                                    }
                                }
                            },
                        }
                    } else {
                        let ghost buf_before = buf@;
                        buf.push(c);
                        proof {
                            let tail_outcome = lex_from(
                                term,
                                coerce,
                                cursor.remaining(),
                                cursor.position(),
                            );
                            lemma_prepend_content_compose(buf_before, seq![c], tail_outcome);
                            assert(buf_before + seq![c] =~= buf@);
                        }
                    }
                },
            }
        }
    }
}

/// The numeric value of an ASCII hexadecimal digit handed over as a byte, or
/// nothing for any other byte. `c` is the character the byte was read from.
fn hex_digit_value_ascii(b: u8, Ghost(c): Ghost<char>) -> (r: Option<u8>)
    requires
        (c as u32) < 128,
        b == (c as u32) as u8,
    ensures
        r.is_some() == is_hex_digit(c),
        r matches Some(v) ==> v as int == hex_digit_val(c) && v < 16,
{
    proof {
        assert(b as u32 == c as u32);
    }
    if 48 <= b && b <= 57 {
        Some(b - 48)
    } else if 97 <= b && b <= 102 {
        Some(b - 87)
    } else if 65 <= b && b <= 70 {
        Some(b - 55)
    } else {
        None
    }
}

/// Reads one bare `\u` code unit out of the four ASCII bytes that
/// `Cursor::fill_bytes` produced from the characters `quad`.
fn parse_unit(coerce: bool, bytes: &[u8; 4], Ghost(quad): Ghost<Seq<char>>) -> (r: Result<
    u16,
    SyntaxErrorKind,
>)
    requires
        quad.len() == 4,
        all_ascii(quad),
        forall|i: int| 0 <= i < 4 ==> bytes@[i] == (quad[i] as u32) as u8,
    ensures
        r == parse_unit_spec(coerce, quad),
{
    let d0 = hex_digit_value_ascii(bytes[0], Ghost(quad[0]));
    let d1 = hex_digit_value_ascii(bytes[1], Ghost(quad[1]));
    let d2 = hex_digit_value_ascii(bytes[2], Ghost(quad[2]));
    let d3 = hex_digit_value_ascii(bytes[3], Ghost(quad[3]));
    match (d0, d1, d2, d3) {
        (Some(v0), Some(v1), Some(v2), Some(v3)) => {
            let v: u32 = (((v0 as u32) * 16 + (v1 as u32)) * 16 + (v2 as u32)) * 16 + (v3 as u32);
            proof {
                assert(all_hex(quad)) by {
                    assert(forall|i: int| 0 <= i < 4 ==> quad[i] == quad[i]);
                }
                lemma_hex_val_seq4(quad);
            }
            Ok(v as u16)
        },
        _ => {
            proof {
                assert(!all_hex(quad));
            }
            if coerce {
                Ok(0u16)
            } else {
                Err(SyntaxErrorKind::MalformedHexEscape)
            }
        },
    }
}

/// Prepends already-collected code units to a unit-run verdict.
pub open spec fn prepend_units(pre: Seq<u16>, o: UnitsOutcome) -> UnitsOutcome {
    match o {
        UnitsOutcome::Units { units, rest, pos } => UnitsOutcome::Units {
            units: pre + units,
            rest,
            pos,
        },
        UnitsOutcome::Ended => UnitsOutcome::Ended,
        UnitsOutcome::Bad { kind, pos } => UnitsOutcome::Bad { kind, pos },
    }
}

proof fn lemma_prepend_units_compose(a: Seq<u16>, b: Seq<u16>, o: UnitsOutcome)
    ensures
        prepend_units(a, prepend_units(b, o)) == prepend_units(a + b, o),
{
    match o {
        UnitsOutcome::Units { units, .. } => {
            assert(a + (b + units) =~= (a + b) + units);
        },
        _ => {
        },
    }
}

/// Collects the code units of a bare `\u` escape: four hexadecimal digits,
/// then more after every `\u` lookahead match.
#[verifier::loop_isolation(false)]
fn collect_units(cursor: &mut Cursor, coerce: bool, units: &mut Vec<u16>) -> (r: Result<
    (),
    LexError,
>)
    requires
        old(cursor).wf(),
    ensures
        final(cursor).wf(),
        match collect_units_spec(coerce, old(cursor).remaining(), old(cursor).position()) {
            UnitsOutcome::Units { units: us, rest, pos } => r == Ok::<(), LexError>(())
                && final(units)@ == old(units)@ + us && final(cursor).remaining() == rest
                && final(cursor).position() == pos,
            UnitsOutcome::Ended => r == Err::<(), LexError>(
                LexError::UnexpectedEndOfInput { context: EndOfInputContext::EscapeSequence },
            ),
            UnitsOutcome::Bad { kind, pos } => r == Err::<(), LexError>(
                LexError::SyntaxError { kind, position: pos },
            ),
        },
{
    let ghost whole = collect_units_spec(coerce, old(cursor).remaining(), old(cursor).position());
    let ghost orig_units = units@;
    let ghost mut acc: Seq<u16> = Seq::empty();
    proof {
        assert(units@ =~= orig_units + acc);
        match collect_units_spec(coerce, cursor.remaining(), cursor.position()) {
            UnitsOutcome::Units { units: us, .. } => {
                assert(acc + us =~= us);
            },
            _ => {
            },
        }
    }
    loop
        invariant
            cursor.wf(),
            units@ == orig_units + acc,
            prepend_units(acc, collect_units_spec(coerce, cursor.remaining(), cursor.position()))
                == whole,
        decreases cursor.remaining().len(),
    {
        let ghost rem = cursor.remaining();
        let ghost p = cursor.position();
        let ghost quad = rem.take(4);
        let mut bytes: [u8; 4] = [0u8, 0u8, 0u8, 0u8];
        match cursor.fill_bytes(&mut bytes) {
            Err(CursorError::EndOfInput) => {
                proof {
                    assert(rem.len() < 4);
                }
                return Err(
                    LexError::UnexpectedEndOfInput { context: EndOfInputContext::EscapeSequence },
                );
            },
            Err(CursorError::NonAscii) => {
                proof {
                    assert(rem.len() >= 4 && !all_ascii(quad));
                }
                return Err(
                    LexError::SyntaxError {
                        kind: SyntaxErrorKind::MalformedHexEscape,
                        position: cursor.pos(),
                    },
                );
            },
            Ok(()) => {
                proof {
                    assert(rem.len() >= 4 && all_ascii(quad));
                }
                match parse_unit(coerce, &bytes, Ghost(quad)) {
                    Err(kind) => {
                        return Err(LexError::SyntaxError { kind, position: cursor.pos() });
                    },
                    Ok(u) => {
                        units.push(u);
                        let ghost old_acc = acc;
                        proof {
                            acc = acc.push(u);
                            assert(units@ =~= orig_units + acc);
                        }
                        if cursor.next_two_are('\\', 'u') {
                            proof {
                                assert(rem.skip(4)[0] == rem[4] && rem.skip(4)[1] == rem[5]);
                                assert(rem.skip(4).skip(2) =~= rem.skip(6));
                                let inner = collect_units_spec(
                                    coerce,
                                    cursor.remaining(),
                                    cursor.position(),
                                );
                                assert(collect_units_spec(coerce, rem, p) == prepend_units(
                                    seq![u],
                                    inner,
                                ));
                                lemma_prepend_units_compose(old_acc, seq![u], inner);
                                assert(old_acc + seq![u] =~= acc);
                            }
                        } else {
                            proof {
                                assert(!(rem.len() >= 6 && rem[4] == '\\' && rem[5] == 'u')) by {
                                    if rem.len() >= 6 {
                                        assert(rem.skip(4).len() >= 2);
                                        assert(rem.skip(4)[0] == rem[4] && rem.skip(4)[1]
                                            == rem[5]);
                                    }
                                }
                                assert(collect_units_spec(coerce, rem, p)
                                    == (UnitsOutcome::Units {
                                    units: seq![u],
                                    rest: rem.skip(4),
                                    pos: cursor.position(),
                                }));
                                assert(old_acc + seq![u] =~= acc);
                            }
                            return Ok(());
                        }
                    },
                }
            },
        }
    }
}

/// Parses the digit run of a `\u{...}` escape as one base-16 number that
/// fits 32 bits.
#[verifier::loop_isolation(false)]
fn parse_brace_digits(digits: &Vec<char>) -> (r: Result<u32, SyntaxErrorKind>)
    ensures
        match r {
            Ok(v) => digits@.len() > 0 && all_hex(digits@) && hex_val_seq(digits@) == v as int,
            Err(kind) => kind == SyntaxErrorKind::MalformedUnicodeEscape && (digits@.len() == 0
                || !all_hex(digits@) || hex_val_seq(digits@) > 0xFFFFFFFF),
        },
{
    let mut i: usize = 0;
    while i < digits.len()
        invariant
            i <= digits.len(),
            forall|k: int| 0 <= k < i ==> is_hex_digit(digits@[k]),
        decreases digits@.len() - i,
    {
        if hex_digit_value(digits[i]).is_none() {
            return Err(SyntaxErrorKind::MalformedUnicodeEscape);
        }
        i = i + 1;
    }
    if digits.len() == 0 {
        return Err(SyntaxErrorKind::MalformedUnicodeEscape);
    }
    assert(all_hex(digits@));
    let mut v: u64 = 0;
    i = 0;
    proof {
        assert(digits@.take(0) =~= Seq::<char>::empty());
    }
    while i < digits.len()
        invariant
            i <= digits.len(),
            all_hex(digits@),
            v as int == hex_val_seq(digits@.take(i as int)),
            v <= 0xFFFFFFFF,
        decreases digits@.len() - i,
    {
        let d = match hex_digit_value(digits[i]) {
            Some(d) => d,
            None => {
                proof {
                    assert(false);
                }
                0
            },
        };
        proof {
            let t1 = digits@.take(i as int + 1);
            assert(t1.take(t1.len() - 1) =~= digits@.take(i as int));
            assert(t1[t1.len() - 1] == digits@[i as int]);
            lemma_hex_val_seq_nonneg(digits@.take(i as int));
        }
        let nv: u64 = v * 16 + (d as u64);
        if nv > 0xFFFFFFFF {
            proof {
                lemma_hex_val_seq_prefix(digits@, i as int + 1);
            }
            return Err(SyntaxErrorKind::MalformedUnicodeEscape);
        }
        v = nv;
        i = i + 1;
    }
    proof {
        assert(digits@.take(digits@.len() as int) =~= digits@);
    }
    Ok(v as u32)
}

/// Decodes the escape whose escapee `e` has just been read, appending the
/// characters it writes to `out`; positions of diagnostics follow
/// `decode_escape_spec`.
fn decode_escape(
    cursor: &mut Cursor,
    coerce: bool,
    e: char,
    backslash_pos: Position,
    out: &mut Vec<char>,
) -> (r: Result<(), LexError>)
    requires
        old(cursor).wf(),
    ensures
        final(cursor).wf(),
        match decode_escape_spec(
            coerce,
            e,
            old(cursor).remaining(),
            backslash_pos,
            old(cursor).position(),
        ) {
            EscapeOutcome::Got { chars, rest, pos } => r == Ok::<(), LexError>(())
                && final(out)@ == old(out)@ + chars && final(cursor).remaining() == rest
                && final(cursor).position() == pos,
            EscapeOutcome::Ended => r == Err::<(), LexError>(
                LexError::UnexpectedEndOfInput { context: EndOfInputContext::EscapeSequence },
            ),
            EscapeOutcome::Bad { kind, pos } => r == Err::<(), LexError>(
                LexError::SyntaxError { kind, position: pos },
            ),
        },
{
    let ghost tail = cursor.remaining();
    let ghost pos_e = cursor.position();
    match e {
        'n' | 'r' | 't' | 'b' | 'f' | '0' | '\'' | '"' | '\\' => {
            let c = match e {
                'n' => '\n',
                'r' => '\r',
                't' => '\t',
                'b' => '\u{8}',
                'f' => '\u{c}',
                '0' => '\0',
                other => other,
            };
            out.push(c);
            proof {
                assert(final(out)@ =~= old(out)@ + seq![single_escape_char(e)]);
            }
            Ok(())
        },
        'x' => {
            let c1 = match cursor.next() {
                None => {
                    return Err(
                        LexError::UnexpectedEndOfInput {
                            context: EndOfInputContext::EscapeSequence,
                        },
                    );
                },
                Some(c1) => c1,
            };
            let c2 = match cursor.next() {
                None => {
                    proof {
                        assert(tail.len() == 1);
                    }
                    return Err(
                        LexError::UnexpectedEndOfInput {
                            context: EndOfInputContext::EscapeSequence,
                        },
                    );
                },
                Some(c2) => c2,
            };
            proof {
                assert(tail.skip(1)[0] == tail[1]);
                assert(tail.skip(1).skip(1) =~= tail.skip(2));
            }
            match (hex_digit_value(c1), hex_digit_value(c2)) {
                (Some(v1), Some(v2)) => {
                    let v: u32 = (v1 as u32) * 16 + (v2 as u32);
                    match char::from_u32(v) {
                        Some(c) => {
                            out.push(c);
                            proof {
                                vstd::utf8::char_u32_cast(c, v);
                                assert(final(out)@ =~= old(out)@ + seq![v as char]);
                            }
                            Ok(())
                        },
                        None => {
                            Err(
                                LexError::SyntaxError {
                                    kind: SyntaxErrorKind::NotAScalarValue { value: v },
                                    position: cursor.pos(),
                                },
                            )
                        },
                    }
                },
                _ => {
                    if coerce {
                        out.push('\0');
                        proof {
                            assert(final(out)@ =~= old(out)@ + seq!['\0']);
                        }
                        Ok(())
                    } else {
                        Err(
                            LexError::SyntaxError {
                                kind: SyntaxErrorKind::MalformedHexEscape,
                                position: cursor.pos(),
                            },
                        )
                    }
                },
            }
        },
        'u' => {
            if cursor.next_is('{') {
                let mut digits: Vec<char> = Vec::new();
                match cursor.take_until('}', &mut digits) {
                    Err(_) => {
                        return Err(
                            LexError::UnexpectedEndOfInput {
                                context: EndOfInputContext::EscapeSequence,
                            },
                        );
                    },
                    Ok(()) => {
                        proof {
                            let p = match split_at_char(tail.skip(1), '}') {
                                Some(p) => p,
                                None => arbitrary(),
                            };
                            assert(digits@ =~= p.0);
                        }
                        match parse_brace_digits(&digits) {
                            Err(kind) => {
                                return Err(
                                    LexError::SyntaxError { kind, position: cursor.pos() },
                                );
                            },
                            Ok(v) => {
                                if v > 0x10FFFF {
                                    return Err(
                                        LexError::SyntaxError {
                                            kind: SyntaxErrorKind::CodePointOutOfRange,
                                            position: cursor.pos(),
                                        },
                                    );
                                }
                                match char::from_u32(v) {
                                    None => {
                                        return Err(
                                            LexError::SyntaxError {
                                                kind: SyntaxErrorKind::InvalidUnicodeEscape,
                                                position: cursor.pos(),
                                            },
                                        );
                                    },
                                    Some(c) => {
                                        out.push(c);
                                        proof {
                                            vstd::utf8::char_u32_cast(c, v);
                                            assert(final(out)@ =~= old(out)@ + seq![v as char]);
                                        }
                                        return Ok(());
                                    },
                                }
                            },
                        }
                    },
                }
            } else {
                let mut units: Vec<u16> = Vec::new();
                match collect_units(cursor, coerce, &mut units) {
                    Err(err) => {
                        return Err(err);
                    },
                    Ok(()) => {
                        proof {
                            assert(units@ =~= Seq::<u16>::empty() + units@);
                            match collect_units_spec(coerce, tail, pos_e) {
                                UnitsOutcome::Units { units: us, .. } => {
                                    assert(Seq::<u16>::empty() + us =~= us);
                                },
                                _ => {
                                    assert(false);
                                },
                            }
                        }
                        if decode_code_units(&units, out) {
                            Ok(())
                        } else {
                            Err(
                                LexError::SyntaxError {
                                    kind: SyntaxErrorKind::LoneSurrogate,
                                    position: cursor.pos(),
                                },
                            )
                        }
                    },
                }
            }
        },
        _ => {
            Err(
                LexError::SyntaxError {
                    kind: SyntaxErrorKind::InvalidEscape { escapee: e },
                    position: backslash_pos,
                },
            )
        },
    }
}

} // verus!
