//! Laws of the string-literal lexer, stated over the same specification
//! functions that the executable lexer's contracts use.

use vstd::prelude::*;

use crate::error::{EndOfInputContext, SyntaxErrorKind};
use crate::position::{advance_position, Position};
use crate::string::{
    is_single_escape, lex_from, prepend_content, LexOutcome,
};
use crate::unicode::{combine_surrogates, utf16_decode};

verus! {

/// Lexing is a pure function of the terminator, the digit policy, the input
/// text and the starting position: identical inputs always receive the
/// identical verdict, token and error alike.
pub proof fn lemma_lex_deterministic(
    term: char,
    coerce: bool,
    a: Seq<char>,
    b: Seq<char>,
    pa: Position,
    pb: Position,
)
    requires
        a == b,
        pa == pb,
    ensures
        lex_from(term, coerce, a, pa) == lex_from(term, coerce, b, pb),
{
}

/// The UTF-16 code units that re-express a supplementary-plane scalar value.
pub open spec fn high_surrogate_of(v: u32) -> u16 {
    (0xD800 + (v - 0x10000) / 0x400) as u16
}

pub open spec fn low_surrogate_of(v: u32) -> u16 {
    (0xDC00 + (v - 0x10000) % 0x400) as u16
}

/// Round trip: any supplementary-plane scalar value, re-expressed as its
/// UTF-16 surrogate pair and fed through code-unit reconstruction, yields
/// back exactly that one scalar.
pub proof fn lemma_surrogate_pair_round_trip(v: u32)
    requires
        0x10000 <= v <= 0x10FFFF,
    ensures
        utf16_decode(seq![high_surrogate_of(v), low_surrogate_of(v)]) == Some(seq![v as char]),
{
    let hi = high_surrogate_of(v);
    let lo = low_surrogate_of(v);
    let d = (v - 0x10000) as int;
    assert(0 <= d < 0x100000);
    assert(d == 0x400 * (d / 0x400) + d % 0x400) by {
        vstd::arithmetic::div_mod::lemma_fundamental_div_mod(d, 0x400);
    }
    assert(0 <= d % 0x400 < 0x400) by {
        vstd::arithmetic::div_mod::lemma_mod_bound(d, 0x400);
    }
    assert(0 <= d / 0x400 < 0x400) by {
        vstd::arithmetic::div_mod::lemma_div_nonincreasing(d, 0x400);
        vstd::arithmetic::div_mod::lemma_div_pos_is_pos(d, 0x400);
        if d / 0x400 >= 0x400 {
            vstd::arithmetic::div_mod::lemma_div_multiples_vanish(0x400, 0x400);
        }
    }
    let units = seq![hi, lo];
    assert(units.len() == 2 && units[0] == hi && units[1] == lo);
    assert(combine_surrogates(hi, lo) == v);
    assert(units.skip(2) =~= Seq::<u16>::empty());
    assert(utf16_decode(units.skip(2)) == Some(Seq::<char>::empty()));
    assert(seq![v as char] + Seq::<char>::empty() =~= seq![v as char]);
}

/// Terminator symmetry: inside a literal, the quote character that did not
/// open it is ordinary content, decoded like any other character.
pub proof fn lemma_other_quote_is_content(
    term: char,
    coerce: bool,
    rest: Seq<char>,
    pos: Position,
)
    requires
        term == '\'' || term == '"',
    ensures
        lex_from(
            term,
            coerce,
            seq![if term == '\'' { '"' } else { '\'' }] + rest,
            pos,
        ) == prepend_content(
            seq![if term == '\'' { '"' } else { '\'' }],
            lex_from(
                term,
                coerce,
                rest,
                advance_position(pos, if term == '\'' { '"' } else { '\'' }),
            ),
        ),
{
    let q = if term == '\'' { '"' } else { '\'' };
    let s = seq![q] + rest;
    assert(s.len() == 1 + rest.len() && s[0] == q);
    assert(s.skip(1) =~= rest);
}

/// An input in which neither the terminator nor a backslash ever occurs
/// leaves the literal unterminated: lexing fails at end of input.
pub proof fn lemma_unterminated(term: char, coerce: bool, rest: Seq<char>, pos: Position)
    requires
        forall|i: int| 0 <= i < rest.len() ==> rest[i] != term && rest[i] != '\\',
    ensures
        lex_from(term, coerce, rest, pos) == (LexOutcome::Ended {
            context: EndOfInputContext::StringLiteral,
        }),
    decreases rest.len(),
{
    if rest.len() > 0 {
        let c = rest[0];
        lemma_unterminated(term, coerce, rest.skip(1), advance_position(pos, c));
    }
}

/// An unrecognized escape fails with a syntax error that names the offending
/// escapee and the position of the backslash, whatever follows it.
pub proof fn lemma_unrecognized_escape(
    term: char,
    coerce: bool,
    e: char,
    rest: Seq<char>,
    pos: Position,
)
    requires
        term == '\'' || term == '"',
        e != '\n',
        !is_single_escape(e),
        e != 'x',
        e != 'u',
    ensures
        lex_from(term, coerce, seq!['\\', e] + rest, pos) == (LexOutcome::Bad {
            kind: SyntaxErrorKind::InvalidEscape { escapee: e },
            pos,
        }),
{
    let s = seq!['\\', e] + rest;
    assert(s.len() == 2 + rest.len() && s[0] == '\\' && s[1] == e);
}

/// A backslash immediately followed by a literal line feed contributes no
/// character: lexing continues on the rest of the input as if the pair were
/// not there.
pub proof fn lemma_line_continuation(term: char, coerce: bool, rest: Seq<char>, pos: Position)
    requires
        term == '\'' || term == '"',
    ensures
        lex_from(term, coerce, seq!['\\', '\n'] + rest, pos) == lex_from(
            term,
            coerce,
            rest,
            advance_position(advance_position(pos, '\\'), '\n'),
        ),
{
    let s = seq!['\\', '\n'] + rest;
    assert(s.len() == 2 + rest.len() && s[0] == '\\' && s[1] == '\n');
    assert(s.skip(2) =~= rest);
}

} // verus!
