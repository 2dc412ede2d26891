//! Source positions and spans used for diagnostics.

use vstd::prelude::*;

verus! {

/// A cursor position in the source text: 1-based line and column numbers.
#[derive(Clone, Copy, Debug, PartialEq, Eq, Structural)]
pub struct Position {
    pub line: usize,
    pub column: usize,
}

impl Position {
    /// Lines and columns are counted from 1.
    pub open spec fn wf(self) -> bool {
        1 <= self.line && 1 <= self.column
    }

    pub fn new(line: usize, column: usize) -> (r: Position)
        requires
            1 <= line,
            1 <= column,
        ensures
            r == (Position { line, column }),
    {
        Position { line, column }
    }

    pub fn line_number(&self) -> (r: usize)
        ensures
            r == self.line,
    {
        self.line
    }

    pub fn column_number(&self) -> (r: usize)
        ensures
            r == self.column,
    {
        self.column
    }
}

/// The position reached after reading `c` at position `p`: a line feed opens
/// the next line, anything else moves one column to the right.
pub open spec fn advance_position(p: Position, c: char) -> Position {
    if c == '\n' {
        Position { line: (p.line + 1) as usize, column: 1 }
    } else {
        Position { line: p.line, column: (p.column + 1) as usize }
    }
}

/// The position reached after reading all of `s`, front to back, from `p`.
pub open spec fn advance_position_over(p: Position, s: Seq<char>) -> Position
    decreases s.len(),
{
    if s.len() == 0 {
        p
    } else {
        advance_position_over(advance_position(p, s[0]), s.skip(1))
    }
}

/// Advancing over a concatenation advances over both parts in turn.
pub proof fn lemma_advance_position_over_concat(p: Position, a: Seq<char>, b: Seq<char>)
    ensures
        advance_position_over(p, a + b) == advance_position_over(advance_position_over(p, a), b),
    decreases a.len(),
{
    if a.len() == 0 {
        assert(a + b =~= b);
    } else {
        assert((a + b).skip(1) =~= a.skip(1) + b);
        lemma_advance_position_over_concat(advance_position(p, a[0]), a.skip(1), b);
    }
}

/// Advancing over a single character is one step.
pub proof fn lemma_advance_position_over_one(p: Position, c: char)
    ensures
        advance_position_over(p, seq![c]) == advance_position(p, c),
{
    let s = seq![c];
    assert(s.skip(1) =~= Seq::<char>::empty());
    assert(advance_position_over(p, s) == advance_position_over(advance_position(p, s[0]), s.skip(1)));
    assert(advance_position_over(advance_position(p, c), s.skip(1)) == advance_position(p, c));
}

/// The start and end positions of one token.
#[derive(Clone, Copy, Debug, PartialEq, Eq, Structural)]
pub struct Span {
    pub start: Position,
    pub end: Position,
}

impl Span {
    pub fn new(start: Position, end: Position) -> (r: Span)
        ensures
            r == (Span { start, end }),
    {
        Span { start, end }
    }
}

} // verus!
