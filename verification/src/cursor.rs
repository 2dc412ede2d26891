//! A forward-only character-stream reader with position tracking, one- and
//! two-character lookahead, and two bulk-read helpers.

use vstd::prelude::*;

use crate::position::{advance_position, advance_position_over, Position};
use crate::position::{lemma_advance_position_over_concat, lemma_advance_position_over_one};

verus! {

/// Why a bulk read of the cursor stopped short.
#[derive(Clone, Copy, Debug, PartialEq, Eq, Structural)]
pub enum CursorError {
    /// The stream ended first.
    EndOfInput,
    /// A character was read where a single-byte ASCII character was required.
    NonAscii,
}

/// Splits `s` at the first occurrence of `c`: the part before it (which does
/// not contain `c`) and the part after it, or nothing when `c` never occurs.
pub open spec fn split_at_char(s: Seq<char>, c: char) -> Option<(Seq<char>, Seq<char>)>
    decreases s.len(),
{
    if s.len() == 0 {
        None
    } else if s[0] == c {
        Some((Seq::empty(), s.skip(1)))
    } else {
        match split_at_char(s.skip(1), c) {
            None => None,
            Some(p) => Some((seq![s[0]] + p.0, p.1)),
        }
    }
}

/// A prefix free of `c` passes through `split_at_char` unharmed.
pub proof fn lemma_split_at_char_prefix(prefix: Seq<char>, s: Seq<char>, c: char)
    requires
        forall|i: int| 0 <= i < prefix.len() ==> prefix[i] != c,
    ensures
        split_at_char(prefix + s, c) == match split_at_char(s, c) {
            None => None::<(Seq<char>, Seq<char>)>,
            Some(p) => Some((prefix + p.0, p.1)),
        },
    decreases prefix.len(),
{
    if prefix.len() == 0 {
        assert(prefix + s =~= s);
        match split_at_char(s, c) {
            None => {
            },
            Some(p) => {
                assert(prefix + p.0 =~= p.0);
            },
        }
    } else {
        assert((prefix + s).len() > 0);
        assert((prefix + s)[0] == prefix[0]);
        assert((prefix + s).skip(1) =~= prefix.skip(1) + s);
        lemma_split_at_char_prefix(prefix.skip(1), s, c);
        match split_at_char(s, c) {
            None => {
            },
            Some(p) => {
                assert(seq![prefix[0]] + (prefix.skip(1) + p.0) =~= prefix + p.0);
            },
        }
    }
}

/// A successful split accounts for every character of `s`.
pub proof fn lemma_split_at_char_len(s: Seq<char>, c: char)
    ensures
        match split_at_char(s, c) {
            Some(p) => p.0.len() + 1 + p.1.len() == s.len(),
            None => true,
        },
    decreases s.len(),
{
    if s.len() > 0 && s[0] != c {
        lemma_split_at_char_len(s.skip(1), c);
        match split_at_char(s.skip(1), c) {
            Some(p) => {
                assert((seq![s[0]] + p.0).len() == 1 + p.0.len());
            },
            None => {
            },
        }
    }
}

/// Every character of `s` is single-byte ASCII.
pub open spec fn all_ascii(s: Seq<char>) -> bool {
    forall|i: int| 0 <= i < s.len() ==> (s[i] as u32) < 128
}

/// A forward-only reader over the source characters, already in memory, so
/// that a read can end the stream but never fail. Consuming a line feed
/// moves to column 1 of the next line; consuming anything else moves one
/// column to the right.
pub struct Cursor {
    input: Vec<char>,
    index: usize,
    line: usize,
    column: usize,
}

impl Cursor {
    /// The characters not yet consumed.
    pub closed spec fn remaining(&self) -> Seq<char> {
        self.input@.skip(self.index as int)
    }

    /// The current position: that of the next character to be read.
    pub closed spec fn position(&self) -> Position {
        Position { line: self.line, column: self.column }
    }

    /// Positions are 1-based and can still advance once per remaining
    /// character without exceeding the machine's integer range.
    pub closed spec fn wf(&self) -> bool {
        &&& self.index <= self.input@.len()
        &&& 1 <= self.line
        &&& 1 <= self.column
        &&& self.line + self.remaining().len() <= usize::MAX
        &&& self.column + self.remaining().len() <= usize::MAX
    }

    /// Starts reading `input` at line 1, column 1.
    pub fn new(input: Vec<char>) -> (r: Cursor)
        requires
            input@.len() < usize::MAX,
        ensures
            r.wf(),
            r.remaining() == input@,
            r.position() == (Position { line: 1, column: 1 }),
    {
        let r = Cursor { input, index: 0, line: 1, column: 1 };
        proof {
            assert(r.remaining() =~= r.input@);
        }
        r
    }

    /// The current position, valid before and after each read.
    pub fn pos(&self) -> (r: Position)
        ensures
            r == self.position(),
    {
        Position { line: self.line, column: self.column }
    }

    /// Consumes and returns the next character, or nothing at end of input.
    pub fn next(&mut self) -> (r: Option<char>)
        requires
            old(self).wf(),
        ensures
            final(self).wf(),
            old(self).remaining().len() == 0 ==> r.is_none() && *final(self) == *old(self),
            old(self).remaining().len() > 0 ==> {
                &&& r == Some(old(self).remaining()[0])
                &&& final(self).remaining() == old(self).remaining().skip(1)
                &&& final(self).position() == advance_position(
                    old(self).position(),
                    old(self).remaining()[0],
                )
            },
    {
        if self.index < self.input.len() {
            let c = self.input[self.index];
            self.index = self.index + 1;
            if c == '\n' {
                self.line = self.line + 1;
                self.column = 1;
            } else {
                self.column = self.column + 1;
            }
            proof {
                assert(final(self).remaining() =~= old(self).remaining().skip(1));
            }
            Some(c)
        } else {
            proof {
                assert(old(self).remaining().len() == 0);
            }
            None
        }
    }

    /// Peeks at the next character; consumes it exactly when it equals `c`.
    pub fn next_is(&mut self, c: char) -> (r: bool)
        requires
            old(self).wf(),
        ensures
            final(self).wf(),
            r == (old(self).remaining().len() > 0 && old(self).remaining()[0] == c),
            r ==> final(self).remaining() == old(self).remaining().skip(1)
                && final(self).position() == advance_position(old(self).position(), c),
            !r ==> *final(self) == *old(self),
    {
        if self.index < self.input.len() && self.input[self.index] == c {
            let _ = self.next();
            true
        } else {
            false
        }
    }

    /// Peeks at the next two characters; consumes both exactly when they
    /// equal `a` then `b`.
    pub fn next_two_are(&mut self, a: char, b: char) -> (r: bool)
        requires
            old(self).wf(),
        ensures
            final(self).wf(),
            r == (old(self).remaining().len() >= 2 && old(self).remaining()[0] == a && old(
                self,
            ).remaining()[1] == b),
            r ==> final(self).remaining() == old(self).remaining().skip(2)
                && final(self).position() == advance_position(
                advance_position(old(self).position(), a),
                b,
            ),
            !r ==> *final(self) == *old(self),
    {
        if self.index < self.input.len() && self.input[self.index] == a && self.index + 1
            < self.input.len() && self.input[self.index + 1] == b {
            let _ = self.next();
            let _ = self.next();
            proof {
                assert(final(self).remaining() =~= old(self).remaining().skip(2));
            }
            true
        } else {
            false
        }
    }

    /// Consumes characters up to and including the first `terminator`,
    /// appending all but the terminator to `out`; fails when the stream ends
    /// first, having consumed and appended everything.
    #[verifier::loop_isolation(false)]
    pub fn take_until(&mut self, terminator: char, out: &mut Vec<char>) -> (r: Result<
        (),
        CursorError,
    >)
        requires
            old(self).wf(),
        ensures
            final(self).wf(),
            match split_at_char(old(self).remaining(), terminator) {
                Some(p) => {
                    &&& r == Ok::<(), CursorError>(())
                    &&& final(out)@ == old(out)@ + p.0
                    &&& final(self).remaining() == p.1
                    &&& final(self).position() == advance_position_over(
                        old(self).position(),
                        p.0.push(terminator),
                    )
                },
                None => {
                    &&& r == Err::<(), CursorError>(CursorError::EndOfInput)
                    &&& final(out)@ == old(out)@ + old(self).remaining()
                    &&& final(self).remaining().len() == 0
                    &&& final(self).position() == advance_position_over(
                        old(self).position(),
                        old(self).remaining(),
                    )
                },
            },
    {
        let ghost orig = *self;
        let ghost orig_out = out@;
        let ghost mut consumed: Seq<char> = Seq::empty();
        proof {
            assert(orig.remaining() =~= consumed + self.remaining());
            assert(out@ =~= orig_out + consumed);
            match split_at_char(self.remaining(), terminator) {
                None => {
                },
                Some(p) => {
                    assert(consumed + p.0 =~= p.0);
                },
            }
        }
        loop
            invariant
                self.wf(),
                orig.remaining() == consumed + self.remaining(),
                out@ == orig_out + consumed,
                forall|i: int| 0 <= i < consumed.len() ==> consumed[i] != terminator,
                self.position() == advance_position_over(orig.position(), consumed),
                split_at_char(orig.remaining(), terminator) == match split_at_char(
                    self.remaining(),
                    terminator,
                ) {
                    None => None::<(Seq<char>, Seq<char>)>,
                    Some(p) => Some((consumed + p.0, p.1)),
                },
            decreases self.remaining().len(),
        {
            let ghost rem = self.remaining();
            let ghost p_before = self.position();
            match self.next() {
                None => {
                    proof {
                        assert(orig.remaining() =~= consumed);
                    }
                    return Err(CursorError::EndOfInput);
                },
                Some(c) => {
                    proof {
                        lemma_advance_position_over_concat(orig.position(), consumed, seq![c]);
                        lemma_advance_position_over_one(p_before, c);
                        assert(consumed + seq![c] =~= consumed.push(c));
                    }
                    if c == terminator {
                        proof {
                            assert(rem.len() > 0 && rem[0] == terminator);
                            assert(split_at_char(rem, terminator) == Some(
                                (Seq::<char>::empty(), rem.skip(1)),
                            ));
                            assert(consumed + Seq::<char>::empty() =~= consumed);
                            assert(split_at_char(orig.remaining(), terminator) == Some(
                                (consumed, rem.skip(1)),
                            ));
                        }
                        return Ok(());
                    } else {
                        out.push(c);
                        proof {
                            assert(rem.len() > 0 && rem[0] == c && c != terminator);
                            let ghost old_consumed = consumed;
                            consumed = consumed.push(c);
                            assert(orig.remaining() =~= consumed + self.remaining()) by {
                                assert(old_consumed + rem =~= consumed + rem.skip(1));
                            }
                            assert(out@ =~= orig_out + consumed);
                            match split_at_char(rem.skip(1), terminator) {
                                None => {
                                },
                                Some(p) => {
                                    assert(old_consumed + (seq![c] + p.0) =~= consumed + p.0);
                                },
                            }
                        }
                    }
                },
            }
        }
    }

    /// Consumes exactly four characters into `out` as single-byte ASCII;
    /// fails without consuming when fewer than four remain, and fails having
    /// consumed all four when one of them is not ASCII (leaving `out` alone
    /// in both cases).
    pub fn fill_bytes(&mut self, out: &mut [u8; 4]) -> (r: Result<(), CursorError>)
        requires
            old(self).wf(),
        ensures
            final(self).wf(),
            old(self).remaining().len() < 4 ==> r == Err::<(), CursorError>(CursorError::EndOfInput)
                && *final(self) == *old(self) && *final(out) == *old(out),
            old(self).remaining().len() >= 4 ==> {
                let quad = old(self).remaining().take(4);
                &&& final(self).remaining() == old(self).remaining().skip(4)
                &&& final(self).position() == advance_position_over(old(self).position(), quad)
                &&& all_ascii(quad) ==> r == Ok::<(), CursorError>(()) && (forall|i: int|
                    0 <= i < 4 ==> final(out)@[i] == (quad[i] as u32) as u8)
                &&& !all_ascii(quad) ==> r == Err::<(), CursorError>(CursorError::NonAscii)
                    && *final(out) == *old(out)
            },
    {
        if self.input.len() - self.index < 4 {
            return Err(CursorError::EndOfInput);
        }
        let ghost rem = self.remaining();
        let ghost quad = rem.take(4);
        let c0 = self.next().unwrap();
        let c1 = self.next().unwrap();
        let c2 = self.next().unwrap();
        let c3 = self.next().unwrap();
        proof {
            assert(rem.skip(1)[0] == rem[1]);
            assert(rem.skip(1).skip(1) =~= rem.skip(2));
            assert(rem.skip(2)[0] == rem[2]);
            assert(rem.skip(2).skip(1) =~= rem.skip(3));
            assert(rem.skip(3)[0] == rem[3]);
            assert(rem.skip(3).skip(1) =~= rem.skip(4));
            assert(final(self).remaining() =~= rem.skip(4));
            assert(quad =~= seq![rem[0]] + (seq![rem[1]] + (seq![rem[2]] + seq![rem[3]])));
            lemma_advance_position_over_concat(
                old(self).position(),
                seq![rem[0]],
                seq![rem[1]] + (seq![rem[2]] + seq![rem[3]]),
            );
            lemma_advance_position_over_one(old(self).position(), rem[0]);
            let p1 = advance_position(old(self).position(), rem[0]);
            lemma_advance_position_over_concat(p1, seq![rem[1]], seq![rem[2]] + seq![rem[3]]);
            lemma_advance_position_over_one(p1, rem[1]);
            let p2 = advance_position(p1, rem[1]);
            lemma_advance_position_over_concat(p2, seq![rem[2]], seq![rem[3]]);
            lemma_advance_position_over_one(p2, rem[2]);
            let p3 = advance_position(p2, rem[2]);
            lemma_advance_position_over_one(p3, rem[3]);
        }
        if (c0 as u32) < 128 && (c1 as u32) < 128 && (c2 as u32) < 128 && (c3 as u32) < 128 {
            *out = [(c0 as u32) as u8, (c1 as u32) as u8, (c2 as u32) as u8, (c3 as u32) as u8];
            proof {
                assert(all_ascii(quad)) by {
                    assert(quad[0] == c0 && quad[1] == c1 && quad[2] == c2 && quad[3] == c3);
                }
            }
            Ok(())
        } else {
            proof {
                assert(!all_ascii(quad)) by {
                    assert(quad[0] == c0 && quad[1] == c1 && quad[2] == c2 && quad[3] == c3);
                }
            }
            Err(CursorError::NonAscii)
        }
    }
}

} // verus!
