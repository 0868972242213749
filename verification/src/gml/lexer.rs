//! The GML lexer's scanning state over source text, held as bytes with an
//! explicit position.

use vstd::prelude::*;

verus! {

/// Where a whitespace run starting at `i` ends: the first index at or
/// after `i` whose byte is above the space character.
pub open spec fn ws_end(s: Seq<u8>, i: int) -> int
    recommends
        0 <= i,
    decreases s.len() - i,
{
    if i >= s.len() {
        i
    } else if s[i] > 0x20 {
        i
    } else {
        ws_end(s, i + 1)
    }
}

/// How many line feeds `s` holds in the range `[i, j)`.
pub open spec fn lf_count(s: Seq<u8>, i: int, j: int) -> int
    recommends
        0 <= i <= j <= s.len(),
    decreases j - i,
{
    if i >= j {
        0
    } else {
        lf_count(s, i, j - 1) + if s[j - 1] == 0x0A {
            1int
        } else {
            0int
        }
    }
}

/// A lexer over GML source code, scanning byte by byte.
pub struct Lexer<'a> {
    /// The GML source code.
    pub src: &'a [u8],
    /// The scan position.
    pub pos: usize,
    /// Internal buffer for assembling number literals.
    pub buf: Vec<u8>,
    /// The current line, maintained from the line feeds skipped so far.
    pub line_hint: usize,
}

impl<'a> Lexer<'a> {
    /// Creates a new lexer over GML source code.
    pub fn new(src: &'a [u8]) -> (r: Self)
        ensures
            r.src@ == src@,
            r.pos == 0,
            r.buf@.len() == 0,
            r.line_hint == 1,
    {
        Lexer { src, pos: 0, buf: Vec::with_capacity(8), line_hint: 1 }
    }

    /// Fast-forward the position to the next token, skipping over
    /// whitespace, and report how many lines were skipped in the process.
    pub fn fast_forward(&mut self) -> (lines_skipped: usize)
        ensures
            final(self).src@ == old(self).src@,
            final(self).buf@ == old(self).buf@,
            final(self).line_hint == old(self).line_hint,
            final(self).pos == ws_end(old(self).src@, old(self).pos as int),
            lines_skipped == lf_count(old(self).src@, old(self).pos as int, final(self).pos as int),
    {
        let ghost p0 = self.pos as int;
        let mut lines_skipped: usize = 0;
        loop
            invariant
                self.src@ == old(self).src@,
                self.buf@ == old(self).buf@,
                self.line_hint == old(self).line_hint,
                0 <= p0 <= self.pos,
                self.pos <= self.src@.len() || self.pos == p0,
                ws_end(self.src@, p0) == ws_end(self.src@, self.pos as int),
                lines_skipped == lf_count(self.src@, p0, self.pos as int),
                lines_skipped <= self.pos - p0,
            ensures
                self.src@ == old(self).src@,
                self.buf@ == old(self).buf@,
                self.line_hint == old(self).line_hint,
                self.pos == ws_end(old(self).src@, p0),
                lines_skipped == lf_count(old(self).src@, p0, self.pos as int),
            decreases self.src@.len() - self.pos,
        {
            if self.pos >= self.src.len() {
                proof {
                    assert(ws_end(self.src@, self.pos as int) == self.pos);
                }
                break ;
            }
            let ch: u8 = self.src[self.pos];
            if ch > 0x20 {
                proof {
                    assert(ws_end(self.src@, self.pos as int) == self.pos);
                }
                break ;
            }
            if ch == 0x0A {
                lines_skipped = lines_skipped + 1;
            }
            proof {
                assert(lf_count(self.src@, p0, self.pos + 1) == lf_count(self.src@, p0, self.pos as int)
                    + if self.src@[self.pos as int] == 0x0A {
                    1int
                } else {
                    0int
                });
            }
            self.pos = self.pos + 1;
        }
        lines_skipped
    }
}

} // verus!
