//! Character sources for the state-machine parser: a peekable stream with
//! a byte index, and slicing by byte spans.

use crate::syntax::Span;
use vstd::prelude::*;
use vstd::string::StrSliceExecFns;

verus! {

/// A peekable character stream over source text.
pub trait Source {
    /// Whether a character remains.
    fn has_next(&mut self) -> bool;

    /// The byte offset of the next character.
    fn index(&mut self) -> usize;

    /// The next character, if any, without consuming it.
    fn peek(&mut self) -> Option<char>;

    /// Consumes one character.
    fn advance(&mut self);

    /// The text under a byte span; empty where the span is not on
    /// character boundaries.
    fn slice(&mut self, span: Span) -> &str;

    /// Consumes characters up to the next non-white-space.
    fn consume_whitespace(&mut self);
}

/// A source over a string slice, tracking both the character position and
/// the byte index.
pub struct CharsSource<'a> {
    /// The byte offset consumed so far.
    pub index: usize,
    /// The whole text.
    pub slice: &'a str,
    /// The character position consumed so far.
    pub pos: usize,
}

impl<'a> CharsSource<'a> {
    /// A fresh source at the start of the text.
    pub fn new(slice: &'a str) -> (r: CharsSource<'a>)
        ensures
            r.index == 0,
            r.pos == 0,
            r.slice@ == slice@,
    {
        CharsSource { index: 0, slice, pos: 0 }
    }
}

/// The UTF-8 width of a character, by its scalar value.
pub fn char_width(c: char) -> (r: usize)
    ensures
        1 <= r <= 4,
{
    let u = c as u32;
    if u < 0x80 {
        1
    } else if u < 0x800 {
        2
    } else if u < 0x10000 {
        3
    } else {
        4
    }
}

impl<'a> Source for CharsSource<'a> {
    fn has_next(&mut self) -> (r: bool) {
        self.pos < self.slice.unicode_len()
    }

    fn index(&mut self) -> (r: usize) {
        self.index
    }

    fn peek(&mut self) -> (r: Option<char>) {
        if self.pos < self.slice.unicode_len() {
            Some(self.slice.get_char(self.pos))
        } else {
            None
        }
    }

    fn advance(&mut self) {
        if self.pos < self.slice.unicode_len() {
            let c = self.slice.get_char(self.pos);
            let w = char_width(c);
            if self.index <= usize::MAX - w {
                self.index = self.index + w;
            }
            self.pos = self.pos + 1;
        }
    }

    fn slice(&mut self, span: Span) -> (r: &str) {
        let a = span.start;
        let b = span.end;
        let text: &str = self.slice;
        if a <= b && b <= text.len() && text.is_char_boundary(a) {
            let (_, rest) = text.split_at(a);
            if rest.is_char_boundary(b - a) {
                let (out, _) = rest.split_at(b - a);
                out
            } else {
                ""
            }
        } else {
            ""
        }
    }

    fn consume_whitespace(&mut self) {
        let n = self.slice.unicode_len();
        while self.pos < n
            invariant
                n == self.slice@.len(),
            decreases n - self.pos,
        {
            let c = self.slice.get_char(self.pos);
            if !crate::parser::is_space_char(c) {
                break;
            }
            let w = char_width(c);
            if self.index <= usize::MAX - w {
                self.index = self.index + w;
            }
            self.pos = self.pos + 1;
        }
    }
}

} // verus!
