//! A read-only cursor over the characters of the input text.
use vstd::prelude::*;
use vstd::string::StrSliceExecFns;

use crate::model::is_ws_char;
use crate::model::ws_end;

verus! {

/// Owns the full input as an indexed sequence of characters together
/// with the current scan position. The position only ever moves
/// forward; the buffer itself never changes.
pub struct CharacterStream {
    pos: usize,
    chars: Vec<char>,
    is_end_of_file: bool,
}

impl CharacterStream {
    /// The input text as a sequence of characters.
    pub closed spec fn text(&self) -> Seq<char> {
        self.chars@
    }

    /// The current scan position.
    pub closed spec fn position(&self) -> int {
        self.pos as int
    }

    /// The end-of-input flag is set exactly when the position is at or
    /// beyond the length of the input.
    pub closed spec fn eof_flag_agrees(&self) -> bool {
        self.is_end_of_file == (self.pos >= self.chars@.len())
    }

    /// The end-of-input flag agrees with the position, and the input
    /// fits in memory.
    pub open spec fn wf(&self) -> bool {
        self.eof_flag_agrees() && self.text().len() <= usize::MAX
    }

    #[verifier::loop_isolation(false)]
    pub fn new(text: &str) -> (cs: Self)
        ensures
            cs.wf(),
            cs.text() == text@,
            cs.position() == 0,
    {
        let n = text.unicode_len();
        let mut chars: Vec<char> = Vec::new();
        let mut i: usize = 0;
        while i < n
            invariant
                i <= n,
                n == text@.len(),
                chars@ == text@.subrange(0, i as int),
            decreases n - i,
        {
            chars.push(text.get_char(i));
            proof {
                assert(text@.subrange(0, i + 1) =~= text@.subrange(0, i as int).push(
                    text@[i as int],
                ));
            }
            i = i + 1;
        }
        proof {
            assert(chars@ =~= text@);
        }
        Self { pos: 0, chars, is_end_of_file: n == 0 }
    }

    /// The character at the current position; callers must first rule
    /// out end-of-input.
    pub fn current_char(&self) -> (c: char)
        requires
            self.wf(),
            self.position() < self.text().len(),
        ensures
            c == self.text()[self.position()],
    {
        self.chars[self.pos]
    }

    /// One-character lookahead: the character one past the current
    /// position, or nothing when that position is out of range.
    pub fn next_char(&self) -> (c: Option<char>)
        ensures
            c == if self.position() + 1 < self.text().len() {
                Some(self.text()[self.position() + 1])
            } else {
                None::<char>
            },
    {
        if self.pos < self.chars.len() && self.chars.len() - self.pos > 1 {
            Some(self.chars[self.pos + 1])
        } else {
            None
        }
    }

    /// Moves the position forward by `offset` and refreshes the
    /// end-of-input flag. The cursor is monotone: it is never rewound,
    /// and it may land at or beyond the end of the input.
    pub fn advance_by(&mut self, offset: usize)
        requires
            old(self).wf(),
            old(self).position() + offset <= usize::MAX,
        ensures
            final(self).wf(),
            final(self).text() == old(self).text(),
            final(self).position() == old(self).position() + offset,
    {
        self.pos = self.pos + offset;
        if self.pos >= self.chars.len() {
            self.is_end_of_file = true;
        }
    }

    /// Whether the position has reached or passed the end of the input.
    pub fn is_eof(&self) -> (b: bool)
        requires
            self.wf(),
        ensures
            b == (self.position() >= self.text().len()),
    {
        self.is_end_of_file
    }

    /// Advances past the maximal run of ASCII whitespace at the
    /// current position.
    #[verifier::loop_isolation(false)]
    pub fn skip_whitespace(&mut self)
        requires
            old(self).wf(),
        ensures
            final(self).wf(),
            final(self).text() == old(self).text(),
            final(self).position() == ws_end(old(self).text(), old(self).position()),
    {
        while !self.is_eof() && is_whitespace(self.current_char())
            invariant
                self.wf(),
                self.text() == old(self).text(),
                old(self).position() <= self.position(),
                ws_end(self.text(), old(self).position()) == ws_end(self.text(), self.position()),
            decreases self.text().len() - self.position(),
        {
            self.advance_by(1);
        }
    }

    /// Whether the position still indexes a real character.
    pub fn check_bounds(&self) -> (b: bool)
        ensures
            b == (self.position() < self.text().len()),
    {
        self.pos < self.chars.len()
    }
}

/// Recognizes ASCII whitespace.
pub fn is_whitespace(c: char) -> (b: bool)
    ensures
        b == is_ws_char(c),
{
    c == ' ' || c == '\t' || c == '\n' || c == '\u{c}' || c == '\r'
}

} // verus!
