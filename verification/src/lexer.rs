//! A character cursor with arbitrary lookahead over one source string,
//! reporting byte positions for span construction.

use vstd::prelude::*;

use crate::char_spec::{utf8_len, utf8_len_spec};
use crate::text::{
    byte_len, byte_len_exec, lemma_byte_len_take_le, lemma_byte_len_take_succ,
};

verus! {

/// A reader over the characters of one source string, with the byte
/// position of the cursor. Positions here are file-local: the first
/// character sits at byte 0.
pub struct Lexer {
    /// The characters of the source.
    pub chars: Vec<char>,
    /// The index of the next character.
    pub idx: usize,
    /// The byte offset of the next character within the source.
    pub pos: usize,
}

impl Lexer {
    /// The cursor's byte position agrees with the UTF-8 byte length of the
    /// consumed prefix.
    pub open spec fn wf(self) -> bool {
        &&& self.idx <= self.chars@.len()
        &&& self.pos == byte_len(self.chars@.take(self.idx as int))
        &&& byte_len(self.chars@) <= usize::MAX
    }

    /// Creates a reader over the given source text.
    pub fn new(src: String) -> (lx: Lexer)
        ensures
            lx.wf(),
            lx.chars@ == src@,
            lx.idx == 0,
            lx.pos == 0,
    {
        let n = byte_len_exec(src.as_str());
        let chars = crate::text::chars_of(src.as_str());
        proof {
            assert(chars@.take(0) =~= Seq::<char>::empty());
        }
        Lexer { chars, idx: 0, pos: 0 }
    }

    /// Returns the next character without consuming it, or `None` at the
    /// end of input.
    pub fn peek(&self) -> (c: Option<char>)
        ensures
            c == (if self.idx < self.chars@.len() {
                Some(self.chars@[self.idx as int])
            } else {
                None::<char>
            }),
    {
        if self.idx < self.chars.len() {
            Some(self.chars[self.idx])
        } else {
            None
        }
    }

    /// Returns the character `n` places ahead of the cursor without
    /// consuming anything, or `None` past the end of input.
    pub fn peek_nth(&self, n: usize) -> (c: Option<char>)
        ensures
            c == (if self.idx + n < self.chars@.len() {
                Some(self.chars@[self.idx + n])
            } else {
                None::<char>
            }),
    {
        if self.idx < self.chars.len() && n < self.chars.len() - self.idx {
            Some(self.chars[self.idx + n])
        } else {
            None
        }
    }

    /// Consumes and returns the next character. Consuming past the end of
    /// input is a programming error, ruled out by the precondition.
    pub fn eat(&mut self) -> (c: char)
        requires
            old(self).wf(),
            old(self).idx < old(self).chars@.len(),
        ensures
            final(self).wf(),
            final(self).chars == old(self).chars,
            c == old(self).chars@[old(self).idx as int],
            final(self).idx == old(self).idx + 1,
            final(self).pos == old(self).pos + utf8_len_spec(c),
    {
        let c = self.chars[self.idx];
        proof {
            crate::text::lemma_byte_len_bounds(self.chars@);
            lemma_byte_len_take_succ(self.chars@, self.idx as int);
            lemma_byte_len_take_le(self.chars@, self.idx + 1);
        }
        self.idx = self.idx + 1;
        self.pos = self.pos + utf8_len(c);
        c
    }

    /// Returns the byte offset of the cursor within the source.
    pub fn pos(&self) -> (p: usize)
        ensures
            p == self.pos,
    {
        self.pos
    }
}

} // verus!
