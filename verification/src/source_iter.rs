//! A peekable character cursor over one file's text, with byte-position
//! bookkeeping for spans.

use vstd::prelude::*;

use crate::char_spec::utf8_len;
use crate::char_spec::utf8_len_spec;
use crate::pos::Pos;
use crate::span::{span_at, Span};
use crate::text::{
    byte_len, chars_of, lemma_byte_len_take_le, lemma_byte_len_take_mono, lemma_byte_len_take_succ,
    run_len,
};

verus! {

/// The character handed out past the end of input.
pub const EOF_CHAR: char = '\0';

/// A cursor over the characters of one source file, used by the lexer.
///
/// The cursor exposes up to two characters of lookahead, consumes one
/// character at a time, and tracks two global byte positions: the position
/// of the cursor itself and the position where the current token started.
/// [`SourceIter::consume_span`] closes the current token and hands back its
/// span, so that adjacent tokens receive contiguous spans.
pub struct SourceIter {
    /// The characters of the whole input.
    pub chars: Vec<char>,
    /// The index of the next character to consume.
    pub idx: usize,
    /// The index of the first character of the token being built.
    pub tok_idx: usize,
    /// The global byte position of the first character of the token being
    /// built.
    pub tok_pos: usize,
    /// The global byte position of the cursor.
    pub pos: usize,
    /// The global byte position of the first character of the input.
    pub base: Ghost<int>,
}

impl SourceIter {
    /// The characters not yet consumed.
    pub open spec fn rest(self) -> Seq<char> {
        self.chars@.skip(self.idx as int)
    }

    /// The characters of the token being built, followed by the rest.
    pub open spec fn tok_rest(self) -> Seq<char> {
        self.chars@.skip(self.tok_idx as int)
    }

    /// The cursor's byte positions agree with the UTF-8 byte lengths of the
    /// consumed prefixes, and the whole input fits in the position space.
    pub open spec fn wf(self) -> bool {
        &&& self.tok_idx <= self.idx <= self.chars@.len()
        &&& 0 <= self.base@
        &&& self.tok_pos == self.base@ + byte_len(self.chars@.take(self.tok_idx as int))
        &&& self.pos == self.base@ + byte_len(self.chars@.take(self.idx as int))
        &&& self.base@ + byte_len(self.chars@) <= usize::MAX
    }

    /// The cursor sits at the start of the token being built.
    pub open spec fn aligned(self) -> bool {
        self.tok_idx == self.idx
    }

    /// Creates a cursor over the given text, whose first byte sits at the
    /// given global position.
    pub fn new(source: &str, start_pos: Pos) -> (it: SourceIter)
        requires
            start_pos.index + byte_len(source@) <= usize::MAX,
        ensures
            it.wf(),
            it.aligned(),
            it.chars@ == source@,
            it.idx == 0,
            it.pos == start_pos.index,
            it.tok_pos == start_pos.index,
            it.base@ == start_pos.index,
    {
        let chars = chars_of(source);
        let p = start_pos.to_usize();
        proof {
            assert(chars@.take(0) =~= Seq::<char>::empty());
        }
        SourceIter {
            chars,
            idx: 0,
            tok_idx: 0,
            tok_pos: p,
            pos: p,
            base: Ghost(p as int),
        }
    }

    /// Returns the next character without consuming it, or [`EOF_CHAR`] past
    /// the end of input.
    pub fn peek_fst(&self) -> (c: char)
        ensures
            c == if self.idx < self.chars@.len() {
                self.chars@[self.idx as int]
            } else {
                EOF_CHAR
            },
    {
        if self.idx < self.chars.len() {
            self.chars[self.idx]
        } else {
            EOF_CHAR
        }
    }

    /// Returns the character after the next one without consuming anything,
    /// or [`EOF_CHAR`] past the end of input.
    pub fn peek_snd(&self) -> (c: char)
        ensures
            c == if self.idx + 1 < self.chars@.len() {
                self.chars@[self.idx + 1]
            } else {
                EOF_CHAR
            },
    {
        if self.idx < self.chars.len() && self.idx + 1 < self.chars.len() {
            self.chars[self.idx + 1]
        } else {
            EOF_CHAR
        }
    }

    /// True when all input has been consumed.
    pub fn is_eof(&self) -> (b: bool)
        requires
            self.idx <= self.chars@.len(),
        ensures
            b == (self.idx == self.chars@.len()),
    {
        self.idx >= self.chars.len()
    }

    /// Consumes and returns one character, or returns [`EOF_CHAR`] without
    /// moving past the end of input.
    pub fn eat(&mut self) -> (c: char)
        requires
            old(self).wf(),
        ensures
            final(self).wf(),
            final(self).chars == old(self).chars,
            final(self).tok_idx == old(self).tok_idx,
            final(self).tok_pos == old(self).tok_pos,
            final(self).base == old(self).base,
            old(self).idx < old(self).chars@.len() ==> ({
                &&& c == old(self).chars@[old(self).idx as int]
                &&& final(self).idx == old(self).idx + 1
                &&& final(self).pos == old(self).pos + utf8_len_spec(c)
            }),
            old(self).idx == old(self).chars@.len() ==> c == EOF_CHAR && *final(self) == *old(
                self,
            ),
    {
        if self.idx < self.chars.len() {
            let c = self.chars[self.idx];
            proof {
                lemma_byte_len_take_succ(self.chars@, self.idx as int);
                lemma_byte_len_take_le(self.chars@, self.idx + 1);
            }
            self.idx = self.idx + 1;
            self.pos = self.pos + utf8_len(c);
            c
        } else {
            EOF_CHAR
        }
    }

    /// Consumes characters while the predicate holds of the next one,
    /// stopping at the end of input. The ghost predicate `p` names what the
    /// executable predicate decides.
    pub fn eat_while<F: Fn(char) -> bool>(
        &mut self,
        predicate: F,
        Ghost(p): Ghost<spec_fn(char) -> bool>,
    )
        requires
            old(self).wf(),
            forall|c: char| #[trigger] predicate.requires((c,)),
            forall|c: char, b: bool| predicate.ensures((c,), b) ==> b == p(c),
        ensures
            final(self).wf(),
            final(self).chars == old(self).chars,
            final(self).tok_idx == old(self).tok_idx,
            final(self).tok_pos == old(self).tok_pos,
            final(self).base == old(self).base,
            final(self).idx == old(self).idx + run_len(old(self).rest(), p),
    {
        loop
            invariant
                self.wf(),
                self.chars == old(self).chars,
                self.tok_idx == old(self).tok_idx,
                self.tok_pos == old(self).tok_pos,
                self.base == old(self).base,
                old(self).idx <= self.idx,
                forall|c: char| #[trigger] predicate.requires((c,)),
                forall|c: char, b: bool| predicate.ensures((c,), b) ==> b == p(c),
                run_len(old(self).rest(), p) == (self.idx - old(self).idx) + run_len(
                    self.rest(),
                    p,
                ),
            ensures
                self.wf(),
                self.chars == old(self).chars,
                self.tok_idx == old(self).tok_idx,
                self.tok_pos == old(self).tok_pos,
                self.base == old(self).base,
                self.idx == old(self).idx + run_len(old(self).rest(), p),
            decreases self.chars@.len() - self.idx,
        {
            if self.is_eof() {
                break ;
            }
            let c = self.peek_fst();
            if !predicate(c) {
                break ;
            }
            proof {
                assert(self.rest().len() > 0);
                assert(self.rest()[0] == c);
                assert(run_len(self.rest(), p) == 1 + run_len(self.rest().drop_first(), p));
                assert(self.rest().drop_first() =~= self.chars@.skip(self.idx + 1));
            }
            self.eat();
        }
    }

    /// The number of bytes consumed since the current token started.
    pub fn consumed_len(&self) -> (n: usize)
        requires
            self.wf(),
        ensures
            n == self.pos - self.tok_pos,
    {
        proof {
            lemma_byte_len_take_mono(self.chars@, self.tok_idx as int, self.idx as int);
        }
        self.pos - self.tok_pos
    }

    /// Starts a new token at the cursor, discarding the span of the one
    /// being built.
    pub fn reset_consumed_len(&mut self)
        requires
            old(self).wf(),
        ensures
            final(self).wf(),
            final(self).aligned(),
            final(self).chars == old(self).chars,
            final(self).idx == old(self).idx,
            final(self).pos == old(self).pos,
            final(self).base == old(self).base,
            final(self).tok_idx == old(self).idx,
            final(self).tok_pos == old(self).pos,
    {
        self.tok_idx = self.idx;
        self.tok_pos = self.pos;
    }

    /// Closes the token being built: returns its span and starts the next
    /// token at the cursor.
    pub fn consume_span(&mut self) -> (s: Span)
        requires
            old(self).wf(),
        ensures
            final(self).wf(),
            final(self).aligned(),
            final(self).chars == old(self).chars,
            final(self).idx == old(self).idx,
            final(self).pos == old(self).pos,
            final(self).base == old(self).base,
            final(self).tok_idx == old(self).idx,
            final(self).tok_pos == old(self).pos,
            s == span_at(old(self).tok_pos as int, old(self).pos as int),
            s.wf(),
    {
        proof {
            lemma_byte_len_take_mono(self.chars@, self.tok_idx as int, self.idx as int);
        }
        let s = Span { start: Pos { index: self.tok_pos }, end: Pos { index: self.pos } };
        self.tok_idx = self.idx;
        self.tok_pos = self.pos;
        s
    }
}

} // verus!
