//! A one-token-lookahead iterator over the non-trivia tokens of a text.

use vstd::prelude::*;

use crate::lexing::{lemma_next_token_len, spec_lex, spec_next_token};
use crate::pos::Pos;
use crate::source_iter::SourceIter;
use crate::text::byte_len;
use crate::token::Token;

verus! {

/// The tokens of `tokens` that are not trivia, in order.
pub open spec fn nontrivia_of(tokens: Seq<Token>) -> Seq<Token>
    decreases tokens.len(),
{
    if tokens.len() == 0 {
        Seq::empty()
    } else if tokens[0].kind.is_trivia_spec() {
        nontrivia_of(tokens.drop_first())
    } else {
        seq![tokens[0]] + nontrivia_of(tokens.drop_first())
    }
}

/// A peekable iterator over the token stream that filters out trivia, so a
/// parser sees only semantically meaningful tokens while still being able
/// to ask what comes next without consuming it.
pub struct TokenIter {
    /// The underlying character cursor.
    pub iter: SourceIter,
    /// The next non-trivia token, when it has been peeked but not eaten.
    pub peeked_token: Option<Token>,
}

impl TokenIter {
    /// The non-trivia tokens not yet eaten.
    pub open spec fn upcoming(self) -> Seq<Token> {
        match self.peeked_token {
            Some(t) => seq![t] + nontrivia_of(spec_lex(self.iter.rest(), self.iter.pos as int)),
            None => nontrivia_of(spec_lex(self.iter.rest(), self.iter.pos as int)),
        }
    }

    /// The cursor is token-aligned and a peeked token is never trivia.
    pub open spec fn wf(self) -> bool {
        &&& self.iter.wf()
        &&& self.iter.aligned()
        &&& (self.peeked_token matches Some(t) ==> !t.kind.is_trivia_spec())
    }

    /// Creates a token iterator over the given text, whose first byte sits
    /// at the given global position.
    pub fn new(input: &str, start_pos: Pos) -> (it: TokenIter)
        requires
            start_pos.index + byte_len(input@) <= usize::MAX,
        ensures
            it.wf(),
            it.upcoming() == nontrivia_of(spec_lex(input@, start_pos.index as int)),
    {
        let iter = SourceIter::new(input, start_pos);
        proof {
            assert(iter.rest() =~= input@);
        }
        TokenIter { iter, peeked_token: None }
    }

    /// Returns the next non-trivia token without consuming it, or `None`
    /// when only trivia remains.
    pub fn peek(&mut self) -> (t: Option<Token>)
        requires
            old(self).wf(),
        ensures
            final(self).wf(),
            final(self).upcoming() == old(self).upcoming(),
            t == (if old(self).upcoming().len() > 0 {
                Some(old(self).upcoming()[0])
            } else {
                None::<Token>
            }),
            final(self).peeked_token == t,
    {
        if self.peeked_token.is_some() {
            return self.peeked_token;
        }
        loop
            invariant
                self.wf(),
                self.peeked_token is None,
                nontrivia_of(spec_lex(self.iter.rest(), self.iter.pos as int)) == old(
                    self,
                ).upcoming(),
            decreases self.iter.chars@.len() - self.iter.idx,
        {
            if self.iter.is_eof() {
                proof {
                    assert(self.iter.rest().len() == 0);
                    assert(spec_lex(self.iter.rest(), self.iter.pos as int) =~= Seq::<
                        Token,
                    >::empty());
                }
                return None;
            }
            let ghost rest0 = self.iter.rest();
            let ghost pos0 = self.iter.pos as int;
            let next = self.iter.lex_token();
            proof {
                lemma_next_token_len(rest0);
                let kn = spec_next_token(rest0);
                assert(self.iter.rest() =~= rest0.skip(kn.1));
                let stream = spec_lex(rest0, pos0);
                assert(stream == seq![next] + spec_lex(self.iter.rest(), self.iter.pos as int));
                assert(stream[0] == next);
                assert(stream.drop_first() =~= spec_lex(self.iter.rest(), self.iter.pos as int));
            }
            if !next.kind.is_trivia() {
                self.peeked_token = Some(next);
                return Some(next);
            }
        }
    }

    /// Consumes and returns the next non-trivia token, or `None` when only
    /// trivia remains.
    pub fn eat(&mut self) -> (t: Option<Token>)
        requires
            old(self).wf(),
        ensures
            final(self).wf(),
            t == (if old(self).upcoming().len() > 0 {
                Some(old(self).upcoming()[0])
            } else {
                None::<Token>
            }),
            final(self).upcoming() == (if old(self).upcoming().len() > 0 {
                old(self).upcoming().drop_first()
            } else {
                old(self).upcoming()
            }),
    {
        let t = self.peek();
        self.peeked_token = None;
        proof {
            if old(self).upcoming().len() > 0 {
                let tok = old(self).upcoming()[0];
                let n = nontrivia_of(spec_lex(self.iter.rest(), self.iter.pos as int));
                assert((seq![tok] + n).drop_first() =~= n);
            }
        }
        t
    }
}

} // verus!
