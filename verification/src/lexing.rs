//! The lexer: a total tokenizer over one file's text.
//!
//! [`tokenize`] turns raw text into a vector of spanned tokens, trivia
//! included, and is proved equal to the specification-level lexer
//! [`spec_lex`]. Every production consumes at least one character, so the
//! lexer always makes progress; malformed input becomes `Invalid` or
//! `terminated: false` tokens, never a failure.

use vstd::prelude::*;

use crate::char_spec::{
    is_digit, is_digit_spec, is_ident_head, is_ident_head_spec, is_ident_part, is_ident_part_spec,
    is_inline_space, is_inline_space_spec, is_line_break, is_line_break_spec, is_operator_part,
    is_operator_part_spec,
};
use crate::pos::Pos;
use crate::source_iter::SourceIter;
use crate::span::{span_at, Span};
use crate::text::{
    byte_len, byte_sub, cut, lemma_byte_len_split, lemma_cut_bounds, lemma_cut_mono,
    lemma_cut_take, lemma_run_len_le, run_len,
};
use crate::token::{IdentKind, Keyword, LitKind, Token, TokenKind, TriviaKind};

verus! {

/// The characters consumed by a line comment starting at the `//`: through,
/// not including, the next line feed.
pub open spec fn line_comment_len(s: Seq<char>) -> int {
    2 + run_len(s.skip(2), |c: char| c != '\n') as int
}

/// The characters consumed by the body of a nestable block comment entered
/// at nesting `depth`, and whether the comment was closed before the input
/// ended. `/-` opens one level and `-/` closes one.
pub open spec fn block_rest(s: Seq<char>, depth: int) -> (int, bool)
    decreases s.len(),
{
    if s.len() == 0 {
        (0, false)
    } else if s.len() >= 2 && s[0] == '/' && s[1] == '-' {
        let r = block_rest(s.skip(2), depth + 1);
        (2 + r.0, r.1)
    } else if s.len() >= 2 && s[0] == '-' && s[1] == '/' {
        if depth == 1 {
            (2, true)
        } else {
            let r = block_rest(s.skip(2), depth - 1);
            (2 + r.0, r.1)
        }
    } else {
        let r = block_rest(s.skip(1), depth);
        (1 + r.0, r.1)
    }
}

/// A character that may follow a backslash in a string literal.
pub open spec fn is_escape_char(c: char) -> bool {
    c == 'n' || c == 'r' || c == 't' || c == '\\' || c == '"'
}

/// The characters consumed by the body of a string literal after the
/// opening quote, and whether the closing quote was found.
///
/// An escape consumes the backslash and the escaped character. A backslash
/// followed by a line break is a line continuation: the break and any
/// following inline space are skipped, and a literal backslash must resume
/// the string, otherwise the literal is unterminated. A raw line break, or
/// the end of input, leaves the literal unterminated; the break itself is
/// not consumed.
pub open spec fn string_rest(s: Seq<char>) -> (int, bool)
    decreases s.len(),
{
    if s.len() == 0 {
        (0, false)
    } else if s[0] == '"' {
        (1, true)
    } else if s[0] == '\n' || s[0] == '\r' {
        (0, false)
    } else if s[0] == '\\' && s.len() >= 2 && is_escape_char(s[1]) {
        let r = string_rest(s.skip(2));
        (2 + r.0, r.1)
    } else if s[0] == '\\' && s.len() >= 2 && (s[1] == '\n' || s[1] == '\r') {
        let brk: int = if s[1] == '\r' && s.len() >= 3 && s[2] == '\n' {
            2
        } else {
            1
        };
        let j = 1 + brk + run_len(s.skip(1 + brk), |c: char| is_inline_space_spec(c));
        if j < s.len() && s[j] == '\\' {
            let r = string_rest(s.skip(j + 1));
            (j + 1 + r.0, r.1)
        } else {
            (j, false)
        }
    } else {
        let r = string_rest(s.skip(1));
        (1 + r.0, r.1)
    }
}

/// The token kind of an alphanumeric word: a keyword, a boolean literal,
/// or nothing for an ordinary identifier.
pub open spec fn keyword_or_bool_lit_spec(w: Seq<char>) -> Option<TokenKind> {
    if w == seq!['e', 'l', 's', 'e'] {
        Some(TokenKind::Keyword(Keyword::Else))
    } else if w == seq!['e', 'n', 'd'] {
        Some(TokenKind::Keyword(Keyword::End))
    } else if w == seq!['f', 'n'] {
        Some(TokenKind::Keyword(Keyword::Fn))
    } else if w == seq!['i', 'f'] {
        Some(TokenKind::Keyword(Keyword::If))
    } else if w == seq!['i', 'n'] {
        Some(TokenKind::Keyword(Keyword::In))
    } else if w == seq!['l', 'e', 't'] {
        Some(TokenKind::Keyword(Keyword::Let))
    } else if w == seq!['t', 'h', 'e', 'n'] {
        Some(TokenKind::Keyword(Keyword::Then))
    } else if w == seq!['v', 'a', 'l'] {
        Some(TokenKind::Keyword(Keyword::Val))
    } else if w == seq!['t', 'r', 'u', 'e'] {
        Some(TokenKind::Lit(LitKind::Bool))
    } else if w == seq!['f', 'a', 'l', 's', 'e'] {
        Some(TokenKind::Lit(LitKind::Bool))
    } else {
        None
    }
}

/// The token kind of a run of operator-constituent characters: the two
/// reserved operator lexemes classify as keywords, anything else is a
/// symbolic identifier.
pub open spec fn op_token_kind(w: Seq<char>) -> TokenKind {
    if w == seq!['='] {
        TokenKind::Keyword(Keyword::Eq)
    } else if w == seq!['=', '>'] {
        TokenKind::Keyword(Keyword::DArrow)
    } else {
        TokenKind::Ident(IdentKind::Symbolic)
    }
}

/// The kind and character count of a number token starting at a digit: a
/// maximal digit run, extended over `.` and a second digit run only when a
/// digit directly follows the `.`.
pub open spec fn number_token(s: Seq<char>) -> (TokenKind, int) {
    let d1 = 1 + run_len(s.skip(1), |c: char| is_digit_spec(c)) as int;
    if d1 < s.len() && s[d1] == '.' && d1 + 1 < s.len() && is_digit_spec(s[d1 + 1]) {
        (
            TokenKind::Lit(LitKind::Float),
            d1 + 1 + run_len(s.skip(d1 + 1), |c: char| is_digit_spec(c)),
        )
    } else {
        (TokenKind::Lit(LitKind::Int), d1)
    }
}

/// The kind and character count of the first token of a non-empty text,
/// dispatching on the first character (and at most two of lookahead), in
/// priority order.
pub open spec fn spec_next_token(s: Seq<char>) -> (TokenKind, int)
    recommends
        s.len() > 0,
{
    let c = s[0];
    if c == '/' && s.len() >= 2 && s[1] == '/' {
        (TokenKind::Trivia(TriviaKind::SingleLineComment), line_comment_len(s))
    } else if c == '/' && s.len() >= 2 && s[1] == '-' {
        let r = block_rest(s.skip(2), 1);
        (TokenKind::Trivia(TriviaKind::MultiLineComment { terminated: r.1 }), 2 + r.0)
    } else if is_operator_part_spec(c) {
        let n = run_len(s, |c: char| is_operator_part_spec(c)) as int;
        (op_token_kind(s.take(n)), n)
    } else if is_inline_space_spec(c) {
        (
            TokenKind::Trivia(TriviaKind::Whitespace),
            run_len(s, |c: char| is_inline_space_spec(c)) as int,
        )
    } else if is_line_break_spec(c) {
        (
            TokenKind::Trivia(TriviaKind::Eol),
            if c == '\r' && s.len() >= 2 && s[1] == '\n' {
                2int
            } else {
                1int
            },
        )
    } else if is_ident_head_spec(c) {
        let n = run_len(s, |c: char| is_ident_part_spec(c)) as int;
        (
            match keyword_or_bool_lit_spec(s.take(n)) {
                Some(k) => k,
                None => TokenKind::Ident(IdentKind::Alphanumeric),
            },
            n,
        )
    } else if is_digit_spec(c) {
        number_token(s)
    } else if c == '"' {
        let r = string_rest(s.skip(1));
        (TokenKind::Lit(LitKind::Str { terminated: r.1 }), 1 + r.0)
    } else if c == ';' {
        (TokenKind::Semi, 1)
    } else if c == '(' {
        (TokenKind::LParen, 1)
    } else if c == ')' {
        (TokenKind::RParen, 1)
    } else {
        (TokenKind::Invalid, 1)
    }
}

/// A block comment body stays within the input.
pub proof fn lemma_block_rest_le(s: Seq<char>, depth: int)
    ensures
        0 <= block_rest(s, depth).0 <= s.len(),
    decreases s.len(),
{
    if s.len() == 0 {
    } else if s.len() >= 2 && s[0] == '/' && s[1] == '-' {
        lemma_block_rest_le(s.skip(2), depth + 1);
    } else if s.len() >= 2 && s[0] == '-' && s[1] == '/' {
        if depth != 1 {
            lemma_block_rest_le(s.skip(2), depth - 1);
        }
    } else {
        lemma_block_rest_le(s.skip(1), depth);
    }
}

/// A string literal body stays within the input.
pub proof fn lemma_string_rest_le(s: Seq<char>)
    ensures
        0 <= string_rest(s).0 <= s.len(),
    decreases s.len(),
{
    if s.len() == 0 {
    } else if s[0] == '"' {
    } else if s[0] == '\n' || s[0] == '\r' {
    } else if s[0] == '\\' && s.len() >= 2 && is_escape_char(s[1]) {
        lemma_string_rest_le(s.skip(2));
    } else if s[0] == '\\' && s.len() >= 2 && (s[1] == '\n' || s[1] == '\r') {
        let brk: int = if s[1] == '\r' && s.len() >= 3 && s[2] == '\n' {
            2
        } else {
            1
        };
        lemma_run_len_le(s.skip(1 + brk), |c: char| is_inline_space_spec(c));
        let j = 1 + brk + run_len(s.skip(1 + brk), |c: char| is_inline_space_spec(c));
        if j < s.len() && s[j] == '\\' {
            lemma_string_rest_le(s.skip(j + 1));
        }
    } else {
        lemma_string_rest_le(s.skip(1));
    }
}

/// Every token consumes at least one character and stays within the input:
/// the lexer is total and always makes progress.
pub proof fn lemma_next_token_len(s: Seq<char>)
    requires
        s.len() > 0,
    ensures
        1 <= spec_next_token(s).1 <= s.len(),
{
    let c = s[0];
    if c == '/' && s.len() >= 2 && s[1] == '/' {
        lemma_run_len_le(s.skip(2), |c: char| c != '\n');
    } else if c == '/' && s.len() >= 2 && s[1] == '-' {
        lemma_block_rest_le(s.skip(2), 1);
    } else if is_operator_part_spec(c) {
        lemma_run_len_le(s, |c: char| is_operator_part_spec(c));
        assert(run_len(s, |c: char| is_operator_part_spec(c)) >= 1);
    } else if is_inline_space_spec(c) {
        lemma_run_len_le(s, |c: char| is_inline_space_spec(c));
        assert(run_len(s, |c: char| is_inline_space_spec(c)) >= 1);
    } else if is_line_break_spec(c) {
    } else if is_ident_head_spec(c) {
        lemma_run_len_le(s, |c: char| is_ident_part_spec(c));
        assert(run_len(s, |c: char| is_ident_part_spec(c)) >= 1);
    } else if is_digit_spec(c) {
        lemma_run_len_le(s.skip(1), |c: char| is_digit_spec(c));
        let d1 = 1 + run_len(s.skip(1), |c: char| is_digit_spec(c)) as int;
        if d1 < s.len() && s[d1] == '.' && d1 + 1 < s.len() && is_digit_spec(s[d1 + 1]) {
            lemma_run_len_le(s.skip(d1 + 1), |c: char| is_digit_spec(c));
        }
    } else if c == '"' {
        lemma_string_rest_le(s.skip(1));
    } else {
    }
}

/// The token stream of a text whose first byte sits at global byte position
/// `pos`: the first token of the text, then the stream of what follows it.
pub open spec fn spec_lex(s: Seq<char>, pos: int) -> Seq<Token>
    decreases s.len(),
{
    if s.len() == 0 {
        Seq::empty()
    } else {
        let kn = spec_next_token(s);
        let n = if 1 <= kn.1 <= s.len() {
            kn.1
        } else {
            s.len() as int
        };
        let w = byte_len(s.take(n)) as int;
        seq![Token { kind: kn.0, span: span_at(pos, pos + w) }] + spec_lex(s.skip(n), pos + w)
    }
}

} // verus!

// The executable lexer: methods on the character cursor, each proved to
// consume exactly what the specification-level production consumes.
verus! {

/// `post` differs from `pre` only by having consumed characters: the input
/// and the open token's start are untouched.
pub open spec fn scan_from(pre: SourceIter, post: SourceIter) -> bool {
    &&& post.chars == pre.chars
    &&& post.tok_idx == pre.tok_idx
    &&& post.tok_pos == pre.tok_pos
    &&& post.base == pre.base
    &&& pre.idx <= post.idx
}

/// Returns the token kind of an alphanumeric word: a keyword, a boolean
/// literal, or `None` for an ordinary identifier.
pub fn keyword_or_bool_lit(w: &Vec<char>) -> (r: Option<TokenKind>)
    ensures
        r == keyword_or_bool_lit_spec(w@),
{
    let n = w.len();
    if n == 4 && w[0] == 'e' && w[1] == 'l' && w[2] == 's' && w[3] == 'e' {
        proof {
            assert(w@ =~= seq!['e', 'l', 's', 'e']);
        }
        Some(TokenKind::Keyword(Keyword::Else))
    } else if n == 3 && w[0] == 'e' && w[1] == 'n' && w[2] == 'd' {
        proof {
            assert(w@ =~= seq!['e', 'n', 'd']);
        }
        Some(TokenKind::Keyword(Keyword::End))
    } else if n == 2 && w[0] == 'f' && w[1] == 'n' {
        proof {
            assert(w@ =~= seq!['f', 'n']);
        }
        Some(TokenKind::Keyword(Keyword::Fn))
    } else if n == 2 && w[0] == 'i' && w[1] == 'f' {
        proof {
            assert(w@ =~= seq!['i', 'f']);
        }
        Some(TokenKind::Keyword(Keyword::If))
    } else if n == 2 && w[0] == 'i' && w[1] == 'n' {
        proof {
            assert(w@ =~= seq!['i', 'n']);
        }
        Some(TokenKind::Keyword(Keyword::In))
    } else if n == 3 && w[0] == 'l' && w[1] == 'e' && w[2] == 't' {
        proof {
            assert(w@ =~= seq!['l', 'e', 't']);
        }
        Some(TokenKind::Keyword(Keyword::Let))
    } else if n == 4 && w[0] == 't' && w[1] == 'h' && w[2] == 'e' && w[3] == 'n' {
        proof {
            assert(w@ =~= seq!['t', 'h', 'e', 'n']);
        }
        Some(TokenKind::Keyword(Keyword::Then))
    } else if n == 3 && w[0] == 'v' && w[1] == 'a' && w[2] == 'l' {
        proof {
            assert(w@ =~= seq!['v', 'a', 'l']);
        }
        Some(TokenKind::Keyword(Keyword::Val))
    } else if n == 4 && w[0] == 't' && w[1] == 'r' && w[2] == 'u' && w[3] == 'e' {
        proof {
            assert(w@ =~= seq!['t', 'r', 'u', 'e']);
        }
        Some(TokenKind::Lit(LitKind::Bool))
    } else if n == 5 && w[0] == 'f' && w[1] == 'a' && w[2] == 'l' && w[3] == 's' && w[4] == 'e' {
        proof {
            assert(w@ =~= seq!['f', 'a', 'l', 's', 'e']);
        }
        Some(TokenKind::Lit(LitKind::Bool))
    } else {
        None
    }
}

impl SourceIter {
    /// Consumes the maximal run of characters satisfying the predicate and
    /// returns them.
    fn eat_word<F: Fn(char) -> bool>(
        &mut self,
        predicate: F,
        Ghost(p): Ghost<spec_fn(char) -> bool>,
    ) -> (w: Vec<char>)
        requires
            old(self).wf(),
            forall|c: char| #[trigger] predicate.requires((c,)),
            forall|c: char, b: bool| predicate.ensures((c,), b) ==> b == p(c),
        ensures
            final(self).wf(),
            scan_from(*old(self), *final(self)),
            final(self).idx == old(self).idx + run_len(old(self).rest(), p),
            w@ == old(self).rest().take(run_len(old(self).rest(), p) as int),
    {
        let mut w: Vec<char> = Vec::new();
        proof {
            assert(w@ =~= old(self).rest().take(0));
        }
        loop
            invariant
                self.wf(),
                scan_from(*old(self), *self),
                forall|c: char| #[trigger] predicate.requires((c,)),
                forall|c: char, b: bool| predicate.ensures((c,), b) ==> b == p(c),
                run_len(old(self).rest(), p) == (self.idx - old(self).idx) + run_len(
                    self.rest(),
                    p,
                ),
                w@ == old(self).rest().take(self.idx - old(self).idx),
            ensures
                self.wf(),
                scan_from(*old(self), *self),
                self.idx == old(self).idx + run_len(old(self).rest(), p),
                w@ == old(self).rest().take(self.idx - old(self).idx),
            decreases self.chars@.len() - self.idx,
        {
            if self.is_eof() {
                break ;
            }
            let c = self.peek_fst();
            if !predicate(c) {
                break ;
            }
            proof {
                assert(self.rest()[0] == c);
                assert(run_len(self.rest(), p) == 1 + run_len(self.rest().drop_first(), p));
                assert(self.rest().drop_first() =~= self.chars@.skip(self.idx + 1));
            }
            let ghost prev = self.idx - old(self).idx;
            self.eat();
            w.push(c);
            proof {
                assert(w@ =~= old(self).rest().take(prev + 1));
            }
        }
        w
    }

    /// Consumes a line comment: the `//` and everything up to, not
    /// including, the next line feed.
    fn lex_line_comment(&mut self) -> (k: TokenKind)
        requires
            old(self).wf(),
            old(self).rest().len() >= 2,
            old(self).rest()[0] == '/',
            old(self).rest()[1] == '/',
        ensures
            final(self).wf(),
            scan_from(*old(self), *final(self)),
            final(self).idx == old(self).idx + line_comment_len(old(self).rest()),
            k == TokenKind::Trivia(TriviaKind::SingleLineComment),
    {
        self.eat();
        self.eat();
        proof {
            assert(self.rest() =~= old(self).rest().skip(2));
        }
        self.eat_while(
            (|c: char| -> (b: bool)
                ensures
                    b == (c != '\n'),
                { c != '\n' }),
            Ghost(|c: char| c != '\n'),
        );
        TokenKind::Trivia(TriviaKind::SingleLineComment)
    }

    /// Consumes a nestable block comment entered after its opening `/-`;
    /// an unclosed comment runs to the end of input and is marked
    /// unterminated.
    fn lex_block_comment(&mut self) -> (k: TokenKind)
        requires
            old(self).wf(),
            old(self).rest().len() >= 2,
            old(self).rest()[0] == '/',
            old(self).rest()[1] == '-',
        ensures
            final(self).wf(),
            scan_from(*old(self), *final(self)),
            final(self).idx == old(self).idx + 2 + block_rest(old(self).rest().skip(2), 1).0,
            k == TokenKind::Trivia(
                TriviaKind::MultiLineComment { terminated: block_rest(old(self).rest().skip(2), 1).1 },
            ),
    {
        self.eat();
        self.eat();
        let ghost rest2 = self.rest();
        let ghost idx2 = self.idx as int;
        proof {
            assert(rest2 =~= old(self).rest().skip(2));
        }
        let mut depth: usize = 1;
        let mut terminated = false;
        loop
            invariant_except_break
                1 <= depth,
                depth <= self.idx - idx2 + 1,
                !terminated,
                block_rest(rest2, 1).0 == (self.idx - idx2) + block_rest(
                    self.rest(),
                    depth as int,
                ).0,
                block_rest(rest2, 1).1 == block_rest(self.rest(), depth as int).1,
            invariant
                self.wf(),
                scan_from(*old(self), *self),
                2 <= idx2 <= self.idx,
                rest2 == self.chars@.skip(idx2),
            ensures
                self.wf(),
                scan_from(*old(self), *self),
                self.idx == idx2 + block_rest(rest2, 1).0,
                terminated == block_rest(rest2, 1).1,
            decreases self.chars@.len() - self.idx,
        {
            if self.is_eof() {
                proof {
                    assert(self.rest().len() == 0);
                    assert(block_rest(self.rest(), depth as int).0 == 0);
                    assert(!block_rest(self.rest(), depth as int).1);
                }
                break ;
            }
            let c0 = self.peek_fst();
            let c1 = self.peek_snd();
            if c0 == '/' && c1 == '-' {
                proof {
                    assert(self.rest().len() >= 2 && self.rest()[0] == '/' && self.rest()[1]
                        == '-');
                    assert(self.rest().skip(2) =~= self.chars@.skip(self.idx + 2));
                }
                self.eat();
                self.eat();
                proof {
                    crate::text::lemma_byte_len_bounds(self.chars@);
                }
                depth = depth + 1;
            } else if c0 == '-' && c1 == '/' {
                let ghost pre = self.rest();
                proof {
                    assert(pre.len() >= 2 && pre[0] == '-' && pre[1] == '/');
                    assert(pre.skip(2) =~= self.chars@.skip(self.idx + 2));
                }
                self.eat();
                self.eat();
                if depth == 1 {
                    proof {
                        assert(block_rest(pre, 1).0 == 2 && block_rest(pre, 1).1);
                    }
                    terminated = true;
                    break ;
                }
                depth = depth - 1;
            } else {
                proof {
                    assert(self.rest().len() >= 1);
                    assert(self.rest().skip(1) =~= self.chars@.skip(self.idx + 1));
                }
                self.eat();
            }
        }
        TokenKind::Trivia(TriviaKind::MultiLineComment { terminated })
    }

    /// Consumes a maximal run of inline spaces.
    fn lex_inline_spaces(&mut self) -> (k: TokenKind)
        requires
            old(self).wf(),
        ensures
            final(self).wf(),
            scan_from(*old(self), *final(self)),
            final(self).idx == old(self).idx + run_len(
                old(self).rest(),
                |c: char| is_inline_space_spec(c),
            ),
            k == TokenKind::Trivia(TriviaKind::Whitespace),
    {
        self.eat_while(
            (|c: char| -> (b: bool)
                ensures
                    b == is_inline_space_spec(c),
                { is_inline_space(c) }),
            Ghost(|c: char| is_inline_space_spec(c)),
        );
        TokenKind::Trivia(TriviaKind::Whitespace)
    }

    /// Consumes one logical line break: `\n`, `\r`, or `\r\n` as one unit.
    fn lex_end_of_line(&mut self) -> (k: TokenKind)
        requires
            old(self).wf(),
            old(self).rest().len() >= 1,
            is_line_break_spec(old(self).rest()[0]),
        ensures
            final(self).wf(),
            scan_from(*old(self), *final(self)),
            final(self).idx == old(self).idx + (if old(self).rest()[0] == '\r' && old(
                self,
            ).rest().len() >= 2 && old(self).rest()[1] == '\n' {
                2int
            } else {
                1int
            }),
            k == TokenKind::Trivia(TriviaKind::Eol),
    {
        let c = self.eat();
        if c == '\r' && self.peek_fst() == '\n' {
            self.eat();
        }
        TokenKind::Trivia(TriviaKind::Eol)
    }

    /// Consumes an alphanumeric identifier and classifies it against the
    /// keyword table.
    fn lex_ident(&mut self) -> (k: TokenKind)
        requires
            old(self).wf(),
            old(self).rest().len() >= 1,
            is_ident_head_spec(old(self).rest()[0]),
        ensures
            final(self).wf(),
            scan_from(*old(self), *final(self)),
            ({
                let n = run_len(old(self).rest(), |c: char| is_ident_part_spec(c)) as int;
                &&& final(self).idx == old(self).idx + n
                &&& k == (match keyword_or_bool_lit_spec(old(self).rest().take(n)) {
                    Some(kw) => kw,
                    None => TokenKind::Ident(IdentKind::Alphanumeric),
                })
            }),
    {
        let w = self.eat_word(
            (|c: char| -> (b: bool)
                ensures
                    b == is_ident_part_spec(c),
                { is_ident_part(c) }),
            Ghost(|c: char| is_ident_part_spec(c)),
        );
        match keyword_or_bool_lit(&w) {
            Some(kw) => kw,
            None => TokenKind::Ident(IdentKind::Alphanumeric),
        }
    }

    /// Consumes a maximal run of operator-constituent characters and
    /// classifies it: `=` and `=>` are reserved, anything else is a
    /// symbolic identifier.
    fn lex_operator(&mut self) -> (k: TokenKind)
        requires
            old(self).wf(),
            old(self).rest().len() >= 1,
            is_operator_part_spec(old(self).rest()[0]),
        ensures
            final(self).wf(),
            scan_from(*old(self), *final(self)),
            ({
                let n = run_len(old(self).rest(), |c: char| is_operator_part_spec(c)) as int;
                &&& final(self).idx == old(self).idx + n
                &&& k == op_token_kind(old(self).rest().take(n))
            }),
    {
        let w = self.eat_word(
            (|c: char| -> (b: bool)
                ensures
                    b == is_operator_part_spec(c),
                { is_operator_part(c) }),
            Ghost(|c: char| is_operator_part_spec(c)),
        );
        if w.len() == 1 && w[0] == '=' {
            proof {
                assert(w@ =~= seq!['=']);
            }
            TokenKind::Keyword(Keyword::Eq)
        } else if w.len() == 2 && w[0] == '=' && w[1] == '>' {
            proof {
                assert(w@ =~= seq!['=', '>']);
            }
            TokenKind::Keyword(Keyword::DArrow)
        } else {
            TokenKind::Ident(IdentKind::Symbolic)
        }
    }

    /// Consumes an integer or float literal: a maximal digit run, extended
    /// over a `.` only when a digit directly follows it.
    fn lex_number(&mut self) -> (k: TokenKind)
        requires
            old(self).wf(),
            old(self).rest().len() >= 1,
            is_digit_spec(old(self).rest()[0]),
        ensures
            final(self).wf(),
            scan_from(*old(self), *final(self)),
            final(self).idx == old(self).idx + number_token(old(self).rest()).1,
            k == number_token(old(self).rest()).0,
    {
        let ghost rest0 = old(self).rest();
        self.eat_while(
            (|c: char| -> (b: bool)
                ensures
                    b == is_digit_spec(c),
                { is_digit(c) }),
            Ghost(|c: char| is_digit_spec(c)),
        );
        proof {
            assert(run_len(rest0, |c: char| is_digit_spec(c)) == 1 + run_len(
                rest0.drop_first(),
                |c: char| is_digit_spec(c),
            ));
            assert(rest0.drop_first() =~= rest0.skip(1));
        }
        let ghost d1 = 1 + run_len(rest0.skip(1), |c: char| is_digit_spec(c)) as int;
        proof {
            assert(self.idx == old(self).idx + d1);
            assert(self.rest() =~= rest0.skip(d1));
            lemma_run_len_le(rest0, |c: char| is_digit_spec(c));
        }
        if self.peek_fst() == '.' && is_digit(self.peek_snd()) {
            proof {
                assert(rest0[d1] == '.' && d1 < rest0.len());
                assert(rest0[d1 + 1] == self.chars@[self.idx + 1]);
            }
            self.eat();
            proof {
                assert(self.rest() =~= rest0.skip(d1 + 1));
            }
            self.eat_while(
                (|c: char| -> (b: bool)
                    ensures
                        b == is_digit_spec(c),
                    { is_digit(c) }),
                Ghost(|c: char| is_digit_spec(c)),
            );
            TokenKind::Lit(LitKind::Float)
        } else {
            proof {
                if d1 < rest0.len() && rest0[d1] == '.' && d1 + 1 < rest0.len() && is_digit_spec(
                    rest0[d1 + 1],
                ) {
                    assert(self.rest()[0] == '.');
                    assert(self.rest()[1] == rest0[d1 + 1]);
                    assert(false);
                }
            }
            TokenKind::Lit(LitKind::Int)
        }
    }

    /// Consumes a string literal after its opening quote. An unescaped
    /// quote closes it; a raw line break or the end of input leaves it
    /// unterminated.
    fn lex_string(&mut self) -> (k: TokenKind)
        requires
            old(self).wf(),
            old(self).rest().len() >= 1,
            old(self).rest()[0] == '"',
        ensures
            final(self).wf(),
            scan_from(*old(self), *final(self)),
            final(self).idx == old(self).idx + 1 + string_rest(old(self).rest().skip(1)).0,
            k == TokenKind::Lit(
                LitKind::Str { terminated: string_rest(old(self).rest().skip(1)).1 },
            ),
    {
        self.eat();
        let ghost rest1 = self.rest();
        let ghost idx1 = self.idx as int;
        proof {
            assert(rest1 =~= old(self).rest().skip(1));
        }
        let mut terminated = false;
        loop
            invariant_except_break
                !terminated,
                string_rest(rest1).0 == (self.idx - idx1) + string_rest(self.rest()).0,
                string_rest(rest1).1 == string_rest(self.rest()).1,
            invariant
                self.wf(),
                scan_from(*old(self), *self),
                idx1 <= self.idx,
                rest1 == self.chars@.skip(idx1),
            ensures
                self.wf(),
                scan_from(*old(self), *self),
                self.idx == idx1 + string_rest(rest1).0,
                terminated == string_rest(rest1).1,
            decreases self.chars@.len() - self.idx,
        {
            if self.is_eof() {
                proof {
                    assert(self.rest().len() == 0);
                    assert(string_rest(self.rest()).0 == 0);
                    assert(!string_rest(self.rest()).1);
                }
                break ;
            }
            let ghost pre = self.rest();
            let c = self.peek_fst();
            proof {
                assert(pre.len() >= 1 && pre[0] == c);
            }
            if c == '"' {
                self.eat();
                proof {
                    assert(string_rest(pre).0 == 1 && string_rest(pre).1);
                }
                terminated = true;
                break ;
            }
            if c == '\n' || c == '\r' {
                proof {
                    assert(string_rest(pre).0 == 0);
                    assert(!string_rest(pre).1);
                }
                break ;
            }
            if c == '\\' {
                let c1 = self.peek_snd();
                if c1 == 'n' || c1 == 'r' || c1 == 't' || c1 == '\\' || c1 == '"' {
                    proof {
                        assert(pre.len() >= 2 && pre[1] == c1 && is_escape_char(pre[1]));
                        assert(pre.skip(2) =~= self.chars@.skip(self.idx + 2));
                    }
                    self.eat();
                    self.eat();
                    proof {
                        assert(string_rest(pre).0 == 2 + string_rest(pre.skip(2)).0);
                        assert(string_rest(pre).1 == string_rest(pre.skip(2)).1);
                    }
                } else if c1 == '\n' || c1 == '\r' {
                    let ghost sidx = self.idx as int;
                    proof {
                        assert(pre.len() >= 2 && pre[1] == c1);
                    }
                    self.eat();
                    let cb = self.eat();
                    if cb == '\r' && self.peek_fst() == '\n' {
                        self.eat();
                        proof {
                            assert(pre.len() >= 3 && pre[2] == '\n');
                        }
                    } else {
                        proof {
                            if pre[1] == '\r' && pre.len() >= 3 && pre[2] == '\n' {
                                assert(self.rest()[0] == '\n');
                                assert(false);
                            }
                        }
                    }
                    let ghost brk: int = if pre[1] == '\r' && pre.len() >= 3 && pre[2] == '\n' {
                        2int
                    } else {
                        1int
                    };
                    proof {
                        assert(self.idx == sidx + 1 + brk);
                        assert(self.rest() =~= pre.skip(1 + brk));
                    }
                    self.eat_while(
                        (|ch: char| -> (b: bool)
                            ensures
                                b == is_inline_space_spec(ch),
                            { is_inline_space(ch) }),
                        Ghost(|c: char| is_inline_space_spec(c)),
                    );
                    let ghost j = 1 + brk + run_len(
                        pre.skip(1 + brk),
                        |c: char| is_inline_space_spec(c),
                    );
                    proof {
                        lemma_run_len_le(pre.skip(1 + brk), |c: char| is_inline_space_spec(c));
                        assert(self.idx == sidx + j);
                        assert(self.rest() =~= pre.skip(j));
                    }
                    if !self.is_eof() && self.peek_fst() == '\\' {
                        proof {
                            assert(j < pre.len() && pre[j] == '\\');
                            assert(pre.skip(j + 1) =~= self.chars@.skip(self.idx + 1));
                        }
                        self.eat();
                        proof {
                            assert(string_rest(pre).0 == j + 1 + string_rest(pre.skip(j + 1)).0);
                            assert(string_rest(pre).1 == string_rest(pre.skip(j + 1)).1);
                        }
                    } else {
                        proof {
                            if j < pre.len() && pre[j] == '\\' {
                                assert(self.rest()[0] == '\\');
                                assert(false);
                            }
                            assert(string_rest(pre).0 == j);
                            assert(!string_rest(pre).1);
                        }
                        break ;
                    }
                } else {
                    proof {
                        if pre.len() >= 2 {
                            assert(pre[1] == c1);
                        }
                        assert(pre.skip(1) =~= self.chars@.skip(self.idx + 1));
                    }
                    self.eat();
                    proof {
                        assert(string_rest(pre).0 == 1 + string_rest(pre.skip(1)).0);
                        assert(string_rest(pre).1 == string_rest(pre.skip(1)).1);
                    }
                }
            } else {
                proof {
                    assert(pre.skip(1) =~= self.chars@.skip(self.idx + 1));
                }
                self.eat();
                proof {
                    assert(string_rest(pre).0 == 1 + string_rest(pre.skip(1)).0);
                    assert(string_rest(pre).1 == string_rest(pre.skip(1)).1);
                }
            }
        }
        TokenKind::Lit(LitKind::Str { terminated })
    }
}

} // verus!

// The top-level dispatch and the tokenizer.
verus! {

impl SourceIter {
    /// Consumes and returns the next token of a non-empty input: exactly
    /// the token that [`spec_next_token`] gives for the remaining text,
    /// with the span of the bytes it covers.
    pub fn lex_token(&mut self) -> (t: Token)
        requires
            old(self).wf(),
            old(self).aligned(),
            old(self).idx < old(self).chars@.len(),
        ensures
            final(self).wf(),
            final(self).aligned(),
            final(self).chars == old(self).chars,
            final(self).base == old(self).base,
            ({
                let kn = spec_next_token(old(self).rest());
                let w = byte_len(old(self).rest().take(kn.1)) as int;
                &&& final(self).idx == old(self).idx + kn.1
                &&& final(self).pos == old(self).pos + w
                &&& t == (Token {
                    kind: kn.0,
                    span: span_at(old(self).pos as int, old(self).pos + w),
                })
            }),
    {
        let ghost rest0 = self.rest();
        let c = self.peek_fst();
        proof {
            assert(rest0.len() >= 1 && rest0[0] == c);
        }
        let kind = if c == '/' {
            let c1 = self.peek_snd();
            if c1 == '/' {
                proof {
                    assert(rest0.len() >= 2 && rest0[1] == '/');
                }
                self.lex_line_comment()
            } else if c1 == '-' {
                proof {
                    assert(rest0.len() >= 2 && rest0[1] == '-');
                }
                self.lex_block_comment()
            } else {
                proof {
                    if rest0.len() >= 2 {
                        assert(rest0[1] == c1);
                    }
                }
                self.lex_operator()
            }
        } else if is_operator_part(c) {
            self.lex_operator()
        } else if is_inline_space(c) {
            self.lex_inline_spaces()
        } else if is_line_break(c) {
            self.lex_end_of_line()
        } else if is_ident_head(c) {
            self.lex_ident()
        } else if is_digit(c) {
            self.lex_number()
        } else if c == '"' {
            self.lex_string()
        } else if c == ';' {
            self.eat();
            TokenKind::Semi
        } else if c == '(' {
            self.eat();
            TokenKind::LParen
        } else if c == ')' {
            self.eat();
            TokenKind::RParen
        } else {
            self.eat();
            TokenKind::Invalid
        };
        proof {
            let kn = spec_next_token(rest0);
            assert(self.idx == old(self).idx + kn.1 && kind == kn.0);
            lemma_byte_len_split(self.chars@, old(self).idx as int, self.idx as int);
            assert(self.chars@.subrange(old(self).idx as int, self.idx as int) =~= rest0.take(
                kn.1,
            ));
        }
        let span = self.consume_span();
        Token::new(kind, span)
    }
}

/// Produces the tokens of the input text, whose first byte sits at the
/// given global position: exactly the stream that [`spec_lex`] gives.
/// Concatenating the spans of the result covers the input bytes with no
/// gap and no overlap, trivia included.
pub fn tokenize(input: &str, start_pos: Pos) -> (tokens: Vec<Token>)
    requires
        start_pos.index + byte_len(input@) <= usize::MAX,
    ensures
        tokens@ == spec_lex(input@, start_pos.index as int),
{
    let mut iter = SourceIter::new(input, start_pos);
    let mut tokens: Vec<Token> = Vec::new();
    proof {
        assert(iter.rest() =~= input@);
        assert(tokens@ + spec_lex(iter.rest(), iter.pos as int) =~= spec_lex(
            input@,
            start_pos.index as int,
        ));
    }
    while !iter.is_eof()
        invariant
            iter.wf(),
            iter.aligned(),
            spec_lex(input@, start_pos.index as int) == tokens@ + spec_lex(
                iter.rest(),
                iter.pos as int,
            ),
        decreases iter.chars@.len() - iter.idx,
    {
        let ghost rest0 = iter.rest();
        let ghost pos0 = iter.pos as int;
        let ghost toks0 = tokens@;
        let t = iter.lex_token();
        tokens.push(t);
        proof {
            lemma_next_token_len(rest0);
            let kn = spec_next_token(rest0);
            assert(iter.rest() =~= rest0.skip(kn.1));
            assert(spec_lex(rest0, pos0) == seq![t] + spec_lex(iter.rest(), iter.pos as int));
            assert(toks0 + spec_lex(rest0, pos0) =~= tokens@ + spec_lex(
                iter.rest(),
                iter.pos as int,
            ));
        }
    }
    proof {
        assert(spec_lex(iter.rest(), iter.pos as int) =~= Seq::<Token>::empty());
        assert(tokens@ + Seq::<Token>::empty() =~= tokens@);
    }
    tokens
}

} // verus!

// The laws of the token stream: its spans chain gap-free across the input,
// and the text they cover reassembles the input exactly.
verus! {

/// The spans of the tokens run from byte position `lo` to `hi` without a
/// gap: each token starts where its predecessor ended.
pub open spec fn spans_chain(tokens: Seq<Token>, lo: int, hi: int) -> bool
    decreases tokens.len(),
{
    if tokens.len() == 0 {
        lo == hi
    } else {
        &&& tokens[0].span.start.index == lo
        &&& lo <= tokens[0].span.end.index <= hi
        &&& spans_chain(tokens.drop_first(), tokens[0].span.end.index as int, hi)
    }
}

/// The token stream of a text chains over exactly the byte interval the
/// text occupies.
pub proof fn lemma_spec_lex_chain(s: Seq<char>, pos: int)
    requires
        0 <= pos,
        pos + byte_len(s) <= usize::MAX,
    ensures
        spans_chain(spec_lex(s, pos), pos, pos + byte_len(s)),
    decreases s.len(),
{
    if s.len() > 0 {
        lemma_next_token_len(s);
        let kn = spec_next_token(s);
        let n = kn.1;
        let w = byte_len(s.take(n)) as int;
        lemma_byte_len_split(s, n, s.len() as int);
        assert(s.take(s.len() as int) =~= s);
        assert(s.subrange(n, s.len() as int) =~= s.skip(n));
        lemma_spec_lex_chain(s.skip(n), pos + w);
        assert((seq![
            Token { kind: kn.0, span: span_at(pos, pos + w) },
        ] + spec_lex(s.skip(n), pos + w)).drop_first() =~= spec_lex(s.skip(n), pos + w));
    }
}

/// What a chain gives of each token: well-formed spans, adjacency, and the
/// end points.
pub proof fn lemma_chain_adjacent(tokens: Seq<Token>, lo: int, hi: int)
    requires
        spans_chain(tokens, lo, hi),
    ensures
        forall|i: int|
            0 <= i < tokens.len() - 1 ==> #[trigger] tokens[i].span.end == tokens[i
                + 1].span.start,
        forall|i: int| 0 <= i < tokens.len() ==> (#[trigger] tokens[i].span).wf(),
        tokens.len() > 0 ==> tokens[0].span.start.index == lo && tokens[tokens.len()
            - 1].span.end.index == hi,
    decreases tokens.len(),
{
    if tokens.len() > 0 {
        let rest = tokens.drop_first();
        lemma_chain_adjacent(rest, tokens[0].span.end.index as int, hi);
        assert forall|i: int|
            0 <= i < tokens.len() - 1 implies #[trigger] tokens[i].span.end == tokens[i
            + 1].span.start by {
            if i == 0 {
                assert(rest[0] == tokens[1]);
                assert(tokens[1].span.start.index == tokens[0].span.end.index);
            } else {
                assert(rest[i - 1] == tokens[i] && rest[i] == tokens[i + 1]);
            }
        }
        assert forall|i: int| 0 <= i < tokens.len() implies (#[trigger] tokens[i].span).wf() by {
            if i > 0 {
                assert(rest[i - 1] == tokens[i]);
            }
        }
        if tokens.len() > 1 {
            assert(rest[rest.len() - 1] == tokens[tokens.len() - 1]);
        } else {
            assert(rest.len() == 0 && spans_chain(rest, tokens[0].span.end.index as int, hi));
            assert(tokens[0].span.end.index == hi);
        }
    }
}

/// Span contiguity: in the token stream of a text, each token's span ends
/// exactly where the next one's starts.
pub proof fn lemma_span_contiguity(s: Seq<char>, pos: int)
    requires
        0 <= pos,
        pos + byte_len(s) <= usize::MAX,
    ensures
        forall|i: int|
            0 <= i < spec_lex(s, pos).len() - 1 ==> #[trigger] spec_lex(s, pos)[i].span.end
                == spec_lex(s, pos)[i + 1].span.start,
{
    lemma_spec_lex_chain(s, pos);
    lemma_chain_adjacent(spec_lex(s, pos), pos, pos + byte_len(s));
}

/// The characters a token's span covers, within a text whose first byte
/// sits at global position `base`.
pub open spec fn token_text(s: Seq<char>, base: int, t: Token) -> Seq<char> {
    byte_sub(s, t.span.start.index - base, t.span.end.index - base)
}

/// The concatenation, in order, of the text covered by each token.
pub open spec fn concat_token_texts(s: Seq<char>, base: int, tokens: Seq<Token>) -> Seq<char>
    decreases tokens.len(),
{
    if tokens.len() == 0 {
        Seq::empty()
    } else {
        token_text(s, base, tokens[0]) + concat_token_texts(s, base, tokens.drop_first())
    }
}

/// A chained token sequence covers exactly the characters between its end
/// points.
proof fn lemma_concat_chain(s: Seq<char>, base: int, tokens: Seq<Token>, lo: int, hi: int)
    requires
        spans_chain(tokens, lo, hi),
        0 <= base <= lo,
    ensures
        concat_token_texts(s, base, tokens) == s.subrange(cut(s, lo - base), cut(s, hi - base)),
    decreases tokens.len(),
{
    if tokens.len() == 0 {
        lemma_cut_bounds(s, lo - base);
        assert(s.subrange(cut(s, lo - base), cut(s, lo - base)) =~= Seq::<char>::empty());
    } else {
        let mid = tokens[0].span.end.index as int;
        lemma_concat_chain(s, base, tokens.drop_first(), mid, hi);
        lemma_cut_mono(s, lo - base, mid - base);
        lemma_cut_mono(s, mid - base, hi - base);
        lemma_cut_bounds(s, lo - base);
        lemma_cut_bounds(s, mid - base);
        lemma_cut_bounds(s, hi - base);
        assert(s.subrange(cut(s, lo - base), cut(s, mid - base)) + s.subrange(
            cut(s, mid - base),
            cut(s, hi - base),
        ) =~= s.subrange(cut(s, lo - base), cut(s, hi - base)));
    }
}

/// Total coverage: concatenating the pieces of text covered by the spans
/// of the token stream, in order, reproduces the input text exactly,
/// trivia included.
pub proof fn lemma_total_coverage(s: Seq<char>, pos: int)
    requires
        0 <= pos,
        pos + byte_len(s) <= usize::MAX,
    ensures
        concat_token_texts(s, pos, spec_lex(s, pos)) == s,
{
    lemma_spec_lex_chain(s, pos);
    lemma_concat_chain(s, pos, spec_lex(s, pos), pos, pos + byte_len(s));
    assert(cut(s, 0) == 0);
    lemma_cut_take(s, s.len() as int);
    assert(s.take(s.len() as int) =~= s);
    assert(s.subrange(0, s.len() as int) =~= s);
}

} // verus!

