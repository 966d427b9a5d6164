//! The spec-level model of source text.
//!
//! Text is modelled as a `Seq<char>`; positions and spans measure UTF-8
//! bytes, not characters. This module defines the byte length of a character
//! sequence, the conversion from a byte offset back to a character index
//! (`cut`), the display width of a sequence, and the lemmas that connect
//! them.

use vstd::prelude::*;
use vstd::string::StrSliceExecFns;

use crate::char_spec::{display_width_spec, utf8_len_spec};

verus! {

/// The number of bytes in the UTF-8 encoding of the character sequence.
pub open spec fn byte_len(s: Seq<char>) -> nat
    decreases s.len(),
{
    if s.len() == 0 {
        0
    } else {
        utf8_len_spec(s[0]) + byte_len(s.drop_first())
    }
}

/// The number of terminal columns taken by the character sequence, a tab
/// counted as four columns.
pub open spec fn width_of(s: Seq<char>) -> nat
    decreases s.len(),
{
    if s.len() == 0 {
        0
    } else {
        display_width_spec(s[0]) + width_of(s.drop_first())
    }
}

/// The index of the character containing byte offset `b`, or `s.len()` when
/// `b` is at or past the end of the encoding. A byte offset inside a
/// multi-byte character maps to that character's index.
pub open spec fn cut(s: Seq<char>, b: int) -> int
    decreases s.len(),
{
    if s.len() == 0 || b < utf8_len_spec(s[0]) {
        0
    } else {
        1 + cut(s.drop_first(), b - utf8_len_spec(s[0]))
    }
}

/// Byte offset `b` falls on a character boundary of `s` (including 0 and the
/// total byte length).
pub open spec fn is_boundary(s: Seq<char>, b: int) -> bool {
    exists|i: int| 0 <= i <= s.len() && byte_len(s.take(i)) == b
}

/// The characters of `s` between byte offsets `b1` and `b2`.
pub open spec fn byte_sub(s: Seq<char>, b1: int, b2: int) -> Seq<char> {
    s.subrange(cut(s, b1), cut(s, b2))
}

/// The length of the longest prefix of `s` whose characters all satisfy `p`.
pub open spec fn run_len(s: Seq<char>, p: spec_fn(char) -> bool) -> nat
    decreases s.len(),
{
    if s.len() == 0 || !p(s[0]) {
        0
    } else {
        1 + run_len(s.drop_first(), p)
    }
}

/// A run is no longer than the sequence.
pub proof fn lemma_run_len_le(s: Seq<char>, p: spec_fn(char) -> bool)
    ensures
        run_len(s, p) <= s.len(),
    decreases s.len(),
{
    if !(s.len() == 0 || !p(s[0])) {
        lemma_run_len_le(s.drop_first(), p);
    }
}

/// A character sequence is at most four bytes per character, and at least
/// one.
pub proof fn lemma_byte_len_bounds(s: Seq<char>)
    ensures
        s.len() <= byte_len(s) <= 4 * s.len(),
    decreases s.len(),
{
    if s.len() > 0 {
        lemma_byte_len_bounds(s.drop_first());
    }
}

/// Byte length distributes over concatenation.
pub proof fn lemma_byte_len_add(a: Seq<char>, b: Seq<char>)
    ensures
        byte_len(a + b) == byte_len(a) + byte_len(b),
    decreases a.len(),
{
    if a.len() == 0 {
        assert(a + b =~= b);
    } else {
        assert((a + b).drop_first() =~= a.drop_first() + b);
        lemma_byte_len_add(a.drop_first(), b);
    }
}

/// Extending a prefix by one character adds that character's byte width.
pub proof fn lemma_byte_len_take_succ(s: Seq<char>, i: int)
    requires
        0 <= i < s.len(),
    ensures
        byte_len(s.take(i + 1)) == byte_len(s.take(i)) + utf8_len_spec(s[i]),
{
    assert(s.take(i + 1) =~= s.take(i) + seq![s[i]]);
    lemma_byte_len_add(s.take(i), seq![s[i]]);
    assert(byte_len(seq![s[i]]) == utf8_len_spec(s[i]) + byte_len(seq![s[i]].drop_first()));
    assert(seq![s[i]].drop_first() =~= Seq::<char>::empty());
}

/// The bytes of a middle piece: the byte length of `s.take(j)` splits at `i`.
pub proof fn lemma_byte_len_split(s: Seq<char>, i: int, j: int)
    requires
        0 <= i <= j <= s.len(),
    ensures
        byte_len(s.take(j)) == byte_len(s.take(i)) + byte_len(s.subrange(i, j)),
{
    assert(s.take(j) =~= s.take(i) + s.subrange(i, j));
    lemma_byte_len_add(s.take(i), s.subrange(i, j));
}

/// Byte offsets of prefixes grow with the prefix.
pub proof fn lemma_byte_len_take_mono(s: Seq<char>, i: int, j: int)
    requires
        0 <= i <= j <= s.len(),
    ensures
        byte_len(s.take(i)) + (j - i) <= byte_len(s.take(j)),
{
    lemma_byte_len_split(s, i, j);
    lemma_byte_len_bounds(s.subrange(i, j));
}

/// A prefix never has more bytes than the whole.
pub proof fn lemma_byte_len_take_le(s: Seq<char>, i: int)
    requires
        0 <= i <= s.len(),
    ensures
        byte_len(s.take(i)) <= byte_len(s),
{
    lemma_byte_len_split(s, i, s.len() as int);
    assert(s.take(s.len() as int) =~= s);
}

/// Width distributes over concatenation.
pub proof fn lemma_width_add(a: Seq<char>, b: Seq<char>)
    ensures
        width_of(a + b) == width_of(a) + width_of(b),
    decreases a.len(),
{
    if a.len() == 0 {
        assert(a + b =~= b);
    } else {
        assert((a + b).drop_first() =~= a.drop_first() + b);
        lemma_width_add(a.drop_first(), b);
    }
}

/// `cut` stays within the sequence.
pub proof fn lemma_cut_bounds(s: Seq<char>, b: int)
    ensures
        0 <= cut(s, b) <= s.len(),
    decreases s.len(),
{
    if !(s.len() == 0 || b < utf8_len_spec(s[0])) {
        lemma_cut_bounds(s.drop_first(), b - utf8_len_spec(s[0]));
    }
}

/// `cut` is monotone in the byte offset.
pub proof fn lemma_cut_mono(s: Seq<char>, b1: int, b2: int)
    requires
        b1 <= b2,
    ensures
        cut(s, b1) <= cut(s, b2),
    decreases s.len(),
{
    if !(s.len() == 0 || b1 < utf8_len_spec(s[0])) {
        lemma_cut_mono(s.drop_first(), b1 - utf8_len_spec(s[0]), b2 - utf8_len_spec(s[0]));
    } else {
        lemma_cut_bounds(s, b2);
    }
}

/// Returns the number of bytes in the UTF-8 encoding of the string.
///
/// Relies on `str::len`, which returns the length of the string in bytes; a
/// string held in memory always fits in a `usize`.
#[verifier::external_body]
pub fn byte_len_exec(s: &str) -> (n: usize)
    ensures
        n == byte_len(s@),
{
    s.len()
}

/// Returns the characters of the string as a vector.
pub fn chars_of(s: &str) -> (r: Vec<char>)
    ensures
        r@ == s@,
{
    let n = s.unicode_len();
    let mut r: Vec<char> = Vec::new();
    let mut i: usize = 0;
    while i < n
        invariant
            i <= n,
            n == s@.len(),
            r@ == s@.take(i as int),
        decreases n - i,
    {
        let c = s.get_char(i);
        r.push(c);
        i = i + 1;
        proof {
            assert(r@ =~= s@.take(i as int));
        }
    }
    proof {
        assert(r@ =~= s@);
    }
    r
}

/// At the byte offset of a character boundary, `cut` recovers the character
/// index.
pub proof fn lemma_cut_take(s: Seq<char>, i: int)
    requires
        0 <= i <= s.len(),
    ensures
        cut(s, byte_len(s.take(i)) as int) == i,
    decreases i,
{
    if i == 0 {
        assert(s.take(0) =~= Seq::<char>::empty());
    } else {
        assert(s.len() > 0);
        assert(s.take(i)[0] == s[0]);
        assert(byte_len(s.take(i)) == utf8_len_spec(s[0]) + byte_len(s.take(i).drop_first()));
        assert(s.take(i).drop_first() =~= s.drop_first().take(i - 1));
        lemma_byte_len_bounds(s.drop_first().take(i - 1));
        assert(byte_len(s.take(i)) >= utf8_len_spec(s[0]));
        lemma_cut_take(s.drop_first(), i - 1);
    }
}

/// At a character boundary, `cut` names a prefix with exactly that byte
/// length.
pub proof fn lemma_cut_boundary(s: Seq<char>, b: int)
    requires
        is_boundary(s, b),
    ensures
        0 <= cut(s, b) <= s.len(),
        byte_len(s.take(cut(s, b))) == b,
{
    let i = choose|i: int| 0 <= i <= s.len() && byte_len(s.take(i)) == b;
    lemma_cut_take(s, i);
    lemma_cut_bounds(s, b);
}

/// A boundary of the tail is a boundary of the whole, shifted by the first
/// character's width.
pub proof fn lemma_boundary_shift(s: Seq<char>, b: int)
    requires
        s.len() > 0,
        is_boundary(s.skip(1), b),
    ensures
        is_boundary(s, b + utf8_len_spec(s[0])),
{
    let i = choose|i: int| 0 <= i <= s.skip(1).len() && byte_len(s.skip(1).take(i)) == b;
    assert(s.take(i + 1)[0] == s[0]);
    assert(s.take(i + 1).drop_first() =~= s.skip(1).take(i));
    assert(byte_len(s.take(i + 1)) == utf8_len_spec(s[0]) + b);
}

/// Returns the index of the character that starts at byte offset `b` of
/// the string (or the character count, when `b` is the total byte length).
pub fn byte_to_char_index(s: &str, b: usize) -> (r: usize)
    requires
        is_boundary(s@, b as int),
    ensures
        r == cut(s@, b as int),
{
    proof {
        lemma_cut_boundary(s@, b as int);
    }
    let ghost c = cut(s@, b as int);
    let n = s.unicode_len();
    let mut i: usize = 0;
    let mut acc: usize = 0;
    while acc < b
        invariant
            0 <= i <= c <= n,
            n == s@.len(),
            acc == byte_len(s@.take(i as int)),
            acc <= b,
            b == byte_len(s@.take(c)),
            c == cut(s@, b as int),
        decreases b - acc,
    {
        proof {
            if i as int == c {
                assert(false);
            }
            lemma_byte_len_take_succ(s@, i as int);
            lemma_byte_len_take_mono(s@, i + 1, c);
        }
        let ch = s.get_char(i);
        acc = acc + crate::char_spec::utf8_len(ch);
        i = i + 1;
    }
    proof {
        lemma_cut_take(s@, i as int);
    }
    i
}

} // verus!
