//! A source file: its text, its slice of the global position space, and
//! the derived indices (line starts, multi-byte characters, non-narrow
//! characters) that line/column lookups use.

use vstd::prelude::*;
use vstd::string::StrSliceExecFns;
use vstd::string::StringExecFns;

use crate::char_spec::{display_width, display_width_spec, utf8_len, utf8_len_spec};
use crate::pos::Pos;
use crate::span::{span_at, Span};
use crate::text::{
    byte_len, chars_of, cut, is_boundary, lemma_boundary_shift, lemma_byte_len_bounds,
    lemma_byte_len_split, lemma_byte_len_take_le, lemma_byte_len_take_succ, width_of,
};

verus! {

/// A path identifying a source file. The file may be virtual; nothing is
/// checked against a filesystem here.
#[derive(Clone, Debug, Hash)]
pub enum FilePath {
    /// The canonical path of a local file.
    LocalFile(String),
    /// A named buffer with no backing file, for tests and generated input.
    Virtual(String),
    /// A buffer that originated from an interactive session.
    Repl(String),
}

/// Two paths identify the same file: same variant, same spelling.
pub open spec fn file_path_eq(a: FilePath, b: FilePath) -> bool {
    match (a, b) {
        (FilePath::LocalFile(x), FilePath::LocalFile(y)) => x@ == y@,
        (FilePath::Virtual(x), FilePath::Virtual(y)) => x@ == y@,
        (FilePath::Repl(x), FilePath::Repl(y)) => x@ == y@,
        _ => false,
    }
}

impl PartialEq for FilePath {
    fn eq(&self, other: &FilePath) -> (r: bool) {
        match (self, other) {
            (FilePath::LocalFile(x), FilePath::LocalFile(y)) => x.eq(y),
            (FilePath::Virtual(x), FilePath::Virtual(y)) => x.eq(y),
            (FilePath::Repl(x), FilePath::Repl(y)) => x.eq(y),
            _ => false,
        }
    }
}

impl vstd::std_specs::cmp::PartialEqSpecImpl for FilePath {
    open spec fn obeys_eq_spec() -> bool {
        true
    }

    open spec fn eq_spec(&self, other: &FilePath) -> bool {
        file_path_eq(*self, *other)
    }
}

impl Eq for FilePath {

}

/// A path that carries the Windows verbatim-disk prefix `\\?\C:`.
pub open spec fn is_verbatim_disk(s: Seq<char>) -> bool {
    s.len() >= 6 && s[0] == '\\' && s[1] == '\\' && s[2] == '?' && s[3] == '\\' && (('a' <= s[4]
        && s[4] <= 'z') || ('A' <= s[4] && s[4] <= 'Z')) && s[5] == ':'
}

/// The user-facing spelling of a path: a verbatim-disk prefix is dropped
/// from a local path, a virtual or interactive name stands as it is.
pub open spec fn linkify_spec(p: FilePath) -> Seq<char> {
    match p {
        FilePath::LocalFile(path) => if is_verbatim_disk(path@) {
            path@.skip(4)
        } else {
            path@
        },
        FilePath::Virtual(name) => name@,
        FilePath::Repl(name) => name@,
    }
}

impl FilePath {
    /// Returns a path string usable directly in most places: in terminals,
    /// as a command line argument, or linkified by an editor. A canonical
    /// Windows path may carry a verbatim prefix (`\\?\C:\...`) that most
    /// programs do not accept; it is removed here.
    pub fn linkify(&self) -> (r: String)
        ensures
            r@ == linkify_spec(*self),
    {
        match self {
            FilePath::LocalFile(path) => {
                let n = path.as_str().unicode_len();
                if n >= 6 && path.as_str().get_char(0) == '\\' && path.as_str().get_char(1)
                    == '\\' && path.as_str().get_char(2) == '?' && path.as_str().get_char(3)
                    == '\\' && path.as_str().get_char(5) == ':' && {
                    let d = path.as_str().get_char(4);
                    ('a' <= d && d <= 'z') || ('A' <= d && d <= 'Z')
                } {
                    let stripped = path.as_str().substring_char(4, n);
                    proof {
                        assert(stripped@ =~= path@.skip(4));
                    }
                    stripped.to_owned()
                } else {
                    path.clone()
                }
            },
            FilePath::Virtual(name) => name.clone(),
            FilePath::Repl(name) => name.clone(),
        }
    }

    /// Returns the linkified path wrapped in double quotes.
    pub fn linkify_with_quotes(&self) -> (r: String)
        ensures
            r@ == "\""@ + linkify_spec(*self) + "\""@,
    {
        let mut r = String::new();
        r.append("\"");
        let body = self.linkify();
        r.append(body.as_str());
        r.append("\"");
        proof {
            assert(r@ =~= "\""@ + linkify_spec(*self) + "\""@);
        }
        r
    }
}

/// A multi-byte character of the source: its global position and the
/// number of bytes (2 to 4) of its UTF-8 encoding.
#[derive(Clone, Copy, Debug, PartialEq, Eq, Structural)]
pub struct MultiByteChar {
    /// The global byte position of the character.
    pub pos: Pos,
    /// The number of bytes in the UTF-8 encoding, 2 to 4.
    pub len: u8,
}

impl MultiByteChar {
    /// Creates a record from a position and an encoded length.
    #[inline]
    pub fn new(pos: Pos, len: u8) -> (r: MultiByteChar)
        ensures
            r == (MultiByteChar { pos, len }),
    {
        MultiByteChar { pos, len }
    }

    /// Returns the UTF-8 length of this character.
    #[inline]
    pub fn len(&self) -> (l: u8)
        ensures
            l == self.len,
    {
        self.len
    }

    /// Returns the position of this character.
    #[inline]
    pub fn pos(&self) -> (p: Pos)
        ensures
            p == self.pos,
    {
        self.pos
    }
}

/// How a non-narrow character displays in a terminal.
#[derive(Clone, Copy, Debug, PartialEq, Eq, Structural)]
pub enum NonNarrowCharKind {
    /// A zero-width character.
    ZeroWidth,
    /// A full-width character.
    Wide,
    /// A tab, treated as four spaces.
    Tab,
}

/// A character of the source whose terminal display width is not one
/// column.
#[derive(Clone, Copy, Debug, PartialEq, Eq, Structural)]
pub struct NonNarrowChar {
    /// The global byte position of the character.
    pub pos: Pos,
    /// How the character displays.
    pub kind: NonNarrowCharKind,
}

/// The record kind of a display width: 0 is zero-width, 2 is wide, and
/// anything else is a tab.
pub open spec fn width_kind(width: int) -> NonNarrowCharKind {
    if width == 0 {
        NonNarrowCharKind::ZeroWidth
    } else if width == 2 {
        NonNarrowCharKind::Wide
    } else {
        NonNarrowCharKind::Tab
    }
}

impl NonNarrowChar {
    /// Creates a record from a position and a display width.
    pub fn new(pos: Pos, width: usize) -> (r: NonNarrowChar)
        ensures
            r == (NonNarrowChar { pos, kind: width_kind(width as int) }),
    {
        let kind = if width == 0 {
            NonNarrowCharKind::ZeroWidth
        } else if width == 2 {
            NonNarrowCharKind::Wide
        } else {
            NonNarrowCharKind::Tab
        };
        NonNarrowChar { pos, kind }
    }

    /// Returns the position of this character.
    #[inline]
    pub fn pos(&self) -> (p: Pos)
        ensures
            p == self.pos,
    {
        self.pos
    }

    /// The display width of the recorded kind.
    pub open spec fn width_spec(&self) -> int {
        match self.kind {
            NonNarrowCharKind::ZeroWidth => 0,
            NonNarrowCharKind::Wide => 2,
            NonNarrowCharKind::Tab => 4,
        }
    }

    /// Returns the width of this character, 0, 2 or 4.
    pub fn width(&self) -> (w: usize)
        ensures
            w == self.width_spec(),
    {
        match self.kind {
            NonNarrowCharKind::ZeroWidth => 0,
            NonNarrowCharKind::Wide => 2,
            NonNarrowCharKind::Tab => 4,
        }
    }
}

/// The global byte positions following each line terminator of a text
/// whose first byte sits at `off`: the starts of every line but the first.
/// `\n`, `\r`, and `\r\n` each end a line, `\r\n` as one terminator.
pub open spec fn line_starts_from(s: Seq<char>, off: int) -> Seq<int>
    decreases s.len(),
{
    if s.len() == 0 {
        Seq::empty()
    } else if s[0] == '\r' && s.len() >= 2 && s[1] == '\n' {
        seq![off + 2] + line_starts_from(s.skip(2), off + 2)
    } else if s[0] == '\n' || s[0] == '\r' {
        seq![off + 1] + line_starts_from(s.skip(1), off + 1)
    } else {
        line_starts_from(s.skip(1), off + utf8_len_spec(s[0]))
    }
}

/// The line-start index of a text whose first byte sits at `start`: line 0
/// starts at `start`, and a line start follows every terminator. An empty
/// file has no lines.
pub open spec fn lines_spec(s: Seq<char>, start: int) -> Seq<int> {
    if s.len() == 0 {
        Seq::empty()
    } else {
        seq![start] + line_starts_from(s, start)
    }
}

/// The multi-byte character records of a text whose first byte sits at
/// `off`, in ascending position order.
pub open spec fn mbc_spec(s: Seq<char>, off: int) -> Seq<MultiByteChar>
    decreases s.len(),
{
    if s.len() == 0 {
        Seq::empty()
    } else {
        let l = utf8_len_spec(s[0]) as int;
        let rest = mbc_spec(s.skip(1), off + l);
        if l > 1 {
            seq![MultiByteChar { pos: Pos { index: off as usize }, len: l as u8 }] + rest
        } else {
            rest
        }
    }
}

/// The non-narrow character records of a text whose first byte sits at
/// `off`, in ascending position order.
pub open spec fn nnc_spec(s: Seq<char>, off: int) -> Seq<NonNarrowChar>
    decreases s.len(),
{
    if s.len() == 0 {
        Seq::empty()
    } else {
        let l = utf8_len_spec(s[0]) as int;
        let w = display_width_spec(s[0]) as int;
        let rest = nnc_spec(s.skip(1), off + l);
        if w != 1 {
            seq![NonNarrowChar { pos: Pos { index: off as usize }, kind: width_kind(w) }] + rest
        } else {
            rest
        }
    }
}

/// A source file: the text of one logical unit, its slice of the global
/// position space, and the indices derived from the text once at
/// construction.
pub struct SourceFile {
    /// The path identifying the file.
    pub path: FilePath,
    /// The source text.
    pub src: String,
    /// The first position of the file's slice of the position space.
    pub start_pos: Pos,
    /// One past the last byte: `start_pos` plus the byte length of `src`.
    pub end_pos: Pos,
    /// The start of each line, ascending; empty for an empty file.
    pub lines: Vec<Pos>,
    /// Every multi-byte character, ascending by position.
    pub multi_byte_chars: Vec<MultiByteChar>,
    /// Every character whose display width is not one column, ascending by
    /// position.
    pub non_narrow_chars: Vec<NonNarrowChar>,
}

impl SourceFile {
    /// The line starts as mathematical integers.
    pub open spec fn lines_int(self) -> Seq<int> {
        self.lines@.map_values(|p: Pos| p.index as int)
    }

    /// The stored indices are exactly what the text determines, and the
    /// file's interval fits the position space.
    pub open spec fn wf(self) -> bool {
        &&& self.start_pos.index + byte_len(self.src@) <= usize::MAX
        &&& self.end_pos.index == self.start_pos.index + byte_len(self.src@)
        &&& self.lines_int() == lines_spec(self.src@, self.start_pos.index as int)
        &&& self.multi_byte_chars@ == mbc_spec(self.src@, self.start_pos.index as int)
        &&& self.non_narrow_chars@ == nnc_spec(self.src@, self.start_pos.index as int)
    }

    /// Builds a source file from a path, its text, and the start of its
    /// slice of the position space: one scan of the text derives the line,
    /// multi-byte and display-width indices.
    pub fn new(path: FilePath, src: String, start_pos: Pos) -> (f: SourceFile)
        requires
            start_pos.index + byte_len(src@) <= usize::MAX,
        ensures
            f.wf(),
            f.path == path,
            f.src == src,
            f.start_pos == start_pos,
            f.end_pos.index == start_pos.index + byte_len(src@),
    {
        let chars = chars_of(src.as_str());
        let n = chars.len();
        let mut lines: Vec<Pos> = Vec::new();
        let mut mbcs: Vec<MultiByteChar> = Vec::new();
        let mut nncs: Vec<NonNarrowChar> = Vec::new();
        let mut i: usize = 0;
        let mut off: usize = start_pos.to_usize();
        let ghost s = src@;
        let ghost start = start_pos.index as int;
        if n > 0 {
            lines.push(start_pos);
        }
        proof {
            assert(s.take(0) =~= Seq::<char>::empty());
            assert(s.skip(0) =~= s);
            if n > 0 {
                assert(lines@.map_values(|p: Pos| p.index as int) =~= seq![start]);
                assert(lines_spec(s, start) =~= seq![start] + line_starts_from(s, start));
            }
        }
        while i < n
            invariant
                i <= n,
                n == chars@.len(),
                chars@ == s,
                start == start_pos.index,
                0 <= start,
                start + byte_len(s) <= usize::MAX,
                off == start + byte_len(s.take(i as int)),
                lines_spec(s, start) == lines@.map_values(|p: Pos| p.index as int)
                    + line_starts_from(s.skip(i as int), off as int),
                mbc_spec(s, start) == mbcs@ + mbc_spec(s.skip(i as int), off as int),
                nnc_spec(s, start) == nncs@ + nnc_spec(s.skip(i as int), off as int),
            decreases n - i,
        {
            let ghost i0 = i as int;
            let ghost off0 = off as int;
            let ghost rest = s.skip(i0);
            let ghost lm0 = lines@.map_values(|p: Pos| p.index as int);
            let c = chars[i];
            proof {
                assert(rest.len() >= 1 && rest[0] == c);
                lemma_byte_len_take_succ(s, i0);
                lemma_byte_len_take_le(s, i0 + 1);
                assert(rest.skip(1) =~= s.skip(i0 + 1));
            }
            if c == '\r' && i + 1 < n && chars[i + 1] == '\n' {
                proof {
                    assert(rest.len() >= 2 && rest[1] == '\n');
                    lemma_byte_len_take_succ(s, i0 + 1);
                    lemma_byte_len_take_le(s, i0 + 2);
                    assert(rest.skip(2) =~= s.skip(i0 + 2));
                    assert(line_starts_from(rest, off0) == seq![off0 + 2] + line_starts_from(
                        rest.skip(2),
                        off0 + 2,
                    ));
                    assert(rest.skip(1).skip(1) =~= rest.skip(2));
                    assert(rest.skip(1)[0] == '\n' && rest.skip(1).len() >= 1);
                    assert(mbc_spec(rest, off0) == mbc_spec(rest.skip(1), off0 + 1));
                    assert(mbc_spec(rest.skip(1), off0 + 1) == mbc_spec(rest.skip(2), off0 + 2));
                    assert(nnc_spec(rest, off0) == nnc_spec(rest.skip(1), off0 + 1));
                    assert(nnc_spec(rest.skip(1), off0 + 1) == nnc_spec(rest.skip(2), off0 + 2));
                }
                off = off + 2;
                i = i + 2;
                lines.push(Pos { index: off });
                proof {
                    assert(lines@.map_values(|p: Pos| p.index as int) =~= lm0 + seq![
                        off as int,
                    ]);
                    assert(lm0 + (seq![off as int] + line_starts_from(s.skip(i as int), off as int))
                        =~= (lm0 + seq![off as int]) + line_starts_from(
                        s.skip(i as int),
                        off as int,
                    ));
                }
            } else if c == '\n' || c == '\r' {
                proof {
                    if i0 + 1 < n {
                        assert(rest[1] == s[i0 + 1]);
                    }
                    assert(!(rest[0] == '\r' && rest.len() >= 2 && rest[1] == '\n'));
                    assert(line_starts_from(rest, off0) == seq![off0 + 1] + line_starts_from(
                        rest.skip(1),
                        off0 + 1,
                    ));
                    assert(mbc_spec(rest, off0) == mbc_spec(rest.skip(1), off0 + 1));
                    assert(nnc_spec(rest, off0) == nnc_spec(rest.skip(1), off0 + 1));
                }
                off = off + 1;
                i = i + 1;
                lines.push(Pos { index: off });
                proof {
                    assert(lines@.map_values(|p: Pos| p.index as int) =~= lm0 + seq![
                        off as int,
                    ]);
                    assert(lm0 + (seq![off as int] + line_starts_from(s.skip(i as int), off as int))
                        =~= (lm0 + seq![off as int]) + line_starts_from(
                        s.skip(i as int),
                        off as int,
                    ));
                }
            } else {
                proof {
                    if i0 + 1 < n {
                        assert(rest[1] == s[i0 + 1]);
                    }
                    assert(!(rest[0] == '\r' && rest.len() >= 2 && rest[1] == '\n'));
                    assert(!(rest[0] == '\n' || rest[0] == '\r'));
                    assert(line_starts_from(rest, off0) == line_starts_from(
                        rest.skip(1),
                        off0 + utf8_len_spec(c),
                    ));
                }
                let ghost m0 = mbcs@;
                let ghost w0 = nncs@;
                let l = utf8_len(c);
                if l > 1 {
                    mbcs.push(MultiByteChar::new(Pos { index: off }, l as u8));
                }
                let w = display_width(c);
                if w != 1 {
                    nncs.push(NonNarrowChar::new(Pos { index: off }, w));
                }
                proof {
                    let lint = utf8_len_spec(c) as int;
                    let wint = display_width_spec(c) as int;
                    if lint > 1 {
                        assert(mbc_spec(rest, off0) == seq![
                            MultiByteChar { pos: Pos { index: off0 as usize }, len: lint as u8 },
                        ] + mbc_spec(rest.skip(1), off0 + lint));
                        assert(mbcs@ =~= m0 + seq![
                            MultiByteChar { pos: Pos { index: off0 as usize }, len: lint as u8 },
                        ]);
                        assert(m0 + (seq![
                            MultiByteChar { pos: Pos { index: off0 as usize }, len: lint as u8 },
                        ] + mbc_spec(rest.skip(1), off0 + lint)) =~= mbcs@ + mbc_spec(
                            rest.skip(1),
                            off0 + lint,
                        ));
                    } else {
                        assert(mbc_spec(rest, off0) == mbc_spec(rest.skip(1), off0 + lint));
                    }
                    if wint != 1 {
                        assert(nnc_spec(rest, off0) == seq![
                            NonNarrowChar { pos: Pos { index: off0 as usize }, kind: width_kind(wint) },
                        ] + nnc_spec(rest.skip(1), off0 + lint));
                        assert(nncs@ =~= w0 + seq![
                            NonNarrowChar { pos: Pos { index: off0 as usize }, kind: width_kind(wint) },
                        ]);
                        assert(w0 + (seq![
                            NonNarrowChar { pos: Pos { index: off0 as usize }, kind: width_kind(wint) },
                        ] + nnc_spec(rest.skip(1), off0 + lint)) =~= nncs@ + nnc_spec(
                            rest.skip(1),
                            off0 + lint,
                        ));
                    } else {
                        assert(nnc_spec(rest, off0) == nnc_spec(rest.skip(1), off0 + lint));
                    }
                }
                off = off + l;
                i = i + 1;
            }
        }
        proof {
            assert(s.take(n as int) =~= s);
            assert(s.skip(n as int) =~= Seq::<char>::empty());
            assert(lines_spec(s, start) =~= lines@.map_values(|p: Pos| p.index as int));
            assert(mbc_spec(s, start) =~= mbcs@);
            assert(nnc_spec(s, start) =~= nncs@);
        }
        SourceFile {
            path,
            src,
            start_pos,
            end_pos: Pos { index: off },
            lines,
            multi_byte_chars: mbcs,
            non_narrow_chars: nncs,
        }
    }
}

/// Strictly ascending integer entries.
pub open spec fn sorted_strict(xs: Seq<int>) -> bool {
    forall|k1: int, k2: int| 0 <= k1 < k2 < xs.len() ==> xs[k1] < xs[k2]
}

/// The line starts after the first lie strictly inside the text's byte
/// interval, strictly ascending.
pub proof fn lemma_line_starts_bounds(s: Seq<char>, off: int)
    ensures
        forall|k: int|
            0 <= k < line_starts_from(s, off).len() ==> off < #[trigger] line_starts_from(
                s,
                off,
            )[k] <= off + byte_len(s),
        sorted_strict(line_starts_from(s, off)),
    decreases s.len(),
{
    if s.len() == 0 {
    } else if s[0] == '\r' && s.len() >= 2 && s[1] == '\n' {
        lemma_line_starts_bounds(s.skip(2), off + 2);
        assert(byte_len(s) == 2 + byte_len(s.skip(2))) by {
            lemma_byte_len_split(s, 2, s.len() as int);
            assert(s.take(s.len() as int) =~= s);
            assert(s.subrange(2, s.len() as int) =~= s.skip(2));
            lemma_byte_len_take_succ(s, 0);
            lemma_byte_len_take_succ(s, 1);
            assert(s.take(0) =~= Seq::<char>::empty());
        }
        let t = line_starts_from(s, off);
        assert(forall|k: int|
            1 <= k < t.len() ==> t[k] == line_starts_from(s.skip(2), off + 2)[k - 1]);
        assert(sorted_strict(t));
    } else if s[0] == '\n' || s[0] == '\r' {
        lemma_line_starts_bounds(s.skip(1), off + 1);
        assert(byte_len(s) == 1 + byte_len(s.skip(1))) by {
            lemma_byte_len_split(s, 1, s.len() as int);
            assert(s.take(s.len() as int) =~= s);
            assert(s.subrange(1, s.len() as int) =~= s.skip(1));
            lemma_byte_len_take_succ(s, 0);
            assert(s.take(0) =~= Seq::<char>::empty());
        }
        let t = line_starts_from(s, off);
        assert(forall|k: int|
            1 <= k < t.len() ==> t[k] == line_starts_from(s.skip(1), off + 1)[k - 1]);
        assert(sorted_strict(t));
    } else {
        let l = utf8_len_spec(s[0]) as int;
        lemma_line_starts_bounds(s.skip(1), off + l);
        assert(byte_len(s) == l + byte_len(s.skip(1))) by {
            lemma_byte_len_split(s, 1, s.len() as int);
            assert(s.take(s.len() as int) =~= s);
            assert(s.subrange(1, s.len() as int) =~= s.skip(1));
            lemma_byte_len_take_succ(s, 0);
            assert(s.take(0) =~= Seq::<char>::empty());
        }
    }
}

/// The line index of a text starts at the text's first byte, stays within
/// its byte interval, and ascends strictly.
pub proof fn lemma_lines_sorted(s: Seq<char>, start: int)
    ensures
        sorted_strict(lines_spec(s, start)),
        forall|k: int|
            0 <= k < lines_spec(s, start).len() ==> start <= #[trigger] lines_spec(s, start)[k]
                <= start + byte_len(s),
        lines_spec(s, start).len() > 0 ==> lines_spec(s, start)[0] == start,
{
    lemma_line_starts_bounds(s, start);
    if s.len() > 0 {
        let t = lines_spec(s, start);
        assert(t[0] == start);
        assert(forall|k: int| 1 <= k < t.len() ==> t[k] == line_starts_from(s, start)[k - 1]);
        assert(sorted_strict(t));
    }
}

/// The greatest line index whose start is at or before `pos`, or nothing
/// when `pos` precedes every line.
pub open spec fn lookup_line_spec(lines: Seq<int>, pos: int) -> Option<int>
    decreases lines.len(),
{
    if lines.len() == 0 {
        None
    } else if lines[lines.len() - 1] <= pos {
        Some(lines.len() - 1)
    } else {
        lookup_line_spec(lines.drop_last(), pos)
    }
}

/// In a sorted index, the answer is the unique index whose start is at or
/// before `pos` and whose successor (if any) starts after it.
pub proof fn lemma_lookup_line_at(lines: Seq<int>, pos: int, i: int)
    requires
        sorted_strict(lines),
        0 <= i < lines.len(),
        lines[i] <= pos,
        i == lines.len() - 1 || pos < lines[i + 1],
    ensures
        lookup_line_spec(lines, pos) == Some(i),
    decreases lines.len(),
{
    if lines[lines.len() - 1] <= pos {
        if i < lines.len() - 1 {
            assert(lines[i + 1] <= lines[lines.len() - 1]) by {
                if i + 1 < lines.len() - 1 {
                    assert(lines[i + 1] < lines[lines.len() - 1]);
                }
            }
            assert(false);
        }
    } else {
        let l2 = lines.drop_last();
        assert(i < lines.len() - 1);
        assert(forall|k: int| 0 <= k < l2.len() ==> l2[k] == lines[k]);
        assert(sorted_strict(l2));
        lemma_lookup_line_at(l2, pos, i);
    }
}

/// When `pos` precedes every line start, the lookup yields nothing.
pub proof fn lemma_lookup_line_none(lines: Seq<int>, pos: int)
    requires
        forall|k: int| 0 <= k < lines.len() ==> pos < #[trigger] lines[k],
    ensures
        lookup_line_spec(lines, pos) is None,
    decreases lines.len(),
{
    if lines.len() > 0 {
        let l2 = lines.drop_last();
        assert(forall|k: int| 0 <= k < l2.len() ==> l2[k] == lines[k]);
        lemma_lookup_line_none(l2, pos);
    }
}

impl SourceFile {
    /// Finds the line containing the given position: the greatest index
    /// into the line index whose start is at or before `pos`, or `None`
    /// for an empty file.
    pub fn lookup_line(&self, pos: Pos) -> (r: Option<usize>)
        requires
            self.wf(),
        ensures
            r matches Some(i) ==> lookup_line_spec(self.lines_int(), pos.index as int) == Some(
                i as int,
            ),
            r is None ==> lookup_line_spec(self.lines_int(), pos.index as int) is None,
    {
        proof {
            lemma_lines_sorted(self.src@, self.start_pos.index as int);
        }
        let n = self.lines.len();
        if n == 0 {
            return None;
        }
        if pos.to_usize() < self.lines[0].to_usize() {
            proof {
                lemma_lookup_line_none(self.lines_int(), pos.index as int);
            }
            return None;
        }
        let mut lo: usize = 0;
        let mut hi: usize = n - 1;
        while lo < hi
            invariant
                self.wf(),
                n == self.lines@.len(),
                lo <= hi < n,
                self.lines_int()[lo as int] <= pos.index,
                hi == n - 1 || pos.index < self.lines_int()[hi + 1],
            decreases hi - lo,
        {
            let mid = lo + (hi - lo + 1) / 2;
            if self.lines[mid].to_usize() <= pos.to_usize() {
                lo = mid;
            } else {
                hi = mid - 1;
            }
        }
        proof {
            lemma_lookup_line_at(self.lines_int(), pos.index as int, lo as int);
        }
        Some(lo)
    }

    /// The byte interval of a line: from its start to the next line's
    /// start, or to the end of the file for the last line; the whole file
    /// for an empty file.
    pub open spec fn lookup_line_bounds_spec(self, i: int) -> Span {
        if self.lines@.len() == 0 {
            span_at(self.start_pos.index as int, self.end_pos.index as int)
        } else if i == self.lines@.len() - 1 {
            span_at(self.lines_int()[i], self.end_pos.index as int)
        } else {
            span_at(self.lines_int()[i], self.lines_int()[i + 1])
        }
    }

    /// Returns the span of the given line. Except for an empty file, the
    /// index must denote a line.
    pub fn lookup_line_bounds(&self, line_index: usize) -> (r: Span)
        requires
            self.wf(),
            self.lines@.len() == 0 || line_index < self.lines@.len(),
        ensures
            r == self.lookup_line_bounds_spec(line_index as int),
            r.wf(),
    {
        proof {
            lemma_lines_sorted(self.src@, self.start_pos.index as int);
        }
        if self.lines.len() == 0 {
            return Span { start: self.start_pos, end: self.end_pos };
        }
        if line_index == self.lines.len() - 1 {
            Span { start: self.lines[line_index], end: self.end_pos }
        } else {
            Span { start: self.lines[line_index], end: self.lines[line_index + 1] }
        }
    }

    /// The position lies in the file's interval; the end is included so
    /// that one-past-the-end positions (an end-of-file token) resolve to
    /// this file.
    pub open spec fn contains_spec(self, pos: Pos) -> bool {
        self.start_pos.index <= pos.index <= self.end_pos.index
    }

    /// Returns true if the position lies in this file's interval, the end
    /// included.
    #[inline]
    pub fn contains(&self, pos: Pos) -> (b: bool)
        ensures
            b == self.contains_spec(pos),
    {
        pos.to_usize() >= self.start_pos.to_usize() && pos.to_usize() <= self.end_pos.to_usize()
    }

    /// The file holds no text.
    pub open spec fn is_empty_spec(self) -> bool {
        self.start_pos.index == self.end_pos.index
    }

    /// Returns true if the file holds no text.
    #[inline]
    pub fn is_empty(&self) -> (b: bool)
        ensures
            b == self.is_empty_spec(),
    {
        self.start_pos.to_usize() == self.end_pos.to_usize()
    }

    /// Returns the path identifying this file.
    pub fn path(&self) -> (r: &FilePath)
        ensures
            r == self.path,
    {
        &self.path
    }
}

/// Round-trip line lookup: looking up the position where a line's bounds
/// start gives back that line's index.
pub proof fn lemma_line_lookup_round_trip(f: SourceFile, i: int)
    requires
        f.wf(),
        0 <= i < f.lines@.len(),
    ensures
        lookup_line_spec(f.lines_int(), f.lookup_line_bounds_spec(i).start.index as int) == Some(
            i,
        ),
{
    lemma_lines_sorted(f.src@, f.start_pos.index as int);
    assert(f.lookup_line_bounds_spec(i).start.index as int == f.lines_int()[i]);
    lemma_lookup_line_at(f.lines_int(), f.lines_int()[i], i);
}

/// The extra bytes that multi-byte characters with positions in
/// `[lo, hi)` contribute beyond one byte each.
pub open spec fn extra_bytes(mbcs: Seq<MultiByteChar>, lo: int, hi: int) -> int
    decreases mbcs.len(),
{
    if mbcs.len() == 0 {
        0
    } else {
        (if lo <= mbcs[0].pos.index < hi {
            mbcs[0].len - 1
        } else {
            0
        }) + extra_bytes(mbcs.drop_first(), lo, hi)
    }
}

/// The display widths of the non-narrow characters with positions in
/// `[lo, hi)`, summed.
pub open spec fn width_sum(nncs: Seq<NonNarrowChar>, lo: int, hi: int) -> int
    decreases nncs.len(),
{
    if nncs.len() == 0 {
        0
    } else {
        (if lo <= nncs[0].pos.index < hi {
            nncs[0].width_spec()
        } else {
            0
        }) + width_sum(nncs.drop_first(), lo, hi)
    }
}

/// The number of non-narrow characters with positions in `[lo, hi)`.
pub open spec fn nn_count(nncs: Seq<NonNarrowChar>, lo: int, hi: int) -> int
    decreases nncs.len(),
{
    if nncs.len() == 0 {
        0
    } else {
        (if lo <= nncs[0].pos.index < hi {
            1int
        } else {
            0int
        }) + nn_count(nncs.drop_first(), lo, hi)
    }
}

/// Each multi-byte record names a character of the text: its length is 2
/// to 4 and its extent lies within the text's byte interval.
pub proof fn lemma_mbc_entries(s: Seq<char>, off: int)
    requires
        0 <= off,
        off + byte_len(s) <= usize::MAX,
    ensures
        forall|k: int|
            0 <= k < mbc_spec(s, off).len() ==> 2 <= (#[trigger] mbc_spec(s, off)[k]).len <= 4
                && off <= mbc_spec(s, off)[k].pos.index && mbc_spec(s, off)[k].pos.index + mbc_spec(
                s,
                off,
            )[k].len <= off + byte_len(s),
    decreases s.len(),
{
    if s.len() > 0 {
        let l = utf8_len_spec(s[0]) as int;
        assert(s.drop_first() =~= s.skip(1));
        lemma_mbc_entries(s.skip(1), off + l);
        let t = mbc_spec(s, off);
        let rest = mbc_spec(s.skip(1), off + l);
        if l > 1 {
            assert(forall|k: int| 1 <= k < t.len() ==> t[k] == rest[k - 1]);
        } else {
            assert(forall|k: int| 0 <= k < t.len() ==> t[k] == rest[k]);
        }
    }
}

/// Each non-narrow record names a character of the text: its position lies
/// within the text's byte interval.
pub proof fn lemma_nnc_entries(s: Seq<char>, off: int)
    requires
        0 <= off,
        off + byte_len(s) <= usize::MAX,
    ensures
        forall|k: int|
            0 <= k < nnc_spec(s, off).len() ==> off <= (#[trigger] nnc_spec(s, off)[k]).pos.index
                < off + byte_len(s),
    decreases s.len(),
{
    if s.len() > 0 {
        let l = utf8_len_spec(s[0]) as int;
        assert(s.drop_first() =~= s.skip(1));
        lemma_nnc_entries(s.skip(1), off + l);
        let t = nnc_spec(s, off);
        let rest = nnc_spec(s.skip(1), off + l);
        if display_width_spec(s[0]) != 1 {
            assert(forall|k: int| 1 <= k < t.len() ==> t[k] == rest[k - 1]);
        } else {
            assert(forall|k: int| 0 <= k < t.len() ==> t[k] == rest[k]);
        }
    }
}

/// An empty byte interval contributes no extra bytes.
proof fn lemma_extra_empty(mbcs: Seq<MultiByteChar>, lo: int, hi: int)
    requires
        hi <= lo,
    ensures
        extra_bytes(mbcs, lo, hi) == 0,
    decreases mbcs.len(),
{
    if mbcs.len() > 0 {
        lemma_extra_empty(mbcs.drop_first(), lo, hi);
    }
}

/// Raising the lower bound past no record changes nothing.
proof fn lemma_extra_lo(mbcs: Seq<MultiByteChar>, lo1: int, lo2: int, hi: int)
    requires
        lo1 <= lo2,
        forall|k: int| 0 <= k < mbcs.len() ==> lo2 <= (#[trigger] mbcs[k]).pos.index,
    ensures
        extra_bytes(mbcs, lo1, hi) == extra_bytes(mbcs, lo2, hi),
    decreases mbcs.len(),
{
    if mbcs.len() > 0 {
        assert(forall|k: int|
            0 <= k < mbcs.drop_first().len() ==> (#[trigger] mbcs.drop_first()[k]) == mbcs[k
                + 1]);
        lemma_extra_lo(mbcs.drop_first(), lo1, lo2, hi);
    }
}

/// Records of at least one byte of excess each never sum to less than
/// nothing.
proof fn lemma_extra_nonneg(mbcs: Seq<MultiByteChar>, lo: int, hi: int)
    requires
        forall|k: int| 0 <= k < mbcs.len() ==> (#[trigger] mbcs[k]).len >= 1,
    ensures
        extra_bytes(mbcs, lo, hi) >= 0,
    decreases mbcs.len(),
{
    if mbcs.len() > 0 {
        assert(forall|k: int|
            0 <= k < mbcs.drop_first().len() ==> (#[trigger] mbcs.drop_first()[k]) == mbcs[k
                + 1]);
        lemma_extra_nonneg(mbcs.drop_first(), lo, hi);
    }
}

/// Between two character boundaries, the extra bytes of the multi-byte
/// index equal the byte length of the covered characters minus their
/// count: subtracting them from a byte distance counts characters.
pub proof fn lemma_extra_bytes_range(s: Seq<char>, off: int, c1: int, c2: int)
    requires
        0 <= off,
        off + byte_len(s) <= usize::MAX,
        0 <= c1 <= c2 <= s.len(),
    ensures
        extra_bytes(
            mbc_spec(s, off),
            off + byte_len(s.take(c1)),
            off + byte_len(s.take(c2)),
        ) == byte_len(s.subrange(c1, c2)) - (c2 - c1),
    decreases s.len(),
{
    let t = mbc_spec(s, off);
    if c2 == 0 {
        assert(s.take(0) =~= Seq::<char>::empty());
        assert(s.subrange(0, 0) =~= Seq::<char>::empty());
        lemma_extra_empty(t, off, off);
    } else {
        let l = utf8_len_spec(s[0]) as int;
        assert(s.drop_first() =~= s.skip(1));
        let rest = mbc_spec(s.skip(1), off + l);
        lemma_mbc_entries(s.skip(1), off + l);
        if c1 == 0 {
            assert(s.take(0) =~= Seq::<char>::empty());
            assert(s.skip(1).take(0) =~= Seq::<char>::empty());
            lemma_extra_bytes_range(s.skip(1), off + l, 0, c2 - 1);
            assert(s.take(c2)[0] == s[0]);
            assert(s.take(c2).drop_first() =~= s.skip(1).take(c2 - 1));
            assert(byte_len(s.take(c2)) == l + byte_len(s.skip(1).take(c2 - 1)));
            let hi = off + byte_len(s.take(c2));
            assert(s.subrange(0, c2) =~= s.take(c2));
            assert(s.skip(1).subrange(0, c2 - 1) =~= s.skip(1).take(c2 - 1));
            lemma_extra_lo(rest, off, off + l, hi);
            if l > 1 {
                assert(t[0] == (MultiByteChar {
                    pos: Pos { index: off as usize },
                    len: l as u8,
                }));
                assert(t.drop_first() =~= rest);
                lemma_byte_len_bounds(s.skip(1).take(c2 - 1));
                assert(off <= t[0].pos.index < hi);
            } else {
                assert(t =~= rest);
            }
        } else {
            lemma_extra_bytes_range(s.skip(1), off + l, c1 - 1, c2 - 1);
            assert(s.take(c1)[0] == s[0]);
            assert(s.take(c1).drop_first() =~= s.skip(1).take(c1 - 1));
            assert(byte_len(s.take(c1)) == l + byte_len(s.skip(1).take(c1 - 1)));
            assert(s.take(c2)[0] == s[0]);
            assert(s.take(c2).drop_first() =~= s.skip(1).take(c2 - 1));
            assert(byte_len(s.take(c2)) == l + byte_len(s.skip(1).take(c2 - 1)));
            let lo = off + byte_len(s.take(c1));
            let hi = off + byte_len(s.take(c2));
            assert(s.subrange(c1, c2) =~= s.skip(1).subrange(c1 - 1, c2 - 1));
            lemma_byte_len_bounds(s.skip(1).take(c1 - 1));
            if l > 1 {
                assert(t[0] == (MultiByteChar {
                    pos: Pos { index: off as usize },
                    len: l as u8,
                }));
                assert(t.drop_first() =~= rest);
                assert(t[0].pos.index < lo);
            } else {
                assert(t =~= rest);
            }
        }
    }
}

/// An empty byte interval covers no non-narrow characters.
proof fn lemma_wc_empty(nncs: Seq<NonNarrowChar>, lo: int, hi: int)
    requires
        hi <= lo,
    ensures
        width_sum(nncs, lo, hi) == 0,
        nn_count(nncs, lo, hi) == 0,
    decreases nncs.len(),
{
    if nncs.len() > 0 {
        lemma_wc_empty(nncs.drop_first(), lo, hi);
    }
}

/// Raising the lower bound past no record changes nothing.
proof fn lemma_wc_lo(nncs: Seq<NonNarrowChar>, lo1: int, lo2: int, hi: int)
    requires
        lo1 <= lo2,
        forall|k: int| 0 <= k < nncs.len() ==> lo2 <= (#[trigger] nncs[k]).pos.index,
    ensures
        width_sum(nncs, lo1, hi) == width_sum(nncs, lo2, hi),
        nn_count(nncs, lo1, hi) == nn_count(nncs, lo2, hi),
    decreases nncs.len(),
{
    if nncs.len() > 0 {
        assert(forall|k: int|
            0 <= k < nncs.drop_first().len() ==> (#[trigger] nncs.drop_first()[k]) == nncs[k
                + 1]);
        lemma_wc_lo(nncs.drop_first(), lo1, lo2, hi);
    }
}

/// Widths and counts of records never sum to less than nothing.
proof fn lemma_wc_nonneg(nncs: Seq<NonNarrowChar>, lo: int, hi: int)
    ensures
        width_sum(nncs, lo, hi) >= 0,
        nn_count(nncs, lo, hi) >= 0,
    decreases nncs.len(),
{
    if nncs.len() > 0 {
        lemma_wc_nonneg(nncs.drop_first(), lo, hi);
    }
}

/// The summed widths of the non-narrow index never exceed the width of the
/// whole text.
pub proof fn lemma_width_sum_le(s: Seq<char>, off: int, lo: int, hi: int)
    ensures
        width_sum(nnc_spec(s, off), lo, hi) <= width_of(s),
    decreases s.len(),
{
    if s.len() > 0 {
        let l = utf8_len_spec(s[0]) as int;
        let w = display_width_spec(s[0]) as int;
        assert(s.drop_first() =~= s.skip(1));
        let t = nnc_spec(s, off);
        let rest = nnc_spec(s.skip(1), off + l);
        lemma_width_sum_le(s.skip(1), off + l, lo, hi);
        lemma_wc_nonneg(rest, lo, hi);
        if w != 1 {
            assert(t.drop_first() =~= rest);
        } else {
            assert(t =~= rest);
        }
    }
}

/// A middle piece never displays wider than the whole.
pub proof fn lemma_width_sub_le(s: Seq<char>, c1: int, c2: int)
    requires
        0 <= c1 <= c2 <= s.len(),
    ensures
        width_of(s.subrange(c1, c2)) <= width_of(s),
{
    assert(s =~= s.take(c1) + s.subrange(c1, c2) + s.skip(c2));
    crate::text::lemma_width_add(s.take(c1) + s.subrange(c1, c2), s.skip(c2));
    crate::text::lemma_width_add(s.take(c1), s.subrange(c1, c2));
}

/// Between two character boundaries, the widths of the non-narrow index
/// minus their count equal the display width of the covered characters
/// minus their count: a narrow character contributes one column either
/// way.
pub proof fn lemma_width_range(s: Seq<char>, off: int, c1: int, c2: int)
    requires
        0 <= off,
        off + byte_len(s) <= usize::MAX,
        0 <= c1 <= c2 <= s.len(),
    ensures
        width_sum(nnc_spec(s, off), off + byte_len(s.take(c1)), off + byte_len(s.take(c2)))
            - nn_count(nnc_spec(s, off), off + byte_len(s.take(c1)), off + byte_len(s.take(c2)))
            == width_of(s.subrange(c1, c2)) - (c2 - c1),
        0 <= nn_count(nnc_spec(s, off), off + byte_len(s.take(c1)), off + byte_len(s.take(c2)))
            <= c2 - c1,
    decreases s.len(),
{
    let t = nnc_spec(s, off);
    if c2 == 0 {
        assert(s.take(0) =~= Seq::<char>::empty());
        assert(s.subrange(0, 0) =~= Seq::<char>::empty());
        lemma_wc_empty(t, off, off);
    } else {
        let l = utf8_len_spec(s[0]) as int;
        let w = display_width_spec(s[0]) as int;
        assert(s.drop_first() =~= s.skip(1));
        let rest = nnc_spec(s.skip(1), off + l);
        lemma_nnc_entries(s.skip(1), off + l);
        if c1 == 0 {
            assert(s.take(0) =~= Seq::<char>::empty());
            assert(s.skip(1).take(0) =~= Seq::<char>::empty());
            lemma_width_range(s.skip(1), off + l, 0, c2 - 1);
            assert(s.take(c2)[0] == s[0]);
            assert(s.take(c2).drop_first() =~= s.skip(1).take(c2 - 1));
            assert(byte_len(s.take(c2)) == l + byte_len(s.skip(1).take(c2 - 1)));
            let hi = off + byte_len(s.take(c2));
            assert(s.subrange(0, c2) =~= s.take(c2));
            assert(width_of(s.take(c2)) == w + width_of(s.skip(1).take(c2 - 1)));
            assert(s.skip(1).subrange(0, c2 - 1) =~= s.skip(1).take(c2 - 1));
            lemma_wc_lo(rest, off, off + l, hi);
            if w != 1 {
                assert(t[0] == (NonNarrowChar {
                    pos: Pos { index: off as usize },
                    kind: width_kind(w),
                }));
                assert(t.drop_first() =~= rest);
                lemma_byte_len_bounds(s.skip(1).take(c2 - 1));
                assert(off <= t[0].pos.index < hi);
                assert(t[0].width_spec() == w);
            } else {
                assert(t =~= rest);
            }
        } else {
            lemma_width_range(s.skip(1), off + l, c1 - 1, c2 - 1);
            assert(s.take(c1)[0] == s[0]);
            assert(s.take(c1).drop_first() =~= s.skip(1).take(c1 - 1));
            assert(byte_len(s.take(c1)) == l + byte_len(s.skip(1).take(c1 - 1)));
            assert(s.take(c2)[0] == s[0]);
            assert(s.take(c2).drop_first() =~= s.skip(1).take(c2 - 1));
            assert(byte_len(s.take(c2)) == l + byte_len(s.skip(1).take(c2 - 1)));
            let lo = off + byte_len(s.take(c1));
            assert(s.subrange(c1, c2) =~= s.skip(1).subrange(c1 - 1, c2 - 1));
            lemma_byte_len_bounds(s.skip(1).take(c1 - 1));
            if w != 1 {
                assert(t[0] == (NonNarrowChar {
                    pos: Pos { index: off as usize },
                    kind: width_kind(w),
                }));
                assert(t.drop_first() =~= rest);
                assert(t[0].pos.index < lo);
            } else {
                assert(t =~= rest);
            }
        }
    }
}

/// Every line start after the first falls on a character boundary.
pub proof fn lemma_line_starts_boundaries(s: Seq<char>, off: int)
    ensures
        forall|k: int|
            0 <= k < line_starts_from(s, off).len() ==> is_boundary(
                s,
                #[trigger] line_starts_from(s, off)[k] - off,
            ),
    decreases s.len(),
{
    if s.len() == 0 {
    } else if s[0] == '\r' && s.len() >= 2 && s[1] == '\n' {
        lemma_line_starts_boundaries(s.skip(2), off + 2);
        let t = line_starts_from(s, off);
        assert forall|k: int| 0 <= k < t.len() implies is_boundary(s, #[trigger] t[k] - off) by {
            if k == 0 {
                assert(s.take(0) =~= Seq::<char>::empty());
                lemma_byte_len_take_succ(s, 0);
                lemma_byte_len_take_succ(s, 1);
                assert(byte_len(s.take(2)) == 2);
                assert(is_boundary(s, 2));
            } else {
                let e = t[k];
                assert(t[k] == line_starts_from(s.skip(2), off + 2)[k - 1]);
                assert(is_boundary(s.skip(2), e - (off + 2)));
                assert(s.skip(1).skip(1) =~= s.skip(2));
                assert(s.skip(1).len() > 0 && s.skip(1)[0] == '\n');
                lemma_boundary_shift(s.skip(1), e - (off + 2));
                lemma_boundary_shift(s, e - off - 1);
            }
        }
    } else if s[0] == '\n' || s[0] == '\r' {
        lemma_line_starts_boundaries(s.skip(1), off + 1);
        let t = line_starts_from(s, off);
        assert forall|k: int| 0 <= k < t.len() implies is_boundary(s, #[trigger] t[k] - off) by {
            if k == 0 {
                assert(s.take(0) =~= Seq::<char>::empty());
                lemma_byte_len_take_succ(s, 0);
                assert(byte_len(s.take(1)) == 1);
                assert(is_boundary(s, 1));
            } else {
                let e = t[k];
                assert(t[k] == line_starts_from(s.skip(1), off + 1)[k - 1]);
                assert(is_boundary(s.skip(1), e - (off + 1)));
                lemma_boundary_shift(s, e - off - 1);
            }
        }
    } else {
        let l = utf8_len_spec(s[0]) as int;
        lemma_line_starts_boundaries(s.skip(1), off + l);
        let t = line_starts_from(s, off);
        assert forall|k: int| 0 <= k < t.len() implies is_boundary(s, #[trigger] t[k] - off) by {
            let e = t[k];
            assert(t[k] == line_starts_from(s.skip(1), off + l)[k]);
            assert(is_boundary(s.skip(1), e - (off + l)));
            lemma_boundary_shift(s, e - off - l);
        }
    }
}

/// Every entry of the line index falls on a character boundary.
pub proof fn lemma_lines_boundaries(s: Seq<char>, start: int)
    ensures
        forall|k: int|
            0 <= k < lines_spec(s, start).len() ==> is_boundary(
                s,
                #[trigger] lines_spec(s, start)[k] - start,
            ),
{
    lemma_line_starts_boundaries(s, start);
    if s.len() > 0 {
        let t = lines_spec(s, start);
        assert forall|k: int| 0 <= k < t.len() implies is_boundary(s, #[trigger] t[k] - start) by {
            if k == 0 {
                assert(s.take(0) =~= Seq::<char>::empty());
                assert(byte_len(s.take(0)) == 0);
                assert(is_boundary(s, 0));
            } else {
                assert(t[k] == line_starts_from(s, start)[k - 1]);
            }
        }
    }
}

/// What a line lookup answers: nothing exactly when the position precedes
/// every line, else the greatest index whose start is at or before it.
pub proof fn lemma_lookup_line_props(lines: Seq<int>, pos: int)
    requires
        sorted_strict(lines),
    ensures
        (lookup_line_spec(lines, pos) is None) <==> (lines.len() == 0 || pos < lines[0]),
        lookup_line_spec(lines, pos) matches Some(i) ==> 0 <= i < lines.len() && lines[i] <= pos
            && (i == lines.len() - 1 || pos < lines[i + 1]),
    decreases lines.len(),
{
    if lines.len() == 0 {
    } else if lines[lines.len() - 1] <= pos {
        if lines.len() > 1 {
            assert(lines[0] <= lines[lines.len() - 1]);
        }
    } else {
        let l2 = lines.drop_last();
        assert(forall|k: int| 0 <= k < l2.len() ==> l2[k] == lines[k]);
        assert(sorted_strict(l2));
        lemma_lookup_line_props(l2, pos);
    }
}

impl SourceFile {
    /// Looks up the file's 1-based line number and 0-based column for a
    /// position on a character boundary of this file. The column counts
    /// characters, not bytes: it is the byte distance from the line start
    /// minus the extra bytes of the multi-byte characters in between. On
    /// an empty file the answer is `(0, 0)`.
    pub fn lookup_line_and_col(&self, pos: Pos) -> (r: (usize, usize))
        requires
            self.wf(),
            self.contains_spec(pos),
            is_boundary(self.src@, pos.index - self.start_pos.index),
        ensures
            ({
                let ls = self.lines_int();
                let p = pos.index as int;
                let start = self.start_pos.index as int;
                match lookup_line_spec(ls, p) {
                    Some(line) => r.0 == line + 1 && r.1 == cut(self.src@, p - start) - cut(
                        self.src@,
                        ls[line] - start,
                    ),
                    None => r == (0usize, 0usize),
                }
            }),
    {
        let ghost s = self.src@;
        let ghost start = self.start_pos.index as int;
        proof {
            lemma_lines_sorted(s, start);
        }
        match self.lookup_line(pos) {
            None => (0, 0),
            Some(line) => {
                proof {
                    lemma_lookup_line_props(self.lines_int(), pos.index as int);
                }
                let num_lines = self.lines.len();
                proof {
                    assert(line < num_lines);
                }
                let line_start = self.lines[line];
                let ghost lo = line_start.index as int;
                let ghost hi = pos.index as int;
                let ghost c1 = cut(s, lo - start);
                let ghost c2 = cut(s, hi - start);
                proof {
                    lemma_lines_boundaries(s, start);
                    assert(is_boundary(s, lo - start));
                    crate::text::lemma_cut_boundary(s, lo - start);
                    crate::text::lemma_cut_boundary(s, hi - start);
                    crate::text::lemma_cut_mono(s, lo - start, hi - start);
                    lemma_extra_bytes_range(s, start, c1, c2);
                    lemma_byte_len_split(s, c1, c2);
                    lemma_mbc_entries(s, start);
                }
                let ghost total = extra_bytes(self.multi_byte_chars@, lo, hi);
                let n = self.multi_byte_chars.len();
                let mut acc: usize = 0;
                let mut k: usize = 0;
                proof {
                    assert(self.multi_byte_chars@.skip(0) =~= self.multi_byte_chars@);
                    assert(byte_len(s.take(c1)) == lo - start);
                    assert(byte_len(s.take(c2)) == hi - start);
                    assert(c1 <= c2 <= s.len());
                    lemma_byte_len_bounds(s.subrange(c1, c2));
                    assert(total == byte_len(s.subrange(c1, c2)) - (c2 - c1));
                    assert(byte_len(s.subrange(c1, c2)) == hi - lo);
                    assert forall|j: int|
                        0 <= j < self.multi_byte_chars@.len() implies 1 <= (
                    #[trigger] self.multi_byte_chars@[j]).len by {
                        assert(self.multi_byte_chars@[j] == mbc_spec(s, start)[j]);
                    }
                }
                while k < n
                    invariant
                        k <= n,
                        n == self.multi_byte_chars@.len(),
                        self.wf(),
                        lo == line_start.index,
                        hi == pos.index,
                        lo <= hi,
                        total == extra_bytes(self.multi_byte_chars@, lo, hi),
                        0 <= total <= hi - lo,
                        total == acc + extra_bytes(self.multi_byte_chars@.skip(k as int), lo, hi),
                        acc <= total,
                        forall|j: int|
                            0 <= j < self.multi_byte_chars@.len() ==> 1 <= (
                            #[trigger] self.multi_byte_chars@[j]).len,
                    decreases n - k,
                {
                    let ghost rest = self.multi_byte_chars@.skip(k as int);
                    let m = self.multi_byte_chars[k];
                    proof {
                        assert(rest[0] == m);
                        assert(1 <= m.len);
                        assert(rest.drop_first() =~= self.multi_byte_chars@.skip(k + 1));
                        assert(forall|j: int|
                            0 <= j < rest.drop_first().len() ==> (#[trigger] rest.drop_first()[j])
                                == self.multi_byte_chars@[k + 1 + j]);
                        assert(forall|j: int|
                            0 <= j < rest.drop_first().len() ==> 1 <= (
                            #[trigger] rest.drop_first()[j]).len);
                        lemma_extra_nonneg(rest.drop_first(), lo as int, hi as int);
                        assert(extra_bytes(rest, lo as int, hi as int) == (if lo
                            <= m.pos.index < hi {
                            m.len - 1
                        } else {
                            0
                        }) + extra_bytes(rest.drop_first(), lo as int, hi as int));
                    }
                    if m.pos().to_usize() >= line_start.to_usize() && m.pos().to_usize()
                        < pos.to_usize() {
                        acc = acc + (m.len() as usize - 1);
                    }
                    k = k + 1;
                }
                proof {
                    assert(self.multi_byte_chars@.skip(n as int) =~= Seq::<MultiByteChar>::empty());
                    assert(extra_bytes(Seq::<MultiByteChar>::empty(), lo, hi) == 0);
                    assert(acc == total);
                    assert(lo <= hi);
                    assert(total <= hi - lo);
                    assert(lo == line_start.index && hi == pos.index);
                    assert(acc <= pos.index - line_start.index);
                }
                let col = pos.to_usize() - line_start.to_usize() - acc;
                (line + 1, col)
            },
        }
    }

    /// Looks up the 1-based line, the 0-based character column, and the
    /// 0-based display column, which counts each character's terminal
    /// width: a zero-width character adds nothing, a wide one two columns,
    /// a tab four. On an empty file the answer is `(0, 0, 0)`.
    pub fn lookup_line_col_and_col_display(&self, pos: Pos) -> (r: (usize, usize, usize))
        requires
            self.wf(),
            self.contains_spec(pos),
            is_boundary(self.src@, pos.index - self.start_pos.index),
            width_of(self.src@) <= usize::MAX,
        ensures
            ({
                let ls = self.lines_int();
                let p = pos.index as int;
                let start = self.start_pos.index as int;
                match lookup_line_spec(ls, p) {
                    Some(line) => {
                        let c1 = cut(self.src@, ls[line] - start);
                        let c2 = cut(self.src@, p - start);
                        r.0 == line + 1 && r.1 == c2 - c1 && r.2 == width_of(
                            self.src@.subrange(c1, c2),
                        )
                    },
                    None => r == (0usize, 0usize, 0usize),
                }
            }),
    {
        let ghost s = self.src@;
        let ghost start = self.start_pos.index as int;
        proof {
            lemma_lines_sorted(s, start);
        }
        let (line, col) = self.lookup_line_and_col(pos);
        if line == 0 {
            proof {
                lemma_lookup_line_props(self.lines_int(), pos.index as int);
                match lookup_line_spec(self.lines_int(), pos.index as int) {
                    Some(i) => {
                        assert(line == i + 1);
                        assert(false);
                    },
                    None => {},
                }
            }
            return (0, 0, 0);
        }
        proof {
            lemma_lookup_line_props(self.lines_int(), pos.index as int);
        }
        let line_start = self.lines[line - 1];
        let ghost lo = line_start.index as int;
        let ghost hi = pos.index as int;
        let ghost c1 = cut(s, lo - start);
        let ghost c2 = cut(s, hi - start);
        proof {
            lemma_lines_boundaries(s, start);
            assert(is_boundary(s, lo - start));
            crate::text::lemma_cut_boundary(s, lo - start);
            crate::text::lemma_cut_boundary(s, hi - start);
            crate::text::lemma_cut_mono(s, lo - start, hi - start);
            lemma_width_range(s, start, c1, c2);
            lemma_width_sum_le(s, start, lo, hi);
            lemma_nnc_entries(s, start);
            lemma_wc_nonneg(self.non_narrow_chars@, lo, hi);
        }
        let ghost total_w = width_sum(self.non_narrow_chars@, lo, hi);
        let ghost total_c = nn_count(self.non_narrow_chars@, lo, hi);
        let n = self.non_narrow_chars.len();
        let mut acc_w: usize = 0;
        let mut acc_c: usize = 0;
        let mut k: usize = 0;
        proof {
            assert(self.non_narrow_chars@.skip(0) =~= self.non_narrow_chars@);
            assert(byte_len(s.take(c1)) == lo - start);
            assert(byte_len(s.take(c2)) == hi - start);
            assert(c1 <= c2 <= s.len());
            assert(total_w - total_c == width_of(s.subrange(c1, c2)) - (c2 - c1));
            assert(0 <= total_c <= c2 - c1);
            assert(total_w <= width_of(s));
            lemma_width_sub_le(s, c1, c2);
            lemma_wc_count_le(self.non_narrow_chars@, lo, hi);
        }
        while k < n
            invariant
                k <= n,
                n == self.non_narrow_chars@.len(),
                self.wf(),
                lo == line_start.index,
                hi == pos.index,
                total_w == width_sum(self.non_narrow_chars@, lo, hi),
                total_c == nn_count(self.non_narrow_chars@, lo, hi),
                0 <= total_w <= usize::MAX,
                0 <= total_c,
                total_w == acc_w + width_sum(self.non_narrow_chars@.skip(k as int), lo, hi),
                total_c == acc_c + nn_count(self.non_narrow_chars@.skip(k as int), lo, hi),
                acc_w <= total_w,
                acc_c <= total_c,
                total_c <= col,
                col == cut(s, hi - start) - cut(s, lo - start),
                total_w - total_c == width_of(s.subrange(c1, c2)) - (c2 - c1),
                c1 == cut(s, lo - start),
                c2 == cut(s, hi - start),
                width_of(s.subrange(c1, c2)) <= width_of(s) <= usize::MAX,
            decreases n - k,
        {
            let ghost rest = self.non_narrow_chars@.skip(k as int);
            let m = self.non_narrow_chars[k];
            proof {
                assert(rest[0] == m);
                assert(rest.drop_first() =~= self.non_narrow_chars@.skip(k + 1));
                lemma_wc_nonneg(rest.drop_first(), lo as int, hi as int);
                lemma_wc_count_le(rest.drop_first(), lo as int, hi as int);
                assert(width_sum(rest, lo as int, hi as int) == (if lo <= m.pos.index < hi {
                    m.width_spec()
                } else {
                    0
                }) + width_sum(rest.drop_first(), lo as int, hi as int));
                assert(nn_count(rest, lo as int, hi as int) == (if lo <= m.pos.index < hi {
                    1int
                } else {
                    0int
                }) + nn_count(rest.drop_first(), lo as int, hi as int));
            }
            if m.pos().to_usize() >= line_start.to_usize() && m.pos().to_usize()
                < pos.to_usize() {
                acc_w = acc_w + m.width();
                acc_c = acc_c + 1;
            }
            k = k + 1;
        }
        proof {
            assert(self.non_narrow_chars@.skip(n as int) =~= Seq::<NonNarrowChar>::empty());
            assert(width_sum(Seq::<NonNarrowChar>::empty(), lo, hi) == 0);
            assert(nn_count(Seq::<NonNarrowChar>::empty(), lo, hi) == 0);
            assert(acc_w == total_w && acc_c == total_c);
            assert(col + total_w - total_c == width_of(s.subrange(c1, c2)));
        }
        let col_display = col - acc_c + acc_w;
        (line, col, col_display)
    }
}

/// The count of covered records never exceeds the record count.
proof fn lemma_wc_count_le(nncs: Seq<NonNarrowChar>, lo: int, hi: int)
    ensures
        nn_count(nncs, lo, hi) <= nncs.len(),
    decreases nncs.len(),
{
    if nncs.len() > 0 {
        lemma_wc_count_le(nncs.drop_first(), lo, hi);
    }
}

} // verus!
