//! The source map: owns all source files of a compilation, allocates each
//! a disjoint slice of the global position space, and answers which file,
//! line and column a position belongs to.

use std::rc::Rc;

use vstd::prelude::*;

use crate::pos::Pos;
use crate::source_file::{
    file_path_eq, lookup_line_spec, FilePath, SourceFile,
};
use crate::span::Span;
use crate::text::{byte_len, byte_sub, cut, is_boundary, width_of};

verus! {

/// Human-readable position information: the file a position belongs to,
/// its 1-based line, its 0-based character column, and its 0-based display
/// column.
pub struct PosInfo {
    /// The file the position belongs to.
    pub file: Rc<SourceFile>,
    /// The 1-based line number; 0 for an empty file.
    pub line: usize,
    /// The 0-based column, counted in characters.
    pub col: usize,
    /// The 0-based column, counted in terminal columns.
    pub col_display: usize,
}

impl PosInfo {
    /// Bundles position information.
    pub fn new(file: Rc<SourceFile>, line: usize, col: usize, col_display: usize) -> (r: PosInfo)
        ensures
            r.file == file,
            r.line == line,
            r.col == col,
            r.col_display == col_display,
    {
        PosInfo { file, line, col, col_display }
    }
}

/// Clones a shared file handle.
///
/// Relies on `Rc::clone`: the clone is a handle to the same allocation, so
/// it carries the same value.
#[verifier::external_body]
fn rc_clone(v: &Rc<SourceFile>) -> (r: Rc<SourceFile>)
    ensures
        r == *v,
{
    v.clone()
}

/// The index of the first file with the given path, or `-1` when no file
/// has it.
pub open spec fn find_file(files: Seq<Rc<SourceFile>>, path: FilePath) -> int
    decreases files.len(),
{
    if files.len() == 0 {
        -1
    } else if file_path_eq(files[0].path, path) {
        0
    } else {
        let r = find_file(files.drop_first(), path);
        if r < 0 {
            -1
        } else {
            1 + r
        }
    }
}

/// A found index points at a file with the path.
pub proof fn lemma_find_file_found(files: Seq<Rc<SourceFile>>, path: FilePath)
    requires
        find_file(files, path) >= 0,
    ensures
        find_file(files, path) < files.len(),
        file_path_eq(files[find_file(files, path)].path, path),
    decreases files.len(),
{
    if files.len() > 0 && find_file(files, path) != 0 {
        lemma_find_file_found(files.drop_first(), path);
    }
}

/// The first matching index is what `find_file` returns.
pub proof fn lemma_find_file_first(files: Seq<Rc<SourceFile>>, path: FilePath, i: int)
    requires
        0 <= i < files.len(),
        file_path_eq(files[i].path, path),
        forall|k: int| 0 <= k < i ==> !file_path_eq((#[trigger] files[k]).path, path),
    ensures
        find_file(files, path) == i,
    decreases files.len(),
{
    if i > 0 {
        assert(forall|k: int|
            0 <= k < files.drop_first().len() ==> (#[trigger] files.drop_first()[k]) == files[k
                + 1]);
        lemma_find_file_first(files.drop_first(), path, i - 1);
    }
}

/// A negative result means no file matches.
pub proof fn lemma_find_file_none(files: Seq<Rc<SourceFile>>, path: FilePath)
    requires
        find_file(files, path) < 0,
    ensures
        forall|k: int| 0 <= k < files.len() ==> !file_path_eq((#[trigger] files[k]).path, path),
    decreases files.len(),
{
    if files.len() > 0 {
        assert(forall|k: int|
            0 <= k < files.drop_first().len() ==> (#[trigger] files.drop_first()[k]) == files[k
                + 1]);
        lemma_find_file_none(files.drop_first(), path);
        assert forall|k: int|
            0 <= k < files.len() implies !file_path_eq((#[trigger] files[k]).path, path) by {
            if k > 0 {
                assert(files.drop_first()[k - 1] == files[k]);
            }
        }
    }
}

/// The source map: the files of a compilation in insertion order, and the
/// high-water mark of the position space. The map is append-only: a file
/// is never removed, so positions issued earlier stay resolvable for the
/// life of the map.
pub struct SourceMap {
    /// The first position not yet allocated to any file.
    pub used_pos_space: usize,
    /// The files, in insertion order; their intervals tile `[0,
    /// used_pos_space)` in order.
    pub files: Vec<Rc<SourceFile>>,
}

impl SourceMap {
    /// The start positions of the files, in insertion order.
    pub open spec fn starts(self) -> Seq<int> {
        self.files@.map_values(|f: Rc<SourceFile>| f.start_pos.index as int)
    }

    /// The index of the file whose interval position `p` falls into, or
    /// `-1` when `p` precedes every file (impossible for an allocated
    /// position).
    pub open spec fn file_idx_of(self, p: int) -> int {
        match lookup_line_spec(self.starts(), p) {
            Some(i) => i,
            None => -1,
        }
    }

    /// Every file is well formed; the files tile the used position space
    /// contiguously from zero, in order; and no two files share a path.
    pub open spec fn wf(self) -> bool {
        &&& forall|i: int| 0 <= i < self.files@.len() ==> (#[trigger] self.files@[i]).wf()
        &&& self.files@.len() > 0 ==> self.files@[0].start_pos.index == 0
        &&& forall|i: int|
            1 <= i < self.files@.len() ==> (#[trigger] self.files@[i]).start_pos.index
                == self.files@[i - 1].end_pos.index
        &&& forall|i: int|
            0 <= i < self.files@.len() ==> (#[trigger] self.files@[i]).end_pos.index
                <= self.used_pos_space
        &&& forall|i: int, j: int|
            0 <= i < j < self.files@.len() ==> (#[trigger] self.files@[i]).end_pos.index <= (
            #[trigger] self.files@[j]).start_pos.index
        &&& self.used_pos_space == if self.files@.len() == 0 {
            0int
        } else {
            self.files@[self.files@.len() - 1].end_pos.index as int
        }
        &&& forall|i: int, j: int|
            0 <= i < j < self.files@.len() ==> !file_path_eq(
                (#[trigger] self.files@[i]).path,
                (#[trigger] self.files@[j]).path,
            )
    }

    /// Creates an empty source map.
    pub fn new() -> (m: SourceMap)
        ensures
            m.wf(),
            m.files@.len() == 0,
            m.used_pos_space == 0,
    {
        SourceMap { used_pos_space: 0, files: Vec::new() }
    }

    /// Allocates `size` fresh units of the position space and returns
    /// their first index. Positions are never reused.
    fn allocate_pos_space(&mut self, size: usize) -> (p: usize)
        requires
            old(self).used_pos_space + size <= usize::MAX,
        ensures
            p == old(self).used_pos_space,
            final(self).used_pos_space == old(self).used_pos_space + size,
            final(self).files == old(self).files,
    {
        let p = self.used_pos_space;
        self.used_pos_space = self.used_pos_space + size;
        p
    }

    /// Returns the file registered under the given path, if any.
    pub fn lookup_file_by_path(&self, path: &FilePath) -> (r: Option<Rc<SourceFile>>)
        requires
            self.wf(),
        ensures
            find_file(self.files@, *path) >= 0 ==> (r matches Some(f) && f == self.files@[
                find_file(self.files@, *path)]),
            find_file(self.files@, *path) < 0 ==> r is None,
    {
        let n = self.files.len();
        let mut i: usize = 0;
        while i < n
            invariant
                i <= n,
                n == self.files@.len(),
                self.wf(),
                forall|k: int|
                    0 <= k < i ==> !file_path_eq((#[trigger] self.files@[k]).path, *path),
            decreases n - i,
        {
            if self.files[i].path().eq(path) {
                proof {
                    lemma_find_file_first(self.files@, *path, i as int);
                }
                return Some(rc_clone(&self.files[i]));
            }
            i = i + 1;
        }
        proof {
            if find_file(self.files@, *path) >= 0 {
                lemma_find_file_found(self.files@, *path);
            }
        }
        None
    }

    /// Registers source text under a path: returns the already-registered
    /// file if the path is present (the text argument is then ignored),
    /// otherwise allocates the next slice of the position space and builds
    /// the file there.
    pub fn register_file(&mut self, path: FilePath, src: String) -> (r: Rc<SourceFile>)
        requires
            old(self).wf(),
            old(self).used_pos_space + byte_len(src@) <= usize::MAX,
        ensures
            final(self).wf(),
            find_file(old(self).files@, path) >= 0 ==> ({
                &&& *final(self) == *old(self)
                &&& r == old(self).files@[find_file(old(self).files@, path)]
            }),
            find_file(old(self).files@, path) < 0 ==> ({
                &&& final(self).files@ == old(self).files@.push(r)
                &&& r.wf()
                &&& file_path_eq(r.path, path)
                &&& r.src == src
                &&& r.start_pos.index == old(self).used_pos_space
                &&& r.end_pos.index == old(self).used_pos_space + byte_len(src@)
                &&& final(self).used_pos_space == old(self).used_pos_space + byte_len(src@)
            }),
    {
        if let Some(f) = self.lookup_file_by_path(&path) {
            proof {
                lemma_find_file_found(self.files@, path);
            }
            return f;
        }
        proof {
            lemma_find_file_none(self.files@, path);
        }
        let len = crate::text::byte_len_exec(src.as_str());
        let start = self.allocate_pos_space(len);
        let file = Rc::new(SourceFile::new(path, src, Pos { index: start }));
        let r = rc_clone(&file);
        self.files.push(file);
        proof {
            assert(forall|i: int|
                0 <= i < old(self).files@.len() ==> #[trigger] self.files@[i] == old(
                    self,
                ).files@[i]);
        }
        r
    }

    /// Adds a virtual source file with the given name and source text,
    /// returning the registered file if the name was loaded before.
    pub fn load_virtual_file(&mut self, name: String, src: String) -> (r: Rc<SourceFile>)
        requires
            old(self).wf(),
            old(self).used_pos_space + byte_len(src@) <= usize::MAX,
        ensures
            final(self).wf(),
            find_file(old(self).files@, FilePath::Virtual(name)) >= 0 ==> ({
                &&& *final(self) == *old(self)
                &&& r == old(self).files@[find_file(old(self).files@, FilePath::Virtual(name))]
            }),
            find_file(old(self).files@, FilePath::Virtual(name)) < 0 ==> ({
                &&& final(self).files@ == old(self).files@.push(r)
                &&& r.wf()
                &&& file_path_eq(r.path, FilePath::Virtual(name))
                &&& r.src == src
                &&& r.start_pos.index == old(self).used_pos_space
                &&& r.end_pos.index == old(self).used_pos_space + byte_len(src@)
                &&& final(self).used_pos_space == old(self).used_pos_space + byte_len(src@)
            }),
    {
        self.register_file(FilePath::Virtual(name), src)
    }

    /// Finds the file containing the given position: the one whose
    /// interval `pos` falls into. The end of the space resolves to the
    /// last file, whose one-past-the-end position it is.
    pub fn lookup_file(&self, pos: Pos) -> (r: Rc<SourceFile>)
        requires
            self.wf(),
            self.files@.len() > 0,
            pos.index <= self.used_pos_space,
        ensures
            0 <= self.file_idx_of(pos.index as int) < self.files@.len(),
            r == self.files@[self.file_idx_of(pos.index as int)],
            r.wf(),
            r.contains_spec(pos),
    {
        proof {
            lemma_pos_monotonic(*self);
        }
        let n = self.files.len();
        let mut lo: usize = 0;
        let mut hi: usize = n - 1;
        while lo < hi
            invariant
                self.wf(),
                n == self.files@.len(),
                lo <= hi < n,
                self.starts()[lo as int] <= pos.index,
                hi == n - 1 || pos.index < self.starts()[hi + 1],
            decreases hi - lo,
        {
            let mid = lo + (hi - lo + 1) / 2;
            if self.files[mid].start_pos.to_usize() <= pos.to_usize() {
                lo = mid;
            } else {
                hi = mid - 1;
            }
        }
        proof {
            lemma_lookup_line_at_le(self.starts(), pos.index as int, lo as int);
            assert(self.files@[lo as int].contains_spec(pos)) by {
                if lo < n - 1 {
                    assert(self.files@[lo + 1].start_pos.index == self.files@[
                        lo as int].end_pos.index);
                }
            }
        }
        rc_clone(&self.files[lo])
    }

    /// Composes the file lookup with the file's line and column lookup:
    /// the file, 1-based line, 0-based character column, and 0-based
    /// display column of a position.
    pub fn lookup_pos_info(&self, pos: Pos) -> (r: PosInfo)
        requires
            self.wf(),
            self.files@.len() > 0,
            pos.index <= self.used_pos_space,
            ({
                let f = self.files@[self.file_idx_of(pos.index as int)];
                &&& self.file_idx_of(pos.index as int) >= 0
                &&& is_boundary(f.src@, pos.index - f.start_pos.index)
                &&& width_of(f.src@) <= usize::MAX
            }),
        ensures
            ({
                let f = self.files@[self.file_idx_of(pos.index as int)];
                let ls = f.lines_int();
                let p = pos.index as int;
                let start = f.start_pos.index as int;
                &&& r.file == f
                &&& match lookup_line_spec(ls, p) {
                    Some(line) => {
                        let c1 = cut(f.src@, ls[line] - start);
                        let c2 = cut(f.src@, p - start);
                        r.line == line + 1 && r.col == c2 - c1 && r.col_display == width_of(
                            f.src@.subrange(c1, c2),
                        )
                    },
                    None => r.line == 0 && r.col == 0 && r.col_display == 0,
                }
            }),
    {
        let sf = self.lookup_file(pos);
        let (line, col, col_display) = sf.lookup_line_col_and_col_display(pos);
        PosInfo::new(sf, line, col, col_display)
    }

    /// Returns the text covered by a span that lies entirely within one
    /// file, whose boundaries fall on character boundaries.
    pub fn lookup_source(&self, span: Span) -> (r: String)
        requires
            self.wf(),
            self.files@.len() > 0,
            span.start.index <= span.end.index,
            span.end.index <= self.used_pos_space,
            ({
                let f = self.files@[self.file_idx_of(span.start.index as int)];
                &&& self.file_idx_of(span.start.index as int) >= 0
                &&& span.end.index <= f.end_pos.index
                &&& is_boundary(f.src@, span.start.index - f.start_pos.index)
                &&& is_boundary(f.src@, span.end.index - f.start_pos.index)
            }),
        ensures
            ({
                let f = self.files@[self.file_idx_of(span.start.index as int)];
                r@ == byte_sub(
                    f.src@,
                    span.start.index - f.start_pos.index,
                    span.end.index - f.start_pos.index,
                )
            }),
    {
        let file = self.lookup_file(span.start());
        let rel_start = span.start().to_usize() - file.start_pos.to_usize();
        let rel_end = span.end().to_usize() - file.start_pos.to_usize();
        proof {
            crate::text::lemma_cut_boundary(file.src@, rel_start as int);
            crate::text::lemma_cut_boundary(file.src@, rel_end as int);
            crate::text::lemma_byte_len_bounds(file.src@);
        }
        let c1 = crate::text::byte_to_char_index(file.src.as_str(), rel_start);
        let c2 = crate::text::byte_to_char_index(file.src.as_str(), rel_end);
        proof {
            crate::text::lemma_cut_mono(file.src@, rel_start as int, rel_end as int);
        }
        let sub = file.src.as_str().substring_char(c1, c2);
        sub.to_owned()
    }
}

/// Position monotonicity: files loaded later occupy later intervals. For
/// any two files in load order, the first ends at or before the second
/// starts, and each file's interval is ordered; so the start positions
/// ascend in load order.
pub proof fn lemma_pos_monotonic(m: SourceMap)
    requires
        m.wf(),
    ensures
        forall|i: int, j: int|
            0 <= i < j < m.files@.len() ==> (#[trigger] m.files@[i]).end_pos.index <= (
            #[trigger] m.files@[j]).start_pos.index,
        forall|i: int|
            0 <= i < m.files@.len() ==> (#[trigger] m.files@[i]).start_pos.index <= m.files@[
                i].end_pos.index,
        sorted_le(m.starts()),
{
    assert forall|i: int| 0 <= i < m.files@.len() implies (
    #[trigger] m.files@[i]).start_pos.index <= m.files@[i].end_pos.index by {
        assert(m.files@[i].wf());
    }
}

/// Non-strictly ascending integer entries.
pub open spec fn sorted_le(xs: Seq<int>) -> bool {
    forall|k1: int, k2: int| 0 <= k1 < k2 < xs.len() ==> xs[k1] <= xs[k2]
}

/// In a non-strictly sorted index, the greatest index whose entry is at or
/// before `pos` is the lookup's answer.
pub proof fn lemma_lookup_line_at_le(lines: Seq<int>, pos: int, i: int)
    requires
        sorted_le(lines),
        0 <= i < lines.len(),
        lines[i] <= pos,
        i == lines.len() - 1 || pos < lines[i + 1],
    ensures
        lookup_line_spec(lines, pos) == Some(i),
    decreases lines.len(),
{
    if lines[lines.len() - 1] <= pos {
        if i < lines.len() - 1 {
            assert(lines[i + 1] <= lines[lines.len() - 1]);
            assert(false);
        }
    } else {
        let l2 = lines.drop_last();
        assert(i < lines.len() - 1);
        assert(forall|k: int| 0 <= k < l2.len() ==> l2[k] == lines[k]);
        assert(sorted_le(l2));
        lemma_lookup_line_at_le(l2, pos, i);
    }
}

} // verus!
