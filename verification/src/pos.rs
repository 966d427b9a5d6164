//! A position in the global source space.

use vstd::prelude::*;

verus! {

/// A byte position in the global source space shared by all files of a
/// [`crate::source_map::SourceMap`].
///
/// Each file is assigned a contiguous, disjoint interval of the space, so a
/// `Pos` identifies both a file and a byte offset within it. Two positions
/// are never added to each other — only an unsigned byte offset can be added
/// to or subtracted from a `Pos` — which keeps positions from unrelated
/// coordinate systems from being mixed by accident.
#[derive(Clone, Copy, Debug, Hash, PartialEq, Eq, Structural)]
pub struct Pos {
    /// The byte index into the global source space.
    pub index: usize,
}

impl Pos {
    /// Creates a new `Pos` with the given index. This is an unchecked
    /// conversion: nothing ties the index to a loaded file.
    #[inline(always)]
    pub fn from_usize(index: usize) -> (p: Pos)
        ensures
            p.index == index,
    {
        Pos { index }
    }

    /// Returns the inner index of the `Pos`.
    #[inline(always)]
    pub fn to_usize(self) -> (n: usize)
        ensures
            n == self.index,
    {
        self.index
    }

    /// Returns the position `n` bytes after this one.
    #[inline(always)]
    pub fn offset_by(self, n: usize) -> (p: Pos)
        requires
            self.index + n <= usize::MAX,
        ensures
            p.index == self.index + n,
    {
        Pos { index: self.index + n }
    }

    /// Returns the position `n` bytes before this one.
    #[inline(always)]
    pub fn sub(self, n: usize) -> (p: Pos)
        requires
            n <= self.index,
        ensures
            p.index == self.index - n,
    {
        Pos { index: self.index - n }
    }
}

} // verus!
