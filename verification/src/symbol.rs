//! An interned string handle.

use vstd::prelude::*;

use crate::interner::{intern_spec, Interner};

verus! {

/// A handle standing in for an interned string, enabling O(1) equality
/// comparison. Equal strings always receive equal symbols from one
/// [`Interner`].
#[derive(Clone, Copy, Debug, Hash, PartialEq, Eq, Structural)]
pub struct Symbol {
    /// The index of the string in the interner's table.
    pub id: u32,
}

impl Symbol {
    /// Creates a symbol with the given raw index.
    pub fn new(id: u32) -> (s: Symbol)
        ensures
            s.id == id,
    {
        Symbol { id }
    }

    /// Interns the string in the given interner and returns its symbol.
    pub fn intern(interner: &mut Interner, string: &str) -> (sym: Symbol)
        requires
            old(interner).wf(),
            old(interner).strings().len() < u32::MAX,
        ensures
            final(interner).wf(),
            (final(interner).strings(), sym.id as int) == intern_spec(
                old(interner).strings(),
                string@,
            ),
            final(interner).strings()[sym.id as int] == string@,
            sym.id < final(interner).strings().len(),
    {
        interner.intern(string)
    }

    /// Returns an owned copy of the string this symbol stands for.
    pub fn to_string(&self, interner: &Interner) -> (r: String)
        requires
            self.id < interner.strings().len(),
        ensures
            r@ == interner.strings()[self.id as int],
    {
        interner.get(*self).to_owned()
    }
}

} // verus!
