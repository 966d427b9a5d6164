//! A string interner: deduplicates strings into cheap comparable handles.

use vstd::prelude::*;

use crate::symbol::Symbol;

verus! {

/// The index of the first entry of `tbl` equal to `s`, or `-1` when no entry
/// is.
pub open spec fn find_str(tbl: Seq<Seq<char>>, s: Seq<char>) -> int
    decreases tbl.len(),
{
    if tbl.len() == 0 {
        -1
    } else if tbl[0] == s {
        0
    } else {
        let r = find_str(tbl.drop_first(), s);
        if r < 0 {
            -1
        } else {
            1 + r
        }
    }
}

/// What interning does to a table: an already-present string leaves the
/// table unchanged and yields the index of its first occurrence; a new
/// string is appended and yields the new index.
pub open spec fn intern_spec(tbl: Seq<Seq<char>>, s: Seq<char>) -> (Seq<Seq<char>>, int) {
    let r = find_str(tbl, s);
    if r >= 0 {
        (tbl, r)
    } else {
        (tbl.push(s), tbl.len() as int)
    }
}

/// A table is well formed when no string appears twice: interning is then
/// canonical, equal strings always yield equal symbols.
pub open spec fn wf_table(tbl: Seq<Seq<char>>) -> bool {
    forall|i: int, j: int| 0 <= i < j < tbl.len() ==> tbl[i] != tbl[j]
}

/// A found index points at a matching entry.
pub proof fn lemma_find_str_found(tbl: Seq<Seq<char>>, s: Seq<char>)
    requires
        find_str(tbl, s) >= 0,
    ensures
        find_str(tbl, s) < tbl.len(),
        tbl[find_str(tbl, s)] == s,
    decreases tbl.len(),
{
    if tbl.len() > 0 && tbl[0] != s {
        lemma_find_str_found(tbl.drop_first(), s);
    }
}

/// A negative result means no entry matches.
pub proof fn lemma_find_str_none(tbl: Seq<Seq<char>>, s: Seq<char>)
    requires
        find_str(tbl, s) < 0,
    ensures
        forall|k: int| 0 <= k < tbl.len() ==> tbl[k] != s,
    decreases tbl.len(),
{
    if tbl.len() > 0 {
        lemma_find_str_none(tbl.drop_first(), s);
        assert(forall|k: int|
            1 <= k < tbl.len() ==> tbl[k] == tbl.drop_first()[k - 1] && tbl[k] != s);
    }
}

/// The first matching index is what `find_str` returns.
pub proof fn lemma_find_str_first(tbl: Seq<Seq<char>>, s: Seq<char>, i: int)
    requires
        0 <= i < tbl.len(),
        tbl[i] == s,
        forall|k: int| 0 <= k < i ==> tbl[k] != s,
    ensures
        find_str(tbl, s) == i,
    decreases tbl.len(),
{
    if i > 0 {
        assert(tbl.drop_first()[i - 1] == s);
        assert(forall|k: int|
            0 <= k < i - 1 ==> tbl.drop_first()[k] == tbl[k + 1] && tbl.drop_first()[k] != s);
        lemma_find_str_first(tbl.drop_first(), s, i - 1);
    }
}

/// Interning is idempotent: interning the same string twice yields the same
/// symbol and leaves the table as the first call left it, and the table
/// entry at the returned index is the interned string, so resolving the
/// symbol gives the string back.
pub proof fn lemma_intern_idempotent(tbl: Seq<Seq<char>>, s: Seq<char>)
    requires
        wf_table(tbl),
    ensures
        ({
            let (t1, i1) = intern_spec(tbl, s);
            let (t2, i2) = intern_spec(t1, s);
            &&& t2 == t1
            &&& i2 == i1
            &&& 0 <= i1 < t1.len()
            &&& t1[i1] == s
            &&& wf_table(t1)
        }),
{
    let r = find_str(tbl, s);
    if r >= 0 {
        lemma_find_str_found(tbl, s);
    } else {
        lemma_find_str_none(tbl, s);
        let t1 = tbl.push(s);
        assert(forall|k: int| 0 <= k < tbl.len() ==> t1[k] == tbl[k]);
        lemma_find_str_first(t1, s, tbl.len() as int);
        assert(wf_table(t1));
    }
}

/// A table of interned strings. Strings are stored once and never removed;
/// a [`Symbol`] is an index into the table.
pub struct Interner {
    /// The interned strings, in insertion order.
    pub storage: Vec<String>,
}

impl Interner {
    /// The strings held by the interner, in insertion order.
    pub open spec fn strings(self) -> Seq<Seq<char>> {
        Seq::new(self.storage@.len(), |i: int| self.storage@[i]@)
    }

    /// No string appears twice in the table.
    pub open spec fn wf(self) -> bool {
        wf_table(self.strings())
    }

    /// Creates an empty interner.
    pub fn new() -> (r: Interner)
        ensures
            r.strings().len() == 0,
            r.wf(),
    {
        Interner { storage: Vec::new() }
    }

    /// Returns the symbol of the given string: the existing one if the
    /// string was interned before (byte-for-byte equality), otherwise the
    /// next index, under which an owned copy of the string is stored.
    pub fn intern(&mut self, string: &str) -> (sym: Symbol)
        requires
            old(self).wf(),
            old(self).strings().len() < u32::MAX,
        ensures
            final(self).wf(),
            (final(self).strings(), sym.id as int) == intern_spec(
                old(self).strings(),
                string@,
            ),
            final(self).strings()[sym.id as int] == string@,
            sym.id < final(self).strings().len(),
    {
        proof {
            lemma_intern_idempotent(old(self).strings(), string@);
        }
        let key: String = string.to_owned();
        let n = self.storage.len();
        let mut i: usize = 0;
        while i < n
            invariant
                i <= n,
                n == self.storage.len(),
                n < u32::MAX,
                *self == *old(self),
                old(self).wf(),
                key@ == string@,
                forall|k: int| 0 <= k < i ==> self.strings()[k] != string@,
            decreases n - i,
        {
            let hit = self.storage[i].eq(&key);
            if hit {
                proof {
                    lemma_find_str_first(self.strings(), string@, i as int);
                }
                return Symbol { id: i as u32 };
            }
            i = i + 1;
        }
        proof {
            if find_str(self.strings(), string@) >= 0 {
                lemma_find_str_found(self.strings(), string@);
            }
        }
        self.storage.push(key);
        proof {
            assert(self.strings() =~= old(self).strings().push(string@));
        }
        Symbol { id: n as u32 }
    }

    /// Resolves a symbol: returns the string interned under it. A symbol
    /// not produced by this interner is a programming error; the bound is
    /// a precondition, not a recoverable condition.
    pub fn get(&self, symbol: Symbol) -> (r: &str)
        requires
            symbol.id < self.strings().len(),
        ensures
            r@ == self.strings()[symbol.id as int],
    {
        self.storage[symbol.id as usize].as_str()
    }
}

} // verus!
