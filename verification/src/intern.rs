//! Symbol interning: a bidirectional mapping between strings and small
//! sequential integer handles. Interning the same string twice returns the
//! same handle, and looking a handle up returns exactly the interned string.

use vstd::prelude::*;

verus! {

/// A handle for an interned string, unique per distinct string.
#[derive(PartialEq, Eq, Structural, Hash, Clone, Copy, Debug)]
pub struct IntStr {
    pub id: usize,
}

impl IntStr {
    /// The numeric value of the handle.
    pub open spec fn sid(self) -> int {
        self.id as int
    }

    /// Handle equality; under one interner this is string equality.
    pub fn eq_id(&self, other: &IntStr) -> (r: bool)
        ensures
            r == (self.sid() == other.sid()),
    {
        self.id == other.id
    }
}

/// The position of the first occurrence of `s` in `tab` at or after `i`,
/// or `tab.len()` if there is none.
pub open spec fn first_index_from(tab: Seq<Seq<char>>, s: Seq<char>, i: int) -> int
    recommends
        0 <= i <= tab.len(),
    decreases tab.len() - i,
{
    if i >= tab.len() {
        tab.len() as int
    } else if tab[i] == s {
        i
    } else {
        first_index_from(tab, s, i + 1)
    }
}

/// The position of the first occurrence of `s` in `tab`, or `tab.len()`
/// if `s` does not occur.
pub open spec fn first_index(tab: Seq<Seq<char>>, s: Seq<char>) -> int {
    first_index_from(tab, s, 0)
}

/// The table after interning `s`: unchanged when `s` is already present,
/// extended by `s` otherwise.
pub open spec fn interned_table(tab: Seq<Seq<char>>, s: Seq<char>) -> Seq<Seq<char>> {
    if first_index(tab, s) < tab.len() {
        tab
    } else {
        tab.push(s)
    }
}

/// The handle that interning `s` into `tab` yields.
pub open spec fn interned_id(tab: Seq<Seq<char>>, s: Seq<char>) -> int {
    first_index(tab, s)
}

pub proof fn lemma_first_index_from_bounds(tab: Seq<Seq<char>>, s: Seq<char>, i: int)
    requires
        0 <= i <= tab.len(),
    ensures
        i <= first_index_from(tab, s, i) <= tab.len(),
        first_index_from(tab, s, i) < tab.len() ==> tab[first_index_from(tab, s, i)] == s,
        forall|j: int| i <= j < first_index_from(tab, s, i) ==> tab[j] != s,
    decreases tab.len() - i,
{
    if i < tab.len() && tab[i] != s {
        lemma_first_index_from_bounds(tab, s, i + 1);
    }
}

pub proof fn lemma_first_index_from_skip(tab: Seq<Seq<char>>, s: Seq<char>, i: int, k: int)
    requires
        0 <= i <= k <= tab.len(),
        forall|j: int| i <= j < k ==> tab[j] != s,
    ensures
        first_index_from(tab, s, i) == first_index_from(tab, s, k),
    decreases k - i,
{
    if i < k {
        lemma_first_index_from_skip(tab, s, i + 1, k);
    }
}

/// One interner table extends another: every handle the old table assigned
/// is kept, with its string.
pub open spec fn table_extends(a: Seq<Seq<char>>, b: Seq<Seq<char>>) -> bool {
    &&& b.len() >= a.len()
    &&& forall|i: int| 0 <= i < a.len() ==> b[i] == a[i]
}

/// Interning leaves every previously assigned handle and string unchanged:
/// the old table is a prefix of the new one.
pub proof fn lemma_interned_table_extends(tab: Seq<Seq<char>>, s: Seq<char>)
    ensures
        tab.len() <= interned_table(tab, s).len(),
        forall|j: int| 0 <= j < tab.len() ==> interned_table(tab, s)[j] == tab[j],
{
    lemma_first_index_from_bounds(tab, s, 0);
}

/// Looking up the handle that interning returned yields the interned string
/// itself: over the table model, `lookup(intern(s)) == s`.
pub proof fn lemma_lookup_after_intern(tab: Seq<Seq<char>>, s: Seq<char>)
    ensures
        0 <= interned_id(tab, s) < interned_table(tab, s).len(),
        interned_table(tab, s)[interned_id(tab, s)] == s,
{
    lemma_first_index_from_bounds(tab, s, 0);
}

/// Interning is deterministic: a second interning of the same string changes
/// nothing and yields the same handle, so `intern(s) == intern(s)`.
pub proof fn lemma_intern_deterministic(tab: Seq<Seq<char>>, s: Seq<char>)
    ensures
        interned_table(interned_table(tab, s), s) == interned_table(tab, s),
        interned_id(interned_table(tab, s), s) == interned_id(tab, s),
{
    lemma_first_index_from_bounds(tab, s, 0);
    let t2 = interned_table(tab, s);
    lemma_first_index_from_bounds(t2, s, 0);
    let k = first_index(tab, s);
    if k < tab.len() {
        assert(t2 == tab);
    } else {
        assert(t2 == tab.push(s));
        assert(forall|j: int| 0 <= j < k ==> t2[j] != s);
        lemma_first_index_from_skip(t2, s, 0, k);
        assert(t2[k] == s);
    }
}

/// The symbol interner: handles are assigned sequentially from 0 and are
/// never reused or invalidated.
pub struct Manager {
    tab: Vec<String>,
}

impl Manager {
    /// The interned strings, in order of first interning; the handle of a
    /// string is its position here.
    pub closed spec fn strings(&self) -> Seq<Seq<char>> {
        self.tab@.map(|i: int, s: String| s@)
    }

    /// No string is interned twice.
    pub open spec fn wf(&self) -> bool {
        forall|i: int, j: int|
            0 <= i < j < self.strings().len() ==> self.strings()[i] != self.strings()[j]
    }

    pub fn new() -> (m: Manager)
        ensures
            m.wf(),
            m.strings() == Seq::<Seq<char>>::empty(),
    {
        let m = Manager { tab: Vec::new() };
        proof {
            assert(m.strings() =~= Seq::<Seq<char>>::empty());
        }
        m
    }

    /// Returns the existing handle on an exact match, else assigns the next
    /// sequential handle.
    pub fn intern(&mut self, s: String) -> (r: IntStr)
        requires
            old(self).wf(),
        ensures
            final(self).wf(),
            final(self).strings() == interned_table(old(self).strings(), s@),
            r.sid() == interned_id(old(self).strings(), s@),
            0 <= r.sid() < final(self).strings().len(),
            final(self).strings()[r.sid()] == s@,
    {
        proof {
            lemma_first_index_from_bounds(old(self).strings(), s@, 0);
        }
        let ghost tab0 = self.strings();
        let n = self.tab.len();
        let mut i: usize = 0;
        while i < n
            invariant
                n == tab0.len(),
                self.strings() == tab0,
                self.wf(),
                0 <= i <= n,
                forall|j: int| 0 <= j < i ==> tab0[j] != s@,
            decreases n - i,
        {
            if self.tab[i] == s {
                proof {
                    lemma_first_index_from_skip(tab0, s@, 0, i as int);
                }
                return IntStr { id: i };
            }
            i += 1;
        }
        proof {
            lemma_first_index_from_skip(tab0, s@, 0, n as int);
        }
        self.tab.push(s);
        proof {
            assert(self.strings() =~= tab0.push(s@));
            assert(self.wf());
        }
        IntStr { id: n }
    }

    /// The string a handle was assigned for, by direct index.
    pub fn lookup(&self, i: IntStr) -> (r: String)
        requires
            0 <= i.sid() < self.strings().len(),
        ensures
            r@ == self.strings()[i.sid()],
    {
        self.tab[i.id].clone()
    }
}

/// An earlier, plainer shape of the interner whose handles are bare indices.
pub struct IntStrManager {
    tab: Vec<String>,
}

impl IntStrManager {
    /// The interned strings, in order of first insertion.
    pub closed spec fn strings(&self) -> Seq<Seq<char>> {
        self.tab@.map(|i: int, s: String| s@)
    }

    /// No string is interned twice.
    pub open spec fn wf(&self) -> bool {
        forall|i: int, j: int|
            0 <= i < j < self.strings().len() ==> self.strings()[i] != self.strings()[j]
    }

    pub fn new() -> (m: IntStrManager)
        ensures
            m.wf(),
            m.strings() == Seq::<Seq<char>>::empty(),
    {
        let m = IntStrManager { tab: Vec::new() };
        proof {
            assert(m.strings() =~= Seq::<Seq<char>>::empty());
        }
        m
    }

    /// Returns the existing index on an exact match, else the next one.
    pub fn insert(&mut self, k: String) -> (r: usize)
        requires
            old(self).wf(),
        ensures
            final(self).wf(),
            final(self).strings() == interned_table(old(self).strings(), k@),
            r as int == interned_id(old(self).strings(), k@),
            r < final(self).strings().len(),
            final(self).strings()[r as int] == k@,
    {
        proof {
            lemma_first_index_from_bounds(old(self).strings(), k@, 0);
        }
        let ghost tab0 = self.strings();
        let n = self.tab.len();
        let mut i: usize = 0;
        while i < n
            invariant
                n == tab0.len(),
                self.strings() == tab0,
                self.wf(),
                0 <= i <= n,
                forall|j: int| 0 <= j < i ==> tab0[j] != k@,
            decreases n - i,
        {
            if self.tab[i] == k {
                proof {
                    lemma_first_index_from_skip(tab0, k@, 0, i as int);
                }
                return i;
            }
            i += 1;
        }
        proof {
            lemma_first_index_from_skip(tab0, k@, 0, n as int);
        }
        self.tab.push(k);
        proof {
            assert(self.strings() =~= tab0.push(k@));
        }
        n
    }

    /// The string an index was assigned for.
    pub fn lookup(&self, i: usize) -> (r: String)
        requires
            i < self.strings().len(),
        ensures
            r@ == self.strings()[i as int],
    {
        self.tab[i].clone()
    }
}

} // verus!
