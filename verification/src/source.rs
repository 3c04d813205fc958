//! The source registry: maps canonical file paths to small integer
//! identifiers and owns one entry per distinct path. Path resolution and
//! canonicalization are the caller's concern.

use vstd::prelude::*;

use crate::intern::first_index;
use crate::intern::first_index_from;
use crate::intern::interned_id;
use crate::intern::interned_table;
use crate::intern::lemma_first_index_from_bounds;
use crate::intern::lemma_first_index_from_skip;

verus! {

/// An opaque identifier for one source unit.
#[derive(PartialEq, Eq, Structural, Clone, Copy, Debug)]
pub struct SourceID {
    pub idx: usize,
}

impl SourceID {
    /// The numeric value of the identifier.
    pub open spec fn sidx(self) -> int {
        self.idx as int
    }
}

/// One registered source unit.
pub struct Source {
    filepath: String,
}

impl Source {
    pub closed spec fn path(&self) -> Seq<char> {
        self.filepath@
    }

    pub fn new(filepath: String) -> (s: Source)
        ensures
            s.path() == filepath@,
    {
        Source { filepath }
    }

    pub fn filepath(&self) -> (p: &String)
        ensures
            p@ == self.path(),
    {
        &self.filepath
    }
}

/// The registry of source units, one per distinct canonical path.
pub struct Manager {
    source_table: Vec<Source>,
}

impl Manager {
    /// The registered paths, in order of registration; the identifier of a
    /// path is its position here.
    pub closed spec fn paths(&self) -> Seq<Seq<char>> {
        self.source_table@.map(|i: int, s: Source| s.path())
    }

    /// No path is registered twice.
    pub open spec fn wf(&self) -> bool {
        forall|i: int, j: int|
            0 <= i < j < self.paths().len() ==> self.paths()[i] != self.paths()[j]
    }

    pub fn new() -> (m: Manager)
        ensures
            m.wf(),
            m.paths() == Seq::<Seq<char>>::empty(),
    {
        let m = Manager { source_table: Vec::new() };
        proof {
            assert(m.paths() =~= Seq::<Seq<char>>::empty());
        }
        m
    }

    /// Registers a path known not to be present yet.
    pub fn add_fresh(&mut self, filepath: String) -> (r: SourceID)
        requires
            old(self).wf(),
            forall|j: int| 0 <= j < old(self).paths().len() ==> old(self).paths()[j] != filepath@,
        ensures
            final(self).wf(),
            final(self).paths() == old(self).paths().push(filepath@),
            r.sidx() == old(self).paths().len(),
    {
        let n = self.source_table.len();
        self.source_table.push(Source::new(filepath));
        proof {
            assert(self.paths() =~= old(self).paths().push(filepath@));
        }
        SourceID { idx: n }
    }

    /// Returns the existing identifier when the path was registered before,
    /// else registers it. The path is taken as already canonical.
    pub fn add(&mut self, filepath: String) -> (r: SourceID)
        requires
            old(self).wf(),
        ensures
            final(self).wf(),
            final(self).paths() == interned_table(old(self).paths(), filepath@),
            r.sidx() == interned_id(old(self).paths(), filepath@),
            0 <= r.sidx() < final(self).paths().len(),
            final(self).paths()[r.sidx()] == filepath@,
    {
        proof {
            lemma_first_index_from_bounds(old(self).paths(), filepath@, 0);
        }
        let ghost tab0 = self.paths();
        let n = self.source_table.len();
        let mut i: usize = 0;
        while i < n
            invariant
                n == tab0.len(),
                self.paths() == tab0,
                self.wf(),
                0 <= i <= n,
                forall|j: int| 0 <= j < i ==> tab0[j] != filepath@,
            decreases n - i,
        {
            if self.source_table[i].filepath == filepath {
                proof {
                    lemma_first_index_from_skip(tab0, filepath@, 0, i as int);
                }
                return SourceID { idx: i };
            }
            i += 1;
        }
        proof {
            lemma_first_index_from_skip(tab0, filepath@, 0, n as int);
        }
        self.add_fresh(filepath)
    }

    /// The source unit an identifier was assigned for.
    pub fn get(&self, sid: SourceID) -> (r: &Source)
        requires
            0 <= sid.sidx() < self.paths().len(),
        ensures
            r.path() == self.paths()[sid.sidx()],
    {
        &self.source_table[sid.idx]
    }
}

} // verus!
