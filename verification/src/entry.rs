//! Entry identifiers: paths from the root of the panel tree.

use vstd::prelude::*;

verus! {

/// One step of an entry path: the summary row of a panel, or its `i`-th slot.
#[derive(Clone, Copy, Debug, PartialEq, Eq, Structural)]
pub enum EntryIndex {
    Summary,
    Slot(u64),
}

/// A path from the root panel to an entry.
#[derive(Clone, Debug)]
pub struct EntryID(pub Vec<EntryIndex>);

impl View for EntryID {
    type V = Seq<EntryIndex>;

    open spec fn view(&self) -> Seq<EntryIndex> {
        self.0@
    }
}

impl EntryID {
    /// The root entry (the empty path).
    pub fn root() -> (r: EntryID)
        ensures
            r@ == Seq::<EntryIndex>::empty(),
    {
        EntryID(Vec::new())
    }

    /// A copy of this path.
    pub fn copied(&self) -> (r: EntryID)
        ensures
            r@ == self@,
    {
        EntryID(self.0.clone())
    }

    /// This entry's `index`-th slot.
    pub fn child(&self, index: u64) -> (r: EntryID)
        ensures
            r@ == self@.push(EntryIndex::Slot(index)),
    {
        let mut v = self.0.clone();
        v.push(EntryIndex::Slot(index));
        EntryID(v)
    }

    /// This entry's summary row.
    pub fn summary(&self) -> (r: EntryID)
        ensures
            r@ == self@.push(EntryIndex::Summary),
    {
        let mut v = self.0.clone();
        v.push(EntryIndex::Summary);
        EntryID(v)
    }

    /// The last step of the path, if any.
    pub fn last_index(&self) -> (r: Option<EntryIndex>)
        ensures
            r == (if self@.len() > 0 { Some(self@.last()) } else { None }),
    {
        if self.0.len() > 0 {
            Some(self.0[self.0.len() - 1])
        } else {
            None
        }
    }

    /// The index of the last step, where that step is a slot.
    pub fn last_slot_index(&self) -> (r: Option<u64>)
        ensures
            r == (if self@.len() > 0 && self@.last() is Slot {
                Some(self@.last()->Slot_0)
            } else {
                None
            }),
    {
        if self.0.len() > 0 {
            match self.0[self.0.len() - 1] {
                EntryIndex::Slot(i) => Some(i),
                EntryIndex::Summary => None,
            }
        } else {
            None
        }
    }

    /// The depth of the entry: the number of steps of its path.
    pub fn level(&self) -> (r: u64)
        ensures
            r == self@.len(),
    {
        self.0.len() as u64
    }

    /// Whether two paths are the same.
    pub fn same(&self, other: &EntryID) -> (r: bool)
        ensures
            r == (self@ == other@),
    {
        if self.0.len() != other.0.len() {
            return false;
        }
        let mut i: usize = 0;
        while i < self.0.len()
            invariant
                i <= self.0@.len(),
                self.0@.len() == other.0@.len(),
                forall|j: int| 0 <= j < i ==> self.0@[j] == other.0@[j],
            decreases self.0@.len() - i,
        {
            if self.0[i] != other.0[i] {
                return false;
            }
            i = i + 1;
        }
        assert(self.0@ =~= other.0@);
        true
    }
}

} // verus!
