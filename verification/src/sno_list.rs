//! A verified model of one level's ordered view collection: the list a
//! sibling row of the tree is rendered from.  Each entry carries a node
//! id and the stored sequence index the data model attaches to visible
//! nodes.  The invariant says every entry's `seq` equals its position
//! in the collection, and the ±1 shifts of `adj_seq` — run before an
//! insertion and after a removal, exactly as the editor does around its
//! structural primitives — keep it that way.

use vstd::prelude::*;

verus! {

/// One visible row: the node it shows and its stored sequence index.
#[derive(Debug, Clone, Copy, PartialEq, Eq, Structural)]
pub struct SnoEntry {
    pub id: i32,
    pub seq: i32,
}

/// The ordered collection mirroring one sibling level.
pub struct SnoList {
    pub items: Vec<SnoEntry>,
}

impl SnoList {
    /// The sequence invariant of the data model: each entry's stored
    /// `seq` equals its position in the collection.
    pub open spec fn wf(self) -> bool {
        forall|i: int|
            0 <= i < self.items@.len() ==> (#[trigger] self.items@[i]).seq == i
    }

    pub fn new() -> (r: SnoList)
        ensures
            r.items@ == Seq::<SnoEntry>::empty(),
            r.wf(),
    {
        SnoList { items: Vec::new() }
    }

    /// Shift the stored seq of every entry at or past `greater_than` by
    /// `delta`, leaving ids and order untouched.
    pub fn adj_seq(&mut self, greater_than: i32, delta: i32)
        requires
            forall|j: int|
                0 <= j < old(self).items@.len() ==> i32::MIN <= (
                #[trigger] old(self).items@[j]).seq + delta <= i32::MAX,
        ensures
            final(self).items@.len() == old(self).items@.len(),
            forall|j: int|
                0 <= j < old(self).items@.len() ==> (#[trigger] final(self).items@[j]).id == old(
                    self,
                ).items@[j].id && final(self).items@[j].seq == (
                if old(self).items@[j].seq >= greater_than {
                    old(self).items@[j].seq + delta
                } else {
                    old(self).items@[j].seq as int
                }),
    {
        let n = self.items.len();
        let mut i: usize = 0;
        while i < n
            invariant
                n == self.items@.len(),
                self.items@.len() == old(self).items@.len(),
                i <= n,
                forall|j: int|
                    0 <= j < old(self).items@.len() ==> i32::MIN <= (
                    #[trigger] old(self).items@[j]).seq + delta <= i32::MAX,
                forall|j: int|
                    0 <= j < i ==> (#[trigger] self.items@[j]).id == old(self).items@[j].id
                        && self.items@[j].seq == (if old(self).items@[j].seq >= greater_than {
                        old(self).items@[j].seq + delta
                    } else {
                        old(self).items@[j].seq as int
                    }),
                forall|j: int| i <= j < n ==> #[trigger] self.items@[j] == old(self).items@[j],
            decreases n - i,
        {
            let e = self.items[i];
            if e.seq >= greater_than {
                self.items[i] = SnoEntry { id: e.id, seq: e.seq + delta };
            }
            i = i + 1;
        }
    }

    /// Make a node's row visible at position `pos`: the trailing rows'
    /// seq shift up by one first, then the new entry takes `pos` as its
    /// seq, so the invariant carries over.
    pub fn insert_at(&mut self, pos: usize, id: i32)
        requires
            old(self).wf(),
            pos <= old(self).items@.len(),
            old(self).items@.len() < i32::MAX,
        ensures
            final(self).wf(),
            final(self).items@.len() == old(self).items@.len() + 1,
            forall|j: int| 0 <= j < pos ==> (#[trigger] final(self).items@[j]).id == old(
                self,
            ).items@[j].id,
            final(self).items@[pos as int] == (SnoEntry { id, seq: pos as i32 }),
            forall|j: int|
                pos < j < final(self).items@.len() ==> (#[trigger] final(self).items@[j]).id
                    == old(self).items@[j - 1].id,
    {
        self.adj_seq(pos as i32, 1);
        self.items.insert(pos, SnoEntry { id, seq: pos as i32 });
    }

    /// Take a node's row out of position `pos`: the trailing rows' seq
    /// shift down by one, so the invariant carries over.
    pub fn remove_at(&mut self, pos: usize) -> (r: SnoEntry)
        requires
            old(self).wf(),
            pos < old(self).items@.len(),
            old(self).items@.len() <= i32::MAX,
        ensures
            final(self).wf(),
            r == old(self).items@[pos as int],
            final(self).items@.len() == old(self).items@.len() - 1,
            forall|j: int| 0 <= j < pos ==> (#[trigger] final(self).items@[j]).id == old(
                self,
            ).items@[j].id,
            forall|j: int|
                pos <= j < final(self).items@.len() ==> (#[trigger] final(self).items@[j]).id
                    == old(self).items@[j + 1].id,
    {
        let r = self.items[pos];
        self.adj_seq(pos as i32 + 1, -1);
        let e = self.items.remove(pos);
        proof {
            assert(e.id == r.id && e.seq == r.seq);
        }
        r
    }
}

} // verus!
