use vstd::prelude::*;
use crate::types::Move;

verus! {

/// How a stored score relates to the true value.
#[derive(Debug, Clone, Copy, PartialEq, Eq, Structural)]
pub enum Bound {
    Exact,
    Lower,
    Upper,
}

/// A stored search result.
#[derive(Debug, Clone, Copy)]
pub struct TTEntry {
    pub key: u64,
    pub depth: u32,
    pub score: i32,
    pub bound: Bound,
    pub best_move: Option<Move>,
}

/// A power-of-two array of optional entries indexed by the low bits of the key.
pub struct TranspositionTable {
    entries: Vec<Option<TTEntry>>,
    mask: usize,
}

/// The slot of a key: its low bits under the mask.
pub open spec fn slot_of(key: u64, mask: usize) -> int {
    (key & (mask as u64)) as int
}

/// `n` is a power of two.
pub open spec fn is_pow2(n: nat) -> bool
    decreases n,
{
    if n == 1 {
        true
    } else if n == 0 || n % 2 == 1 {
        false
    } else {
        is_pow2(n / 2)
    }
}

/// Depth-preferred replacement: an entry goes in unless a deeper one holds its slot.
pub open spec fn replaces(old_slot: Option<TTEntry>, e: TTEntry) -> bool {
    match old_slot {
        None => true,
        Some(x) => e.depth >= x.depth,
    }
}

impl TranspositionTable {
    pub closed spec fn view(&self) -> Seq<Option<TTEntry>> {
        self.entries@
    }

    pub closed spec fn spec_mask(&self) -> usize {
        self.mask
    }

    pub closed spec fn wf(&self) -> bool {
        &&& self.entries@.len() == self.mask + 1
        &&& self.mask < usize::MAX
    }

    pub proof fn lemma_slot_in_range(&self, key: u64)
        requires
            self.wf(),
        ensures
            0 <= slot_of(key, self.spec_mask()) < self.view().len(),
    {
        let m = self.mask as u64;
        assert(key & m <= m) by (bit_vector);
    }

    /// A table of `size` rounded up to a power of two slots (at least one), all empty.
    pub fn new(size: usize) -> (r: Self)
        requires
            size <= usize::MAX / 2,
        ensures
            r.wf(),
            is_pow2(r.view().len()),
            r.view().len() >= size,
            r.view().len() == 1 || r.view().len() / 2 < size,
            forall|i: int| 0 <= i < r.view().len() ==> r.view()[i] is None,
    {
        let mut n: usize = 1;
        while n < size
            invariant
                1 <= n,
                size <= usize::MAX / 2,
                is_pow2(n as nat),
                n == 1 || n / 2 < size,
            decreases usize::MAX - n,
        {
            assert(((n * 2) as nat) % 2 == 0 && ((n * 2) as nat) / 2 == n as nat);
            n = n * 2;
        }
        let mut entries: Vec<Option<TTEntry>> = Vec::new();
        let mut i: usize = 0;
        while i < n
            invariant
                i <= n,
                entries@.len() == i,
                forall|j: int| 0 <= j < i ==> entries@[j] is None,
            decreases n - i,
        {
            entries.push(None);
            i += 1;
        }
        TranspositionTable { entries, mask: n - 1 }
    }

    fn index(&self, key: u64) -> (r: usize)
        requires
            self.wf(),
        ensures
            r == slot_of(key, self.spec_mask()),
            r < self.view().len(),
    {
        proof {
            self.lemma_slot_in_range(key);
        }
        (key & (self.mask as u64)) as usize
    }

    /// The entry stored under the key's slot, if it was stored for this very key.
    pub fn probe(&self, key: u64) -> (r: Option<TTEntry>)
        requires
            self.wf(),
        ensures
            r == (match self.view()[slot_of(key, self.spec_mask())] {
                Some(e) => if e.key == key {
                    Some(e)
                } else {
                    None::<TTEntry>
                },
                None => None::<TTEntry>,
            }),
    {
        let index = self.index(key);
        match self.entries[index] {
            Some(entry) => if entry.key == key {
                Some(entry)
            } else {
                None
            },
            None => None,
        }
    }

    /// Stores an entry unless its slot holds a deeper one.
    pub fn store(&mut self, entry: TTEntry)
        requires
            old(self).wf(),
        ensures
            final(self).wf(),
            final(self).spec_mask() == old(self).spec_mask(),
            final(self).view() == ({
                let i = slot_of(entry.key, old(self).spec_mask());
                if replaces(old(self).view()[i], entry) {
                    old(self).view().update(i, Some(entry))
                } else {
                    old(self).view()
                }
            }),
    {
        let index = self.index(entry.key);
        let replace = match self.entries[index] {
            None => true,
            Some(existing) => entry.depth >= existing.depth,
        };
        if replace {
            self.entries.set(index, Some(entry));
        }
    }
}

} // verus!
