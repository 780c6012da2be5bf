//! The table of positions that the search has seen, keyed by their hash.

use crate::move_encoding::EncodedMove;
use crate::score::Score;
use vstd::prelude::*;

verus! {

/// The memory that the table takes by default, in bytes.
pub const TABLE_SIZE: usize = 1073741824;

/// What a stored score says of the true score: that it is exact, a lower
/// bound or an upper bound.
#[derive(Copy, Clone, PartialEq, Eq, Structural, Debug)]
pub enum Bound {
    Exact,
    Lower,
    Upper,
}

/// What is stored of a position.
#[derive(Copy, Clone, Debug)]
pub struct TranspositionEntry {
    pub hash: u64,
    pub depth: u8,
    pub score: Score,
    pub bound: Bound,
    pub best_move: Option<EncodedMove>,
}

/// A table of fixed size with one slot per residue of the hash. A new
/// entry replaces whatever its slot held.
pub struct TranspositionTable(Vec<Option<TranspositionEntry>>);

impl View for TranspositionTable {
    type V = Seq<Option<TranspositionEntry>>;

    closed spec fn view(&self) -> Seq<Option<TranspositionEntry>> {
        self.0@
    }
}

/// The slot of a hash in a table of `len` slots.
pub open spec fn slot_of_hash(len: nat, hash: u64) -> int {
    (hash as int) % (len as int)
}

/// What a lookup finds in a table: the entry in the slot of the hash, if
/// it is an entry of that hash searched to at least `depth`.
pub open spec fn found(table: Seq<Option<TranspositionEntry>>, hash: u64, depth: u8) -> Option<
    TranspositionEntry,
> {
    match table[slot_of_hash(table.len(), hash)] {
        Some(entry) => if entry.depth >= depth && entry.hash == hash {
            Some(entry)
        } else {
            None
        },
        None => None,
    }
}

/// How many slots a table of the default size has, for entries of
/// `entry_size` bytes: as many as fit in `TABLE_SIZE` bytes, and at least
/// one.
pub open spec fn default_slots(entry_size: nat) -> nat {
    if entry_size == 0 {
        TABLE_SIZE as nat
    } else if TABLE_SIZE as nat / entry_size == 0 {
        1
    } else {
        TABLE_SIZE as nat / entry_size
    }
}

impl TranspositionTable {
    /// The table has a slot.
    pub open spec fn wf(&self) -> bool {
        self@.len() > 0
    }

    /// An empty table that takes about `TABLE_SIZE` bytes: it has as many
    /// slots as entries fit in that many bytes.
    pub fn new() -> (r: Self)
        ensures
            r.wf(),
            r@.len() == default_slots(vstd::layout::size_of::<TranspositionEntry>()),
            forall|i: int| 0 <= i < r@.len() ==> r@[i] is None,
    {
        let entry_size = std::mem::size_of::<TranspositionEntry>();
        let num_entries = if entry_size == 0 {
            TABLE_SIZE
        } else {
            TABLE_SIZE / entry_size
        };
        Self::with_entries(num_entries)
    }

    /// An empty table of `num_entries` slots; of one slot if `num_entries`
    /// is 0.
    pub fn with_entries(num_entries: usize) -> (r: Self)
        ensures
            r.wf(),
            r@.len() == if num_entries == 0 {
                1
            } else {
                num_entries as int
            },
            forall|i: int| 0 <= i < r@.len() ==> r@[i] is None,
    {
        let n = if num_entries == 0 {
            1
        } else {
            num_entries
        };
        let empty: Option<TranspositionEntry> = None;
        Self(vec![empty; n])
    }

    /// The number of slots.
    pub fn len(&self) -> (r: usize)
        ensures
            r == self@.len(),
    {
        self.0.len()
    }

    pub fn lookup(&self, hash: u64, depth: u8) -> (r: Option<TranspositionEntry>)
        requires
            self.wf(),
        ensures
            r == found(self@, hash, depth),
    {
        let index_num = (hash % self.0.len() as u64) as usize;
        if let Some(entry) = self.0[index_num] {
            if entry.depth < depth || hash != entry.hash {
                return None;
            }
            return Some(entry);
        }
        None
    }

    pub fn store(
        &mut self,
        hash: u64,
        score: Score,
        bound: Bound,
        depth: u8,
        best_move: Option<EncodedMove>,
    )
        requires
            old(self).wf(),
        ensures
            final(self).wf(),
            final(self)@ == old(self)@.update(
                slot_of_hash(old(self)@.len(), hash),
                Some(TranspositionEntry { hash, depth, score, bound, best_move }),
            ),
            found(final(self)@, hash, depth) == Some(
                TranspositionEntry { hash, depth, score, bound, best_move },
            ),
    {
        let entry = TranspositionEntry { hash, depth, score, bound, best_move };
        let index = (hash % self.0.len() as u64) as usize;
        self.0[index] = Some(entry);
    }
}

} // verus!
