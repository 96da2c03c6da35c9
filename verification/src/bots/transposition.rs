//! A table of positions already searched, found again by their key.

use vstd::prelude::*;
use crate::moves::moves_utils::Move;
use crate::utils::zobrist::ZobristHash;

verus! {

/// What the score of an entry is: an upper bound, a lower bound, or exact.
#[derive(Clone, Copy, Debug, PartialEq, Eq, Structural)]
pub enum TranspositionEntryType {
    Alpha,
    Beta,
    Exact,
}

#[derive(Clone, Copy, Debug)]
pub struct TranspositionEntry {
    pub hash: ZobristHash,
    pub depth: u8,
    pub flag: TranspositionEntryType,
    pub score: i32,
    pub best_move: Option<Move>,
}

/// The entry of a slot that holds nothing.
pub open spec fn spec_empty_entry() -> TranspositionEntry {
    TranspositionEntry {
        hash: ZobristHash(0),
        depth: 0,
        flag: TranspositionEntryType::Exact,
        score: 0,
        best_move: None,
    }
}

impl TranspositionEntry {
    /// The entry of a slot that holds nothing.
    pub fn empty() -> (entry: Self)
        ensures
            entry == spec_empty_entry(),
    {
        Self {
            hash: ZobristHash::zero(),
            depth: 0,
            flag: TranspositionEntryType::Exact,
            score: 0,
            best_move: None,
        }
    }

    pub fn new(
        hash: ZobristHash,
        depth: u8,
        flag: TranspositionEntryType,
        score: i32,
        best_move: Option<Move>,
    ) -> (entry: Self)
        ensures
            entry == (TranspositionEntry { hash, depth, flag, score, best_move }),
    {
        Self { hash, depth, flag, score, best_move }
    }
}

/// The entries, one slot for each remainder of a key by the number of
/// slots, with counts of the lookups that found their key and of those that
/// did not.
pub struct TranspositionTable {
    pub table: Vec<TranspositionEntry>,
    pub size: usize,
    pub hits: u64,
    pub misses: u64,
}

/// The number of slots of a table made by `default`.
pub const DEFAULT_TABLE_SIZE: usize = 28;

impl TranspositionTable {
    /// The table has the slots that it says, and at least one.
    pub open spec fn wf(&self) -> bool {
        self.size > 0 && self.table.len() == self.size
    }

    /// The slot of the key `hash`.
    pub open spec fn slot(&self, hash: ZobristHash) -> int {
        (hash.0 as usize % self.size) as int
    }

    /// Empties every slot and sets the counts to nothing.
    pub fn clear(&mut self)
        requires
            old(self).wf(),
        ensures
            final(self).wf(),
            final(self).size == old(self).size,
            final(self).hits == 0,
            final(self).misses == 0,
            forall|i: int|
                0 <= i < final(self).size ==> #[trigger] final(self).table[i]
                    == spec_empty_entry(),
    {
        let mut i: usize = 0;
        while i < self.size
            invariant
                self.wf(),
                self.size == old(self).size,
                i <= self.size,
                forall|j: int| 0 <= j < i ==> #[trigger] self.table[j] == spec_empty_entry(),
            decreases self.size - i,
        {
            self.table[i] = TranspositionEntry::empty();
            i = i + 1;
        }
        self.hits = 0;
        self.misses = 0;
    }

    /// The entry of the slot of `hash` if it has that key, counted as a hit;
    /// else nothing, counted as a miss. The counts stop at their largest
    /// value.
    pub fn get(&mut self, hash: &ZobristHash) -> (entry: Option<TranspositionEntry>)
        requires
            old(self).wf(),
        ensures
            final(self).wf(),
            final(self).table == old(self).table,
            final(self).size == old(self).size,
            entry == (if old(self).table[old(self).slot(*hash)].hash == *hash {
                Some(old(self).table[old(self).slot(*hash)])
            } else {
                None
            }),
            final(self).hits == (if entry.is_some() && old(self).hits < u64::MAX {
                (old(self).hits + 1) as u64
            } else {
                old(self).hits
            }),
            final(self).misses == (if entry.is_none() && old(self).misses < u64::MAX {
                (old(self).misses + 1) as u64
            } else {
                old(self).misses
            }),
    {
        let index = hash.0 as usize % self.size;
        let entry = self.table[index];
        if entry.hash.0 == hash.0 {
            if self.hits < u64::MAX {
                self.hits += 1;
            }
            return Some(entry);
        }
        if self.misses < u64::MAX {
            self.misses += 1;
        }
        None
    }

    /// Puts `entry` into the slot of its key, unless the slot holds an entry
    /// searched deeper.
    pub fn insert(&mut self, entry: TranspositionEntry)
        requires
            old(self).wf(),
        ensures
            final(self).wf(),
            final(self).size == old(self).size,
            final(self).hits == old(self).hits,
            final(self).misses == old(self).misses,
            final(self).table@ == (if old(self).table[old(self).slot(entry.hash)].depth > entry.depth {
                old(self).table@
            } else {
                old(self).table@.update(old(self).slot(entry.hash), entry)
            }),
    {
        let index = entry.hash.0 as usize % self.size;
        if self.table[index].depth > entry.depth {
            return ;
        }
        self.table[index] = entry;
    }
}

impl Default for TranspositionTable {
    /// A table of `DEFAULT_TABLE_SIZE` empty slots.
    fn default() -> (table: Self)
        ensures
            table.wf(),
            table.size == DEFAULT_TABLE_SIZE,
            table.hits == 0,
            table.misses == 0,
            forall|i: int|
                0 <= i < table.size ==> #[trigger] table.table[i] == spec_empty_entry(),
    {
        let size = DEFAULT_TABLE_SIZE;
        let mut table: Vec<TranspositionEntry> = Vec::with_capacity(size);
        let mut i: usize = 0;
        while i < size
            invariant
                size == DEFAULT_TABLE_SIZE,
                i <= size,
                table.len() == i,
                forall|j: int| 0 <= j < i ==> #[trigger] table[j] == spec_empty_entry(),
            decreases size - i,
        {
            table.push(TranspositionEntry::empty());
            i = i + 1;
        }
        Self { table, size, hits: 0, misses: 0 }
    }
}

} // verus!
