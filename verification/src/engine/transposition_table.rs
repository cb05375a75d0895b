//! A transposition table: a power-of-two array of search results indexed
//! by the low bits of the position hash.

use vstd::prelude::*;
use crate::chess::ChessMove;
use vstd::arithmetic::power2::{pow2, lemma2_to64, lemma_pow2_unfold, lemma_pow2_strictly_increases, lemma_pow2_pos};
use vstd::bits::{low_bits_mask, lemma_usize_low_bits_mask_is_mod};

verus! {

/// How a stored score relates to the true score of the position.
#[derive(Clone, Copy, PartialEq, Eq, Structural, Debug)]
pub enum Bound {
    /// A principal-variation node: the score is exact.
    Exact,
    /// A fail-high (beta cutoff): the true score is at least the score.
    Lower,
    /// A fail-low (no move raised alpha): the true score is at most the score.
    Upper,
}

/// One stored search result.
#[derive(Clone, Copy, PartialEq, Eq, Structural, Debug)]
pub struct TTEntry {
    /// The Zobrist hash of the position.
    pub key: u64,
    /// The depth the position was searched to.
    pub depth: u8,
    /// The score found.
    pub score: i32,
    /// How the score bounds the true score.
    pub bound: Bound,
    /// The best move found, if any.
    pub best_move: Option<ChessMove>,
    /// The search generation that stored the entry; older entries are
    /// replaced first.
    pub age: u8,
}

/// The bytes one slot (an `Option<TTEntry>`) takes.
pub const SLOT_BYTES: usize = 24;

/// A transposition table.
pub struct TranspositionTable {
    entries: Vec<Option<TTEntry>>,
    mask: usize,
}

/// The plain contents of a transposition table: its slots and the mask
/// that turns a hash into a slot.
pub struct TableView {
    pub entries: Seq<Option<TTEntry>>,
    pub mask: usize,
}

impl View for TranspositionTable {
    type V = TableView;

    closed spec fn view(&self) -> TableView {
        TableView { entries: self.entries@, mask: self.mask }
    }
}

/// The slot of a hash: its low bits, as many as the mask keeps.
pub open spec fn slot_of(key: u64, mask: usize) -> int {
    ((key as usize) & mask) as int
}

/// A table whose slots are exactly those that the mask can address, a
/// power of two of them.
pub open spec fn table_wf(t: TableView) -> bool {
    &&& t.entries.len() == t.mask as int + 1
    &&& t.mask < usize::MAX
    &&& is_pow2(t.entries.len() as int)
}

/// What a probe for `key` finds: the entry in the key's slot, when it was
/// stored for that very key.
pub open spec fn probe_result(t: TableView, key: u64) -> Option<TTEntry> {
    match t.entries[slot_of(key, t.mask)] {
        Some(e) => if e.key == key {
            Some(e)
        } else {
            None
        },
        None => None,
    }
}

/// Whether a new entry takes the place of what a slot holds: an empty slot
/// always, an occupied one when its entry is from another search
/// generation or was searched no deeper.
pub open spec fn replaces(existing: Option<TTEntry>, new_entry: TTEntry) -> bool {
    match existing {
        Some(e) => e.age != new_entry.age || new_entry.depth >= e.depth,
        None => true,
    }
}

/// The table after storing an entry.
pub open spec fn after_store(t: TableView, new_entry: TTEntry) -> TableView {
    let slot = slot_of(new_entry.key, t.mask);
    if replaces(t.entries[slot], new_entry) {
        TableView { entries: t.entries.update(slot, Some(new_entry)), mask: t.mask }
    } else {
        t
    }
}

/// Whether `n` is a power of two.
pub open spec fn is_pow2(n: int) -> bool
    decreases n,
{
    if n <= 0 {
        false
    } else if n == 1 {
        true
    } else {
        n % 2 == 0 && is_pow2(n / 2)
    }
}

/// The number of slots of a table made for `mb` mebibytes: the power of
/// two that is at least half of, and below, the number of slots the budget
/// holds (one slot when the budget holds a single one).
pub open spec fn sized_for(t: TableView, mb: int) -> bool {
    let count = (mb * 1024 * 1024) / SLOT_BYTES as int;
    &&& is_pow2(t.entries.len() as int)
    &&& 2 * t.entries.len() >= count
    &&& t.entries.len() == 1 || t.entries.len() < count
}

/// The smallest power of two that is at least `n` (`usize::next_power_of_two`).
fn next_power_of_two(n: usize) -> (r: usize)
    requires
        n <= usize::MAX / 4,
    ensures
        is_pow2(r as int),
        r >= n,
        r == 1 || r / 2 < n,
{
    let mut p: usize = 1;
    while p < n
        invariant
            is_pow2(p as int),
            p >= 1,
            p == 1 || p / 2 < n,
            n <= usize::MAX / 4,
        decreases usize::MAX - p,
    {
        assert(is_pow2((p * 2) as int)) by {
            assert((p * 2) / 2 == p);
        }
        p = p * 2;
    }
    p
}

impl TranspositionTable {
    /// A table of empty slots using at most `mb` mebibytes: the largest
    /// power of two of slots whose double still fits the budget.
    pub fn new(mb: usize) -> (r: TranspositionTable)
        requires
            1 <= mb,
            mb * 1024 * 1024 <= usize::MAX,
        ensures
            table_wf(r@),
            forall|i: int| 0 <= i < r@.entries.len() ==> #[trigger] r@.entries[i] is None,
            sized_for(r@, mb as int),
            r@.entries.len() * SLOT_BYTES <= mb * 1024 * 1024,
    {
        let count = (mb * 1024 * 1024) / SLOT_BYTES;
        assert(count >= 2);
        let pow = next_power_of_two(count);
        let count = pow >> 1;
        assert(pow >> 1 == pow / 2) by (bit_vector);
        assert(is_pow2(count as int));
        let mut entries: Vec<Option<TTEntry>> = Vec::new();
        let mut i: usize = 0;
        while i < count
            invariant
                i <= count,
                entries@.len() == i,
                forall|j: int| 0 <= j < i ==> #[trigger] entries@[j] is None,
            decreases count - i,
        {
            entries.push(None);
            i = i + 1;
        }
        let ghost budget: int = mb * 1024 * 1024;
        assert(count * 24 <= budget) by (nonlinear_arith)
            requires
                count <= budget / 24,
                budget >= 0,
        ;
        TranspositionTable { entries, mask: count - 1 }
    }

    /// The slot of a hash: the hash's low bits (the hash modulo the table
    /// size), so that hashes past the end wrap around.
    pub fn index(&self, key: u64) -> (r: usize)
        requires
            table_wf(self@),
        ensures
            r as int == slot_of(key, self@.mask),
            r < self@.entries.len(),
    {
        let k = key as usize;
        let m = self.mask;
        assert(k & m <= m) by (bit_vector);
        k & m
    }

    /// The entry stored for `key`, if its slot holds one for that key.
    pub fn probe(&self, key: u64) -> (r: Option<TTEntry>)
        requires
            table_wf(self@),
        ensures
            r == probe_result(self@, key),
    {
        match self.entries[self.index(key)] {
            Some(e) => if e.key == key {
                Some(e)
            } else {
                None
            },
            None => None,
        }
    }

    /// Stores an entry in its slot, unless the slot holds an entry of the
    /// same search generation searched deeper.
    pub fn store(&mut self, new_entry: &TTEntry)
        requires
            table_wf(old(self)@),
        ensures
            final(self)@ == after_store(old(self)@, *new_entry),
            table_wf(final(self)@),
    {
        let table_index = self.index(new_entry.key);
        let replace = match &self.entries[table_index] {
            Some(existing) => existing.age != new_entry.age || new_entry.depth >= existing.depth,
            None => true,
        };
        if replace {
            self.entries.set(table_index, Some(*new_entry));
        }
    }
}

proof fn lemma_pow2_exponent(n: int)
    requires
        is_pow2(n),
    ensures
        exists|k: nat| #[trigger] pow2(k) == n,
    decreases n,
{
    if n == 1 {
        lemma2_to64();
        assert(pow2(0) == n);
    } else {
        lemma_pow2_exponent(n / 2);
        let k = choose|k: nat| #[trigger] pow2(k) == n / 2;
        lemma_pow2_unfold(k + 1);
        assert(pow2(k + 1) == n);
    }
}

/// The slot of a hash is the hash modulo the number of slots: hashes past
/// the end of the table wrap around.
pub proof fn lemma_slot_is_remainder(t: TableView, key: u64)
    requires
        table_wf(t),
    ensures
        slot_of(key, t.mask) == (key as usize) as int % t.entries.len() as int,
{
    let n = t.entries.len() as int;
    lemma_pow2_exponent(n);
    let k = choose|k: nat| #[trigger] pow2(k) == n;
    lemma2_to64();
    assert(pow2(usize::BITS as nat) == usize::MAX + 1);
    if k > usize::BITS {
        lemma_pow2_strictly_increases(usize::BITS as nat, k);
    }
    let x = key as usize;
    lemma_usize_low_bits_mask_is_mod(x, k);
    lemma_pow2_pos(k);
    assert(low_bits_mask(k) == t.mask);
    assert((low_bits_mask(k) as usize) == t.mask);
    assert(pow2(k) < pow2(usize::BITS as nat)) by {
        lemma_pow2_strictly_increases(k, usize::BITS as nat);
    }
    assert(x & t.mask == x % (n as usize));
}

/// A probe finds only entries stored for the probed hash.
pub proof fn lemma_probe_matches_key(t: TableView, key: u64)
    ensures
        probe_result(t, key) matches Some(e) ==> e.key == key,
{
}

/// Storing an entry that takes its slot, then probing its hash, gives the
/// entry back.
pub proof fn lemma_store_then_probe(t: TableView, e: TTEntry)
    requires
        table_wf(t),
        replaces(t.entries[slot_of(e.key, t.mask)], e),
    ensures
        probe_result(after_store(t, e), e.key) == Some(e),
{
    assert(0 <= slot_of(e.key, t.mask) <= t.mask) by {
        let k = e.key as usize;
        let m = t.mask;
        assert(k & m <= m) by (bit_vector);
    }
}

/// An empty slot always takes the entry stored into it.
pub proof fn lemma_empty_slot_replaced(t: TableView, e: TTEntry)
    requires
        t.entries[slot_of(e.key, t.mask)] is None,
    ensures
        replaces(t.entries[slot_of(e.key, t.mask)], e),
{
}

/// Storing touches no slot but the entry's own: every probe for a hash of
/// another slot gives what it gave before.
pub proof fn lemma_store_keeps_other_slots(t: TableView, e: TTEntry, key: u64)
    requires
        table_wf(t),
        slot_of(key, t.mask) != slot_of(e.key, t.mask),
    ensures
        probe_result(after_store(t, e), key) == probe_result(t, key),
        table_wf(after_store(t, e)),
{
    let k1 = e.key as usize;
    let k2 = key as usize;
    let m = t.mask;
    assert(k1 & m <= m) by (bit_vector);
    assert(k2 & m <= m) by (bit_vector);
}

/// An entry of the same search generation that was searched deeper is
/// never replaced: a later probe still finds it.
pub proof fn lemma_deeper_entry_kept(t: TableView, e: TTEntry)
    requires
        table_wf(t),
        t.entries[slot_of(e.key, t.mask)] matches Some(x) && x.age == e.age && e.depth < x.depth,
    ensures
        after_store(t, e) == t,
{
}

/// A stored entry can be probed back unless its slot holds an entry of the
/// same search generation searched strictly deeper: storing into an empty
/// slot, over an entry of another generation, or over one of the same
/// generation searched no deeper, then probing the entry's hash, gives the
/// entry.
pub proof fn lemma_store_replaces_shallower(t: TableView, e: TTEntry)
    requires
        table_wf(t),
        match t.entries[slot_of(e.key, t.mask)] {
            Some(x) => x.age != e.age || x.depth <= e.depth,
            None => true,
        },
    ensures
        probe_result(after_store(t, e), e.key) == Some(e),
        after_store(t, e).entries == t.entries.update(slot_of(e.key, t.mask), Some(e)),
{
    let k = e.key as usize;
    let m = t.mask;
    assert(k & m <= m) by (bit_vector);
}

} // verus!
