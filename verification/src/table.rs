//! The transposition table: a fixed number of slots, addressed by a position's
//! identity modulo that number. A new entry replaces whatever its slot held.
use vstd::prelude::*;
use vstd::arithmetic::power2::is_pow2;
use chess::CacheTable;
use crate::moves::Move;

verus! {

/// The table of the `chess` crate: a boxed slice of (hash, entry) pairs and a
/// bit mask, both private to that crate.
#[verifier::external_type_specification]
#[verifier::external_body]
#[verifier::reject_recursive_types(T)]
pub struct ExCacheTable<T: Copy + Clone + PartialEq + PartialOrd>(CacheTable<T>);

/// What a search leaves behind for a position: the best move it found, that
/// move's score, and the depth to which it searched.
#[derive(Clone, Copy, Debug, PartialEq, PartialOrd, Structural)]
pub struct Entry {
    pub best: Move,
    pub score: i32,
    pub depth: i8,
}

impl Entry {
    /// What every slot of a new table holds, under the identity 0.
    pub open spec fn blank() -> Entry {
        Entry { best: Move::empty(), score: 0, depth: 0 }
    }
}

/// The slots of a table, in order: each holds the identity under which it was
/// last written, and the entry.
pub uninterp spec fn table_slots(t: CacheTable<Entry>) -> Seq<(u64, Entry)>;

/// The slot that the identity `key` is kept in, in a table of `len` slots.
pub open spec fn slot_index(key: u64, len: nat) -> int {
    key as int % len as int
}

/// What a table with these slots answers for `key`: the entry of its slot, if
/// that slot was last written under `key`.
pub open spec fn lookup(slots: Seq<(u64, Entry)>, key: u64) -> Option<Entry> {
    let slot = slots[slot_index(key, slots.len())];
    if slot.0 == key {
        Some(slot.1)
    } else {
        None
    }
}

/// The slots after `entry` was written under `key`.
pub open spec fn store(slots: Seq<(u64, Entry)>, key: u64, entry: Entry) -> Seq<(u64, Entry)> {
    slots.update(slot_index(key, slots.len()), (key, entry))
}

/// `CacheTable::new`, which panics unless exactly one bit of `size` is set,
/// and fills every slot with the hash 0 and `fill`.
#[verifier::external_body]
fn table_new(size: usize, fill: Entry) -> (t: CacheTable<Entry>)
    requires
        is_pow2(size as int),
    ensures
        table_slots(t) == Seq::new(size as nat, |i: int| (0u64, fill)),
{
    CacheTable::new(size, fill)
}

/// `CacheTable::get`, which reads the slot at `hash & (size - 1)`, that is at
/// `hash` modulo the size, a power of two, and hands its entry out if the
/// slot's hash is `hash`.
#[verifier::external_body]
fn table_get(t: &CacheTable<Entry>, hash: u64) -> (r: Option<Entry>)
    requires
        is_pow2(table_slots(*t).len() as int),
    ensures
        r == lookup(table_slots(*t), hash),
{
    t.get(hash)
}

/// `CacheTable::add`, which overwrites the slot at `hash` modulo the size and
/// cannot panic.
#[verifier::external_body]
fn table_add(t: &mut CacheTable<Entry>, hash: u64, entry: Entry)
    requires
        is_pow2(table_slots(*old(t)).len() as int),
    ensures
        table_slots(*final(t)) == store(table_slots(*old(t)), hash, entry),
    no_unwind
{
    t.add(hash, entry)
}

/// Whether `size` is a power of two.
pub fn power_of_two(size: usize) -> (b: bool)
    ensures
        b == is_pow2(size as int),
{
    reveal(is_pow2);
    if size == 0 {
        return false;
    }
    let mut n: usize = size;
    while n % 2 == 0
        invariant
            n > 0,
            is_pow2(n as int) == is_pow2(size as int),
        decreases n,
    {
        proof {
            reveal(is_pow2);
        }
        n = n / 2;
    }
    n == 1
}

/// A cache from position identities to search results.
pub struct TranspositionTable {
    slots: CacheTable<Entry>,
}

impl View for TranspositionTable {
    type V = Seq<(u64, Entry)>;

    closed spec fn view(&self) -> Seq<(u64, Entry)> {
        table_slots(self.slots)
    }
}

impl TranspositionTable {
    #[verifier::type_invariant]
    spec fn sized(self) -> bool {
        is_pow2(table_slots(self.slots).len() as int)
    }

    /// A table of `size` slots, each blank, if `size` is a power of two.
    pub fn new(size: usize) -> (r: Option<TranspositionTable>)
        ensures
            r is Some <==> is_pow2(size as int),
            r matches Some(t) ==> t@ == Seq::new(size as nat, |i: int| (0u64, Entry::blank())),
    {
        if power_of_two(size) {
            let fill = Entry { best: Move::none(), score: 0, depth: 0 };
            Some(TranspositionTable { slots: table_new(size, fill) })
        } else {
            None
        }
    }

    /// The entry cached under `key`, if its slot was last written under `key`.
    pub fn get(&self, key: u64) -> (r: Option<Entry>)
        ensures
            r == lookup(self@, key),
    {
        proof {
            use_type_invariant(self);
        }
        table_get(&self.slots, key)
    }

    /// Caches `entry` under `key`, replacing what the slot held.
    pub fn put(&mut self, key: u64, entry: Entry)
        ensures
            final(self)@ == store(old(self)@, key, entry),
            final(self)@.len() == old(self)@.len(),
    {
        proof {
            use_type_invariant(&*self);
            reveal(is_pow2);
        }
        table_add(&mut self.slots, key, entry);
    }
}

/// Reading back what was just written gives the entry written.
pub proof fn lemma_lookup_after_store(slots: Seq<(u64, Entry)>, key: u64, entry: Entry)
    requires
        slots.len() > 0,
    ensures
        lookup(store(slots, key, entry), key) == Some(entry),
{
}

/// Writing under one identity leaves the answer for an identity kept in
/// another slot unchanged.
pub proof fn lemma_lookup_other_slot(slots: Seq<(u64, Entry)>, key: u64, entry: Entry, other: u64)
    requires
        slots.len() > 0,
        slot_index(other, slots.len()) != slot_index(key, slots.len()),
    ensures
        lookup(store(slots, key, entry), other) == lookup(slots, other),
{
}

/// A write evicts: whatever was cached under another identity that shares the
/// slot is gone.
pub proof fn lemma_store_evicts(slots: Seq<(u64, Entry)>, key: u64, entry: Entry, other: u64)
    requires
        slots.len() > 0,
        other != key,
        slot_index(other, slots.len()) == slot_index(key, slots.len()),
    ensures
        lookup(store(slots, key, entry), other) is None,
{
}

} // verus!
