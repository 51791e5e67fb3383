//! The order in which entries of a table expire.

use vstd::prelude::*;
use crate::context::Timestamp;
use crate::id_map::IdMap;

verus! {

/// Something that ends at a deadline.
pub trait Expiring {
    /// The deadline.
    spec fn expires_at(&self) -> Timestamp;

    fn deadline(&self) -> (deadline: Timestamp)
        ensures
            deadline == self.expires_at(),
    ;
}

/// Whether an entry with deadline `a` and identifier `id_a` expires no later
/// than one with deadline `b` and identifier `id_b`. Among equal deadlines the
/// smaller identifier goes first.
pub open spec fn due_no_later(a: Timestamp, id_a: u64, b: Timestamp, id_b: u64) -> bool {
    a.nanos < b.nanos || (a.nanos == b.nanos && id_a <= id_b)
}

/// Whether `id` is the entry of `entries` that expires first.
pub open spec fn expires_first<V: Expiring>(entries: Map<u64, V>, id: u64) -> bool {
    &&& entries.contains_key(id)
    &&& forall|other: u64| #[trigger]
        entries.contains_key(other) ==> due_no_later(
            entries[id].expires_at(),
            id,
            entries[other].expires_at(),
            other,
        )
}

/// Whether `deadline` is the deadline of the entry of `entries` that expires
/// first.
pub open spec fn is_next_deadline<V: Expiring>(entries: Map<u64, V>, deadline: Timestamp) -> bool {
    exists|id: u64| expires_first(entries, id) && entries[id].expires_at() == deadline
}

/// At most one entry expires first.
pub proof fn lemma_expires_first_unique<V: Expiring>(entries: Map<u64, V>, a: u64, b: u64)
    requires
        expires_first(entries, a),
        expires_first(entries, b),
    ensures
        a == b,
{
    assert(entries.contains_key(a));
    assert(entries.contains_key(b));
}

/// The entry of `table` that expires first, if the table has any.
pub fn first_to_expire<V: Expiring>(table: &IdMap<V>) -> (first: Option<u64>)
    ensures
        match first {
            Some(id) => expires_first(table@, id),
            None => table@ == Map::<u64, V>::empty(),
        },
{
    let len = table.len();
    let (first_id, first_entry) = match table.entry_at(0) {
        Some(entry) => entry,
        None => {
            assert(table@.dom() =~= Set::<u64>::empty());
            assert(table@ =~= Map::<u64, V>::empty());
            return None;
        },
    };
    let mut best_id: u64 = first_id;
    let mut best_deadline: Timestamp = first_entry.deadline();
    let mut index: usize = 1;
    while index < len
        invariant
            1 <= index <= len,
            len == table@.len(),
            forall|id: u64| #[trigger] table@.contains_key(id) ==> exists|i: int| 0 <= i < len && table.key_at(i) == id,
            table@.contains_key(best_id),
            best_deadline == table@[best_id].expires_at(),
            forall|i: int|
                0 <= i < index ==> due_no_later(
                    best_deadline,
                    best_id,
                    table@[#[trigger] table.key_at(i)].expires_at(),
                    table.key_at(i),
                ),
        decreases len - index,
    {
        match table.entry_at(index) {
            Some((id, entry)) => {
                let deadline = entry.deadline();
                if deadline.nanos < best_deadline.nanos || (deadline.nanos == best_deadline.nanos && id < best_id) {
                    best_id = id;
                    best_deadline = deadline;
                }
            },
            None => {},
        }
        index += 1;
    }
    proof {
        assert forall|other: u64| #[trigger] table@.contains_key(other) implies due_no_later(
            table@[best_id].expires_at(),
            best_id,
            table@[other].expires_at(),
            other,
        ) by {
            let i = choose|i: int| 0 <= i < len && table.key_at(i) == other;
            assert(table.key_at(i) == other);
        }
    }
    Some(best_id)
}

} // verus!
