//! A small table keyed by request identifier.

use vstd::prelude::*;

verus! {

/// A finite map from request identifiers to values, kept in a vector.
pub struct IdMap<V> {
    entries: Vec<(u64, V)>,
}

/// The identifiers of `entries`, in the same order.
pub open spec fn keys_of<V>(entries: Seq<(u64, V)>) -> Seq<u64> {
    entries.map_values(|e: (u64, V)| e.0)
}

/// The map that `entries` stands for, given that no identifier occurs twice.
pub open spec fn map_of<V>(entries: Seq<(u64, V)>) -> Map<u64, V> {
    Map::new(
        |id: u64| keys_of(entries).contains(id),
        |id: u64| entries[keys_of(entries).index_of(id)].1,
    )
}

/// Appending an entry under a new identifier inserts it into the map.
pub proof fn lemma_map_of_push<V>(entries: Seq<(u64, V)>, id: u64, value: V)
    requires
        keys_of(entries).no_duplicates(),
        !keys_of(entries).contains(id),
    ensures
        keys_of(entries.push((id, value))).no_duplicates(),
        map_of(entries.push((id, value))) == map_of(entries).insert(id, value),
{
    let after = entries.push((id, value));
    let keys = keys_of(entries);
    let keys_after = keys_of(after);
    assert(keys_after =~= keys.push(id));
    assert forall|i: int, j: int| 0 <= i < keys_after.len() && 0 <= j < keys_after.len() && i != j implies keys_after[i]
        != keys_after[j] by {
        if i < keys.len() {
            assert(keys[i] == keys_after[i]);
        }
        if j < keys.len() {
            assert(keys[j] == keys_after[j]);
        }
    }
    assert forall|k: u64| #[trigger] map_of(after).dom().contains(k) == map_of(entries).insert(id, value).dom().contains(k) by {
        if keys.contains(k) {
            let i = keys.index_of(k);
            assert(keys_after[i] == k);
        }
        if keys_after.contains(k) && k != id {
            let i = keys_after.index_of(k);
            assert(keys[i] == k);
        }
        assert(keys_after[keys.len() as int] == id);
    }
    assert forall|k: u64| #[trigger] map_of(after).dom().contains(k) implies map_of(after)[k] == map_of(entries).insert(
        id,
        value,
    )[k] by {
        let i = keys_after.index_of(k);
        if k == id {
            assert(i == keys.len());
        } else {
            assert(keys[i] == k);
            let j = keys.index_of(k);
            assert(keys_after[j] == k);
            assert(i == j);
        }
    }
    assert(map_of(after) =~= map_of(entries).insert(id, value));
}

/// Taking out the entry at `index` removes its identifier from the map.
pub proof fn lemma_map_of_remove<V>(entries: Seq<(u64, V)>, index: int)
    requires
        keys_of(entries).no_duplicates(),
        0 <= index < entries.len(),
    ensures
        keys_of(entries.remove(index)).no_duplicates(),
        map_of(entries.remove(index)) == map_of(entries).remove(entries[index].0),
        map_of(entries).contains_key(entries[index].0),
        map_of(entries)[entries[index].0] == entries[index].1,
{
    let after = entries.remove(index);
    let keys = keys_of(entries);
    let keys_after = keys_of(after);
    let id = entries[index].0;
    assert(keys_after =~= keys.remove(index));
    assert(keys[index] == id);
    assert forall|i: int, j: int| 0 <= i < keys_after.len() && 0 <= j < keys_after.len() && i != j implies keys_after[i]
        != keys_after[j] by {
        let i0 = if i < index { i } else { i + 1 };
        let j0 = if j < index { j } else { j + 1 };
        assert(keys_after[i] == keys[i0]);
        assert(keys_after[j] == keys[j0]);
    }
    assert(keys.index_of(id) == index);
    assert forall|k: u64| #[trigger] map_of(after).dom().contains(k) == map_of(entries).remove(id).dom().contains(k) by {
        if keys_after.contains(k) {
            let i = keys_after.index_of(k);
            let i0 = if i < index { i } else { i + 1 };
            assert(keys[i0] == k);
        }
        if keys.contains(k) && k != id {
            let i = keys.index_of(k);
            let i1 = if i < index { i } else { i - 1 };
            assert(keys_after[i1] == k);
        }
    }
    assert forall|k: u64| #[trigger] map_of(after).dom().contains(k) implies map_of(after)[k] == map_of(entries).remove(
        id,
    )[k] by {
        let i = keys_after.index_of(k);
        let i0 = if i < index { i } else { i + 1 };
        assert(keys[i0] == k);
        assert(keys.index_of(k) == i0);
    }
    assert(map_of(after) =~= map_of(entries).remove(id));
}

/// A table without repeated identifiers has as many entries as its map.
pub proof fn lemma_map_of_len<V>(entries: Seq<(u64, V)>)
    requires
        keys_of(entries).no_duplicates(),
    ensures
        map_of(entries).dom().finite(),
        map_of(entries).len() == entries.len(),
{
    let keys = keys_of(entries);
    keys.unique_seq_to_set();
    assert(map_of(entries).dom() =~= keys.to_set());
}

impl<V> View for IdMap<V> {
    type V = Map<u64, V>;

    closed spec fn view(&self) -> Map<u64, V> {
        map_of(self.entries@)
    }
}

impl<V> IdMap<V> {
    #[verifier::type_invariant]
    spec fn distinct(&self) -> bool {
        keys_of(self.entries@).no_duplicates()
    }

    /// An empty table.
    pub fn new() -> (table: Self)
        ensures
            table@ == Map::<u64, V>::empty(),
    {
        let table = IdMap { entries: Vec::new() };
        assert(table@ =~= Map::<u64, V>::empty());
        table
    }

    /// The identifier of the entry at position `index`. Every identifier of the
    /// table stands at exactly one position below the table's length.
    pub closed spec fn key_at(&self, index: int) -> u64 {
        self.entries@[index].0
    }

    /// The number of entries. The positions below it enumerate the table.
    pub fn len(&self) -> (len: usize)
        ensures
            self@.dom().finite(),
            len == self@.len(),
            forall|i: int| 0 <= i < len ==> self@.contains_key(#[trigger] self.key_at(i)),
            forall|id: u64| #[trigger]
                self@.contains_key(id) ==> exists|i: int| 0 <= i < len && self.key_at(i) == id,
    {
        proof {
            use_type_invariant(self);
            lemma_map_of_len(self.entries@);
            let keys = keys_of(self.entries@);
            assert forall|i: int| 0 <= i < self.entries@.len() implies self@.contains_key(
                #[trigger] self.key_at(i),
            ) by {
                assert(keys[i] == self.key_at(i));
            }
            assert forall|id: u64| #[trigger] self@.contains_key(id) implies exists|i: int|
                0 <= i < self.entries@.len() && self.key_at(i) == id by {
                let i = keys.index_of(id);
                assert(self.key_at(i) == id);
            }
        }
        self.entries.len()
    }

    /// The entry at position `index`, if the table is that long.
    pub fn entry_at(&self, index: usize) -> (entry: Option<(u64, &V)>)
        ensures
            match entry {
                Some((id, value)) => {
                    &&& index < self@.len()
                    &&& id == self.key_at(index as int)
                    &&& self@.contains_key(id)
                    &&& *value == self@[id]
                },
                None => index >= self@.len(),
            },
    {
        proof {
            use_type_invariant(self);
            lemma_map_of_len(self.entries@);
        }
        if index < self.entries.len() {
            proof {
                lemma_map_of_remove(self.entries@, index as int);
            }
            Some((self.entries[index].0, &self.entries[index].1))
        } else {
            None
        }
    }

    /// Where the entry of `id` stands, if there is one.
    fn position(&self, id: u64) -> (found: Option<usize>)
        ensures
            match found {
                Some(index) => index < self.entries@.len() && self.entries@[index as int].0 == id
                    && self@.contains_key(id) && self@[id] == self.entries@[index as int].1,
                None => !self@.contains_key(id),
            },
    {
        proof {
            use_type_invariant(self);
        }
        let mut index: usize = 0;
        while index < self.entries.len()
            invariant
                index <= self.entries@.len(),
                keys_of(self.entries@).no_duplicates(),
                forall|i: int| 0 <= i < index ==> self.entries@[i].0 != id,
            decreases self.entries@.len() - index,
        {
            if self.entries[index].0 == id {
                proof {
                    lemma_map_of_remove(self.entries@, index as int);
                }
                return Some(index);
            }
            index += 1;
        }
        proof {
            let keys = keys_of(self.entries@);
            if keys.contains(id) {
                let i = keys.index_of(id);
                assert(self.entries@[i].0 == id);
            }
        }
        None
    }

    /// Whether `id` has an entry.
    pub fn contains(&self, id: u64) -> (found: bool)
        ensures
            found == self@.contains_key(id),
    {
        self.position(id).is_some()
    }

    /// The value stored under `id`, if there is one.
    pub fn get(&self, id: u64) -> (value: Option<&V>)
        ensures
            match value {
                Some(v) => self@.contains_key(id) && *v == self@[id],
                None => !self@.contains_key(id),
            },
    {
        match self.position(id) {
            Some(index) => Some(&self.entries[index].1),
            None => None,
        }
    }

    /// Stores `value` under `id`, unless `id` has an entry already; then the
    /// value is handed back and the table stays as it is.
    pub fn insert(&mut self, id: u64, value: V) -> (result: Result<(), V>)
        ensures
            match result {
                Ok(()) => !old(self)@.contains_key(id) && final(self)@ == old(self)@.insert(id, value),
                Err(back) => old(self)@.contains_key(id) && back == value && final(self)@ == old(self)@,
            },
    {
        proof {
            use_type_invariant(&*self);
        }
        if self.position(id).is_some() {
            return Err(value);
        }
        proof {
            lemma_map_of_push(self.entries@, id, value);
        }
        let mut entries: Vec<(u64, V)> = Vec::new();
        std::mem::swap(&mut entries, &mut self.entries);
        entries.push((id, value));
        self.entries = entries;
        Ok(())
    }

    /// Takes out the entry of `id`, if there is one.
    pub fn remove(&mut self, id: u64) -> (value: Option<V>)
        ensures
            match value {
                Some(v) => old(self)@.contains_key(id) && v == old(self)@[id] && final(self)@ == old(self)@.remove(id),
                None => !old(self)@.contains_key(id) && final(self)@ == old(self)@,
            },
    {
        proof {
            use_type_invariant(&*self);
        }
        match self.position(id) {
            Some(index) => {
                proof {
                    lemma_map_of_remove(self.entries@, index as int);
                }
                let mut entries: Vec<(u64, V)> = Vec::new();
                std::mem::swap(&mut entries, &mut self.entries);
                let entry = entries.remove(index);
                self.entries = entries;
                Some(entry.1)
            },
            None => None,
        }
    }

    /// Takes out some entry, unless the table is empty.
    pub fn pop(&mut self) -> (entry: Option<(u64, V)>)
        ensures
            match entry {
                Some((id, value)) => old(self)@.contains_key(id) && value == old(self)@[id] && final(self)@ == old(self)@.remove(id),
                None => old(self)@ == Map::<u64, V>::empty() && final(self)@ == old(self)@,
            },
    {
        proof {
            use_type_invariant(&*self);
        }
        let len = self.entries.len();
        if len == 0 {
            assert(self@ =~= Map::<u64, V>::empty());
            return None;
        }
        proof {
            lemma_map_of_remove(self.entries@, len - 1);
        }
        let mut entries: Vec<(u64, V)> = Vec::new();
        std::mem::swap(&mut entries, &mut self.entries);
        let entry = entries.remove(len - 1);
        self.entries = entries;
        Some(entry)
    }
}

} // verus!
