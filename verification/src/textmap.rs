//! Maps from texts, kept in the order in which their keys were first inserted.

use crate::text::same;
use vstd::prelude::*;

verus! {

/// Whether no two entries have the same key.
pub open spec fn distinct_keys<V>(entries: Seq<(Seq<char>, V)>) -> bool {
    forall|i: int, j: int|
        0 <= i < j < entries.len() ==> (#[trigger] entries[i]).0 != (#[trigger] entries[j]).0
}

/// Whether some entry has a key.
pub open spec fn has_key<V>(entries: Seq<(Seq<char>, V)>, key: Seq<char>) -> bool {
    exists|i: int| 0 <= i < entries.len() && (#[trigger] entries[i]).0 == key
}

/// The map that some entries with distinct keys stand for.
pub open spec fn map_of<V>(entries: Seq<(Seq<char>, V)>) -> Map<Seq<char>, V> {
    Map::new(
        |key: Seq<char>| has_key(entries, key),
        |key: Seq<char>|
            entries[choose|i: int| 0 <= i < entries.len() && (#[trigger] entries[i]).0 == key].1,
    )
}

/// An entry's value is the map's value at the entry's key.
pub proof fn lemma_map_at<V>(entries: Seq<(Seq<char>, V)>, i: int)
    requires
        distinct_keys(entries),
        0 <= i < entries.len(),
    ensures
        map_of(entries).contains_key(entries[i].0),
        map_of(entries)[entries[i].0] == entries[i].1,
{
    let key = entries[i].0;
    let j = choose|j: int| 0 <= j < entries.len() && (#[trigger] entries[j]).0 == key;
    assert(has_key(entries, key));
    assert(i == j);
}

/// An entry with a new key adds its value to the map.
pub proof fn lemma_map_push<V>(entries: Seq<(Seq<char>, V)>, key: Seq<char>, value: V)
    requires
        distinct_keys(entries),
        !has_key(entries, key),
    ensures
        distinct_keys(entries.push((key, value))),
        map_of(entries.push((key, value))) == map_of(entries).insert(key, value),
{
    let after = entries.push((key, value));
    assert(distinct_keys(after)) by {
        assert forall|i: int, j: int| 0 <= i < j < after.len() implies (#[trigger] after[i]).0 != (
        #[trigger] after[j]).0 by {
            assert(entries[i].0 != key);
        }
    }
    lemma_map_at(after, entries.len() as int);
    assert forall|k: Seq<char>| has_key(after, k) == (has_key(entries, k) || k == key) by {
        if has_key(entries, k) {
            let i = choose|i: int| 0 <= i < entries.len() && (#[trigger] entries[i]).0 == k;
            assert(after[i].0 == k);
        }
        assert(after[entries.len() as int].0 == key);
    }
    assert forall|k: Seq<char>| has_key(entries, k) implies map_of(after)[k] == map_of(entries)[k] by {
        let i = choose|i: int| 0 <= i < entries.len() && (#[trigger] entries[i]).0 == k;
        lemma_map_at(entries, i);
        lemma_map_at(after, i);
    }
    assert(map_of(after) =~= map_of(entries).insert(key, value));
}

proof fn lemma_map_update<V>(entries: Seq<(Seq<char>, V)>, at: int, value: V)
    requires
        distinct_keys(entries),
        0 <= at < entries.len(),
    ensures
        distinct_keys(entries.update(at, (entries[at].0, value))),
        map_of(entries.update(at, (entries[at].0, value))) == map_of(entries).insert(
            entries[at].0,
            value,
        ),
{
    let key = entries[at].0;
    let after = entries.update(at, (key, value));
    assert(distinct_keys(after)) by {
        assert forall|i: int, j: int| 0 <= i < j < after.len() implies (#[trigger] after[i]).0 != (
        #[trigger] after[j]).0 by {
            assert(entries[i].0 != entries[j].0);
        }
    }
    lemma_map_at(after, at);
    assert forall|k: Seq<char>| has_key(after, k) == has_key(entries, k) by {
        if has_key(entries, k) {
            let i = choose|i: int| 0 <= i < entries.len() && (#[trigger] entries[i]).0 == k;
            assert(after[i].0 == k);
        }
        if has_key(after, k) {
            let i = choose|i: int| 0 <= i < after.len() && (#[trigger] after[i]).0 == k;
            assert(entries[i].0 == k);
        }
    }
    assert forall|k: Seq<char>| has_key(entries, k) && k != key implies map_of(after)[k] == map_of(
        entries,
    )[k] by {
        let i = choose|i: int| 0 <= i < entries.len() && (#[trigger] entries[i]).0 == k;
        lemma_map_at(entries, i);
        lemma_map_at(after, i);
    }
    assert(has_key(entries, key));
    assert(map_of(after) =~= map_of(entries).insert(key, value));
}

proof fn lemma_map_remove<V>(entries: Seq<(Seq<char>, V)>, at: int)
    requires
        distinct_keys(entries),
        0 <= at < entries.len(),
    ensures
        distinct_keys(entries.remove(at)),
        map_of(entries.remove(at)) == map_of(entries).remove(entries[at].0),
{
    let key = entries[at].0;
    let after = entries.remove(at);
    assert(distinct_keys(after)) by {
        assert forall|i: int, j: int| 0 <= i < j < after.len() implies (#[trigger] after[i]).0 != (
        #[trigger] after[j]).0 by {
            let x = if i < at { i } else { i + 1 };
            let y = if j < at { j } else { j + 1 };
            assert(entries[x].0 != entries[y].0);
        }
    }
    assert forall|k: Seq<char>| has_key(after, k) == (has_key(entries, k) && k != key) by {
        if has_key(entries, k) && k != key {
            let i = choose|i: int| 0 <= i < entries.len() && (#[trigger] entries[i]).0 == k;
            let x = if i < at { i } else { i - 1 };
            assert(after[x].0 == k);
        }
        if has_key(after, k) {
            let i = choose|i: int| 0 <= i < after.len() && (#[trigger] after[i]).0 == k;
            let x = if i < at { i } else { i + 1 };
            assert(entries[x].0 == k);
        }
    }
    assert forall|k: Seq<char>| has_key(after, k) implies map_of(after)[k] == map_of(entries)[k] by {
        let i = choose|i: int| 0 <= i < after.len() && (#[trigger] after[i]).0 == k;
        let x = if i < at { i } else { i + 1 };
        lemma_map_at(entries, x);
        lemma_map_at(after, i);
    }
    assert(map_of(after) =~= map_of(entries).remove(key));
}

/// A map from texts.
#[derive(Debug)]
pub struct TextMap<V> {
    items: Vec<(String, V)>,
}

impl<V> View for TextMap<V> {
    type V = Map<Seq<char>, V>;

    open spec fn view(&self) -> Map<Seq<char>, V> {
        map_of(self.entries())
    }
}

impl<V> TextMap<V> {
    /// The entries in the order in which their keys were first inserted.
    pub closed spec fn entries(&self) -> Seq<(Seq<char>, V)> {
        self.items@.map_values(|item: (String, V)| (item.0@, item.1))
    }

    #[verifier::type_invariant]
    spec fn distinct(&self) -> bool {
        distinct_keys(self.entries())
    }

    /// The map without entries.
    pub fn new() -> (r: Self)
        ensures
            r.entries() == Seq::<(Seq<char>, V)>::empty(),
            r@ == Map::<Seq<char>, V>::empty(),
    {
        let r = TextMap { items: Vec::new() };
        proof {
            assert(r.entries() =~= Seq::empty());
            assert(r@ =~= Map::empty());
        }
        r
    }

    /// The number of entries, no two of which have the same key.
    pub fn len(&self) -> (n: usize)
        ensures
            n == self.entries().len(),
            distinct_keys(self.entries()),
    {
        proof {
            use_type_invariant(self);
        }
        self.items.len()
    }

    /// The key of the entry at a position.
    pub fn key_at(&self, i: usize) -> (key: &String)
        requires
            i < self.entries().len(),
        ensures
            key@ == self.entries()[i as int].0,
    {
        &self.items[i].0
    }

    /// The value of the entry at a position.
    pub fn value_at(&self, i: usize) -> (value: &V)
        requires
            i < self.entries().len(),
        ensures
            *value == self.entries()[i as int].1,
    {
        &self.items[i].1
    }

    /// The position of a key.
    pub fn position(&self, key: &str) -> (r: Option<usize>)
        ensures
            distinct_keys(self.entries()),
            match r {
                Some(i) => i < self.entries().len() && self.entries()[i as int].0 == key@
                    && self@.contains_key(key@) && self@[key@] == self.entries()[i as int].1,
                None => !self@.contains_key(key@),
            },
    {
        proof {
            use_type_invariant(self);
        }
        let mut i: usize = 0;
        while i < self.items.len()
            invariant
                i <= self.items.len(),
                distinct_keys(self.entries()),
                forall|j: int| 0 <= j < i ==> (#[trigger] self.entries()[j]).0 != key@,
            decreases self.items.len() - i,
        {
            if same(self.items[i].0.as_str(), key) {
                proof {
                    assert(self.entries()[i as int].0 == key@);
                    lemma_map_at(self.entries(), i as int);
                }
                return Some(i);
            }
            i = i + 1;
        }
        None
    }

    /// The value at a key.
    pub fn get(&self, key: &str) -> (r: Option<&V>)
        ensures
            match r {
                Some(value) => self@.contains_key(key@) && self@[key@] == *value,
                None => !self@.contains_key(key@),
            },
    {
        match self.position(key) {
            Some(i) => Some(&self.items[i].1),
            None => None,
        }
    }

    /// Whether the map has a key.
    pub fn contains_key(&self, key: &str) -> (r: bool)
        ensures
            r == self@.contains_key(key@),
    {
        self.position(key).is_some()
    }

    /// Sets the value at a key; an entry that is there keeps its place, a new
    /// one comes last.
    pub fn insert(&mut self, key: String, value: V)
        ensures
            distinct_keys(final(self).entries()),
            final(self)@ == old(self)@.insert(key@, value),
            !old(self)@.contains_key(key@) ==> final(self).entries() == old(self).entries().push(
                (key@, value),
            ),
            forall|i: int|
                0 <= i < old(self).entries().len() && (#[trigger] old(self).entries()[i]).0 == key@
                    ==> final(self).entries() == old(self).entries().update(i, (key@, value)),
    {
        proof {
            use_type_invariant(&*self);
        }
        let at = self.position(key.as_str());
        let ghost before = self.entries();
        let mut items: Vec<(String, V)> = Vec::new();
        proof {
            assert(TextMap { items }.entries() =~= Seq::empty());
        }
        std::mem::swap(&mut items, &mut self.items);
        match at {
            Some(i) => {
                items.set(i, (key, value));
                proof {
                    assert(TextMap { items }.entries() =~= before.update(i as int, (key@, value)));
                    lemma_map_update(before, i as int, value);
                    assert forall|j: int|
                        0 <= j < before.len() && (#[trigger] before[j]).0 == key@ implies j == i by {}
                }
            },
            None => {
                items.push((key, value));
                proof {
                    assert(TextMap { items }.entries() =~= before.push((key@, value)));
                    lemma_map_push(before, key@, value);
                    assert forall|j: int|
                        0 <= j < before.len() implies (#[trigger] before[j]).0 != key@ by {
                        lemma_map_at(before, j);
                    }
                }
            },
        }
        self.items = items;
    }

    /// Takes out the entry of a key.
    pub fn remove(&mut self, key: &str) -> (r: Option<V>)
        ensures
            distinct_keys(final(self).entries()),
            final(self)@ == old(self)@.remove(key@),
            match r {
                Some(value) => old(self)@.contains_key(key@) && old(self)@[key@] == value,
                None => !old(self)@.contains_key(key@),
            },
            !old(self)@.contains_key(key@) ==> final(self).entries() == old(self).entries(),
            forall|i: int|
                0 <= i < old(self).entries().len() && (#[trigger] old(self).entries()[i]).0 == key@
                    ==> final(self).entries() == old(self).entries().remove(i),
    {
        proof {
            use_type_invariant(&*self);
        }
        let at = self.position(key);
        let ghost before = self.entries();
        match at {
            Some(i) => {
                let mut items: Vec<(String, V)> = Vec::new();
                proof {
                    assert(TextMap { items }.entries() =~= Seq::empty());
                }
                std::mem::swap(&mut items, &mut self.items);
                let item = items.remove(i);
                proof {
                    assert(TextMap { items }.entries() =~= before.remove(i as int));
                    lemma_map_remove(before, i as int);
                    assert forall|j: int|
                        0 <= j < before.len() && (#[trigger] before[j]).0 == key@ implies j == i by {}
                }
                self.items = items;
                Some(item.1)
            },
            None => {
                proof {
                    assert forall|j: int|
                        0 <= j < before.len() implies (#[trigger] before[j]).0 != key@ by {
                        lemma_map_at(before, j);
                    }
                    assert(self@ =~= self@.remove(key@));
                }
                None
            },
        }
    }
}

} // verus!
