//! What a record says besides its vector: a map from texts to texts. A scope is
//! a payload too.

pub mod laws;

use crate::text;
use crate::text::same;
use crate::textmap;
use crate::textmap::TextMap;
use vstd::prelude::*;

verus! {

/// A map from texts to texts.
#[derive(Debug)]
pub struct Payload {
    map: TextMap<String>,
}

/// Whether a payload has every entry of some filters.
pub open spec fn covers(
    payload: Map<Seq<char>, Seq<char>>,
    filters: Map<Seq<char>, Seq<char>>,
) -> bool {
    forall|key: Seq<char>| #[trigger]
        filters.contains_key(key) ==> payload.contains_key(key) && payload[key] == filters[key]
}

/// The bytes of all keys and values together.
pub open spec fn entry_bytes(entries: Seq<(Seq<char>, Seq<char>)>) -> nat
    decreases entries.len(),
{
    if entries.len() == 0 {
        0
    } else {
        entry_bytes(entries.drop_last()) + vstd::utf8::encode_utf8(entries.last().0).len()
            + vstd::utf8::encode_utf8(entries.last().1).len()
    }
}

/// Some entries, with a later one in the place of an earlier one that has the
/// same key.
pub open spec fn overlaid(
    base: Map<Seq<char>, Seq<char>>,
    entries: Seq<(Seq<char>, Seq<char>)>,
) -> Map<Seq<char>, Seq<char>>
    decreases entries.len(),
{
    if entries.len() == 0 {
        base
    } else {
        overlaid(base, entries.drop_last()).insert(entries.last().0, entries.last().1)
    }
}

impl View for Payload {
    type V = Map<Seq<char>, Seq<char>>;

    open spec fn view(&self) -> Map<Seq<char>, Seq<char>> {
        textmap::map_of(self.entries())
    }
}

proof fn lemma_texts_map(entries: Seq<(Seq<char>, String)>)
    requires
        textmap::distinct_keys(entries),
    ensures
        textmap::distinct_keys(entries.map_values(|e: (Seq<char>, String)| (e.0, e.1@))),
        textmap::map_of(entries.map_values(|e: (Seq<char>, String)| (e.0, e.1@))) == textmap::map_of(
            entries,
        ).map_values(|v: String| v@),
{
    let seen = entries.map_values(|e: (Seq<char>, String)| (e.0, e.1@));
    assert forall|i: int, j: int| 0 <= i < j < seen.len() implies (#[trigger] seen[i]).0 != (
    #[trigger] seen[j]).0 by {
        assert(entries[i].0 != entries[j].0);
    }
    assert forall|k: Seq<char>| textmap::has_key(seen, k) == textmap::has_key(entries, k) by {
        if textmap::has_key(entries, k) {
            let i = choose|i: int| 0 <= i < entries.len() && (#[trigger] entries[i]).0 == k;
            assert(seen[i].0 == k);
        }
        if textmap::has_key(seen, k) {
            let i = choose|i: int| 0 <= i < seen.len() && (#[trigger] seen[i]).0 == k;
            assert(entries[i].0 == k);
        }
    }
    assert forall|k: Seq<char>| textmap::has_key(entries, k) implies textmap::map_of(seen)[k] == textmap::map_of(entries)[k]@ by {
        let i = choose|i: int| 0 <= i < entries.len() && (#[trigger] entries[i]).0 == k;
        textmap::lemma_map_at(entries, i);
        textmap::lemma_map_at(seen, i);
        assert(seen[i] == (entries[i].0, entries[i].1@));
    }
    assert(textmap::map_of(seen) =~= textmap::map_of(entries).map_values(|v: String| v@));
}

impl Payload {
    /// The entries in the order in which their keys were first inserted.
    pub closed spec fn entries(&self) -> Seq<(Seq<char>, Seq<char>)> {
        self.map.entries().map_values(|e: (Seq<char>, String)| (e.0, e.1@))
    }

    /// The payload without entries.
    pub fn new() -> (r: Self)
        ensures
            r.entries() == Seq::<(Seq<char>, Seq<char>)>::empty(),
            r@ == Map::<Seq<char>, Seq<char>>::empty(),
    {
        let r = Payload { map: TextMap::new() };
        proof {
            assert(r.entries() =~= Seq::empty());
            assert(r@ =~= Map::empty());
        }
        r
    }

    /// The number of entries, no two of which have the same key.
    pub fn len(&self) -> (n: usize)
        ensures
            n == self.entries().len(),
            textmap::distinct_keys(self.entries()),
    {
        let n = self.map.len();
        proof {
            lemma_texts_map(self.map.entries());
        }
        n
    }

    /// Whether the payload has no entries.
    pub fn is_empty(&self) -> (b: bool)
        ensures
            b == (self@ == Map::<Seq<char>, Seq<char>>::empty()),
            b == (self.entries().len() == 0),
    {
        let n = self.len();
        proof {
            if n > 0 {
                textmap::lemma_map_at(self.entries(), 0);
            } else {
                assert(self@ =~= Map::empty());
            }
        }
        n == 0
    }

    /// The key of the entry at a position.
    pub fn key_at(&self, i: usize) -> (key: &String)
        requires
            i < self.entries().len(),
        ensures
            key@ == self.entries()[i as int].0,
    {
        self.map.key_at(i)
    }

    /// The value of the entry at a position.
    pub fn value_at(&self, i: usize) -> (value: &String)
        requires
            i < self.entries().len(),
        ensures
            value@ == self.entries()[i as int].1,
    {
        self.map.value_at(i)
    }

    /// The value at a key.
    pub fn get(&self, key: &str) -> (r: Option<&String>)
        ensures
            match r {
                Some(value) => self@.contains_key(key@) && self@[key@] == value@,
                None => !self@.contains_key(key@),
            },
    {
        let n = self.map.len();
        proof {
            lemma_texts_map(self.map.entries());
        }
        self.map.get(key)
    }

    /// Whether the payload has a key.
    pub fn contains_key(&self, key: &str) -> (r: bool)
        ensures
            r == self@.contains_key(key@),
    {
        self.get(key).is_some()
    }

    /// Whether the payload has a value at a key.
    pub fn has(&self, key: &str, value: &str) -> (r: bool)
        ensures
            r == (self@.contains_key(key@) && self@[key@] == value@),
    {
        match self.get(key) {
            Some(found) => same(found.as_str(), value),
            None => false,
        }
    }

    /// Sets the value at a key.
    pub fn insert(&mut self, key: String, value: String)
        ensures
            final(self)@ == old(self)@.insert(key@, value@),
            !old(self)@.contains_key(key@) ==> final(self).entries() == old(self).entries().push(
                (key@, value@),
            ),
    {
        let n = self.map.len();
        let ghost before = *self;
        proof {
            lemma_texts_map(self.map.entries());
        }
        self.map.insert(key, value);
        let m = self.map.len();
        proof {
            lemma_texts_map(self.map.entries());
            assert(self@ =~= before@.insert(key@, value@));
            if !before@.contains_key(key@) {
                assert(self.entries() =~= before.entries().push((key@, value@)));
            }
        }
    }

    /// Whether the payload has every entry of some filters.
    pub fn matches(&self, filters: &Payload) -> (r: bool)
        ensures
            r == covers(self@, filters@),
    {
        let n = filters.len();
        let mut i: usize = 0;
        while i < n
            invariant
                i <= n,
                n == filters.entries().len(),
                textmap::distinct_keys(filters.entries()),
                forall|j: int|
                    0 <= j < i ==> {
                        let e = #[trigger] filters.entries()[j];
                        self@.contains_key(e.0) && self@[e.0] == e.1
                    },
            decreases n - i,
        {
            if !self.has(filters.key_at(i).as_str(), filters.value_at(i).as_str()) {
                proof {
                    textmap::lemma_map_at(filters.entries(), i as int);
                    assert(filters@.contains_key(filters.entries()[i as int].0));
                }
                return false;
            }
            i = i + 1;
        }
        proof {
            assert forall|key: Seq<char>| #[trigger] filters@.contains_key(key) implies self@.contains_key(
                key,
            ) && self@[key] == filters@[key] by {
                let j = choose|j: int|
                    0 <= j < filters.entries().len() && (#[trigger] filters.entries()[j]).0 == key;
                textmap::lemma_map_at(filters.entries(), j);
            }
        }
        true
    }

    /// Whether two payloads have the same entries.
    pub fn same(&self, other: &Payload) -> (r: bool)
        ensures
            r == (self@ == other@),
    {
        let forth = self.matches(other);
        let back = other.matches(self);
        proof {
            if forth && back {
                assert forall|k: Seq<char>| self@.contains_key(k) == other@.contains_key(k) by {}
                assert(self@ =~= other@);
            }
        }
        forth && back
    }

    /// Sets the value at each key of another payload.
    pub fn overlay(&mut self, other: &Payload)
        ensures
            final(self)@ == old(self)@.union_prefer_right(other@),
    {
        let n = other.len();
        let ghost before = self@;
        let mut i: usize = 0;
        proof {
            assert(self@ =~= overlaid(before, other.entries().take(0)));
        }
        while i < n
            invariant
                i <= n,
                n == other.entries().len(),
                self@ == overlaid(before, other.entries().take(i as int)),
            decreases n - i,
        {
            self.insert(other.key_at(i).clone(), other.value_at(i).clone());
            proof {
                assert(other.entries().take(i + 1).drop_last() =~= other.entries().take(i as int));
            }
            i = i + 1;
        }
        proof {
            assert(other.entries().take(i as int) =~= other.entries());
            lemma_overlaid(before, other.entries());
        }
    }

    /// The bytes of all keys together, and those of all values.
    pub fn byte_sizes(&self) -> (r: (u128, u128))
        ensures
            r.0 + r.1 == entry_bytes(self.entries()),
    {
        let len = self.len();
        let mut keys: u128 = 0;
        let mut values: u128 = 0;
        let mut i: usize = 0;
        while i < len
            invariant
                i <= len,
                len == self.entries().len(),
                keys <= i * 0xffff_ffff_ffff_ffff,
                values <= i * 0xffff_ffff_ffff_ffff,
                keys + values == entry_bytes(self.entries().take(i as int)),
            decreases len - i,
        {
            proof {
                assert(self.entries().take(i + 1).drop_last() =~= self.entries().take(i as int));
                assert(self.entries().take(i + 1).last() == self.entries()[i as int]);
            }
            let key: usize = self.key_at(i).as_str().as_bytes().len();
            let value: usize = self.value_at(i).as_str().as_bytes().len();
            keys = keys + key as u128;
            values = values + value as u128;
            proof {
                let all = self.entries().take(i + 1);
                assert(key == vstd::utf8::encode_utf8(all.last().0).len());
                assert(value == vstd::utf8::encode_utf8(all.last().1).len());
                assert(entry_bytes(all) == entry_bytes(all.drop_last()) + key + value);
            }
            i = i + 1;
        }
        proof {
            assert(self.entries().take(i as int) =~= self.entries());
        }
        (keys, values)
    }

    /// The entries, no two of which have the same key.
    pub fn to_pairs(&self) -> (r: Vec<(String, String)>)
        ensures
            text::pairs(r@) == self.entries(),
            textmap::distinct_keys(self.entries()),
    {
        let n = self.len();
        let mut r: Vec<(String, String)> = Vec::new();
        let mut i: usize = 0;
        proof {
            assert(text::pairs(r@) =~= self.entries().take(0));
        }
        while i < n
            invariant
                i <= n,
                n == self.entries().len(),
                text::pairs(r@) == self.entries().take(i as int),
            decreases n - i,
        {
            let ghost before = text::pairs(r@);
            r.push((self.key_at(i).clone(), self.value_at(i).clone()));
            proof {
                assert(text::pairs(r@) =~= before.push(self.entries()[i as int]));
                assert(self.entries().take(i + 1) =~= before.push(self.entries()[i as int]));
            }
            i = i + 1;
        }
        proof {
            assert(self.entries().take(i as int) =~= self.entries());
        }
        r
    }

    /// The payload with the given entries; of two with the same key the later
    /// one counts.
    pub fn from_pairs(pairs: Vec<(String, String)>) -> (r: Payload)
        ensures
            r@ == overlaid(Map::empty(), text::pairs(pairs@)),
            textmap::distinct_keys(text::pairs(pairs@)) ==> r@ == textmap::map_of(
                text::pairs(pairs@),
            ),
    {
        let ghost seen = text::pairs(pairs@);
        let mut r = Payload::new();
        let mut i: usize = 0;
        while i < pairs.len()
            invariant
                i <= pairs.len(),
                seen == text::pairs(pairs@),
                r@ == overlaid(Map::empty(), seen.take(i as int)),
            decreases pairs.len() - i,
        {
            r.insert(pairs[i].0.clone(), pairs[i].1.clone());
            proof {
                assert(seen.take(i + 1).drop_last() =~= seen.take(i as int));
                assert(seen.take(i + 1).last() == seen[i as int]);
            }
            i = i + 1;
        }
        proof {
            assert(seen.take(i as int) =~= seen);
            if textmap::distinct_keys(seen) {
                lemma_overlaid(Map::empty(), seen);
                assert(Map::empty().union_prefer_right(textmap::map_of(seen)) =~= textmap::map_of(
                    seen,
                ));
            }
        }
        r
    }
}

proof fn lemma_overlaid(
    base: Map<Seq<char>, Seq<char>>,
    entries: Seq<(Seq<char>, Seq<char>)>,
)
    requires
        textmap::distinct_keys(entries),
    ensures
        overlaid(base, entries) == base.union_prefer_right(textmap::map_of(entries)),
    decreases entries.len(),
{
    if entries.len() == 0 {
        assert(base.union_prefer_right(textmap::map_of(entries)) =~= base);
    } else {
        let rest = entries.drop_last();
        assert(textmap::distinct_keys(rest)) by {
            assert forall|i: int, j: int| 0 <= i < j < rest.len() implies (#[trigger] rest[i]).0 != (
            #[trigger] rest[j]).0 by {
                assert(entries[i].0 != entries[j].0);
            }
        }
        lemma_overlaid(base, rest);
        let n = entries.len() - 1;
        textmap::lemma_map_at(entries, n);
        assert forall|k: Seq<char>| textmap::has_key(entries, k) == (textmap::has_key(rest, k) || k == entries[n].0) by {
            if textmap::has_key(entries, k) {
                let i = choose|i: int| 0 <= i < entries.len() && (#[trigger] entries[i]).0 == k;
                if i < n {
                    assert(rest[i].0 == k);
                }
            }
            if textmap::has_key(rest, k) {
                let i = choose|i: int| 0 <= i < rest.len() && (#[trigger] rest[i]).0 == k;
                assert(entries[i].0 == k);
            }
        }
        assert forall|k: Seq<char>| textmap::has_key(rest, k) implies textmap::map_of(entries)[k] == textmap::map_of(rest)[k] by {
            let i = choose|i: int| 0 <= i < rest.len() && (#[trigger] rest[i]).0 == k;
            textmap::lemma_map_at(rest, i);
            assert(entries[i] == rest[i]);
            textmap::lemma_map_at(entries, i);
        }
        assert(overlaid(base, entries) =~= base.union_prefer_right(textmap::map_of(entries)));
    }
}

impl Clone for Payload {
    fn clone(&self) -> (r: Self)
        ensures
            r@ == self@,
            r.entries() == self.entries(),
    {
        let n = self.len();
        let mut r = Payload::new();
        let mut i: usize = 0;
        while i < n
            invariant
                i <= n,
                n == self.entries().len(),
                textmap::distinct_keys(self.entries()),
                r.entries() == self.entries().take(i as int),
            decreases n - i,
        {
            proof {
                if r@.contains_key(self.entries()[i as int].0) {
                    let j = choose|j: int|
                        0 <= j < r.entries().len() && (#[trigger] r.entries()[j]).0
                            == self.entries()[i as int].0;
                    assert(self.entries()[j].0 != self.entries()[i as int].0);
                }
            }
            r.insert(self.key_at(i).clone(), self.value_at(i).clone());
            proof {
                assert(self.entries().take(i + 1) =~= self.entries().take(i as int).push(
                    self.entries()[i as int],
                ));
            }
            i = i + 1;
        }
        proof {
            assert(self.entries().take(i as int) =~= self.entries());
        }
        r
    }
}

impl PartialEq for Payload {
    fn eq(&self, other: &Self) -> (r: bool) {
        self.same(other)
    }
}

impl vstd::std_specs::cmp::PartialEqSpecImpl for Payload {
    open spec fn obeys_eq_spec() -> bool {
        true
    }

    open spec fn eq_spec(&self, other: &Self) -> bool {
        self@ == other@
    }
}

} // verus!
