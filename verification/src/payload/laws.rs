//! What payloads hold.

use crate::payload;
use vstd::prelude::*;

verus! {

/// A payload covers filters exactly where no entry of them is missing in it or
/// has another value there.
pub proof fn law_covers(
    payload: Map<Seq<char>, Seq<char>>,
    filters: Map<Seq<char>, Seq<char>>,
    key: Seq<char>,
    value: Seq<char>,
)
    ensures
        payload::covers(payload, Map::empty()),
        !filters.contains_key(key) ==> (payload::covers(payload, filters.insert(key, value)) <==> {
            &&& payload::covers(payload, filters)
            &&& payload.contains_key(key)
            &&& payload[key] == value
        }),
        payload::covers(payload, payload),
{
    let more = filters.insert(key, value);
    if !filters.contains_key(key) {
        if payload::covers(payload, more) {
            assert(more.contains_key(key));
            assert forall|k: Seq<char>| #[trigger] filters.contains_key(k) implies
                payload.contains_key(k) && payload[k] == filters[k] by {
                assert(more.contains_key(k));
            }
        }
    }
}

/// The bytes of some entries are those of the keys and of the values.
pub proof fn law_entry_bytes(entries: Seq<(Seq<char>, Seq<char>)>, key: Seq<char>, value: Seq<char>)
    ensures
        payload::entry_bytes(Seq::empty()) == 0,
        payload::entry_bytes(entries.push((key, value))) == payload::entry_bytes(entries)
            + vstd::utf8::encode_utf8(key).len() + vstd::utf8::encode_utf8(value).len(),
{
    assert(entries.push((key, value)).drop_last() =~= entries);
}

/// Entries laid over a payload: the last one with a key counts, and keys that they
/// lack stay as they are.
pub proof fn law_overlaid(
    base: Map<Seq<char>, Seq<char>>,
    entries: Seq<(Seq<char>, Seq<char>)>,
    key: Seq<char>,
)
    ensures
        ({
            let all = payload::overlaid(base, entries);
            &&& (forall|i: int| 0 <= i < entries.len() ==> (#[trigger] entries[i]).0 != key) ==> {
                &&& all.contains_key(key) == base.contains_key(key)
                &&& base.contains_key(key) ==> all[key] == base[key]
            }
            &&& forall|i: int|
                {
                    &&& 0 <= i < entries.len()
                    &&& (#[trigger] entries[i]).0 == key
                    &&& forall|j: int| i < j < entries.len() ==> (#[trigger] entries[j]).0 != key
                } ==> all.contains_key(key) && all[key] == entries[i].1
        }),
    decreases entries.len(),
{
    if entries.len() > 0 {
        let rest = entries.drop_last();
        law_overlaid(base, rest, key);
        let last = entries.len() - 1;
        assert(entries[last] == entries.last());
        assert forall|i: int| 0 <= i < rest.len() implies #[trigger] rest[i] == entries[i] by {}
        let all = payload::overlaid(base, entries);
        if forall|i: int| 0 <= i < entries.len() ==> (#[trigger] entries[i]).0 != key {
            assert(entries[last].0 != key);
            assert forall|i: int| 0 <= i < rest.len() implies (#[trigger] rest[i]).0 != key by {
                assert(entries[i].0 != key);
            }
        }
        assert forall|i: int|
            {
                &&& 0 <= i < entries.len()
                &&& (#[trigger] entries[i]).0 == key
                &&& forall|j: int| i < j < entries.len() ==> (#[trigger] entries[j]).0 != key
            } implies all.contains_key(key) && all[key] == entries[i].1 by {
            if i < last {
                assert(entries[last].0 != key);
                assert(rest[i].0 == key);
                assert forall|j: int| i < j < rest.len() implies (#[trigger] rest[j]).0 != key by {
                    assert(entries[j].0 != key);
                }
            }
        }
    }
}

} // verus!
