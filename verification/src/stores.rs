//! What stores that keep their records elsewhere decide and write: statements,
//! filters, pages, and what they make of the answers.

pub mod chroma;
pub mod dispatch;
pub mod laws;
pub mod milvus;
pub mod postgres;
pub mod qdrant;
pub mod sqlite;

use crate::payload::Payload;
use crate::rank;
use crate::rank::Ranked;
use crate::text;
use crate::vector_store;
use crate::vector_store::{ResultModel, SearchResult, VectorStoreError};
use vstd::prelude::*;

verus! {

/// Refuses a vector that has another length than the store's.
pub fn check_dimension(expected: usize, actual: usize) -> (r: Result<(), VectorStoreError>)
    ensures
        r == if expected == actual {
            Ok::<(), VectorStoreError>(())
        } else {
            Err(VectorStoreError::DimensionMismatch { expected, actual })
        },
{
    if expected == actual {
        Ok(())
    } else {
        Err(VectorStoreError::DimensionMismatch { expected, actual })
    }
}

/// Reports that an update changed nothing because the record is not there.
pub fn check_affected(rows: u64) -> (r: Result<(), VectorStoreError>)
    ensures
        r == if rows == 0 {
            Err::<(), VectorStoreError>(VectorStoreError::NotFound)
        } else {
            Ok(())
        },
{
    if rows == 0 {
        Err(VectorStoreError::NotFound)
    } else {
        Ok(())
    }
}

/// A size as a signed number of a database; what is too large is the greatest
/// one.
pub fn clamp_size(n: usize) -> (r: i64)
    ensures
        r == if n <= i64::MAX {
            n as int
        } else {
            i64::MAX as int
        },
{
    if n as u128 <= i64::MAX as u128 {
        n as i64
    } else {
        i64::MAX
    }
}

impl Ranked for String {
    open spec fn may_precede(a: Seq<char>, b: Seq<char>) -> bool {
        !text::precedes(b, a)
    }

    fn is_not_after(&self, other: &Self) -> (b: bool) {
        !text::less(other.as_str(), self.as_str())
    }
}

/// A page of some ids in their order.
pub open spec fn sorted_page(ids: Seq<Seq<char>>, offset: nat, limit: nat) -> Seq<Seq<char>> {
    rank::page(rank::ranked::<String>(ids), offset, limit)
}

/// A page of some ids in their order.
pub fn page_of_ids(ids: Vec<String>, offset: usize, limit: usize) -> (r: Vec<String>)
    ensures
        text::texts(r@) == sorted_page(text::texts(ids@), offset as nat, limit as nat),
{
    let ghost all = text::texts(ids@);
    proof {
        assert(rank::views(ids@) =~= all);
    }
    let sorted = rank::sort(ids);
    let page = rank::text_page(&sorted, offset, limit);
    proof {
        assert(text::texts(page@) =~= rank::page(
            rank::views(sorted@),
            offset as nat,
            limit as nat,
        ));
    }
    page
}

/// Ids in their order are in the order of their characters.
pub proof fn law_ids_are_ordered()
    ensures
        rank::ordering::<String>(),
{
    assert forall|a: Seq<char>, b: Seq<char>| #[trigger]
        String::may_precede(a, b) || String::may_precede(b, a) by {
        text::lemma_precedes_total(a, b);
    }
    assert forall|a: Seq<char>, b: Seq<char>, c: Seq<char>| #[trigger]
        String::may_precede(a, b) && #[trigger] String::may_precede(
            b,
            c,
        ) implies String::may_precede(a, c) by {
        text::lemma_precedes_total(a, b);
        text::lemma_precedes_total(b, c);
        if text::precedes(c, a) && text::precedes(a, b) {
            text::lemma_precedes_transitive(c, a, b);
        }
    }
}

/// What a backend has under each key: a text, or something else.
pub type TextEntries = Vec<(String, Option<String>)>;

/// Entries as values.
pub open spec fn entry_models(entries: Seq<(String, Option<String>)>) -> Seq<
    (Seq<char>, Option<Seq<char>>),
> {
    entries.map_values(|e: (String, Option<String>)| (e.0@, text::model(e.1)))
}

/// The payload in some entries: the texts, without those under the dropped keys.
pub open spec fn decoded(
    entries: Seq<(Seq<char>, Option<Seq<char>>)>,
    dropped: Seq<Seq<char>>,
) -> Map<Seq<char>, Seq<char>>
    decreases entries.len(),
{
    if entries.len() == 0 {
        Map::empty()
    } else {
        let before = decoded(entries.drop_last(), dropped);
        match entries.last().1 {
            Some(value) => if dropped.contains(entries.last().0) {
                before
            } else {
                before.insert(entries.last().0, value)
            },
            None => before,
        }
    }
}

/// The payload in some entries: the texts, without those under the dropped keys.
pub fn decode_payload(entries: &TextEntries, dropped: &Vec<String>) -> (r: Payload)
    ensures
        r@ == decoded(entry_models(entries@), text::texts(dropped@)),
{
    let ghost all = entry_models(entries@);
    let mut r = Payload::new();
    let mut i: usize = 0;
    while i < entries.len()
        invariant
            i <= entries.len(),
            all == entry_models(entries@),
            r@ == decoded(all.take(i as int), text::texts(dropped@)),
        decreases entries.len() - i,
    {
        proof {
            assert(all.take(i + 1).drop_last() =~= all.take(i as int));
            assert(all.take(i + 1).last() == all[i as int]);
        }
        match &entries[i].1 {
            Some(value) => {
                if !text::is_among(entries[i].0.as_str(), dropped) {
                    r.insert(entries[i].0.clone(), value.clone());
                }
            },
            None => {},
        }
        i = i + 1;
    }
    proof {
        assert(all.take(i as int) =~= all);
    }
    r
}

/// Whether some entries have a key.
pub open spec fn has_entry(entries: Seq<(Seq<char>, Option<Seq<char>>)>, key: Seq<char>) -> bool {
    exists|k: int| 0 <= k < entries.len() && (#[trigger] entries[k]).0 == key
}

/// Whether some entries are those of a map, in any order.
pub open spec fn lists(
    entries: Seq<(Seq<char>, Option<Seq<char>>)>,
    map: Map<Seq<char>, Option<Seq<char>>>,
) -> bool {
    &&& forall|key: Seq<char>| #[trigger] map.contains_key(key) == has_entry(entries, key)
    &&& forall|k: int| 0 <= k < entries.len() ==> (#[trigger] entries[k]).1 == map[entries[k].0]
}

/// The texts of a map, without those under the dropped keys.
pub open spec fn texts_in(
    map: Map<Seq<char>, Option<Seq<char>>>,
    dropped: Seq<Seq<char>>,
) -> Map<Seq<char>, Seq<char>> {
    map.dom().filter(|key: Seq<char>| map[key] is Some && !dropped.contains(key)).mk_map(
        |key: Seq<char>| map[key]->0,
    )
}

/// The payload of a map as entries that may be texts.
pub open spec fn optional(payload: Map<Seq<char>, Seq<char>>) -> Map<
    Seq<char>,
    Option<Seq<char>>,
> {
    payload.map_values(|value: Seq<char>| Some(value))
}

proof fn lemma_decoded(
    entries: Seq<(Seq<char>, Option<Seq<char>>)>,
    map: Map<Seq<char>, Option<Seq<char>>>,
    dropped: Seq<Seq<char>>,
)
    requires
        forall|k: int| 0 <= k < entries.len() ==> (#[trigger] entries[k]).1 == map[entries[k].0],
    ensures
        forall|key: Seq<char>| #[trigger]
            decoded(entries, dropped).contains_key(key) == (has_entry(entries, key)
                && map[key] is Some && !dropped.contains(key)),
        forall|key: Seq<char>| #[trigger]
            decoded(entries, dropped).contains_key(key) ==> decoded(entries, dropped)[key]
                == map[key]->0,
    decreases entries.len(),
{
    if entries.len() > 0 {
        let rest = entries.drop_last();
        assert forall|k: int| 0 <= k < rest.len() implies (#[trigger] rest[k]).1
            == map[rest[k].0] by {
            assert(rest[k] == entries[k]);
        }
        lemma_decoded(rest, map, dropped);
        assert(entries[entries.len() - 1] == entries.last());
        assert forall|key: Seq<char>| #[trigger]
            decoded(entries, dropped).contains_key(key) == (has_entry(entries, key)
                && map[key] is Some && !dropped.contains(key)) by {
            assert(decoded(rest, dropped).contains_key(key) == (has_entry(rest, key)
                && map[key] is Some && !dropped.contains(key)));
            if has_entry(entries, key) && entries.last().0 != key {
                let k = choose|k: int| 0 <= k < entries.len() && (#[trigger] entries[k]).0 == key;
                assert(rest[k] == entries[k]);
            }
            if has_entry(rest, key) {
                let k = choose|k: int| 0 <= k < rest.len() && (#[trigger] rest[k]).0 == key;
                assert(entries[k] == rest[k]);
            }
        }
        assert forall|key: Seq<char>| #[trigger]
            decoded(entries, dropped).contains_key(key) implies decoded(entries, dropped)[key]
            == map[key]->0 by {
            assert(decoded(rest, dropped).contains_key(key) ==> decoded(rest, dropped)[key]
                == map[key]->0);
        }
    }
}

/// The payload in the entries of a map is the texts of the map, in whatever
/// order the entries come.
pub proof fn law_decoded_in_any_order(
    entries: Seq<(Seq<char>, Option<Seq<char>>)>,
    map: Map<Seq<char>, Option<Seq<char>>>,
    dropped: Seq<Seq<char>>,
)
    requires
        lists(entries, map),
    ensures
        decoded(entries, dropped) == texts_in(map, dropped),
{
    lemma_decoded(entries, map, dropped);
    assert forall|key: Seq<char>| decoded(entries, dropped).contains_key(key) == texts_in(
        map,
        dropped,
    ).contains_key(key) by {
        assert(map.contains_key(key) == has_entry(entries, key));
    }
    assert(decoded(entries, dropped) =~= texts_in(map, dropped));
}

/// The order key of the greatest single-precision number, the score of a result
/// that a backend gives none.
pub const NO_SCORE: i64 = 0x47ef_ffff_e000_0000;

/// What a backend found: an id, a score if it gives one, and a payload.
#[derive(Debug)]
pub struct Hit {
    pub id: String,
    pub score: Option<i64>,
    pub payload: Payload,
}

/// The result that a hit is.
pub open spec fn hit_result(hit: Hit) -> ResultModel {
    ResultModel {
        id: hit.id@,
        score: match hit.score {
            Some(score) => score,
            None => NO_SCORE,
        },
        payload: hit.payload@,
        score_details: None,
    }
}

/// The results that some hits are.
pub open spec fn hit_results(hits: Seq<Hit>) -> Seq<ResultModel> {
    hits.map_values(|hit: Hit| hit_result(hit))
}

/// The results that some hits are, those that pass a threshold.
pub fn results_of_hits(hits: Vec<Hit>, threshold: Option<i64>) -> (r: Vec<SearchResult>)
    ensures
        rank::views(r@) == vector_store::passing(hit_results(hits@), threshold),
{
    let ghost all = hit_results(hits@);
    let mut results: Vec<SearchResult> = Vec::new();
    let mut i: usize = 0;
    while i < hits.len()
        invariant
            i <= hits.len(),
            all == hit_results(hits@),
            rank::views(results@) == all.take(i as int),
        decreases hits.len() - i,
    {
        let ghost before = rank::views(results@);
        let hit = &hits[i];
        let score: i64 = match hit.score {
            Some(score) => score,
            None => NO_SCORE,
        };
        results.push(
            SearchResult {
                id: hit.id.clone(),
                score,
                payload: hit.payload.clone(),
                score_details: None,
            },
        );
        proof {
            assert(results@.last()@ =~= all[i as int]);
            assert(rank::views(results@) =~= before.push(all[i as int]));
            assert(all.take(i + 1) =~= before.push(all[i as int]));
        }
        i = i + 1;
    }
    proof {
        assert(all.take(i as int) =~= all);
    }
    vector_store::keep_within(results, threshold)
}

} // verus!
