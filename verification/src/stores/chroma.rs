//! The store in a Chroma collection.

use crate::payload::Payload;
use crate::rank;
use crate::stores;
use crate::stores::{Hit, TextEntries};
use crate::text;
use crate::vector_store;
use crate::vector_store::{RecordModel, ResultModel, SearchResult, VectorRecord};
use vstd::prelude::*;

verus! {

/// The entry that sets the metric of a collection.
pub const METRIC_KEY: &'static str = "hnsw:space";

/// The metric of a collection.
pub const METRIC: &'static str = "l2";

/// What a collection has of a record, as a value: nothing, or its entries.
pub open spec fn metadata_model(metadata: Option<TextEntries>) -> Seq<
    (Seq<char>, Option<Seq<char>>),
> {
    match metadata {
        Some(entries) => stores::entry_models(entries@),
        None => Seq::empty(),
    }
}

/// The payload of a record, out of its metadata: the texts.
pub fn chroma_metadata_to_payload(metadata: &Option<TextEntries>) -> (r: Payload)
    ensures
        r@ == stores::decoded(metadata_model(*metadata), Seq::empty()),
{
    let dropped: Vec<String> = Vec::new();
    proof {
        assert(text::texts(dropped@) =~= Seq::empty());
    }
    match metadata {
        Some(entries) => stores::decode_payload(entries, &dropped),
        None => Payload::new(),
    }
}

/// What a search asks of the metadata: that each of some entries is there. No
/// filters ask for nothing.
pub fn chroma_where_from_filters(filters: &Payload) -> (r: Option<Vec<(String, String)>>)
    ensures
        match r {
            Some(clauses) => text::pairs(clauses@) == filters.entries() && clauses@.len() > 0,
            None => filters.entries().len() == 0,
        },
{
    if filters.is_empty() {
        return None;
    }
    Some(filters.to_pairs())
}

/// A size as a number of the collection: what is left of it in 32 bits.
pub fn chroma_size(n: usize) -> (r: u32)
    ensures
        r == n as int % 0x1_0000_0000,
{
    let wide: u64 = n as u64;
    proof {
        assert(wide as u32 == wide % 0x1_0000_0000) by (bit_vector);
    }
    #[verifier::truncate]
    (wide as u32)
}

/// The record that an answer stands for. An answer without a vector has an empty
/// one.
pub fn chroma_record(id: String, vector: Option<Vec<u32>>, metadata: &Option<TextEntries>) -> (r:
    VectorRecord)
    ensures
        r@ == (RecordModel {
            id: id@,
            vector: match vector {
                Some(vector) => vector@,
                None => Seq::empty(),
            },
            payload: stores::decoded(metadata_model(*metadata), Seq::empty()),
        }),
{
    let vector = match vector {
        Some(vector) => vector,
        None => Vec::new(),
    };
    VectorRecord { id, vector, payload: chroma_metadata_to_payload(metadata) }
}

/// The result at a place in an answer. A missing score is the worst, missing
/// metadata are an empty payload.
pub open spec fn result_at(
    ids: Seq<String>,
    distances: Seq<Option<i64>>,
    metadatas: Seq<Option<TextEntries>>,
    i: int,
) -> ResultModel {
    ResultModel {
        id: ids[i]@,
        score: if i < distances.len() && distances[i] is Some {
            distances[i]->0
        } else {
            stores::NO_SCORE
        },
        payload: if i < metadatas.len() {
            stores::decoded(metadata_model(metadatas[i]), Seq::empty())
        } else {
            Map::empty()
        },
        score_details: None,
    }
}

/// The results that an answer to a search stands for, those that pass a
/// threshold.
pub fn chroma_results(
    ids: &Vec<String>,
    distances: &Vec<Option<i64>>,
    metadatas: &Vec<Option<TextEntries>>,
    threshold: Option<i64>,
) -> (r: Vec<SearchResult>)
    ensures
        rank::views(r@) == vector_store::passing(
            Seq::new(
                ids@.len(),
                |i: int| result_at(ids@, distances@, metadatas@, i),
            ),
            threshold,
        ),
{
    let ghost all = Seq::new(ids@.len(), |i: int| result_at(ids@, distances@, metadatas@, i));
    let mut hits: Vec<Hit> = Vec::new();
    let mut i: usize = 0;
    while i < ids.len()
        invariant
            i <= ids.len(),
            all == Seq::new(ids@.len(), |i: int| result_at(ids@, distances@, metadatas@, i)),
            stores::hit_results(hits@) == all.take(i as int),
        decreases ids.len() - i,
    {
        let ghost before = stores::hit_results(hits@);
        let score: Option<i64> = if i < distances.len() {
            distances[i]
        } else {
            None
        };
        let payload = if i < metadatas.len() {
            chroma_metadata_to_payload(&metadatas[i])
        } else {
            Payload::new()
        };
        hits.push(Hit { id: ids[i].clone(), score, payload });
        proof {
            assert(stores::hit_result(hits@.last()) =~= all[i as int]);
            assert(stores::hit_results(hits@) =~= before.push(all[i as int]));
            assert(all.take(i + 1) =~= before.push(all[i as int]));
        }
        i = i + 1;
    }
    proof {
        assert(all.take(i as int) =~= all);
    }
    stores::results_of_hits(hits, threshold)
}

/// The payload of a record comes back out of its metadata, in whatever order
/// the entries come.
pub proof fn law_metadata_round_trip(
    payload: Map<Seq<char>, Seq<char>>,
    entries: Seq<(Seq<char>, Option<Seq<char>>)>,
)
    requires
        stores::lists(entries, stores::optional(payload)),
    ensures
        stores::decoded(entries, Seq::empty()) == payload,
{
    stores::law_decoded_in_any_order(entries, stores::optional(payload), Seq::empty());
    assert(stores::texts_in(stores::optional(payload), Seq::empty()) =~= payload);
}

} // verus!
