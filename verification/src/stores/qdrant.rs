//! The store in a Qdrant collection.

use crate::payload::Payload;
use crate::rank;
use crate::stores;
use crate::stores::{Hit, TextEntries};
use crate::text;
use crate::vector_store;
use crate::vector_store::{RecordModel, ResultModel, SearchResult, VectorRecord};
use vstd::prelude::*;

verus! {

/// The entry that keeps the id of a record in the payload of its point.
pub const QDRANT_MEMORIA_ID_KEY: &'static str = "__memoria_id";

/// The namespace of the points' ids: the bytes of `memoria-qdrant-1`.
pub open spec fn namespace() -> Seq<u8> {
    seq![
        0x6du8,
        0x65u8,
        0x6du8,
        0x6fu8,
        0x72u8,
        0x69u8,
        0x61u8,
        0x2du8,
        0x71u8,
        0x64u8,
        0x72u8,
        0x61u8,
        0x6eu8,
        0x74u8,
        0x2du8,
        0x31u8,
    ]
}

/// The version 5 UUID of a name in a namespace, as bytes.
pub uninterp spec fn name_based_id(namespace: Seq<u8>, name: Seq<u8>) -> Seq<u8>;

/// `uuid::Uuid::new_v5`, on the namespace and the name that are given as bytes:
/// the result, as bytes, has the given name. The high half of its seventh byte
/// is the version, five, and the two highest bits of its ninth byte are the
/// variant of RFC 9562.
#[verifier::external_body]
fn new_v5(namespace: [u8; 16], name: &[u8]) -> (r: [u8; 16])
    ensures
        r@ == name_based_id(namespace@, name@),
        r@[6] / 16 == 5,
        r@[8] / 64 == 2,
{
    uuid::Uuid::new_v5(&uuid::Uuid::from_bytes(namespace), name).into_bytes()
}

/// The id of the point of a record, as the bytes of a UUID.
pub fn qdrant_point_id(id: &str) -> (r: [u8; 16])
    ensures
        r@ == name_based_id(namespace(), vstd::utf8::encode_utf8(id@)),
        r@[6] / 16 == 5,
        r@[8] / 64 == 2,
{
    let bytes: [u8; 16] = [
        0x6d, 0x65, 0x6d, 0x6f, 0x72, 0x69, 0x61, 0x2d, 0x71, 0x64, 0x72, 0x61, 0x6e, 0x74, 0x2d,
        0x31,
    ];
    proof {
        assert(bytes@ =~= namespace());
    }
    new_v5(bytes, id.as_bytes())
}

/// The keys that are no part of the payload of a record.
pub open spec fn reserved() -> Seq<Seq<char>> {
    seq![QDRANT_MEMORIA_ID_KEY@]
}

/// What stands under a key, if it is a text; of two entries the later one
/// counts.
pub open spec fn text_at(
    entries: Seq<(Seq<char>, Option<Seq<char>>)>,
    key: Seq<char>,
) -> Option<Seq<char>>
    decreases entries.len(),
{
    if entries.len() == 0 {
        None
    } else if entries.last().0 == key {
        entries.last().1
    } else {
        text_at(entries.drop_last(), key)
    }
}

/// The id of a record, out of the payload of its point, else a fallback.
pub open spec fn record_id(
    entries: Seq<(Seq<char>, Option<Seq<char>>)>,
    fallback: Seq<char>,
) -> Seq<char> {
    text::or(text_at(entries, QDRANT_MEMORIA_ID_KEY@), fallback)
}

/// The payload of a record, out of that of its point: the texts, without the id.
pub fn qdrant_decode_payload(payload: &TextEntries) -> (r: Payload)
    ensures
        r@ == stores::decoded(stores::entry_models(payload@), reserved()),
{
    let mut dropped: Vec<String> = Vec::new();
    dropped.push(QDRANT_MEMORIA_ID_KEY.to_owned());
    proof {
        assert(text::texts(dropped@) =~= reserved());
    }
    stores::decode_payload(payload, &dropped)
}

/// The id of a record, out of the payload of its point, else a fallback.
pub fn qdrant_record_id(payload: &TextEntries, fallback: &str) -> (r: String)
    ensures
        r@ == record_id(stores::entry_models(payload@), fallback@),
{
    let ghost all = stores::entry_models(payload@);
    let mut i: usize = payload.len();
    proof {
        assert(all.take(i as int) =~= all);
    }
    while i > 0
        invariant
            i <= payload.len(),
            all == stores::entry_models(payload@),
            text_at(all, QDRANT_MEMORIA_ID_KEY@) == text_at(
                all.take(i as int),
                QDRANT_MEMORIA_ID_KEY@,
            ),
        decreases i,
    {
        proof {
            assert(all.take(i as int).drop_last() =~= all.take(i - 1));
            assert(all.take(i as int).last() == all[i - 1]);
        }
        if text::same(payload[i - 1].0.as_str(), QDRANT_MEMORIA_ID_KEY) {
            return text::text_or(&payload[i - 1].1, fallback);
        }
        i = i - 1;
    }
    fallback.to_owned()
}

/// The payload of the point of a record: that of the record, and its id.
pub fn qdrant_point_payload(id: &str, payload: &Payload) -> (r: Payload)
    ensures
        r@ == payload@.insert(QDRANT_MEMORIA_ID_KEY@, id@),
{
    let mut r = payload.clone();
    r.insert(QDRANT_MEMORIA_ID_KEY.to_owned(), id.to_owned());
    r
}

/// The id of a point: none, a number, or the text of a UUID.
#[derive(Clone, Debug, PartialEq, Eq)]
pub enum PointId {
    Missing,
    Num(u64),
    Uuid(String),
}

/// The id of a point as a text.
pub open spec fn point_id_text(id: PointId) -> Seq<char> {
    match id {
        PointId::Missing => Seq::empty(),
        PointId::Num(number) => text::decimal(number as nat),
        PointId::Uuid(uuid) => uuid@,
    }
}

/// The id of a point as a text.
pub fn qdrant_point_id_to_string(id: &PointId) -> (r: String)
    ensures
        r@ == point_id_text(*id),
{
    match id {
        PointId::Missing => String::new(),
        PointId::Num(number) => text::to_decimal(*number as u128),
        PointId::Uuid(uuid) => uuid.clone(),
    }
}

/// A point that a search found.
#[derive(Clone, Debug, PartialEq, Eq)]
pub struct ScoredPoint {
    pub id: PointId,
    pub score: i64,
    pub payload: TextEntries,
}

/// The hit that a point stands for.
pub open spec fn point_result(point: ScoredPoint) -> ResultModel {
    ResultModel {
        id: record_id(stores::entry_models(point.payload@), point_id_text(point.id)),
        score: point.score,
        payload: stores::decoded(stores::entry_models(point.payload@), reserved()),
        score_details: None,
    }
}

/// The results that some points stand for, those that pass a threshold.
pub fn qdrant_results(points: &Vec<ScoredPoint>, threshold: Option<i64>) -> (r: Vec<SearchResult>)
    ensures
        rank::views(r@) == vector_store::passing(
            points@.map_values(|p: ScoredPoint| point_result(p)),
            threshold,
        ),
{
    let ghost all = points@.map_values(|p: ScoredPoint| point_result(p));
    let mut hits: Vec<Hit> = Vec::new();
    let mut i: usize = 0;
    while i < points.len()
        invariant
            i <= points.len(),
            all == points@.map_values(|p: ScoredPoint| point_result(p)),
            stores::hit_results(hits@) == all.take(i as int),
        decreases points.len() - i,
    {
        let ghost before = stores::hit_results(hits@);
        let point = &points[i];
        let fallback = qdrant_point_id_to_string(&point.id);
        hits.push(
            Hit {
                id: qdrant_record_id(&point.payload, fallback.as_str()),
                score: Some(point.score),
                payload: qdrant_decode_payload(&point.payload),
            },
        );
        proof {
            assert(stores::hit_result(hits@.last()) =~= all[i as int]);
            assert(stores::hit_results(hits@) =~= before.push(all[i as int]));
            assert(all.take(i + 1) =~= before.push(all[i as int]));
        }
        i = i + 1;
    }
    proof {
        assert(all.take(i as int) =~= all);
    }
    stores::results_of_hits(hits, threshold)
}

/// The record that a point stands for. A point without a vector of its kind has
/// none.
pub fn qdrant_record(payload: &TextEntries, vector: Option<Vec<u32>>, id: &str) -> (r: VectorRecord)
    ensures
        r@ == (RecordModel {
            id: record_id(stores::entry_models(payload@), id@),
            vector: match vector {
                Some(vector) => vector@,
                None => Seq::empty(),
            },
            payload: stores::decoded(stores::entry_models(payload@), reserved()),
        }),
{
    let vector = match vector {
        Some(vector) => vector,
        None => Vec::new(),
    };
    VectorRecord {
        id: qdrant_record_id(payload, id),
        vector,
        payload: qdrant_decode_payload(payload),
    }
}

/// The ids of some points, added to those of the pages before.
pub fn qdrant_collect_ids(ids: &mut Vec<String>, page: &Vec<(PointId, TextEntries)>)
    ensures
        text::texts(final(ids)@) == text::texts(old(ids)@) + page@.map_values(
            |p: (PointId, TextEntries)| record_id(stores::entry_models(p.1@), point_id_text(p.0)),
        ),
{
    let ghost before = text::texts(ids@);
    let ghost all = page@.map_values(
        |p: (PointId, TextEntries)| record_id(stores::entry_models(p.1@), point_id_text(p.0)),
    );
    let mut i: usize = 0;
    proof {
        assert(before + all.take(0) =~= before);
    }
    while i < page.len()
        invariant
            i <= page.len(),
            all == page@.map_values(
                |p: (PointId, TextEntries)| record_id(stores::entry_models(p.1@), point_id_text(p.0)),
            ),
            text::texts(ids@) == before + all.take(i as int),
        decreases page.len() - i,
    {
        let ghost now = text::texts(ids@);
        let fallback = qdrant_point_id_to_string(&page[i].0);
        ids.push(qdrant_record_id(&page[i].1, fallback.as_str()));
        proof {
            assert(text::texts(ids@) =~= now.push(all[i as int]));
            assert(before + all.take(i + 1) =~= now.push(all[i as int]));
        }
        i = i + 1;
    }
    proof {
        assert(all.take(i as int) =~= all);
    }
}

/// Whether there is another page of points to ask for: the last one was not
/// empty, and it named the next.
pub fn qdrant_has_next_page(page_len: usize, names_next: bool) -> (r: bool)
    ensures
        r == (names_next && page_len > 0),
{
    names_next && page_len > 0
}

/// The id and the payload of a record come back out of the payload of its
/// point, in whatever order the entries come. A payload that has the entry for
/// the id is left out.
pub proof fn law_point_payload_round_trip(
    id: Seq<char>,
    payload: Map<Seq<char>, Seq<char>>,
    entries: Seq<(Seq<char>, Option<Seq<char>>)>,
    fallback: Seq<char>,
)
    requires
        !payload.contains_key(QDRANT_MEMORIA_ID_KEY@),
        stores::lists(
            entries,
            stores::optional(payload.insert(QDRANT_MEMORIA_ID_KEY@, id)),
        ),
    ensures
        record_id(entries, fallback) == id,
        stores::decoded(entries, reserved()) == payload,
{
    let whole = stores::optional(payload.insert(QDRANT_MEMORIA_ID_KEY@, id));
    stores::law_decoded_in_any_order(entries, whole, reserved());
    assert(reserved()[0] == QDRANT_MEMORIA_ID_KEY@);
    assert(reserved().contains(QDRANT_MEMORIA_ID_KEY@));
    assert(stores::texts_in(whole, reserved()) =~= payload);
    assert(whole.contains_key(QDRANT_MEMORIA_ID_KEY@));
    lemma_text_at(entries, QDRANT_MEMORIA_ID_KEY@);
}

proof fn lemma_text_at(entries: Seq<(Seq<char>, Option<Seq<char>>)>, key: Seq<char>)
    requires
        stores::has_entry(entries, key),
    ensures
        exists|k: int|
            0 <= k < entries.len() && (#[trigger] entries[k]).0 == key && text_at(entries, key)
                == entries[k].1,
    decreases entries.len(),
{
    let rest = entries.drop_last();
    assert(entries[entries.len() - 1] == entries.last());
    if entries.last().0 != key {
        let k = choose|k: int| 0 <= k < entries.len() && (#[trigger] entries[k]).0 == key;
        assert(rest[k] == entries[k]);
        lemma_text_at(rest, key);
        let k = choose|k: int|
            0 <= k < rest.len() && (#[trigger] rest[k]).0 == key && text_at(rest, key)
                == rest[k].1;
        assert(entries[k] == rest[k]);
    }
}

} // verus!
