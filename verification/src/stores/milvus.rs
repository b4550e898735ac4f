//! The store in a Milvus collection.

use crate::json;
use crate::json::{Json, JsonKind, JsonTree, TreeKind};
use crate::payload::Payload;
use crate::rank;
use crate::stores;
use crate::stores::{Hit, TextEntries};
use crate::text;
use crate::textmap;
use crate::textmap::TextMap;
use crate::vector_store;
use crate::vector_store::{
    RecordModel, ResultModel, SearchResult, VectorRecord, VectorStoreError,
};
use vstd::prelude::*;

verus! {

/// The field of a record's id.
pub const MILVUS_PRIMARY_FIELD: &'static str = "id";

/// The field of a record's vector.
pub const MILVUS_VECTOR_FIELD: &'static str = "vector";

/// How many rows a page has.
pub const PAGE_SIZE: i64 = 1000;

/// The most results that a search may ask for.
pub const MILVUS_MAX_TOP_K: i64 = 16384;

/// A value with each backslash and each quote after a backslash.
pub open spec fn escaped(value: Seq<char>) -> Seq<char> {
    text::replaced(text::replaced(value, '\\', "\\\\"@), '"', "\\\""@)
}

/// A value with each backslash and each quote after a backslash.
pub fn milvus_escape_filter_value(value: &str) -> (r: String)
    ensures
        r@ == escaped(value@),
{
    let inner = text::replace(value, '\\', "\\\\");
    text::replace(inner.as_str(), '"', "\\\"")
}

/// The condition that a field has a value.
pub open spec fn condition(entry: (Seq<char>, Seq<char>)) -> Seq<char> {
    entry.0 + " == \""@ + escaped(entry.1) + "\""@
}

/// The condition that each of some fields has its value.
pub open spec fn filter_expression(entries: Seq<(Seq<char>, Seq<char>)>) -> Seq<char> {
    text::joined(entries.map_values(|e: (Seq<char>, Seq<char>)| condition(e)), " and "@)
}

/// The condition that each of some fields has its value; no filters give an
/// empty one.
pub fn milvus_filter_expression(filters: &Payload) -> (r: String)
    ensures
        r@ == filter_expression(filters.entries()),
{
    let n = filters.len();
    let ghost wanted = filters.entries().map_values(|e: (Seq<char>, Seq<char>)| condition(e));
    let mut pieces: Vec<String> = Vec::new();
    let mut i: usize = 0;
    while i < n
        invariant
            i <= n,
            n == filters.entries().len(),
            wanted == filters.entries().map_values(|e: (Seq<char>, Seq<char>)| condition(e)),
            text::texts(pieces@) == wanted.take(i as int),
        decreases n - i,
    {
        let ghost before = text::texts(pieces@);
        let value = milvus_escape_filter_value(filters.value_at(i).as_str());
        let mut piece = text::concat3(filters.key_at(i).as_str(), " == \"", value.as_str());
        piece.append("\"");
        pieces.push(piece);
        proof {
            assert(text::texts(pieces@) =~= before.push(wanted[i as int]));
            assert(wanted.take(i + 1) =~= before.push(wanted[i as int]));
        }
        i = i + 1;
    }
    proof {
        assert(wanted.take(i as int) =~= wanted);
    }
    text::join(&pieces, " and ")
}

/// How a text literal reads after its opening quote: its value, and what stands
/// after the closing quote.
pub open spec fn literal(s: Seq<char>) -> Option<(Seq<char>, Seq<char>)>
    decreases s.len(),
{
    if s.len() == 0 {
        None
    } else if s[0] == '"' {
        Some((Seq::empty(), s.skip(1)))
    } else if s[0] == '\\' {
        if s.len() < 2 {
            None
        } else {
            match literal(s.skip(2)) {
                Some((value, rest)) => Some((seq![s[1]] + value, rest)),
                None => None,
            }
        }
    } else {
        match literal(s.skip(1)) {
            Some((value, rest)) => Some((seq![s[0]] + value, rest)),
            None => None,
        }
    }
}

proof fn lemma_replaced_concat(a: Seq<char>, b: Seq<char>, c: char, with: Seq<char>)
    ensures
        text::replaced(a + b, c, with) == text::replaced(a, c, with) + text::replaced(b, c, with),
    decreases b.len(),
{
    if b.len() == 0 {
        assert(a + b =~= a);
        assert(text::replaced(a, c, with) + text::replaced(b, c, with) =~= text::replaced(
            a,
            c,
            with,
        ));
    } else {
        assert((a + b).drop_last() =~= a + b.drop_last());
        assert((a + b).last() == b.last());
        lemma_replaced_concat(a, b.drop_last(), c, with);
        assert(text::replaced(a + b, c, with) =~= text::replaced(a, c, with) + text::replaced(
            b,
            c,
            with,
        ));
    }
}

proof fn lemma_replaced_one(x: char, c: char, with: Seq<char>)
    ensures
        text::replaced(seq![x], c, with) == if x == c {
            with
        } else {
            seq![x]
        },
{
    reveal_with_fuel(text::replaced, 2);
    assert(seq![x].drop_last() =~= Seq::empty());
    assert(text::replaced(seq![x], c, with) =~= if x == c {
        with
    } else {
        seq![x]
    });
}

proof fn lemma_escaped_front(x: char, rest: Seq<char>)
    ensures
        escaped(seq![x] + rest) == (if x == '\\' || x == '"' {
            seq!['\\', x]
        } else {
            seq![x]
        }) + escaped(rest),
{
    let double = "\\\\"@;
    let quote = "\\\""@;
    reveal_strlit("\\\\");
    reveal_strlit("\\\"");
    assert(double =~= seq!['\\', '\\']);
    assert(quote =~= seq!['\\', '"']);
    lemma_replaced_concat(seq![x], rest, '\\', double);
    lemma_replaced_one(x, '\\', double);
    let first = text::replaced(seq![x], '\\', double);
    lemma_replaced_concat(first, text::replaced(rest, '\\', double), '"', quote);
    if x == '\\' {
        assert(first =~= seq!['\\'] + seq!['\\']);
        lemma_replaced_concat(seq!['\\'], seq!['\\'], '"', quote);
        lemma_replaced_one('\\', '"', quote);
        assert(text::replaced(first, '"', quote) =~= seq!['\\', x]);
    } else {
        lemma_replaced_one(x, '"', quote);
    }
}

/// An escaped value between quotes reads as the value, whatever stands after
/// it: no value ends its literal early.
pub proof fn law_escaped_values_read_back(value: Seq<char>, rest: Seq<char>)
    ensures
        literal(escaped(value) + "\""@ + rest) == Some((value, rest)),
    decreases value.len(),
{
    reveal_strlit("\"");
    let s = escaped(value) + "\""@ + rest;
    if value.len() == 0 {
        assert(escaped(value) =~= Seq::empty());
        assert(s.skip(1) =~= rest);
        assert(value =~= Seq::empty());
    } else {
        let x = value[0];
        let tail = value.skip(1);
        assert(value =~= seq![x] + tail);
        lemma_escaped_front(x, tail);
        law_escaped_values_read_back(tail, rest);
        let t = escaped(tail) + "\""@ + rest;
        if x == '\\' || x == '"' {
            assert(s =~= seq!['\\', x] + t);
            assert(s.skip(2) =~= t);
        } else {
            assert(s =~= seq![x] + t);
            assert(s.skip(1) =~= t);
        }
    }
}

/// What a row has in a field.
#[derive(Debug)]
pub enum MilvusField {
    Text(String),
    Vector(Vec<u32>),
}

/// What a row has in a field, as a value.
pub enum FieldModel {
    Text(Seq<char>),
    Vector(Seq<u32>),
}

impl View for MilvusField {
    type V = FieldModel;

    open spec fn view(&self) -> FieldModel {
        match self {
            MilvusField::Text(s) => FieldModel::Text(s@),
            MilvusField::Vector(v) => FieldModel::Vector(v@),
        }
    }
}

/// The fields of a row as values.
pub open spec fn row_model(row: Map<Seq<char>, MilvusField>) -> Map<Seq<char>, FieldModel> {
    row.map_values(|field: MilvusField| field@)
}

/// The row of a record: its id, its vector, and its payload over them.
pub open spec fn record_row(record: RecordModel) -> Map<Seq<char>, FieldModel> {
    Map::empty().insert(MILVUS_PRIMARY_FIELD@, FieldModel::Text(record.id)).insert(
        MILVUS_VECTOR_FIELD@,
        FieldModel::Vector(record.vector),
    ).union_prefer_right(record.payload.map_values(|s: Seq<char>| FieldModel::Text(s)))
}

/// The row of a record. A vector of another length than the store's is refused.
pub fn milvus_row(dimension: usize, record: VectorRecord) -> (r: Result<
    TextMap<MilvusField>,
    VectorStoreError,
>)
    ensures
        match r {
            Ok(row) => record.vector@.len() == dimension && row_model(row@) == record_row(record@),
            Err(err) => record.vector@.len() != dimension && err
                == (VectorStoreError::DimensionMismatch {
                expected: dimension,
                actual: record.vector@.len() as usize,
            }),
        },
{
    let ghost model = record@;
    match stores::check_dimension(dimension, record.vector.len()) {
        Ok(()) => {},
        Err(err) => {
            return Err(err);
        },
    }
    let VectorRecord { id, vector, payload } = record;
    let mut row: TextMap<MilvusField> = TextMap::new();
    row.insert(MILVUS_PRIMARY_FIELD.to_owned(), MilvusField::Text(id));
    row.insert(MILVUS_VECTOR_FIELD.to_owned(), MilvusField::Vector(vector));
    let ghost start = row_model(row@);
    proof {
        assert(start =~= Map::empty().insert(
            MILVUS_PRIMARY_FIELD@,
            FieldModel::Text(model.id),
        ).insert(MILVUS_VECTOR_FIELD@, FieldModel::Vector(model.vector)));
    }
    let n = payload.len();
    let mut i: usize = 0;
    let ghost entries = payload.entries();
    proof {
        assert(textmap::map_of(entries.take(0)) =~= Map::empty());
        assert(row_model(row@) =~= start.union_prefer_right(
            textmap::map_of(entries.take(0)).map_values(|s: Seq<char>| FieldModel::Text(s)),
        ));
    }
    while i < n
        invariant
            i <= n,
            n == entries.len(),
            entries == payload.entries(),
            textmap::distinct_keys(entries),
            row_model(row@) == start.union_prefer_right(
                textmap::map_of(entries.take(i as int)).map_values(
                    |s: Seq<char>| FieldModel::Text(s),
                ),
            ),
        decreases n - i,
    {
        let ghost before = row_model(row@);
        row.insert(payload.key_at(i).clone(), MilvusField::Text(payload.value_at(i).clone()));
        proof {
            let (key, value) = entries[i as int];
            let done = entries.take(i as int);
            assert(entries.take(i + 1) =~= done.push((key, value)));
            assert(textmap::distinct_keys(done));
            assert forall|j: int| 0 <= j < done.len() implies (#[trigger] done[j]).0 != key by {
                assert(entries[j].0 != entries[i as int].0);
            }
            textmap::lemma_map_push(done, key, value);
            assert(row_model(row@) =~= before.insert(key, FieldModel::Text(value)));
            assert(row_model(row@) =~= start.union_prefer_right(
                textmap::map_of(done.push((key, value))).map_values(
                    |s: Seq<char>| FieldModel::Text(s),
                ),
            ));
        }
        i = i + 1;
    }
    proof {
        assert(entries.take(i as int) =~= entries);
    }
    Ok(row)
}

/// The text that a JSON value is.
pub open spec fn text_of(value: Json) -> Option<Seq<char>> {
    match value.kind {
        JsonKind::Text(s) => Some(s),
        _ => None,
    }
}

/// What a row has in each field: a text, or something else.
pub open spec fn row_texts(row: Json) -> Seq<(Seq<char>, Option<Seq<char>>)> {
    match row.kind {
        JsonKind::Object(entries) => entries.map_values(
            |e: (Seq<char>, Json)| (e.0, text_of(e.1)),
        ),
        _ => Seq::empty(),
    }
}

fn texts_of_row(row: &JsonTree) -> (r: TextEntries)
    ensures
        stores::entry_models(r@) == row_texts(row@),
{
    let mut r: TextEntries = Vec::new();
    match &row.kind {
        TreeKind::Object(entries) => {
            let ghost wanted = row_texts(row@);
            let mut i: usize = 0;
            proof {
                json::lemma_entry_models(entries@);
            }
            while i < entries.len()
                invariant
                    i <= entries.len(),
                    wanted.len() == entries@.len(),
                    forall|j: int|
                        0 <= j < entries@.len() ==> #[trigger] wanted[j] == (
                            entries@[j].0@,
                            text_of(entries@[j].1@),
                        ),
                    stores::entry_models(r@) == wanted.take(i as int),
                decreases entries.len() - i,
            {
                let ghost before = stores::entry_models(r@);
                let value: Option<String> = match entries[i].1.as_text() {
                    Some(s) => Some(s.clone()),
                    None => None,
                };
                r.push((entries[i].0.clone(), value));
                proof {
                    assert(stores::entry_models(r@) =~= before.push(wanted[i as int]));
                    assert(wanted.take(i + 1) =~= before.push(wanted[i as int]));
                }
                i = i + 1;
            }
            proof {
                assert(wanted.take(i as int) =~= wanted);
            }
        },
        _ => {
            proof {
                assert(stores::entry_models(r@) =~= Seq::empty());
            }
        },
    }
    r
}

/// The numbers of the vector in a row; a row without a vector has none.
pub open spec fn row_numbers(row: Json) -> Seq<Seq<char>> {
    match json::member(row, MILVUS_VECTOR_FIELD@) {
        Some(value) => match json::numbers(value) {
            Some(numbers) => numbers,
            None => Seq::empty(),
        },
        None => Seq::empty(),
    }
}

/// The numbers of the vector in a row, as they print; a row without a vector has
/// none.
pub fn milvus_row_numbers(row: &JsonTree) -> (r: Vec<String>)
    ensures
        text::texts(r@) == row_numbers(row@),
{
    let none: Vec<String> = Vec::new();
    proof {
        assert(text::texts(none@) =~= Seq::empty());
    }
    match row.get(MILVUS_VECTOR_FIELD) {
        Some(value) => match value.numbers() {
            Some(numbers) => numbers,
            None => none,
        },
        None => none,
    }
}

/// The fields that are no part of the payload of a record.
pub open spec fn reserved() -> Seq<Seq<char>> {
    seq![MILVUS_PRIMARY_FIELD@, MILVUS_VECTOR_FIELD@]
}

/// The id in a row, else a fallback.
pub open spec fn row_id(row: Json, fallback: Seq<char>) -> Seq<char> {
    match json::member(row, MILVUS_PRIMARY_FIELD@) {
        Some(value) => text::or(text_of(value), fallback),
        None => fallback,
    }
}

/// The record that a row stands for, with the vector that the numbers of the row
/// are.
pub open spec fn row_record(row: Json, vector: Seq<u32>, fallback: Seq<char>) -> RecordModel {
    RecordModel {
        id: row_id(row, fallback),
        vector,
        payload: stores::decoded(row_texts(row), reserved()),
    }
}

/// The record that a row stands for, with the vector that the numbers of the row
/// are.
pub fn milvus_entity_row_to_record(row: &JsonTree, vector: Vec<u32>, fallback_id: &str) -> (r:
    VectorRecord)
    ensures
        r@ == row_record(row@, vector@, fallback_id@),
{
    let id = match row.get(MILVUS_PRIMARY_FIELD) {
        Some(value) => match value.as_text() {
            Some(s) => s.clone(),
            None => fallback_id.to_owned(),
        },
        None => fallback_id.to_owned(),
    };
    let mut dropped: Vec<String> = Vec::new();
    dropped.push(MILVUS_PRIMARY_FIELD.to_owned());
    dropped.push(MILVUS_VECTOR_FIELD.to_owned());
    proof {
        assert(text::texts(dropped@) =~= reserved());
    }
    let entries = texts_of_row(row);
    VectorRecord { id, vector, payload: stores::decode_payload(&entries, &dropped) }
}

/// The id in a row of a list, if it is a text.
pub fn milvus_row_id(row: &JsonTree) -> (r: Option<&String>)
    ensures
        match r {
            Some(id) => json::member(row@, MILVUS_PRIMARY_FIELD@) matches Some(value) && text_of(
                value,
            ) == Some(id@),
            None => json::member(row@, MILVUS_PRIMARY_FIELD@) matches Some(value) ==> text_of(
                value,
            ) is None,
        },
{
    match row.get(MILVUS_PRIMARY_FIELD) {
        Some(value) => value.as_text(),
        None => None,
    }
}

/// Where the page after one begins; a page that is not full is the last.
pub fn milvus_next_page(offset: i64, page_len: usize) -> (r: Option<i64>)
    requires
        offset + PAGE_SIZE <= i64::MAX,
    ensures
        r == if page_len < PAGE_SIZE {
            None
        } else {
            Some((offset + PAGE_SIZE) as i64)
        },
{
    if stores::clamp_size(page_len) < PAGE_SIZE {
        None
    } else {
        Some(offset + PAGE_SIZE)
    }
}

/// How many results a search asks for: at least one, and no more than it may.
pub fn milvus_limit(top_k: usize) -> (r: i64)
    ensures
        r == if top_k < 1 {
            1
        } else if top_k > MILVUS_MAX_TOP_K {
            MILVUS_MAX_TOP_K as int
        } else {
            top_k as int
        },
{
    let wanted = stores::clamp_size(top_k);
    if wanted < 1 {
        1
    } else if wanted > MILVUS_MAX_TOP_K {
        MILVUS_MAX_TOP_K
    } else {
        wanted
    }
}

/// The length of a collection's vectors; one that does not fit is refused.
pub fn milvus_dimension(dimension: usize) -> (r: Result<u32, VectorStoreError>)
    ensures
        match r {
            Ok(n) => n == dimension,
            Err(err) => dimension > u32::MAX && (err matches VectorStoreError::Backend(reason)
                && reason@ == "out of range integral type conversion attempted"@),
        },
{
    if dimension as u64 <= u32::MAX as u64 {
        Ok(dimension as u32)
    } else {
        Err(
            VectorStoreError::Backend(
                "out of range integral type conversion attempted".to_owned(),
            ),
        )
    }
}

/// The ids that come with an answer: numbers, texts, or none.
#[derive(Debug)]
pub enum MilvusIds {
    Numbers(Vec<i64>),
    Texts(Vec<String>),
    Other,
}

/// The id at a place of an answer; a missing one is empty.
pub open spec fn id_at(ids: MilvusIds, i: int) -> Seq<char> {
    match ids {
        MilvusIds::Numbers(values) => if i < values@.len() {
            text::signed_decimal(values@[i] as int)
        } else {
            Seq::empty()
        },
        MilvusIds::Texts(values) => if i < values@.len() {
            values@[i]@
        } else {
            Seq::empty()
        },
        MilvusIds::Other => Seq::empty(),
    }
}

fn id_of(ids: &MilvusIds, i: usize) -> (r: String)
    ensures
        r@ == id_at(*ids, i as int),
{
    match ids {
        MilvusIds::Numbers(values) => if i < values.len() {
            text::to_signed(values[i])
        } else {
            String::new()
        },
        MilvusIds::Texts(values) => if i < values.len() {
            values[i].clone()
        } else {
            String::new()
        },
        MilvusIds::Other => String::new(),
    }
}

/// The result at a place of an answer. A missing score is the worst.
pub open spec fn result_at(
    rows: Seq<JsonTree>,
    ids: MilvusIds,
    scores: Seq<i64>,
    i: int,
) -> ResultModel {
    ResultModel {
        id: row_id(rows[i]@, id_at(ids, i)),
        score: if i < scores.len() {
            scores[i]
        } else {
            stores::NO_SCORE
        },
        payload: stores::decoded(row_texts(rows[i]@), reserved()),
        score_details: None,
    }
}

/// The results that an answer to a search stands for, those that pass a
/// threshold.
pub fn milvus_results(
    rows: &Vec<JsonTree>,
    ids: &MilvusIds,
    scores: &Vec<i64>,
    threshold: Option<i64>,
) -> (r: Vec<SearchResult>)
    ensures
        rank::views(r@) == vector_store::passing(
            Seq::new(rows@.len(), |i: int| result_at(rows@, *ids, scores@, i)),
            threshold,
        ),
{
    let ghost all = Seq::new(rows@.len(), |i: int| result_at(rows@, *ids, scores@, i));
    let mut hits: Vec<Hit> = Vec::new();
    let mut i: usize = 0;
    while i < rows.len()
        invariant
            i <= rows.len(),
            all == Seq::new(rows@.len(), |i: int| result_at(rows@, *ids, scores@, i)),
            stores::hit_results(hits@) == all.take(i as int),
        decreases rows.len() - i,
    {
        let ghost before = stores::hit_results(hits@);
        let fallback = id_of(ids, i);
        let record = milvus_entity_row_to_record(&rows[i], Vec::new(), fallback.as_str());
        let score: Option<i64> = if i < scores.len() {
            Some(scores[i])
        } else {
            None
        };
        hits.push(Hit { id: record.id, score, payload: record.payload });
        proof {
            assert(stores::hit_result(hits@.last()) =~= all[i as int]);
            assert(stores::hit_results(hits@) =~= before.push(all[i as int]));
            assert(all.take(i + 1) =~= before.push(all[i as int]));
        }
        i = i + 1;
    }
    proof {
        assert(all.take(i as int) =~= all);
    }
    stores::results_of_hits(hits, threshold)
}

/// The texts of a row: a vector is none.
pub open spec fn texts_of_fields(row: Map<Seq<char>, FieldModel>) -> Map<
    Seq<char>,
    Option<Seq<char>>,
> {
    row.map_values(
        |field: FieldModel|
            match field {
                FieldModel::Text(s) => Some(s),
                FieldModel::Vector(_) => None,
            },
    )
}

/// The payload of a record comes back out of its row, in whatever order the
/// fields come. A payload that has a field for the id or the vector is left
/// out.
pub proof fn law_row_round_trip(record: RecordModel, entries: Seq<(Seq<char>, Option<Seq<char>>)>)
    requires
        !record.payload.contains_key(MILVUS_PRIMARY_FIELD@),
        !record.payload.contains_key(MILVUS_VECTOR_FIELD@),
        stores::lists(entries, texts_of_fields(record_row(record))),
    ensures
        stores::decoded(entries, reserved()) == record.payload,
        texts_of_fields(record_row(record))[MILVUS_PRIMARY_FIELD@] == Some(record.id),
        record_row(record)[MILVUS_VECTOR_FIELD@] == FieldModel::Vector(record.vector),
{
    let row = texts_of_fields(record_row(record));
    reveal_strlit("id");
    reveal_strlit("vector");
    assert(MILVUS_PRIMARY_FIELD@.len() != MILVUS_VECTOR_FIELD@.len());
    stores::law_decoded_in_any_order(entries, row, reserved());
    assert(reserved()[0] == MILVUS_PRIMARY_FIELD@);
    assert(reserved()[1] == MILVUS_VECTOR_FIELD@);
    assert forall|key: Seq<char>| reserved().contains(key) == (key == MILVUS_PRIMARY_FIELD@ || key
        == MILVUS_VECTOR_FIELD@) by {
        if reserved().contains(key) {
            let k = choose|k: int| 0 <= k < reserved().len() && reserved()[k] == key;
            assert(k == 0 || k == 1);
        }
    }
    assert(stores::texts_in(row, reserved()) =~= record.payload);
}

} // verus!
