//! What is sent to stores outside, and what is made of what comes back.

use super::chroma;
use super::dispatch;
use super::dispatch::{Action, Command, Event, Phase};
use super::milvus;
use super::milvus::{FieldModel, MilvusIds};
use super::postgres;
use super::postgres::Statement;
use super::qdrant;
use super::qdrant::{PointId, ScoredPoint};
use super::sqlite;
use super::sqlite::MatchModel;
use super::{Hit, TextEntries};
use crate::json;
use crate::json::{Json, JsonKind, JsonTree};
use crate::payload;
use crate::rank;
use crate::rank::Ranked;
use crate::stores;
use crate::text;
use crate::text::CharClass;
use crate::vector_store::{RecordModel, ResultModel, VectorStoreError};
use vstd::prelude::*;

verus! {

/// A page of ids: the ids that come before no other that is left out before the
/// page, in the order of characters, from the offset on, up to the limit.
pub proof fn law_sorted_page(ids: Seq<Seq<char>>, offset: nat, limit: nat, i: int, j: int)
    ensures
        stores::sorted_page(ids, offset, limit).len() <= limit,
        offset + limit <= ids.len() ==> stores::sorted_page(ids, offset, limit).len() == limit,
        0 <= i < stores::sorted_page(ids, offset, limit).len() ==> ids.contains(
            stores::sorted_page(ids, offset, limit)[i],
        ),
        0 <= i < j < stores::sorted_page(ids, offset, limit).len() ==> !text::precedes(
            stores::sorted_page(ids, offset, limit)[j],
            stores::sorted_page(ids, offset, limit)[i],
        ),
        stores::sorted_page(ids, 0, ids.len()).to_multiset() == ids.to_multiset(),
{
    let sorted = rank::ranked::<String>(ids);
    let page = stores::sorted_page(ids, offset, limit);
    stores::law_ids_are_ordered();
    rank::law_ranked::<String>(ids);
    if 0 <= i < page.len() {
        assert(page[i] == sorted[offset + i]);
        let k = rank::laws::lemma_comes_from::<String>(ids, offset + i);
        if i < j < page.len() {
            assert(page[j] == sorted[offset + j]);
            assert(String::may_precede(sorted[offset + i], sorted[offset + j]));
        }
    }
    assert(rank::page(sorted, 0, ids.len()) =~= sorted);
}

/// What is decoded has the texts that came, the later ones over the earlier, and
/// nothing that is no text or that is dropped.
pub proof fn law_decoded(
    entries: Seq<(Seq<char>, Option<Seq<char>>)>,
    key: Seq<char>,
    value: Option<Seq<char>>,
    dropped: Seq<Seq<char>>,
)
    ensures
        stores::decoded(Seq::empty(), dropped) == Map::<Seq<char>, Seq<char>>::empty(),
        value is Some && !dropped.contains(key) ==> stores::decoded(
            entries.push((key, value)),
            dropped,
        ) == stores::decoded(entries, dropped).insert(key, value->0),
        value is None || dropped.contains(key) ==> stores::decoded(
            entries.push((key, value)),
            dropped,
        ) == stores::decoded(entries, dropped),
{
    assert(entries.push((key, value)).drop_last() =~= entries);
}

/// A hit is a result with its id, its score and its payload; one without a score
/// has the greatest that there is in single precision.
pub proof fn law_hits(hits: Seq<Hit>, i: int)
    requires
        0 <= i < hits.len(),
    ensures
        stores::hit_results(hits).len() == hits.len(),
        stores::hit_results(hits)[i].id == hits[i].id@,
        stores::hit_results(hits)[i].payload == hits[i].payload@,
        stores::hit_results(hits)[i].score_details is None,
        hits[i].score is Some ==> stores::hit_results(hits)[i].score == hits[i].score->0,
        hits[i].score is None ==> stores::hit_results(hits)[i].score == 0x47ef_ffff_e000_0000,
{
}

/// The words of a query are matched one or the other: each stands in quotes, and
/// between two of them stands the word for it. A query without words matches
/// nothing.
pub proof fn law_match_expression(first: Seq<char>, space: char, word: Seq<char>)
    requires
        CharClass::Space.holds(space),
        word.len() > 0,
        text::lacks(word, CharClass::Space),
    ensures
        sqlite::match_expression(word) == sqlite::quoted(word),
        text::runs(first, CharClass::Space).len() > 0 ==> sqlite::match_expression(
            first.push(space) + word,
        ) == sqlite::match_expression(first) + " OR "@ + sqlite::quoted(word),
        text::runs(first, CharClass::Space).len() == 0 ==> sqlite::match_expression(
            first.push(space) + word,
        ) == sqlite::quoted(word),
        sqlite::match_expression(Seq::empty()).len() == 0,
{
    let class = CharClass::Space;
    let none = Seq::<Seq<char>>::empty();
    text::laws::law_runs(first, space, word, class);
    text::laws::law_runs(word, space, word, class);
    let before = text::runs(first, class);
    let one = seq![word];
    assert(sqlite::quoted_terms(one) =~= seq![sqlite::quoted(word)]);
    assert(sqlite::quoted_terms(before + one) =~= sqlite::quoted_terms(before) + seq![
        sqlite::quoted(word),
    ]);
    text::laws::law_joined(
        sqlite::quoted_terms(before),
        seq![sqlite::quoted(word)],
        " OR "@,
        sqlite::quoted(word),
    );
    assert(none + one =~= one);
    if before.len() == 0 {
        assert(before =~= none);
    }
    assert(sqlite::quoted_terms(none) =~= none);
}

/// A term in quotes has a quote before it and one after it, and two for each in it.
pub proof fn law_quoted(term: Seq<char>, c: char)
    ensures
        sqlite::quoted(Seq::empty()) == seq!['"', '"'],
        c == '"' ==> sqlite::quoted(term.push(c)) == sqlite::quoted(term).drop_last() + seq![
            '"',
            '"',
            '"',
        ],
        c != '"' ==> sqlite::quoted(term.push(c)) == sqlite::quoted(term).drop_last() + seq![
            c,
            '"',
        ],
{
    reveal_strlit("\"");
    reveal_strlit("\"\"");
    assert("\""@ =~= seq!['"']);
    assert("\"\""@ =~= seq!['"', '"']);
    let inner = text::replaced(term, '"', "\"\""@);
    assert(term.push(c).drop_last() =~= term);
    assert(sqlite::quoted(Seq::empty()) =~= seq!['"', '"']);
    assert(sqlite::quoted(term).drop_last() =~= "\""@ + inner);
    if c == '"' {
        assert(sqlite::quoted(term.push(c)) =~= sqlite::quoted(term).drop_last() + seq![
            '"',
            '"',
            '"',
        ]);
    } else {
        assert(sqlite::quoted(term.push(c)) =~= sqlite::quoted(term).drop_last() + seq![c, '"']);
    }
}

/// The words of a record are those of its content.
pub proof fn law_indexed(payload: Map<Seq<char>, Seq<char>>)
    ensures
        payload.contains_key("content"@) ==> sqlite::indexed(payload) == payload["content"@],
        !payload.contains_key("content"@) ==> sqlite::indexed(payload).len() == 0,
{
}

/// The results of a search by keywords are the matches whose records are there and
/// have the entries of the filters, in order, with the scores of the matches.
pub proof fn law_matches(
    rows: Seq<MatchModel>,
    row: MatchModel,
    filters: Map<Seq<char>, Seq<char>>,
)
    ensures
        sqlite::results_of(Seq::empty(), filters) == Seq::<ResultModel>::empty(),
        row.payload is Some && payload::covers(row.payload->0, filters) ==> {
            let all = sqlite::results_of(rows.push(row), filters);
            &&& all.len() == sqlite::results_of(rows, filters).len() + 1
            &&& all.drop_last() == sqlite::results_of(rows, filters)
            &&& all.last().id == row.id
            &&& all.last().score == row.score
            &&& all.last().payload == row.payload->0
            &&& all.last().score_details is None
        },
        !(row.payload is Some && payload::covers(row.payload->0, filters)) ==> sqlite::results_of(
            rows.push(row),
            filters,
        ) == sqlite::results_of(rows, filters),
{
    assert(rows.push(row).drop_last() =~= rows);
    let all = sqlite::results_of(rows.push(row), filters);
    if row.payload is Some && payload::covers(row.payload->0, filters) {
        assert(all.drop_last() =~= sqlite::results_of(rows, filters));
    }
}

/// A name of a table has letters, digits and underscores, and at least one of them.
pub proof fn law_table_names(table: Seq<char>, i: int)
    ensures
        !postgres::is_table_name(Seq::empty()),
        postgres::is_table_name(table) && 0 <= i < table.len() ==> 'a' <= table[i] <= 'z' || 'A'
            <= table[i] <= 'Z' || '0' <= table[i] <= '9' || table[i] == '_',
        table.len() > 0 && (forall|k: int|
            0 <= k < table.len() ==> 'a' <= #[trigger] table[k] <= 'z' || 'A' <= table[k] <= 'Z'
                || '0' <= table[k] <= '9' || table[k] == '_') ==> postgres::is_table_name(table),
{
}

/// The statements that set up a table: the extension, the table with a vector of
/// the length that is given, the words of the contents, and an index on these, on
/// the vectors and on the payloads.
pub proof fn law_setup_statements(table: Seq<char>, dimension: nat)
    ensures
        postgres::setup_statements(table, dimension).len() == 6,
        postgres::setup_statements(table, dimension)[0]
            == "CREATE EXTENSION IF NOT EXISTS vector"@,
        postgres::setup_statements(table, dimension)[1] == "CREATE TABLE IF NOT EXISTS "@ + table
            + " (id TEXT PRIMARY KEY, vector VECTOR("@ + text::decimal(dimension)
            + ") NOT NULL, payload JSONB NOT NULL)"@,
        postgres::setup_statements(table, dimension)[2] == "ALTER TABLE "@ + table
            + " ADD COLUMN IF NOT EXISTS content_tsv TSVECTOR GENERATED ALWAYS AS (to_tsvector('english', payload ->> 'content')) STORED"@,
        postgres::setup_statements(table, dimension)[3] == "CREATE INDEX IF NOT EXISTS "@ + table
            + "_content_tsv_idx ON "@ + table + " USING GIN (content_tsv)"@,
        postgres::setup_statements(table, dimension)[4] == "CREATE INDEX IF NOT EXISTS "@ + table
            + "_vector_hnsw_idx ON "@ + table + " USING hnsw (vector vector_l2_ops)"@,
        postgres::setup_statements(table, dimension)[5] == "CREATE INDEX IF NOT EXISTS "@ + table
            + "_payload_idx ON "@ + table + " USING GIN (payload jsonb_path_ops)"@,
        postgres::is_harmless("23505"@),
        postgres::is_harmless("42P07"@),
        postgres::is_harmless("42701"@),
{
}

/// A failure does no harm for one of three codes and for no other.
pub proof fn law_harmless(code: Seq<char>)
    ensures
        postgres::is_harmless(code) ==> code == "23505"@ || code == "42P07"@ || code == "42701"@,
{
}

/// The statement for each thing that is done with records.
pub proof fn law_statements()
    ensures
        Statement::Insert.start() == "INSERT INTO "@,
        Statement::Insert.end()
            == " (id, vector, payload) VALUES ($1, $2, $3) ON CONFLICT (id) DO UPDATE SET vector = excluded.vector, payload = excluded.payload"@,
        Statement::Search.start() == "SELECT id, vector <-> $1 AS distance, payload FROM "@,
        Statement::Search.end() == " WHERE payload @> $2::jsonb ORDER BY distance LIMIT $3"@,
        Statement::SearchWithin.start() == "SELECT id, vector <-> $1 AS distance, payload FROM "@,
        Statement::SearchWithin.end()
            == " WHERE payload @> $2::jsonb AND vector <-> $1 <= $3 ORDER BY distance LIMIT $4"@,
        Statement::Get.start() == "SELECT vector, payload FROM "@,
        Statement::Get.end() == " WHERE id = $1"@,
        Statement::Update.start() == "UPDATE "@,
        Statement::Update.end() == " SET vector = $2, payload = $3 WHERE id = $1"@,
        Statement::Delete.start() == "DELETE FROM "@,
        Statement::Delete.end() == " WHERE id = $1"@,
        Statement::List.start() == "SELECT id FROM "@,
        Statement::List.end() == " ORDER BY id LIMIT $1 OFFSET $2"@,
        Statement::Reset.start() == "DELETE FROM "@,
        Statement::Reset.end() == ""@,
        Statement::KeywordSearch.start()
            == "SELECT id, -ts_rank_cd(content_tsv, plainto_tsquery('english', $1)) AS score, payload FROM "@,
        Statement::KeywordSearch.end()
            == " WHERE content_tsv @@ plainto_tsquery('english', $1) AND payload @> $2::jsonb ORDER BY score LIMIT $3"@,
{
}

/// The condition of filters: each field equals its value in quotes, with escapes,
/// and between two of them stands the word for both. No filters ask for nothing.
pub proof fn law_filter_expression(
    entries: Seq<(Seq<char>, Seq<char>)>,
    field: Seq<char>,
    value: Seq<char>,
)
    ensures
        milvus::filter_expression(Seq::empty()).len() == 0,
        milvus::filter_expression(seq![(field, value)]) == field + " == \""@ + milvus::escaped(
            value,
        ) + "\""@,
        entries.len() > 0 ==> milvus::filter_expression(entries.push((field, value)))
            == milvus::filter_expression(entries) + " and "@ + field + " == \""@ + milvus::escaped(
            value,
        ) + "\""@,
{
    let each = |e: (Seq<char>, Seq<char>)| milvus::condition(e);
    let one = seq![(field, value)];
    let none = Seq::<(Seq<char>, Seq<char>)>::empty();
    let all = entries.push((field, value)).map_values(each);
    assert(none.map_values(each) =~= Seq::empty());
    assert(one.map_values(each) =~= seq![milvus::condition((field, value))]);
    assert(all.drop_last() =~= entries.map_values(each));
    assert(all.last() == milvus::condition((field, value)));
    if entries.len() > 0 {
        assert(milvus::filter_expression(entries.push((field, value)))
            =~= milvus::filter_expression(entries) + " and "@ + field + " == \""@
            + milvus::escaped(value) + "\""@);
    }
}

/// An escaped value has a backslash before each backslash and each quote.
pub proof fn law_escaped(value: Seq<char>, c: char)
    ensures
        milvus::escaped(Seq::empty()).len() == 0,
        c == '\\' || c == '"' ==> milvus::escaped(value.push(c)) == milvus::escaped(value) + seq![
            '\\',
            c,
        ],
        c != '\\' && c != '"' ==> milvus::escaped(value.push(c)) == milvus::escaped(value).push(c),
{
    reveal_strlit("\\\\");
    reveal_strlit("\\\"");
    assert("\\\\"@ =~= seq!['\\', '\\']);
    assert("\\\""@ =~= seq!['\\', '"']);
    let inner = text::replaced(value, '\\', "\\\\"@);
    let outer = text::replaced(inner, '"', "\\\""@);
    let more = value.push(c);
    assert(more.drop_last() =~= value);
    if c == '\\' {
        let one = inner.push('\\');
        let two = one.push('\\');
        assert(text::replaced(more, '\\', "\\\\"@) =~= two);
        assert(two.drop_last() =~= one);
        assert(one.drop_last() =~= inner);
        assert(text::replaced(one, '"', "\\\""@) =~= outer.push('\\'));
        assert(text::replaced(two, '"', "\\\""@) =~= outer.push('\\').push('\\'));
        assert(milvus::escaped(more) =~= outer + seq!['\\', '\\']);
    } else {
        let one = inner.push(c);
        assert(text::replaced(more, '\\', "\\\\"@) =~= one);
        assert(one.drop_last() =~= inner);
        if c == '"' {
            assert(milvus::escaped(more) =~= outer + seq!['\\', '"']);
        } else {
            assert(milvus::escaped(more) =~= outer.push(c));
        }
    }
}

/// The row of a record has each entry of its payload as a text, and besides its id
/// and its vector under their names; it has nothing else.
pub proof fn law_record_row(record: RecordModel, key: Seq<char>)
    ensures
        ({
            let row = milvus::record_row(record);
            &&& record.payload.contains_key(key) ==> row.contains_key(key) && row[key]
                == FieldModel::Text(record.payload[key])
            &&& !record.payload.contains_key("id"@) ==> row.contains_key("id"@) && row["id"@]
                == FieldModel::Text(record.id)
            &&& !record.payload.contains_key("vector"@) ==> row.contains_key("vector"@)
                && row["vector"@] == FieldModel::Vector(record.vector)
            &&& row.contains_key(key) ==> record.payload.contains_key(key) || key == "id"@ || key
                == "vector"@
        }),
{
    reveal_strlit("id");
    reveal_strlit("vector");
    assert("id"@.len() != "vector"@.len());
}

/// The record of a row has the id at its name if that is a text, else the one to
/// fall back on; its payload has the texts of the row without the id and the
/// vector.
pub proof fn law_row_record(row: Json, vector: Seq<u32>, fallback: Seq<char>, value: Json)
    ensures
        json::member(row, "id"@) == Some(value) && value.kind is Text ==> milvus::row_record(
            row,
            vector,
            fallback,
        ).id == value.kind->Text_0,
        json::member(row, "id"@) == Some(value) && !(value.kind is Text) ==> milvus::row_record(
            row,
            vector,
            fallback,
        ).id == fallback,
        json::member(row, "id"@) is None ==> milvus::row_record(row, vector, fallback).id
            == fallback,
        milvus::row_record(row, vector, fallback).vector == vector,
        milvus::row_record(row, vector, fallback).payload == stores::decoded(
            milvus::row_texts(row),
            seq!["id"@, "vector"@],
        ),
        json::member(row, "vector"@) == Some(value) && value.kind is List
            ==> milvus::row_numbers(row) == json::numbers_in(value.kind->List_0),
        json::member(row, "vector"@) is None ==> milvus::row_numbers(row).len() == 0,
{
}

/// The result at a place in an answer of the store: the record of its row, with its
/// score, or the greatest that there is where it has none; the id to fall back on
/// is the one at the same place.
pub proof fn law_row_results(rows: Seq<JsonTree>, ids: MilvusIds, scores: Seq<i64>, i: int)
    requires
        0 <= i < rows.len(),
    ensures
        milvus::result_at(rows, ids, scores, i).id == milvus::row_id(
            rows[i]@,
            milvus::id_at(ids, i),
        ),
        i < scores.len() ==> milvus::result_at(rows, ids, scores, i).score == scores[i],
        i >= scores.len() ==> milvus::result_at(rows, ids, scores, i).score
            == 0x47ef_ffff_e000_0000,
        milvus::result_at(rows, ids, scores, i).payload == stores::decoded(
            milvus::row_texts(rows[i]@),
            seq!["id"@, "vector"@],
        ),
        milvus::result_at(rows, ids, scores, i).score_details is None,
        match ids {
            MilvusIds::Numbers(values) => i < values@.len() ==> milvus::id_at(ids, i)
                == text::signed_decimal(values@[i] as int),
            MilvusIds::Texts(values) => i < values@.len() ==> milvus::id_at(ids, i) == values@[i]@,
            MilvusIds::Other => milvus::id_at(ids, i).len() == 0,
        },
{
}

/// The id of a record comes out of the payload of its point, where the last entry
/// under its key is a text, else it is the one to fall back on; the payload has the
/// texts without the id.
pub proof fn law_points(
    entries: Seq<(Seq<char>, Option<Seq<char>>)>,
    key: Seq<char>,
    value: Option<Seq<char>>,
    fallback: Seq<char>,
)
    ensures
        qdrant::record_id(Seq::empty(), fallback) == fallback,
        value is Some ==> qdrant::record_id(
            entries.push(("__memoria_id"@, value)),
            fallback,
        ) == value->0,
        value is None ==> qdrant::record_id(
            entries.push(("__memoria_id"@, value)),
            fallback,
        ) == fallback,
        key != "__memoria_id"@ ==> qdrant::record_id(entries.push((key, value)), fallback)
            == qdrant::record_id(entries, fallback),
        qdrant::reserved() == seq!["__memoria_id"@],
{
    assert(entries.push((key, value)).drop_last() =~= entries);
    assert(entries.push(("__memoria_id"@, value)).last() == ("__memoria_id"@, value));
    assert(entries.push((key, value)).last() == (key, value));
}

/// The id of a point as a text, and the result of a point that was found.
pub proof fn law_point_results(point: ScoredPoint, number: u64, uuid: String)
    ensures
        qdrant::point_id_text(PointId::Missing).len() == 0,
        qdrant::point_id_text(PointId::Num(number)) == text::decimal(number as nat),
        qdrant::point_id_text(PointId::Uuid(uuid)) == uuid@,
        qdrant::point_result(point).score == point.score,
        qdrant::point_result(point).id == qdrant::record_id(
            stores::entry_models(point.payload@),
            qdrant::point_id_text(point.id),
        ),
        qdrant::point_result(point).payload == stores::decoded(
            stores::entry_models(point.payload@),
            seq!["__memoria_id"@],
        ),
        qdrant::point_result(point).score_details is None,
{
}

/// The ids of points are those of names in one namespace, whose bytes spell what it
/// is for.
pub proof fn law_namespace()
    ensures
        qdrant::namespace().len() == 16,
        qdrant::namespace() == "memoria-qdrant-1"@.map_values(|c: char| c as u8),
{
    reveal_strlit("memoria-qdrant-1");
    assert(qdrant::namespace() =~= "memoria-qdrant-1"@.map_values(|c: char| c as u8));
}

/// The result at a place in an answer of a collection: its id; its distance, or the
/// greatest that there is where it has none; and the texts of its metadata, or
/// nothing where it has none.
pub proof fn law_collection_results(
    ids: Seq<String>,
    distances: Seq<Option<i64>>,
    metadatas: Seq<Option<TextEntries>>,
    i: int,
)
    requires
        0 <= i < ids.len(),
    ensures
        chroma::result_at(ids, distances, metadatas, i).id == ids[i]@,
        i < distances.len() && distances[i] is Some ==> chroma::result_at(
            ids,
            distances,
            metadatas,
            i,
        ).score == distances[i]->0,
        i >= distances.len() || distances[i] is None ==> chroma::result_at(
            ids,
            distances,
            metadatas,
            i,
        ).score == 0x47ef_ffff_e000_0000,
        i < metadatas.len() && metadatas[i] is Some ==> chroma::result_at(
            ids,
            distances,
            metadatas,
            i,
        ).payload == stores::decoded(stores::entry_models(metadatas[i]->0@), Seq::empty()),
        i >= metadatas.len() || metadatas[i] is None ==> chroma::result_at(
            ids,
            distances,
            metadatas,
            i,
        ).payload == Map::<Seq<char>, Seq<char>>::empty(),
        chroma::result_at(ids, distances, metadatas, i).score_details is None,
        chroma::METRIC_KEY@ == "hnsw:space"@,
        chroma::METRIC@ == "l2"@,
{
}

/// The thread of a store makes a runtime, a client and a collection, in this order,
/// and says so; what cannot be made is said and ends it. Then it takes commands:
/// each is handled, and answered, before the next is taken; when there are no more
/// it ends.
pub proof fn law_dispatch(err: VectorStoreError, command: Command, heard: bool, done: bool)
    ensures
        dispatch::beginning() == (Phase::Runtime, Action::BuildRuntime),
        dispatch::next(Phase::Runtime, Event::Made) == Some((Phase::Client, Action::BuildClient)),
        dispatch::next(Phase::Client, Event::Made) == Some(
            (Phase::Collection, Action::EnsureCollection),
        ),
        dispatch::next(Phase::Collection, Event::Made) == Some(
            (Phase::Announcing, Action::Announce(Ok(()))),
        ),
        dispatch::next(Phase::Runtime, Event::Failed(err)) == Some(
            (Phase::Failing, Action::Announce(Err(err))),
        ),
        dispatch::next(Phase::Client, Event::Failed(err)) == Some(
            (Phase::Failing, Action::Announce(Err(err))),
        ),
        dispatch::next(Phase::Collection, Event::Failed(err)) == Some(
            (Phase::Failing, Action::Announce(Err(err))),
        ),
        dispatch::next(Phase::Failing, Event::Announced(heard)) == Some(
            (Phase::Stopped, Action::Stop),
        ),
        dispatch::next(Phase::Announcing, Event::Announced(true)) == Some(
            (Phase::Listening, Action::Receive),
        ),
        dispatch::next(Phase::Announcing, Event::Announced(false)) == Some(
            (Phase::Stopped, Action::Stop),
        ),
        dispatch::next(Phase::Listening, Event::Received(Some(command))) == Some(
            (Phase::Handling(command is Reset), Action::Handle(command)),
        ),
        dispatch::next(Phase::Listening, Event::Received(None)) == Some(
            (Phase::Stopped, Action::Stop),
        ),
        dispatch::next(Phase::Handling(true), Event::Handled(true)) == Some(
            (Phase::Replying, Action::Reply { adopt: true }),
        ),
        dispatch::next(Phase::Handling(true), Event::Handled(false)) == Some(
            (Phase::Replying, Action::Reply { adopt: false }),
        ),
        dispatch::next(Phase::Handling(false), Event::Handled(done)) == Some(
            (Phase::Replying, Action::Reply { adopt: false }),
        ),
        dispatch::next(Phase::Replying, Event::Replied(heard)) == Some(
            (Phase::Listening, Action::Receive),
        ),
        dispatch::next(Phase::Stopped, Event::Made) is None,
{
}

} // verus!
