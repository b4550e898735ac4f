//! What stores hold and find.

use super::contract;
use super::{
    InMemoryVectorStore, RecordModel, ResultModel, SearchResult, StoreRequest, VectorStore,
    VectorStoreConfig, VectorStoreError,
};
use crate::payload;
use crate::rank;
use crate::rank::Ranked;
use crate::text;
use crate::text::CharClass;
use crate::vector_store;
use vstd::prelude::*;

verus! {

/// A score is within a threshold where both are numbers and it is not above it;
/// without a threshold every score is.
pub proof fn law_thresholds(threshold: i64, score: i64)
    ensures
        vector_store::within(None, score),
        vector_store::within(Some(threshold), score) <==> -0x7ff0_0000_0000_0000 <= score
            <= threshold <= 0x7ff0_0000_0000_0000,
{
}

/// The lower score comes first.
pub proof fn law_closer_first(a: ResultModel, b: ResultModel)
    ensures
        SearchResult::may_precede(a, b) <==> a.score <= b.score,
{
}

/// The records that have the entries of filters, in the order of the records.
pub proof fn law_having(
    records: Seq<RecordModel>,
    last: RecordModel,
    filters: Map<Seq<char>, Seq<char>>,
)
    ensures
        vector_store::having(Seq::empty(), filters) == Seq::<RecordModel>::empty(),
        payload::covers(last.payload, filters) ==> vector_store::having(
            records.push(last),
            filters,
        ) == vector_store::having(records, filters).push(last),
        !payload::covers(last.payload, filters) ==> vector_store::having(
            records.push(last),
            filters,
        ) == vector_store::having(records, filters),
{
    reveal(Seq::filter);
    assert(records.push(last).drop_last() =~= records);
    assert(vector_store::having(Seq::empty(), filters) =~= Seq::empty());
}

/// The results that pass a threshold, in the order of the results.
pub proof fn law_passing(results: Seq<ResultModel>, last: ResultModel, threshold: Option<i64>)
    ensures
        vector_store::passing(Seq::empty(), threshold) == Seq::<ResultModel>::empty(),
        vector_store::within(threshold, last.score) ==> vector_store::passing(
            results.push(last),
            threshold,
        ) == vector_store::passing(results, threshold).push(last),
        !vector_store::within(threshold, last.score) ==> vector_store::passing(
            results.push(last),
            threshold,
        ) == vector_store::passing(results, threshold),
{
    reveal(Seq::filter);
    assert(results.push(last).drop_last() =~= results);
    assert(vector_store::passing(Seq::empty(), threshold) =~= Seq::empty());
}

/// The closest results: as many as are asked for or all, the lower scores first,
/// each of them within the threshold; and none that is left out and within the
/// threshold has a lower score than one of them.
pub proof fn law_closest(
    results: Seq<ResultModel>,
    top_k: nat,
    threshold: Option<i64>,
    i: int,
    j: int,
)
    ensures
        ({
            let found = vector_store::closest(results, top_k, threshold);
            let passed = vector_store::passing(results, threshold);
            &&& passed.len() <= top_k ==> found.len() == passed.len()
            &&& passed.len() > top_k ==> found.len() == top_k
            &&& 0 <= i < found.len() ==> results.contains(found[i]) && vector_store::within(
                threshold,
                found[i].score,
            )
            &&& 0 <= i < j < found.len() ==> found[i].score <= found[j].score
            &&& 0 <= i < found.len() && 0 <= j < results.len() && vector_store::within(
                threshold,
                results[j].score,
            ) && !found.contains(results[j]) ==> found[i].score <= results[j].score
        }),
{
    let keep = |r: ResultModel| vector_store::within(threshold, r.score);
    let passed = results.filter(keep);
    let sorted = rank::ranked::<SearchResult>(passed);
    let found = vector_store::closest(results, top_k, threshold);
    rank::laws::law_sorting_keeps_and_orders::<SearchResult>(passed);
    rank::laws::lemma_filter_members(results, keep);
    if 0 <= i < found.len() {
        assert(found[i] == sorted[i]);
        assert(sorted.contains(sorted[i]));
        assert(passed.contains(sorted[i]));
        if i < j < found.len() {
            assert(found[j] == sorted[j]);
        }
        if 0 <= j < results.len() && keep(results[j]) && !found.contains(results[j]) {
            assert(results.contains(results[j]));
            assert(passed.contains(results[j]));
            assert(sorted.contains(results[j]));
            let k = choose|k: int| 0 <= k < sorted.len() && sorted[k] == results[j];
            if k < found.len() {
                assert(found[k] == results[j]);
            }
            assert(i < k);
        }
    }
}

/// What is scored keeps its id and its payload, and has the score that it is given.
pub proof fn law_scored(candidates: Seq<RecordModel>, scores: Seq<i64>, i: int)
    requires
        0 <= i < candidates.len(),
    ensures
        vector_store::scored(candidates, scores).len() == candidates.len(),
        vector_store::scored(candidates, scores)[i].id == candidates[i].id,
        vector_store::scored(candidates, scores)[i].payload == candidates[i].payload,
        vector_store::scored(candidates, scores)[i].score == scores[i],
        vector_store::scored(candidates, scores)[i].score_details is None,
{
}

/// The scores of records are distances of their vectors from that of the search.
pub proof fn law_measured<D: Fn(&[u32], &[u32]) -> i64>(
    distance: D,
    candidates: Seq<RecordModel>,
    vector: Seq<u32>,
    scores: Seq<i64>,
    i: int,
)
    requires
        vector_store::may_score(distance, candidates, vector, scores),
        0 <= i < candidates.len(),
    ensures
        scores.len() == candidates.len(),
        exists|x: &[u32], y: &[u32]|
            {
                &&& #[trigger] call_ensures(distance, (x, y), scores[i])
                &&& x@ == candidates[i].vector
                &&& y@ == vector
            },
{
    assert(vector_store::may_measure(distance, candidates[i].vector, vector, scores[i]));
}

/// A record that is put in takes the place of the one with its id, or comes last;
/// every other stays where it is.
pub proof fn law_put_in(records: Seq<RecordModel>, record: RecordModel, i: int)
    requires
        0 <= i < records.len(),
    ensures
        ({
            let after = vector_store::with_record(records, record);
            &&& records[i].id == record.id ==> after.len() == records.len() && after[i] == record
            &&& records[i].id != record.id ==> after[i] == records[i]
            &&& (forall|k: int| 0 <= k < records.len() ==> (#[trigger] records[k]).id != record.id)
                ==> after == records.push(record)
        }),
        vector_store::with_record(Seq::empty(), record) == seq![record],
{
    let none = Seq::<RecordModel>::empty();
    assert(none.push(record) =~= seq![record]);
    if vector_store::has_id(records, record.id) {
    }
}

/// A record that is taken out is gone, and the others stay in their order.
pub proof fn law_taken_out(records: Seq<RecordModel>, last: RecordModel, id: Seq<char>)
    ensures
        vector_store::without_record(Seq::empty(), id) == Seq::<RecordModel>::empty(),
        last.id == id ==> vector_store::without_record(records.push(last), id)
            == vector_store::without_record(records, id),
        last.id != id ==> vector_store::without_record(records.push(last), id)
            == vector_store::without_record(records, id).push(last),
{
    reveal(Seq::filter);
    assert(records.push(last).drop_last() =~= records);
    assert(vector_store::without_record(Seq::empty(), id) =~= Seq::empty());
}

/// A new id comes last; one that is there stays where it is.
pub proof fn law_ids(ids: Seq<Seq<char>>, id: Seq<char>)
    ensures
        ids.contains(id) ==> vector_store::with_id(ids, id) == ids,
        !ids.contains(id) ==> vector_store::with_id(ids, id) == ids.push(id),
{
}

/// A store in memory refuses a vector of another length than the first record has,
/// and an update of what is not there; it refuses nothing else, and what it refuses
/// changes nothing.
pub proof fn law_refusals_in_memory<D: Fn(&[u32], &[u32]) -> i64>(
    store: InMemoryVectorStore<D>,
    record: RecordModel,
    id: Seq<char>,
    err: VectorStoreError,
    records: Map<Seq<char>, RecordModel>,
    request: StoreRequest,
)
    ensures
        store.listed().len() == 0 || store.listed()[0].vector.len() == record.vector.len()
            ==> !store.may_refuse(StoreRequest::Insert(record), err),
        store.may_refuse(StoreRequest::Insert(record), err) ==> err is DimensionMismatch
            && err->expected == store.listed()[0].vector.len() as usize && err->actual
            == record.vector.len() as usize,
        store.records().contains_key(record.id) ==> !store.may_refuse(
            StoreRequest::Update(record),
            err,
        ),
        store.may_refuse(StoreRequest::Update(record), err) ==> err is NotFound,
        !store.may_refuse(StoreRequest::Get(id), err),
        !store.may_refuse(StoreRequest::Delete(id), err),
        !store.may_refuse(StoreRequest::List, err),
        !store.may_refuse(StoreRequest::Reset, err),
        store.may_leave(request, err, records) ==> records == store.records(),
{
}

/// A store in memory lists from the offset on, up to the limit, in the order in
/// which the ids came; it cannot search by keywords.
pub proof fn law_lists_in_memory<D: Fn(&[u32], &[u32]) -> i64>(
    store: InMemoryVectorStore<D>,
    offset: nat,
    limit: nat,
    ids: Seq<Seq<char>>,
    i: int,
    query: Seq<char>,
    filters: Map<Seq<char>, Seq<char>>,
    outcome: Result<Option<Seq<ResultModel>>, VectorStoreError>,
)
    requires
        store.may_page(offset, limit, ids),
        store.may_match(query, limit, filters, outcome),
    ensures
        ids.len() <= limit,
        offset + ids.len() <= store.order().len() || ids.len() == 0,
        offset + limit <= store.order().len() ==> ids.len() == limit,
        offset <= store.order().len() < offset + limit ==> offset + ids.len()
            == store.order().len(),
        0 <= i < ids.len() ==> ids[i] == store.order()[offset + i],
        outcome is Ok && outcome->Ok_0 is None,
{
}

/// A configuration is refused where the collection has no name but white space,
/// and where no dimension is asked for.
pub proof fn law_config(config: VectorStoreConfig)
    ensures
        text::trimmed(config.collection_name@, CharClass::Space).len() == 0 ==> config.problem()
            == Some("collection_name must not be empty"@),
        text::trimmed(config.collection_name@, CharClass::Space).len() > 0 ==> {
            &&& config.dimension == Some(0usize) ==> config.problem() == Some(
                "dimension must be greater than zero"@,
            )
            &&& config.dimension != Some(0usize) ==> config.problem() is None
        },
{
}

/// What the checks of a store look for in results: that one comes first, or that
/// it comes alone.
pub proof fn law_checked_results(found: Seq<ResultModel>, id: Seq<char>)
    ensures
        contract::starts_with(found, id) <==> found.len() > 0 && found.first().id == id,
        contract::is_only(found, id) ==> found == seq![found[0]] && found[0].id == id,
        found.len() != 1 ==> !contract::is_only(found, id),
        found.len() == 1 && found[0].id == id ==> contract::is_only(found, id),
{
    if contract::is_only(found, id) {
        assert(found =~= seq![found[0]]);
    }
}

/// Records that are put in one after another: the last one with an id is the one
/// that is there.
pub proof fn law_put_in_turn(
    records: Map<Seq<char>, RecordModel>,
    new: Seq<RecordModel>,
    last: RecordModel,
    other: Seq<char>,
)
    ensures
        contract::with_all(records, Seq::empty()) == records,
        contract::with_all(records, new.push(last)).contains_key(last.id),
        contract::with_all(records, new.push(last))[last.id] == last,
        other != last.id ==> {
            &&& contract::with_all(records, new.push(last)).contains_key(other)
                == contract::with_all(records, new).contains_key(other)
            &&& contract::with_all(records, new).contains_key(other) ==> contract::with_all(
                records,
                new.push(last),
            )[other] == contract::with_all(records, new)[other]
        },
{
    assert(new.push(last).drop_last() =~= new);
}

/// What the errors of a store say.
pub proof fn law_errors(reason: String, expected: usize, actual: usize)
    ensures
        VectorStoreError::NotFound.shown() == "record not found"@,
        (VectorStoreError::DimensionMismatch { expected, actual }).shown()
            == "vector dimension mismatch: expected "@ + text::decimal(expected as nat) + ", got "@
            + text::decimal(actual as nat),
        VectorStoreError::Backend(reason).shown() == "backend error: "@ + reason@,
{
}

} // verus!
