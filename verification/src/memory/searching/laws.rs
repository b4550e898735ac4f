//! What a search finds, and how.

use super::{Scorer, Search};
use crate::calendar;
use crate::embedding::EmbeddingProvider;
use crate::entity;
use crate::entity::EntityType;
use crate::error::CoreError;
use crate::filter;
use crate::filter::ExprModel;
use crate::llm::LlmProvider;
use crate::memory;
use crate::memory::adding::laws as adding;
use crate::memory::laws as memories;
use crate::memory::searching;
use crate::memory::{Setup, Stamp};
use crate::number::{Number, Reading};
use crate::payload;
use crate::rank;
use crate::rank::Ranked;
use crate::reranker::Reranker;
use crate::scoring;
use crate::scoring::Blend;
use crate::text;
use crate::vector_store;
use crate::vector_store::{ResultModel, SearchResult, VectorStore};
use vstd::prelude::*;

verus! {

/// A search is refused, and the first of these says why: a reranking without a
/// reranker, nothing asked for, more asked for than is allowed, a scope that names
/// no one, a negative threshold.
pub proof fn law_refused_search<
    L: LlmProvider,
    E: EmbeddingProvider,
    V: VectorStore,
    N: Fn(&str) -> Reading,
    C: Fn(Blend) -> i64,
    B: Fn(i64) -> i64,
>(
    setup: Setup<L, E>,
    store: V,
    scorer: Scorer<N, C, B>,
    query: Seq<char>,
    top_k: usize,
    scope: Map<Seq<char>, Seq<char>>,
    threshold: Option<&Number>,
    show_expired: bool,
    filter: Option<ExprModel>,
    rerank: bool,
    explain: bool,
    stamp: Stamp,
    r: Result<Vec<SearchResult>, CoreError>,
)
    requires
        searching::may_search(
            setup,
            store,
            scorer,
            query,
            top_k,
            scope,
            threshold,
            show_expired,
            filter,
            rerank,
            explain,
            stamp,
            r,
        ),
    ensures
        ({
            let unranked = rerank && setup.reranker is None;
            let many = setup.max_top_k is Some && top_k > setup.max_top_k->0;
            let named = scope.contains_key("user_id"@) || scope.contains_key("agent_id"@)
                || scope.contains_key("run_id"@);
            let negative = threshold is Some && -0x7ff0_0000_0000_0000 <= threshold->0.key < 0;
            let refused = unranked || top_k == 0 || many || !named || negative;
            &&& refused ==> r is Err && r->Err_0 is Validation
            &&& unranked ==> r->Err_0->Validation_0@
                == "rerank was requested but no reranker is configured"@
            &&& !unranked && top_k == 0 ==> r->Err_0->Validation_0@
                == "top_k must be greater than zero"@
            &&& !unranked && top_k > 0 && many ==> r->Err_0->Validation_0@ == "top_k of "@
                + text::decimal(top_k as nat) + " exceeds the configured ceiling of "@
                + text::decimal(setup.max_top_k->0 as nat)
            &&& !unranked && top_k > 0 && !many && !named ==> r->Err_0->Validation_0@
                == "scope must contain user_id, agent_id, or run_id"@
            &&& !unranked && top_k > 0 && !many && named && negative ==> r->Err_0->Validation_0@
                == "threshold must not be negative, got "@ + threshold->0.text@
        }),
{
}

/// What a search finds: not more than was asked for, no memory twice, and each a
/// memory of the store that has every entry of the scope, that has not expired
/// unless this does not matter, and that passes the filter. What is not reranked
/// has the payloads of the store, and the lower scores first.
pub proof fn law_found<
    L: LlmProvider,
    E: EmbeddingProvider,
    V: VectorStore,
    N: Fn(&str) -> Reading,
    C: Fn(Blend) -> i64,
    B: Fn(i64) -> i64,
>(
    setup: Setup<L, E>,
    store: V,
    scorer: Scorer<N, C, B>,
    query: Seq<char>,
    top_k: usize,
    scope: Map<Seq<char>, Seq<char>>,
    threshold: Option<&Number>,
    show_expired: bool,
    filter: Option<ExprModel>,
    rerank: bool,
    explain: bool,
    stamp: Stamp,
    today: Seq<char>,
    results: Vec<SearchResult>,
    i: int,
    j: int,
    key: Seq<char>,
)
    requires
        searching::may_search(
            setup,
            store,
            scorer,
            query,
            top_k,
            scope,
            threshold,
            show_expired,
            filter,
            rerank,
            explain,
            stamp,
            Ok::<Vec<SearchResult>, CoreError>(results),
        ),
        stamp.is_today(today),
        0 <= i < results@.len(),
    ensures
        results@.len() <= top_k,
        store.records().contains_key(results@[i].id@),
        i < j < results@.len() ==> results@[i].id@ != results@[j].id@,
        !rerank && i < j < results@.len() ==> results@[i].score <= results@[j].score,
        ({
            let payload = store.records()[results@[i].id@].payload;
            &&& memories::is_memory(payload)
            &&& scope.contains_key(key) ==> payload.contains_key(key) && payload[key] == scope[key]
            &&& !show_expired && payload.contains_key("expiration_date"@) ==> !text::precedes(
                payload["expiration_date"@],
                today,
            )
            &&& filter is Some ==> filter::passes(scorer.read, filter->0, payload)
            &&& !rerank ==> results@[i]@.payload == payload
        }),
{
    let found = rank::views(results@);
    let ask = choose|ask: Search| #[trigger]
        searching::asks(
            ask,
            query,
            top_k,
            scope,
            threshold,
            show_expired,
            stamp,
            filter,
            rerank,
            explain,
        ) && searching::may_result(setup, store, scorer, ask, found);
    calendar::law_one_text_of_day(ask.today, today, stamp.seconds as int / 86_400);
    let (first, matched, scored, boosted) = choose|
        first: Seq<ResultModel>,
        matched: Option<Seq<ResultModel>>,
        scored: Seq<ResultModel>,
        boosted: Seq<ResultModel>,
    | #[trigger]
        searching::goes_through(
            setup,
            store,
            scorer,
            ask,
            first,
            matched,
            scored,
            boosted,
            found,
        );
    searching::law_search(
        setup,
        store,
        scorer,
        ask,
        first,
        matched,
        scored,
        boosted,
        found,
    );
    assert(found[i] == results@[i]@);
    assert(searching::is_shown(scorer.read, store.records(), ask, found[i].id));
    if i < j < results@.len() {
        assert(found[j] == results@[j]@);
        if !rerank {
            assert(SearchResult::may_precede(found[i], found[j]));
        }
    }
}

/// The memories that are shown of what was found: in the order in which they were
/// found, those that are visible on the day; the scope was asked of the store.
pub proof fn law_shown_of_what_was_found<N: Fn(&str) -> Reading>(
    read: N,
    ask: Search,
    found: Seq<ResultModel>,
    last: ResultModel,
)
    ensures
        searching::shown(read, ask, Seq::empty()) == Seq::<ResultModel>::empty(),
        ({
            let visible = memory::visible(
                read,
                last.payload,
                None,
                ask.show_expired,
                ask.today,
                ask.filter,
            );
            &&& visible ==> searching::shown(read, ask, found.push(last)) == searching::shown(
                read,
                ask,
                found,
            ).push(last)
            &&& !visible ==> searching::shown(read, ask, found.push(last)) == searching::shown(
                read,
                ask,
                found,
            )
        }),
{
    reveal(Seq::filter);
    assert(found.push(last).drop_last() =~= found);
    assert(searching::shown(read, ask, Seq::empty()) =~= Seq::empty());
}

/// The steps of a search. The store is asked for all that is near the vector of
/// the query in the scope, within the threshold, and for all that has its
/// keywords; what is found and shown gets combined scores if a keyword was found;
/// what entities of the query link is boosted; the first of these are handed out,
/// as they are, or ranked anew if that is asked for.
pub proof fn law_search_steps<
    L: LlmProvider,
    E: EmbeddingProvider,
    V: VectorStore,
    N: Fn(&str) -> Reading,
    C: Fn(Blend) -> i64,
    B: Fn(i64) -> i64,
>(
    setup: Setup<L, E>,
    store: V,
    scorer: Scorer<N, C, B>,
    ask: Search,
    results: Seq<ResultModel>,
) -> (steps: (
    Seq<ResultModel>,
    Option<Seq<ResultModel>>,
    Seq<ResultModel>,
    Seq<ResultModel>,
    Seq<ResultModel>,
    Seq<ResultModel>,
))
    requires
        searching::may_result(setup, store, scorer, ask, results),
    ensures
        exists|vector: Seq<u32>|
            setup.embedding.may_embed(ask.query, Ok(vector)) && #[trigger] store.may_find(
                vector,
                usize::MAX as nat,
                ask.scope,
                ask.threshold,
                Ok(steps.0),
            ),
        store.may_match(ask.query, usize::MAX as nat, ask.scope, Ok(steps.1)),
        !ask.explain ==> steps.2 == searching::shown(scorer.read, ask, steps.0),
        ask.explain ==> steps.2 == scoring::explained(
            searching::shown(scorer.read, ask, steps.0),
        ),
        steps.1 is None || steps.1->0.len() == 0 ==> steps.3 == steps.2,
        steps.1 is Some && steps.1->0.len() > 0 ==> scoring::may_come_out(
            scorer.combine,
            steps.2,
            steps.1->0,
            ask.explain,
            steps.3,
        ),
        entity::entities_in(ask.query).len() == 0 ==> steps.4 == steps.3,
        searching::may_boost(
            setup.embedding,
            store,
            scorer.boost,
            scorer.factor,
            ask.query,
            ask.scope,
            ask.explain,
            steps.3,
            steps.4,
        ),
        steps.4.len() <= ask.top_k ==> steps.5 == steps.4,
        steps.4.len() > ask.top_k ==> steps.5 == steps.4.take(ask.top_k as int),
        !ask.rerank ==> results == steps.5,
        ask.rerank ==> (setup.reranker matches Some(reranker) && reranker.may_rerank(
            ask.query,
            steps.5,
            Ok(results),
        )),
{
    let (found, matched, scored, boosted) = choose|
        found: Seq<ResultModel>,
        matched: Option<Seq<ResultModel>>,
        scored: Seq<ResultModel>,
        boosted: Seq<ResultModel>,
    | #[trigger]
        searching::goes_through(
            setup,
            store,
            scorer,
            ask,
            found,
            matched,
            scored,
            boosted,
            results,
        );
    let start = searching::presented(scorer.read, ask, found);
    let vector = choose|vector: Seq<u32>|
        setup.embedding.may_embed(ask.query, Ok(vector)) && #[trigger] store.may_find(
            vector,
            usize::MAX as nat,
            ask.scope,
            ask.threshold,
            Ok(found),
        );
    assert(store.may_find(vector, usize::MAX as nat, ask.scope, ask.threshold, Ok(found)));
    let best = vector_store::first(boosted, ask.top_k);
    if boosted.len() <= ask.top_k {
        assert(best =~= boosted);
    } else {
        assert(best =~= boosted.take(ask.top_k as int));
    }
    let steps = (found, matched, start, scored, boosted, best);
    assert(store.may_find(vector, usize::MAX as nat, ask.scope, ask.threshold, Ok(steps.0)));
    steps
}

proof fn lemma_all_links(found: Seq<ResultModel>, id: Seq<char>)
    ensures
        searching::all_links(found).contains(id) <==> exists|j: int|
            0 <= j < found.len() && adding::names_memory((#[trigger] found[j]).payload, id),
    decreases found.len(),
{
    if found.len() > 0 {
        let rest = found.drop_last();
        lemma_all_links(rest, id);
        let before = searching::all_links(rest);
        let here = searching::links(found.last().payload);
        let all = searching::all_links(found);
        assert(found[found.len() - 1] == found.last());
        lemma_contains_either(before, here, id);
        assert(adding::names_memory(found.last().payload, id) <==> here.contains(id)) by {
            if here.contains(id) {
                let k = choose|k: int| 0 <= k < here.len() && here[k] == id;
            }
        }
        if exists|j: int| 0 <= j < found.len() && adding::names_memory(
            (#[trigger] found[j]).payload,
            id,
        ) {
            let j = choose|j: int|
                0 <= j < found.len() && adding::names_memory((#[trigger] found[j]).payload, id);
            if j < rest.len() {
                assert(adding::names_memory(rest[j].payload, id));
            }
        }
        if before.contains(id) {
            let j = choose|j: int|
                0 <= j < rest.len() && adding::names_memory((#[trigger] rest[j]).payload, id);
            assert(adding::names_memory(found[j].payload, id));
        }
    }
}

proof fn lemma_contains_either<A>(a: Seq<A>, b: Seq<A>, x: A)
    ensures
        (a + b).contains(x) <==> a.contains(x) || b.contains(x),
{
    if a.contains(x) {
        let k = choose|k: int| 0 <= k < a.len() && a[k] == x;
        assert((a + b)[k] == x);
    }
    if b.contains(x) {
        let k = choose|k: int| 0 <= k < b.len() && b[k] == x;
        assert((a + b)[a.len() + k] == x);
    }
    if (a + b).contains(x) {
        let k = choose|k: int| 0 <= k < (a + b).len() && (a + b)[k] == x;
        if k < a.len() {
            assert(a[k] == x);
        } else {
            assert(b[k - a.len()] == x);
        }
    }
}

/// Whether one of some records links a memory.
pub open spec fn any_names(found: Seq<ResultModel>, id: Seq<char>) -> bool {
    exists|j: int| 0 <= j < found.len() && adding::names_memory((#[trigger] found[j]).payload, id)
}

/// A memory is boosted exactly where a record that was found for an entity of the
/// query links it.
pub proof fn law_boosted_ids(found: Seq<Seq<ResultModel>>, id: Seq<char>)
    ensures
        searching::links_of_all(found).contains(id) <==> exists|i: int|
            0 <= i < found.len() && any_names(#[trigger] found[i], id),
    decreases found.len(),
{
    if found.len() > 0 {
        let rest = found.drop_last();
        law_boosted_ids(rest, id);
        lemma_all_links(found.last(), id);
        lemma_contains_either(
            searching::links_of_all(rest),
            searching::all_links(found.last()),
            id,
        );
        assert(found[found.len() - 1] == found.last());
        if searching::links_of_all(rest).contains(id) {
            let i = choose|i: int| 0 <= i < rest.len() && any_names(#[trigger] rest[i], id);
            assert(any_names(found[i], id));
        }
        if exists|i: int| 0 <= i < found.len() && any_names(#[trigger] found[i], id) {
            let i = choose|i: int| 0 <= i < found.len() && any_names(#[trigger] found[i], id);
            if i < rest.len() {
                assert(any_names(rest[i], id));
            }
        }
    }
}

/// What entities of a query boost. For each entity, in the scope, the five
/// records of entities of its kind that are nearest to its name are looked up; the
/// scores of the results that these link are boosted, and no others change.
pub proof fn law_entity_boost<E: EmbeddingProvider, V: VectorStore, B: Fn(i64) -> i64>(
    embedding: E,
    store: V,
    boost: B,
    factor: i64,
    query: Seq<char>,
    scope: Map<Seq<char>, Seq<char>>,
    explain: bool,
    before: Seq<ResultModel>,
    after: Seq<ResultModel>,
) -> (r: (Seq<Seq<ResultModel>>, Seq<Seq<char>>))
    requires
        searching::may_boost(
            embedding,
            store,
            boost,
            factor,
            query,
            scope,
            explain,
            before,
            after,
        ),
    ensures
        after.len() == before.len(),
        before.len() == 0 || entity::entities_in(query).len() == 0 ==> after == before,
        before.len() > 0 && entity::entities_in(query).len() > 0 ==> {
            let (found, ids) = r;
            let entities = entity::entities_in(query);
            &&& found.len() == entities.len()
            &&& forall|i: int|
                0 <= i < entities.len() ==> is_looked_up(
                    embedding,
                    store,
                    scope,
                    #[trigger] entities[i],
                    found[i],
                )
            &&& forall|id: Seq<char>| #[trigger]
                ids.contains(id) <==> exists|i: int|
                    0 <= i < found.len() && any_names(#[trigger] found[i], id)
            &&& forall|i: int|
                0 <= i < after.len() ==> scoring::laws::is_one_boosted(
                    boost,
                    ids,
                    factor,
                    explain,
                    before,
                    #[trigger] after[i],
                )
            &&& forall|k: int|
                0 <= k < before.len() ==> scoring::laws::is_boosted_in(
                    boost,
                    ids,
                    factor,
                    explain,
                    #[trigger] before[k],
                    after,
                )
        },
{
    let entities = entity::entities_in(query);
    if before.len() == 0 || entities.len() == 0 {
        (Seq::empty(), Seq::empty())
    } else {
        let (found, scores) = choose|found: Seq<Seq<ResultModel>>, scores: Seq<i64>|
            {
                &&& searching::may_know(embedding, store, scope, entities, found)
                &&& #[trigger] scoring::may_boost(
                    boost,
                    before,
                    searching::links_of_all(found),
                    scores,
                )
                &&& after == scoring::after_boost(
                    before,
                    searching::links_of_all(found),
                    scores,
                    factor,
                    explain,
                )
            };
        let ids = searching::links_of_all(found);
        scoring::laws::law_boosted_scores(boost, before, ids, scores, factor, explain, after);
        assert forall|id: Seq<char>| #[trigger] ids.contains(id) <==> exists|i: int|
            0 <= i < found.len() && any_names(#[trigger] found[i], id) by {
            law_boosted_ids(found, id);
        }
        assert forall|i: int| 0 <= i < entities.len() implies is_looked_up(
            embedding,
            store,
            scope,
            #[trigger] entities[i],
            found[i],
        ) by {
            lemma_looked_up(embedding, store, scope, entities[i], found[i]);
        }
        (found, ids)
    }
}

/// Whether records may be found for an entity: by the vector of its name, five at
/// most, among those of the scope that are records of entities of its kind.
pub open spec fn is_looked_up<E: EmbeddingProvider, V: VectorStore>(
    embedding: E,
    store: V,
    scope: Map<Seq<char>, Seq<char>>,
    entity: (EntityType, Seq<char>),
    found: Seq<ResultModel>,
) -> bool {
    &&& exists|vector: Seq<u32>, filters: Map<Seq<char>, Seq<char>>|
        {
            &&& embedding.may_embed(entity.1, Ok(vector))
            &&& #[trigger] store.may_find(vector, 5, filters, None, Ok(found))
            &&& filters.contains_key("__memoria_record_kind"@)
            &&& filters["__memoria_record_kind"@] == "entity"@
            &&& filters.contains_key("entity_type"@)
            &&& entity.0 is Proper ==> filters["entity_type"@] == "proper"@
            &&& entity.0 is Quoted ==> filters["entity_type"@] == "quoted"@
            &&& forall|key: Seq<char>|
                key != "__memoria_record_kind"@ && key != "entity_type"@ ==> {
                    &&& #[trigger] filters.contains_key(key) == scope.contains_key(key)
                    &&& scope.contains_key(key) ==> filters[key] == scope[key]
                }
        }
    &&& found.len() <= 5
    &&& forall|j: int|
        0 <= j < found.len() ==> {
            let record = #[trigger] found[j];
            &&& store.records().contains_key(record.id)
            &&& record.payload == store.records()[record.id].payload
            &&& !memories::is_memory(record.payload)
        }
}

proof fn lemma_looked_up<E: EmbeddingProvider, V: VectorStore>(
    embedding: E,
    store: V,
    scope: Map<Seq<char>, Seq<char>>,
    entity: (EntityType, Seq<char>),
    found: Seq<ResultModel>,
)
    requires
        searching::may_meet(
            embedding,
            store,
            entity.1,
            5,
            searching::entity_filters(scope, entity.0),
            None,
            found,
        ),
    ensures
        is_looked_up(embedding, store, scope, entity, found),
{
    let filters = searching::entity_filters(scope, entity.0);
    reveal_strlit("__memoria_record_kind");
    reveal_strlit("entity_type");
    assert("__memoria_record_kind"@.len() != "entity_type"@.len());
    let vector = choose|vector: Seq<u32>|
        embedding.may_embed(entity.1, Ok(vector)) && #[trigger] store.may_find(
            vector,
            5,
            filters,
            None,
            Ok(found),
        );
    assert(store.may_find(vector, 5, filters, None, Ok(found)));
    assert forall|j: int| 0 <= j < found.len() implies {
        let record = #[trigger] found[j];
        &&& store.records().contains_key(record.id)
        &&& record.payload == store.records()[record.id].payload
        &&& !memories::is_memory(record.payload)
    } by {
        let record = found[j];
        assert(payload::covers(record.payload, filters));
        assert(filters.contains_key("__memoria_record_kind"@));
    }
}

/// Whether results say how their scores came about, or none does.
pub open spec fn all_explained(results: Seq<ResultModel>, explain: bool) -> bool {
    forall|k: int| 0 <= k < results.len() ==> (#[trigger] results[k]).score_details is Some == explain
}

proof fn lemma_presented<N: Fn(&str) -> Reading>(read: N, ask: Search, first: Seq<ResultModel>)
    requires
        all_explained(first, false),
    ensures
        all_explained(searching::presented(read, ask, first), ask.explain),
{
    let kept = searching::shown(read, ask, first);
    rank::laws::lemma_filter_members(first, |r: ResultModel| searching::result_shown(read, ask, r));
    assert forall|k: int| 0 <= k < kept.len() implies (#[trigger] kept[k]).score_details is None by {
        assert(kept.contains(kept[k]));
        assert(first.contains(kept[k]));
        let m = choose|m: int| 0 <= m < first.len() && first[m] == kept[k];
        assert(first[m].score_details is Some == false);
    }
    scoring::laws::law_explained(kept);
}

proof fn lemma_weighed<C: Fn(Blend) -> i64>(
    combine: C,
    before: Seq<ResultModel>,
    matched: Seq<ResultModel>,
    explain: bool,
    after: Seq<ResultModel>,
)
    requires
        scoring::may_come_out(combine, before, matched, explain, after),
        all_explained(before, explain),
    ensures
        all_explained(after, explain),
{
    scoring::laws::law_combined_scores(combine, before, matched, explain, after);
    assert forall|k: int| 0 <= k < after.len() implies (#[trigger] after[k]).score_details is Some
        == explain by {
        assert(scoring::laws::is_one_combined(combine, before, matched, explain, after[k]));
        let m = choose|m: int|
            0 <= m < before.len() && scoring::laws::is_combined(
                combine,
                before,
                matched,
                explain,
                #[trigger] before[m],
                after[k],
            );
        assert(before[m].score_details is Some == explain);
    }
}

proof fn lemma_boosted<E: EmbeddingProvider, V: VectorStore, B: Fn(i64) -> i64>(
    embedding: E,
    store: V,
    boost: B,
    factor: i64,
    query: Seq<char>,
    scope: Map<Seq<char>, Seq<char>>,
    explain: bool,
    before: Seq<ResultModel>,
    after: Seq<ResultModel>,
)
    requires
        searching::may_boost(embedding, store, boost, factor, query, scope, explain, before, after),
        all_explained(before, explain),
    ensures
        all_explained(after, explain),
{
    let (met, ids) = law_entity_boost(
        embedding,
        store,
        boost,
        factor,
        query,
        scope,
        explain,
        before,
        after,
    );
    if before.len() > 0 && entity::entities_in(query).len() > 0 {
        assert forall|k: int| 0 <= k < after.len() implies (#[trigger] after[k]).score_details
            is Some == explain by {
            assert(scoring::laws::is_one_boosted(boost, ids, factor, explain, before, after[k]));
            let m = choose|m: int|
                0 <= m < before.len() && scoring::laws::is_boosted(
                    boost,
                    ids,
                    factor,
                    explain,
                    #[trigger] before[m],
                    after[k],
                );
            assert(before[m].score_details is Some == explain);
        }
    }
}

/// Results that are not reranked say how their scores came about where this is
/// asked for, and nowhere else.
pub proof fn law_explanations<
    L: LlmProvider,
    E: EmbeddingProvider,
    V: VectorStore,
    N: Fn(&str) -> Reading,
    C: Fn(Blend) -> i64,
    B: Fn(i64) -> i64,
>(
    setup: Setup<L, E>,
    store: V,
    scorer: Scorer<N, C, B>,
    query: Seq<char>,
    top_k: usize,
    scope: Map<Seq<char>, Seq<char>>,
    threshold: Option<&Number>,
    show_expired: bool,
    filter: Option<ExprModel>,
    explain: bool,
    stamp: Stamp,
    results: Vec<SearchResult>,
    i: int,
)
    requires
        searching::may_search(
            setup,
            store,
            scorer,
            query,
            top_k,
            scope,
            threshold,
            show_expired,
            filter,
            false,
            explain,
            stamp,
            Ok::<Vec<SearchResult>, CoreError>(results),
        ),
        0 <= i < results@.len(),
    ensures
        results@[i]@.score_details is Some == explain,
{
    let found = rank::views(results@);
    let ask = choose|ask: Search| #[trigger]
        searching::asks(
            ask,
            query,
            top_k,
            scope,
            threshold,
            show_expired,
            stamp,
            filter,
            false,
            explain,
        ) && searching::may_result(setup, store, scorer, ask, found);
    let (first, matched, scored, boosted) = choose|
        first: Seq<ResultModel>,
        matched: Option<Seq<ResultModel>>,
        scored: Seq<ResultModel>,
        boosted: Seq<ResultModel>,
    | #[trigger]
        searching::goes_through(
            setup,
            store,
            scorer,
            ask,
            first,
            matched,
            scored,
            boosted,
            found,
        );
    assert(all_explained(first, false));
    lemma_presented(scorer.read, ask, first);
    let start = searching::presented(scorer.read, ask, first);
    if matched is Some && matched->0.len() > 0 {
        lemma_weighed(scorer.combine, start, matched->0, explain, scored);
    }
    lemma_boosted(
        setup.embedding,
        store,
        scorer.boost,
        scorer.factor,
        query,
        scope,
        explain,
        scored,
        boosted,
    );
    assert(found == vector_store::first(boosted, ask.top_k));
    assert(found[i] == results@[i]@);
    rank::laws::law_page(boosted, 0, ask.top_k as nat, i);
    assert(found[i] == boosted[i]);
}

} // verus!
