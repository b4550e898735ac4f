//! What a search finds, and what it leaves out.

use super::searching;
use super::searching::{Scorer, Search};
use super::{Setup, Stamp};
use crate::calendar;
use crate::embedding;
use crate::embedding::{EmbeddingError, EmbeddingProvider};
use crate::entity;
use crate::entity::EntityType;
use crate::error::CoreError;
use crate::filter::ExprModel;
use crate::llm::LlmProvider;
use crate::number::{Number, Reading};
use crate::rank;
use crate::reranker;
use crate::scoring;
use crate::scoring::Blend;
use crate::vector_store;
use crate::vector_store::{InMemoryVectorStore, ResultModel, SearchResult, VectorStore};
use vstd::prelude::*;

verus! {

/// Whether results have details, each with its result's score as the final one.
pub open spec fn tell_their_scores(results: Seq<ResultModel>) -> bool {
    forall|i: int|
        0 <= i < results.len() ==> {
            let r = #[trigger] results[i];
            &&& r.score_details is Some
            &&& r.score_details->0.final_score == r.score
        }
}

/// Whether results have no details.
pub open spec fn tell_nothing(results: Seq<ResultModel>) -> bool {
    forall|i: int| 0 <= i < results.len() ==> (#[trigger] results[i]).score_details is None
}

/// Whether results come from one explained and one unexplained search: they
/// differ in their details alone.
pub open spec fn differ_in_details(told: Seq<ResultModel>, untold: Seq<ResultModel>) -> bool {
    &&& scoring::plain_results(told) == scoring::plain_results(untold)
    &&& tell_their_scores(told)
    &&& tell_nothing(untold)
}

proof fn lemma_ranked_differ(told: Seq<ResultModel>, untold: Seq<ResultModel>)
    requires
        tell_their_scores(told),
        tell_nothing(untold),
    ensures
        tell_their_scores(rank::ranked::<SearchResult>(told)),
        tell_nothing(rank::ranked::<SearchResult>(untold)),
{
    let a = rank::ranked::<SearchResult>(told);
    let b = rank::ranked::<SearchResult>(untold);
    assert forall|i: int| 0 <= i < a.len() implies {
        let r = #[trigger] a[i];
        &&& r.score_details is Some
        &&& r.score_details->0.final_score == r.score
    } by {
        scoring::lemma_ranked_members(told, i);
        let k = choose|k: int| 0 <= k < told.len() && told[k] == a[i];
        assert(told[k].score_details is Some);
    }
    assert forall|i: int| 0 <= i < b.len() implies (#[trigger] b[i]).score_details is None by {
        scoring::lemma_ranked_members(untold, i);
        let k = choose|k: int| 0 <= k < untold.len() && untold[k] == b[i];
        assert(untold[k].score_details is None);
    }
}

/// Two searches for one text that may find something find the same.
proof fn lemma_one_meeting<E: EmbeddingProvider, V: VectorStore>(
    embedding: E,
    store: V,
    input: Seq<char>,
    top_k: nat,
    filters: Map<Seq<char>, Seq<char>>,
    threshold: Option<i64>,
    a: Seq<ResultModel>,
    b: Seq<ResultModel>,
)
    requires
        embedding::embeds_once(&embedding),
        vector_store::finds_once(store),
        searching::may_meet(embedding, store, input, top_k, filters, threshold, a),
        searching::may_meet(embedding, store, input, top_k, filters, threshold, b),
    ensures
        a == b,
{
    let x = choose|x: Seq<u32>|
        embedding.may_embed(input, Ok(x)) && #[trigger] store.may_find(
            x,
            top_k,
            filters,
            threshold,
            Ok(a),
        );
    let y = choose|y: Seq<u32>|
        embedding.may_embed(input, Ok(y)) && #[trigger] store.may_find(
            y,
            top_k,
            filters,
            threshold,
            Ok(b),
        );
    assert(Ok::<Seq<u32>, EmbeddingError>(x) == Ok::<Seq<u32>, EmbeddingError>(y));
    assert(store.may_find(x, top_k, filters, threshold, Ok(a)));
    assert(store.may_find(x, top_k, filters, threshold, Ok(b)));
}

/// What keywords make of an explained and an unexplained search.
proof fn lemma_weighed_differ<C: Fn(Blend) -> i64>(
    combine: C,
    start: Seq<ResultModel>,
    matched: Option<Seq<ResultModel>>,
    told: Seq<ResultModel>,
    untold: Seq<ResultModel>,
)
    requires
        scoring::settles(combine),
        tell_nothing(start),
        searching::weighed(combine, scoring::explained(start), matched, true, told),
        searching::weighed(combine, start, matched, false, untold),
    ensures
        differ_in_details(told, untold),
{
    let first = scoring::explained(start);
    assert(scoring::plain_results(first) =~= scoring::plain_results(start));
    if matched matches Some(keywords) && keywords.len() > 0 {
        let keywords = matched->0;
        let one = choose|scores: Seq<i64>| #[trigger]
            scoring::may_combine(combine, first, keywords, scores) && told == rank::ranked::<
                SearchResult,
            >(scoring::combined(first, keywords, scores, true));
        let other = choose|scores: Seq<i64>| #[trigger]
            scoring::may_combine(combine, start, keywords, scores) && untold == rank::ranked::<
                SearchResult,
            >(scoring::combined(start, keywords, scores, false));
        scoring::lemma_bounds_are_plain(first);
        scoring::lemma_bounds_are_plain(start);
        assert forall|i: int| 0 <= i < start.len() implies one[i] == other[i] by {
            let blend = scoring::blend_of(start, keywords, start[i]);
            assert(scoring::blend_of(first, keywords, first[i]) == blend);
            assert(call_ensures(combine, (blend,), one[i]));
            assert(call_ensures(combine, (blend,), other[i]));
        }
        assert(one =~= other);
        scoring::law_explaining_a_combination_changes_no_score(start, keywords, one);
        lemma_ranked_differ(
            scoring::combined(first, keywords, one, true),
            scoring::combined(start, keywords, one, false),
        );
    }
}

/// What boosts make of an explained and an unexplained search.
proof fn lemma_boosted_differ<B: Fn(i64) -> i64>(
    boost: B,
    told: Seq<ResultModel>,
    untold: Seq<ResultModel>,
    ids: Seq<Seq<char>>,
    one: Seq<i64>,
    other: Seq<i64>,
    factor: i64,
)
    requires
        scoring::settles(boost),
        differ_in_details(told, untold),
        scoring::may_boost(boost, told, ids, one),
        scoring::may_boost(boost, untold, ids, other),
    ensures
        differ_in_details(
            scoring::after_boost(told, ids, one, factor, true),
            scoring::after_boost(untold, ids, other, factor, false),
        ),
{
    assert(scoring::plain_results(told).len() == told.len());
    assert(scoring::plain_results(untold).len() == untold.len());
    assert forall|i: int| 0 <= i < told.len() implies (#[trigger] told[i]).id == untold[i].id
        && told[i].score == untold[i].score by {
        assert(scoring::plain_results(told)[i] == scoring::plain_results(untold)[i]);
    }
    let a = scoring::boosted(told, ids, one, factor, true);
    let b = scoring::boosted(untold, ids, other, factor, false);
    let same = scoring::boosted(untold, ids, one, factor, false);
    assert forall|i: int| 0 <= i < b.len() implies b[i] == same[i] by {
        assert(told[i].id == untold[i].id);
        if ids.contains(untold[i].id) {
            assert(call_ensures(boost, (told[i].score,), one[i]));
            assert(call_ensures(boost, (untold[i].score,), other[i]));
        }
    }
    assert(b =~= same);
    scoring::law_explaining_a_boost_changes_no_score(told, untold, ids, one, factor);
    assert(tell_their_scores(a)) by {
        assert forall|i: int| 0 <= i < a.len() implies {
            let r = #[trigger] a[i];
            &&& r.score_details is Some
            &&& r.score_details->0.final_score == r.score
        } by {
            assert(told[i].score_details is Some);
        }
    }
    assert(tell_nothing(b)) by {
        assert forall|i: int| 0 <= i < b.len() implies (#[trigger] b[i]).score_details is None by {
            assert(untold[i].score_details is None);
        }
    }
    lemma_ranked_differ(a, b);
}

/// Explaining a search changes the details of its results alone: two searches
/// that differ in nothing else have the same results, with the same scores and
/// payloads, in the same order. The explained ones have details that end in the
/// score; the others have none. Nothing is reranked, and what the providers, the
/// store and the arithmetic give is the same both times.
pub proof fn law_explaining_changes_details_alone<
    L: LlmProvider,
    E: EmbeddingProvider,
    V: VectorStore,
    N: Fn(&str) -> Reading,
    C: Fn(Blend) -> i64,
    B: Fn(i64) -> i64,
>(
    setup: Setup<L, E>,
    store: V,
    scorer: Scorer<N, C, B>,
    query: Seq<char>,
    top_k: usize,
    scope: Map<Seq<char>, Seq<char>>,
    threshold: Option<&Number>,
    show_expired: bool,
    filter: Option<ExprModel>,
    stamp: Stamp,
    told: Vec<SearchResult>,
    untold: Vec<SearchResult>,
)
    requires
        searching::may_search(
            setup,
            store,
            scorer,
            query,
            top_k,
            scope,
            threshold,
            show_expired,
            filter,
            false,
            true,
            stamp,
            Ok::<Vec<SearchResult>, CoreError>(told),
        ),
        searching::may_search(
            setup,
            store,
            scorer,
            query,
            top_k,
            scope,
            threshold,
            show_expired,
            filter,
            false,
            false,
            stamp,
            Ok::<Vec<SearchResult>, CoreError>(untold),
        ),
        embedding::embeds_once(&setup.embedding),
        vector_store::finds_once(store),
        scoring::settles(scorer.combine),
        scoring::settles(scorer.boost),
    ensures
        differ_in_details(rank::views(told@), rank::views(untold@)),
{
    let a = choose|ask: Search| #[trigger]
        searching::asks(
            ask,
            query,
            top_k,
            scope,
            threshold,
            show_expired,
            stamp,
            filter,
            false,
            true,
        ) && searching::may_result(setup, store, scorer, ask, rank::views(told@));
    let b = choose|ask: Search| #[trigger]
        searching::asks(
            ask,
            query,
            top_k,
            scope,
            threshold,
            show_expired,
            stamp,
            filter,
            false,
            false,
        ) && searching::may_result(setup, store, scorer, ask, rank::views(untold@));
    calendar::law_one_text_of_day(a.today, b.today, stamp.seconds as int / 86_400);
    let (found_a, matched_a, scored_a, boosted_a) = choose|
        found: Seq<ResultModel>,
        matched: Option<Seq<ResultModel>>,
        scored: Seq<ResultModel>,
        boosted: Seq<ResultModel>,
    | #[trigger]
        searching::goes_through(
            setup,
            store,
            scorer,
            a,
            found,
            matched,
            scored,
            boosted,
            rank::views(told@),
        );
    let (found_b, matched_b, scored_b, boosted_b) = choose|
        found: Seq<ResultModel>,
        matched: Option<Seq<ResultModel>>,
        scored: Seq<ResultModel>,
        boosted: Seq<ResultModel>,
    | #[trigger]
        searching::goes_through(
            setup,
            store,
            scorer,
            b,
            found,
            matched,
            scored,
            boosted,
            rank::views(untold@),
        );
    lemma_one_meeting(
        setup.embedding,
        store,
        query,
        usize::MAX as nat,
        scope,
        a.threshold,
        found_a,
        found_b,
    );
    assert(Ok::<Option<Seq<ResultModel>>, vector_store::VectorStoreError>(matched_a) == Ok::<
        Option<Seq<ResultModel>>,
        vector_store::VectorStoreError,
    >(matched_b)) by {
        assert(store.may_match(query, usize::MAX as nat, scope, Ok(matched_a)));
        assert(store.may_match(query, usize::MAX as nat, scope, Ok(matched_b)));
    }
    let start = searching::shown(scorer.read, b, found_b);
    assert(searching::shown(scorer.read, a, found_a) == start) by {
        let x = |r: ResultModel| searching::result_shown(scorer.read, a, r);
        let y = |r: ResultModel| searching::result_shown(scorer.read, b, r);
        assert(x =~= y);
    }
    searching::lemma_shown_is_genuine(
        scorer.read,
        store.records(),
        b,
        usize::MAX as nat,
        found_b,
    );
    assert(tell_nothing(start)) by {
        assert forall|i: int| 0 <= i < start.len() implies (
        #[trigger] start[i]).score_details is None by {
            let k = choose|k: int| 0 <= k < found_b.len() && found_b[k] == start[i];
            assert(found_b[k].score_details is None);
        }
    }
    lemma_weighed_differ(scorer.combine, start, matched_a, scored_a, scored_b);
    assert(scoring::plain_results(scored_a).len() == scored_a.len());
    assert(scoring::plain_results(scored_b).len() == scored_b.len());
    let entities = entity::entities_in(query);
    if scored_a.len() > 0 && entities.len() > 0 {
        lemma_boosts_differ(setup.embedding, store, scorer, a, b, scored_a, scored_b, boosted_a, boosted_b);
    }
    let all_told = rank::views(told@);
    let all_untold = rank::views(untold@);
    assert(scoring::plain_results(boosted_a).len() == boosted_a.len());
    assert(scoring::plain_results(boosted_b).len() == boosted_b.len());
    assert forall|i: int| 0 <= i < all_told.len() implies scoring::plain_results(all_told)[i]
        == scoring::plain_results(all_untold)[i] by {
        assert(all_told[i] == boosted_a[i]);
        assert(all_untold[i] == boosted_b[i]);
        assert(scoring::plain_results(boosted_a)[i] == scoring::plain_results(boosted_b)[i]);
    }
    assert(scoring::plain_results(all_told) =~= scoring::plain_results(all_untold));
    assert forall|i: int| 0 <= i < all_told.len() implies #[trigger] all_told[i] == boosted_a[i] by {}
    assert forall|i: int| 0 <= i < all_untold.len() implies #[trigger] all_untold[i]
        == boosted_b[i] by {}
}

proof fn lemma_boosts_differ<
    E: EmbeddingProvider,
    V: VectorStore,
    N: Fn(&str) -> Reading,
    C: Fn(Blend) -> i64,
    B: Fn(i64) -> i64,
>(
    embedding: E,
    store: V,
    scorer: Scorer<N, C, B>,
    a: Search,
    b: Search,
    scored_a: Seq<ResultModel>,
    scored_b: Seq<ResultModel>,
    boosted_a: Seq<ResultModel>,
    boosted_b: Seq<ResultModel>,
)
    requires
        embedding::embeds_once(&embedding),
        vector_store::finds_once(store),
        scoring::settles(scorer.boost),
        a.query == b.query,
        a.scope == b.scope,
        scored_a.len() > 0,
        scored_b.len() > 0,
        entity::entities_in(a.query).len() > 0,
        differ_in_details(scored_a, scored_b),
        searching::may_boost(
            embedding,
            store,
            scorer.boost,
            scorer.factor,
            a.query,
            a.scope,
            true,
            scored_a,
            boosted_a,
        ),
        searching::may_boost(
            embedding,
            store,
            scorer.boost,
            scorer.factor,
            b.query,
            b.scope,
            false,
            scored_b,
            boosted_b,
        ),
    ensures
        differ_in_details(boosted_a, boosted_b),
{
    let entities = entity::entities_in(a.query);
    let (met_a, one) = choose|found: Seq<Seq<ResultModel>>, scores: Seq<i64>|
        {
            &&& searching::may_know(embedding, store, a.scope, entities, found)
            &&& #[trigger] scoring::may_boost(
                scorer.boost,
                scored_a,
                searching::links_of_all(found),
                scores,
            )
            &&& boosted_a == scoring::after_boost(
                scored_a,
                searching::links_of_all(found),
                scores,
                scorer.factor,
                true,
            )
        };
    let (met_b, other) = choose|found: Seq<Seq<ResultModel>>, scores: Seq<i64>|
        {
            &&& searching::may_know(embedding, store, a.scope, entities, found)
            &&& #[trigger] scoring::may_boost(
                scorer.boost,
                scored_b,
                searching::links_of_all(found),
                scores,
            )
            &&& boosted_b == scoring::after_boost(
                scored_b,
                searching::links_of_all(found),
                scores,
                scorer.factor,
                false,
            )
        };
    assert forall|i: int| 0 <= i < entities.len() implies met_a[i] == met_b[i] by {
        let entity: (EntityType, Seq<char>) = entities[i];
        lemma_one_meeting(
            embedding,
            store,
            entity.1,
            super::ENTITY_MATCHES_PER_QUERY_ENTITY as nat,
            searching::entity_filters(a.scope, entity.0),
            None,
            met_a[i],
            met_b[i],
        );
    }
    assert(met_a =~= met_b);
    lemma_boosted_differ(
        scorer.boost,
        scored_a,
        scored_b,
        searching::links_of_all(met_a),
        one,
        other,
        scorer.factor,
    );
}

/// Whether a distance may give two vectors a score within a threshold.
pub open spec fn is_near<D: Fn(&[u32], &[u32]) -> i64>(
    distance: D,
    stored: Seq<u32>,
    vector: Seq<u32>,
    threshold: Option<i64>,
) -> bool {
    exists|score: i64| #[trigger]
        vector_store::may_measure(distance, stored, vector, score) && vector_store::within(
            threshold,
            score,
        )
}

/// The ids of the records of a store in memory that a search is for: they are
/// shown, and near the query's vector.
pub open spec fn sought<N: Fn(&str) -> Reading, D: Fn(&[u32], &[u32]) -> i64>(
    read: N,
    store: InMemoryVectorStore<D>,
    ask: Search,
    vector: Seq<u32>,
) -> Set<Seq<char>> {
    store.records().dom().filter(
        |id: Seq<char>|
            searching::is_shown(read, store.records(), ask, id) && is_near(
                store.metric(),
                store.records()[id].vector,
                vector,
                ask.threshold,
            ),
    )
}

/// The results that a boost gives have the ids that were there.
proof fn lemma_boost_keeps_ids<E: EmbeddingProvider, V: VectorStore, B: Fn(i64) -> i64>(
    embedding: E,
    store: V,
    boost: B,
    factor: i64,
    ask: Search,
    before: Seq<ResultModel>,
    after: Seq<ResultModel>,
)
    requires
        searching::may_boost(
            embedding,
            store,
            boost,
            factor,
            ask.query,
            ask.scope,
            ask.explain,
            before,
            after,
        ),
    ensures
        reranker::ids_of(after).to_multiset() == reranker::ids_of(before).to_multiset(),
{
    if before.len() > 0 && entity::entities_in(ask.query).len() > 0 {
        let (met, scores) = choose|found: Seq<Seq<ResultModel>>, scores: Seq<i64>|
            {
                &&& searching::may_know(
                    embedding,
                    store,
                    ask.scope,
                    entity::entities_in(ask.query),
                    found,
                )
                &&& #[trigger] scoring::may_boost(
                    boost,
                    before,
                    searching::links_of_all(found),
                    scores,
                )
                &&& after == scoring::after_boost(
                    before,
                    searching::links_of_all(found),
                    scores,
                    factor,
                    ask.explain,
                )
            };
        let ids = searching::links_of_all(met);
        if scoring::any_has_id(before, ids) {
            let new = scoring::boosted(before, ids, scores, factor, ask.explain);
            rank::law_ranked::<SearchResult>(new);
            reranker::lemma_ids_multiset(after, new);
            assert(reranker::ids_of(new) =~= reranker::ids_of(before));
        }
    }
}

/// A search of a store in memory misses nothing: the results before they are cut
/// are all the records that are sought, each once, the closer ones first; and as
/// many of them are handed out as were asked for, or all.
pub proof fn law_search_in_memory_misses_nothing<
    L: LlmProvider,
    E: EmbeddingProvider,
    D: Fn(&[u32], &[u32]) -> i64,
    N: Fn(&str) -> Reading,
    C: Fn(Blend) -> i64,
    B: Fn(i64) -> i64,
>(
    setup: Setup<L, E>,
    store: InMemoryVectorStore<D>,
    scorer: Scorer<N, C, B>,
    ask: Search,
    found: Seq<ResultModel>,
    matched: Option<Seq<ResultModel>>,
    scored: Seq<ResultModel>,
    boosted: Seq<ResultModel>,
    results: Seq<ResultModel>,
)
    requires
        searching::goes_through(
            setup,
            store,
            scorer,
            ask,
            found,
            matched,
            scored,
            boosted,
            results,
        ),
        !ask.rerank,
        ask.threshold is None || vector_store::measures_once(store.metric()),
        vector_store::ids_having(store.records(), ask.scope).len() <= usize::MAX,
    ensures
        results == vector_store::first(boosted, ask.top_k),
        rank::in_order::<SearchResult>(boosted),
        searching::distinct_ids(boosted),
        exists|vector: Seq<u32>|
            {
                &&& #[trigger] setup.embedding.may_embed(ask.query, Ok(vector))
                &&& reranker::ids_of(boosted).to_set() == sought(scorer.read, store, ask, vector)
                &&& results.len() == if sought(scorer.read, store, ask, vector).len()
                    < ask.top_k {
                    sought(scorer.read, store, ask, vector).len()
                } else {
                    ask.top_k
                }
            },
{
    broadcast use vstd::seq_lib::group_to_multiset_ensures;

    searching::law_steps_of_a_search(
        setup,
        store,
        scorer,
        ask,
        found,
        matched,
        scored,
        boosted,
        results,
    );
    let vector = choose|vector: Seq<u32>|
        setup.embedding.may_embed(ask.query, Ok(vector)) && #[trigger] store.may_find(
            vector,
            usize::MAX as nat,
            ask.scope,
            ask.threshold,
            Ok(found),
        );
    let kept = searching::shown(scorer.read, ask, found);
    let wanted = sought(scorer.read, store, ask, vector);
    let ids = reranker::ids_of(boosted);
    let first = reranker::ids_of(kept);
    assert(matched is None);
    assert(reranker::ids_of(scored) =~= first);
    lemma_boost_keeps_ids(
        setup.embedding,
        store,
        scorer.boost,
        scorer.factor,
        ask,
        scored,
        boosted,
    );
    assert forall|id: Seq<char>| ids.to_set().contains(id) implies wanted.contains(id) by {
        assert(ids.contains(id));
        assert(ids.to_multiset().count(id) > 0);
        assert(first.contains(id));
        let i = choose|i: int| 0 <= i < first.len() && first[i] == id;
        lemma_kept_is_sought(scorer.read, store, ask, vector, found, i);
    }
    assert forall|id: Seq<char>| wanted.contains(id) implies ids.to_set().contains(id) by {
        lemma_sought_is_kept(scorer.read, store, ask, vector, found, id);
        assert(first.to_multiset().count(id) > 0);
        assert(ids.contains(id));
    }
    assert(ids.to_set() =~= wanted);
    assert(ids.no_duplicates()) by {
        assert forall|i: int, j: int| 0 <= i < j < ids.len() implies ids[i] != ids[j] by {
            assert(boosted[i].id != boosted[j].id);
        }
    }
    ids.unique_seq_to_set();
    rank::law_page_length(boosted, 0, ask.top_k);
}

proof fn lemma_kept_is_sought<N: Fn(&str) -> Reading, D: Fn(&[u32], &[u32]) -> i64>(
    read: N,
    store: InMemoryVectorStore<D>,
    ask: Search,
    vector: Seq<u32>,
    found: Seq<ResultModel>,
    i: int,
)
    requires
        store.may_find(vector, usize::MAX as nat, ask.scope, ask.threshold, Ok(found)),
        vector_store::sound_results(
            store.records(),
            usize::MAX as nat,
            ask.scope,
            ask.threshold,
            found,
        ),
        0 <= i < searching::shown(read, ask, found).len(),
    ensures
        sought(read, store, ask, vector).contains(searching::shown(read, ask, found)[i].id),
{
    searching::lemma_shown_is_genuine(
        read,
        store.records(),
        ask,
        usize::MAX as nat,
        found,
    );
    let r = searching::shown(read, ask, found)[i];
    let k = choose|k: int| 0 <= k < found.len() && found[k] == r;
    vector_store::law_found_records_are_near(
        store,
        vector,
        usize::MAX as nat,
        ask.scope,
        ask.threshold,
        found,
        k,
    );
    assert(searching::is_shown(read, store.records(), ask, r.id));
}

proof fn lemma_sought_is_kept<N: Fn(&str) -> Reading, D: Fn(&[u32], &[u32]) -> i64>(
    read: N,
    store: InMemoryVectorStore<D>,
    ask: Search,
    vector: Seq<u32>,
    found: Seq<ResultModel>,
    id: Seq<char>,
)
    requires
        store.may_find(vector, usize::MAX as nat, ask.scope, ask.threshold, Ok(found)),
        sought(read, store, ask, vector).contains(id),
        ask.threshold is None || vector_store::measures_once(store.metric()),
        vector_store::ids_having(store.records(), ask.scope).len() <= usize::MAX,
    ensures
        reranker::ids_of(searching::shown(read, ask, found)).contains(id),
{
    let records = store.records();
    vector_store::law_few_records_are_all_found(
        store,
        vector,
        usize::MAX as nat,
        ask.scope,
        ask.threshold,
        found,
        id,
    );
    let score = choose|score: i64|
        {
            &&& #[trigger] vector_store::may_measure(
                store.metric(),
                records[id].vector,
                vector,
                score,
            )
            &&& vector_store::within(ask.threshold, score) ==> found.contains(
                ResultModel { id, score, payload: records[id].payload, score_details: None },
            )
        };
    let near = choose|near: i64| #[trigger]
        vector_store::may_measure(store.metric(), records[id].vector, vector, near)
            && vector_store::within(ask.threshold, near);
    assert(vector_store::within(ask.threshold, score));
    let r = ResultModel { id, score, payload: records[id].payload, score_details: None };
    let k = choose|k: int| 0 <= k < found.len() && found[k] == r;
    let keep = |r: ResultModel| searching::result_shown(read, ask, r);
    found.lemma_filter_contains(keep, k);
    let kept = searching::shown(read, ask, found);
    assert(kept.contains(r));
    let i = choose|i: int| 0 <= i < kept.len() && kept[i] == r;
    assert(reranker::ids_of(kept)[i] == id);
}

} // verus!
