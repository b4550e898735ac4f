//! Searching memories.

pub mod laws;

use super::{
    has_scope_id, is_visible, Memory, Setup, Stamp, ENTITY_MATCHES_PER_QUERY_ENTITY,
    ENTITY_RECORD_KIND_KEY, ENTITY_RECORD_KIND_VALUE, ENTITY_TYPE_KEY, LINKED_MEMORY_IDS_KEY,
    SCOPE_REQUIRED,
};
use crate::calendar;
use crate::embedding::EmbeddingProvider;
use crate::entity;
use crate::entity::EntityType;
use crate::error::{CoreError, ProviderError};
use crate::filter;
use crate::filter::{ExprModel, FilterExpr};
use crate::llm::LlmProvider;
use crate::number;
use crate::number::{is_comparable, Number, Reading};
use crate::payload;
use crate::payload::Payload;
use crate::rank;
use crate::rank::Ranked;
use crate::reranker;
use crate::reranker::{RerankError, Reranker};
use crate::scoring;
use crate::scoring::Blend;
use crate::text;
use crate::text::CharClass;
use crate::vector_store;
use crate::vector_store::{
    RecordModel, ResultModel, SearchResult, VectorStore, VectorStoreError,
};
use vstd::prelude::*;

verus! {

/// The arithmetic of a search: how texts are read as numbers, how a score by
/// meaning and one by keywords make a combined score, and how a score is
/// boosted, by which factor.
pub struct Scorer<N, C, B> {
    pub read: N,
    pub combine: C,
    pub boost: B,
    pub factor: i64,
}

impl<N: Fn(&str) -> Reading, C: Fn(Blend) -> i64, B: Fn(i64) -> i64> Scorer<N, C, B> {
    /// Whether the arithmetic is defined on everything.
    pub open spec fn answers(self) -> bool {
        &&& filter::reads(self.read)
        &&& forall|b: Blend| #[trigger] call_requires(self.combine, (b,))
        &&& forall|s: i64| #[trigger] call_requires(self.boost, (s,))
    }
}

/// What is searched for, among what.
pub struct Search {
    pub query: Seq<char>,
    pub top_k: nat,
    pub scope: Map<Seq<char>, Seq<char>>,
    pub threshold: Option<i64>,
    pub show_expired: bool,
    pub today: Seq<char>,
    pub filter: Option<ExprModel>,
    pub rerank: bool,
    pub explain: bool,
}

/// The order key of a threshold, if there is one.
pub open spec fn threshold_key(threshold: Option<&Number>) -> Option<i64> {
    match threshold {
        Some(t) => Some(t.key),
        None => None,
    }
}

/// Why a search is refused before it starts, if it is.
pub open spec fn search_problem<L, E>(
    setup: Setup<L, E>,
    top_k: usize,
    scope: Map<Seq<char>, Seq<char>>,
    threshold: Option<&Number>,
    rerank: bool,
) -> Option<Seq<char>> {
    if rerank && setup.reranker is None {
        Some("rerank was requested but no reranker is configured"@)
    } else if top_k == 0 {
        Some("top_k must be greater than zero"@)
    } else if setup.max_top_k matches Some(max) && top_k > max {
        Some(
            "top_k of "@ + text::decimal(top_k as nat) + " exceeds the configured ceiling of "@
                + text::decimal(setup.max_top_k->0 as nat),
        )
    } else if !super::names_someone(scope) {
        Some(SCOPE_REQUIRED@)
    } else if threshold matches Some(t) && number::compares(t.key) && t.key < 0 {
        Some("threshold must not be negative, got "@ + threshold->0.text@)
    } else {
        None
    }
}

/// Whether a search is the one that is asked for.
pub open spec fn asks(
    ask: Search,
    query: Seq<char>,
    top_k: usize,
    scope: Map<Seq<char>, Seq<char>>,
    threshold: Option<&Number>,
    show_expired: bool,
    stamp: Stamp,
    filter: Option<ExprModel>,
    rerank: bool,
    explain: bool,
) -> bool {
    &&& ask.query == query
    &&& ask.top_k == top_k
    &&& ask.scope == scope
    &&& ask.threshold == threshold_key(threshold)
    &&& ask.show_expired == show_expired
    &&& stamp.is_today(ask.today)
    &&& ask.filter == filter
    &&& ask.rerank == rerank
    &&& ask.explain == explain
}

/// Whether a result is shown.
pub open spec fn result_shown<N: Fn(&str) -> Reading>(
    read: N,
    ask: Search,
    result: ResultModel,
) -> bool {
    super::visible(read, result.payload, None, ask.show_expired, ask.today, ask.filter)
}

/// The results that are shown.
pub open spec fn shown<N: Fn(&str) -> Reading>(
    read: N,
    ask: Search,
    results: Seq<ResultModel>,
) -> Seq<ResultModel> {
    results.filter(|r: ResultModel| result_shown(read, ask, r))
}

/// The results that are shown, explained if that is wanted.
pub open spec fn presented<N: Fn(&str) -> Reading>(
    read: N,
    ask: Search,
    results: Seq<ResultModel>,
) -> Seq<ResultModel> {
    if ask.explain {
        scoring::explained(shown(read, ask, results))
    } else {
        shown(read, ask, results)
    }
}

/// Whether a search for a text may find some results.
pub open spec fn may_meet<E: EmbeddingProvider, V: VectorStore>(
    embedding: E,
    store: V,
    input: Seq<char>,
    top_k: nat,
    filters: Map<Seq<char>, Seq<char>>,
    threshold: Option<i64>,
    found: Seq<ResultModel>,
) -> bool {
    &&& exists|vector: Seq<u32>|
        embedding.may_embed(input, Ok(vector)) && #[trigger] store.may_find(
            vector,
            top_k,
            filters,
            threshold,
            Ok(found),
        )
    &&& vector_store::sound_results(store.records(), top_k, filters, threshold, found)
}

/// Whether some results may come out of others when the scores of a search by
/// keywords are combined with theirs; without any such score nothing changes.
pub open spec fn weighed<C: Fn(Blend) -> i64>(
    combine: C,
    before: Seq<ResultModel>,
    matched: Option<Seq<ResultModel>>,
    explain: bool,
    after: Seq<ResultModel>,
) -> bool {
    match matched {
        Some(keywords) => if keywords.len() == 0 {
            after == before
        } else {
            scoring::may_come_out(combine, before, keywords, explain, after)
        },
        None => after == before,
    }
}

/// Whether a search by keywords may find something, or may not be had.
pub open spec fn may_match<V: VectorStore>(
    store: V,
    ask: Search,
    matched: Option<Seq<ResultModel>>,
) -> bool {
    store.may_match(ask.query, usize::MAX as nat, ask.scope, Ok(matched))
}

/// The filters that find the records of a type of entity in a scope.
pub open spec fn entity_filters(
    scope: Map<Seq<char>, Seq<char>>,
    kind: EntityType,
) -> Map<Seq<char>, Seq<char>> {
    scope.insert(ENTITY_RECORD_KIND_KEY@, ENTITY_RECORD_KIND_VALUE@).insert(
        ENTITY_TYPE_KEY@,
        kind.keyword(),
    )
}

/// The ids that the record of an entity links, if it links any.
pub open spec fn links(payload: Map<Seq<char>, Seq<char>>) -> Seq<Seq<char>> {
    if payload.contains_key(LINKED_MEMORY_IDS_KEY@) {
        text::split_on(payload[LINKED_MEMORY_IDS_KEY@], CharClass::Only(','))
    } else {
        Seq::empty()
    }
}

/// The ids that some records link.
pub open spec fn all_links(found: Seq<ResultModel>) -> Seq<Seq<char>>
    decreases found.len(),
{
    if found.len() == 0 {
        Seq::empty()
    } else {
        all_links(found.drop_last()) + links(found.last().payload)
    }
}

/// The ids that what was found for each entity links.
pub open spec fn links_of_all(found: Seq<Seq<ResultModel>>) -> Seq<Seq<char>>
    decreases found.len(),
{
    if found.len() == 0 {
        Seq::empty()
    } else {
        links_of_all(found.drop_last()) + all_links(found.last())
    }
}

/// Whether these records may be found for these entities.
pub open spec fn may_know<E: EmbeddingProvider, V: VectorStore>(
    embedding: E,
    store: V,
    scope: Map<Seq<char>, Seq<char>>,
    entities: Seq<(EntityType, Seq<char>)>,
    found: Seq<Seq<ResultModel>>,
) -> bool {
    &&& found.len() == entities.len()
    &&& forall|i: int|
        0 <= i < entities.len() ==> may_meet(
            embedding,
            store,
            (#[trigger] entities[i]).1,
            ENTITY_MATCHES_PER_QUERY_ENTITY as nat,
            entity_filters(scope, entities[i].0),
            None,
            found[i],
        )
}

/// Whether some results may come out of others when those that entities of the
/// query link are boosted. Where there is no result, or no entity, nothing is
/// looked up and nothing changes.
pub open spec fn may_boost<E: EmbeddingProvider, V: VectorStore, B: Fn(i64) -> i64>(
    embedding: E,
    store: V,
    boost: B,
    factor: i64,
    query: Seq<char>,
    scope: Map<Seq<char>, Seq<char>>,
    explain: bool,
    before: Seq<ResultModel>,
    after: Seq<ResultModel>,
) -> bool {
    if before.len() == 0 || entity::entities_in(query).len() == 0 {
        after == before
    } else {
        exists|found: Seq<Seq<ResultModel>>, scores: Seq<i64>|
            {
                &&& may_know(embedding, store, scope, entity::entities_in(query), found)
                &&& #[trigger] scoring::may_boost(boost, before, links_of_all(found), scores)
                &&& after == scoring::after_boost(
                    before,
                    links_of_all(found),
                    scores,
                    factor,
                    explain,
                )
            }
    }
}

/// Whether some results may be handed out in place of others: the same ones,
/// or what a reranker makes of them.
pub open spec fn may_hand_out<L, E>(
    setup: Setup<L, E>,
    ask: Search,
    before: Seq<ResultModel>,
    after: Seq<ResultModel>,
) -> bool {
    if ask.rerank {
        &&& setup.reranker matches Some(reranker)
        &&& reranker.may_rerank(ask.query, before, Ok(after))
        &&& reranker::ids_of(after).to_multiset() == reranker::ids_of(before).to_multiset()
    } else {
        after == before
    }
}

/// Whether a search may find these results.
pub open spec fn may_start<L, E: EmbeddingProvider, V: VectorStore>(
    setup: Setup<L, E>,
    store: V,
    ask: Search,
    found: Seq<ResultModel>,
) -> bool {
    may_meet(
        setup.embedding,
        store,
        ask.query,
        usize::MAX as nat,
        ask.scope,
        ask.threshold,
        found,
    )
}

/// Whether a search may go through its first steps: what the store finds, and
/// what keywords make of it.
pub open spec fn gets_scored<
    L: LlmProvider,
    E: EmbeddingProvider,
    V: VectorStore,
    N: Fn(&str) -> Reading,
    C: Fn(Blend) -> i64,
    B: Fn(i64) -> i64,
>(
    setup: Setup<L, E>,
    store: V,
    scorer: Scorer<N, C, B>,
    ask: Search,
    found: Seq<ResultModel>,
    matched: Option<Seq<ResultModel>>,
    scored: Seq<ResultModel>,
) -> bool {
    &&& may_start(setup, store, ask, found)
    &&& may_match(store, ask, matched)
    &&& weighed(scorer.combine, presented(scorer.read, ask, found), matched, ask.explain, scored)
}

/// Whether a search may go on to this step: what the query's entities make of
/// the results.
pub open spec fn gets_boosted<
    L: LlmProvider,
    E: EmbeddingProvider,
    V: VectorStore,
    N: Fn(&str) -> Reading,
    C: Fn(Blend) -> i64,
    B: Fn(i64) -> i64,
>(
    setup: Setup<L, E>,
    store: V,
    scorer: Scorer<N, C, B>,
    ask: Search,
    found: Seq<ResultModel>,
    matched: Option<Seq<ResultModel>>,
    scored: Seq<ResultModel>,
    boosted: Seq<ResultModel>,
) -> bool {
    &&& gets_scored(setup, store, scorer, ask, found, matched, scored)
    &&& may_boost(
        setup.embedding,
        store,
        scorer.boost,
        scorer.factor,
        ask.query,
        ask.scope,
        ask.explain,
        scored,
        boosted,
    )
}

/// Whether a search may go through these steps: what the store finds, what
/// keywords make of it, what the query's entities make of that, and what is
/// handed out.
pub open spec fn goes_through<
    L: LlmProvider,
    E: EmbeddingProvider,
    V: VectorStore,
    N: Fn(&str) -> Reading,
    C: Fn(Blend) -> i64,
    B: Fn(i64) -> i64,
>(
    setup: Setup<L, E>,
    store: V,
    scorer: Scorer<N, C, B>,
    ask: Search,
    found: Seq<ResultModel>,
    matched: Option<Seq<ResultModel>>,
    scored: Seq<ResultModel>,
    boosted: Seq<ResultModel>,
    results: Seq<ResultModel>,
) -> bool {
    &&& gets_boosted(setup, store, scorer, ask, found, matched, scored, boosted)
    &&& may_hand_out(setup, ask, vector_store::first(boosted, ask.top_k), results)
}

/// Whether a search may have these results.
pub open spec fn may_result<
    L: LlmProvider,
    E: EmbeddingProvider,
    V: VectorStore,
    N: Fn(&str) -> Reading,
    C: Fn(Blend) -> i64,
    B: Fn(i64) -> i64,
>(
    setup: Setup<L, E>,
    store: V,
    scorer: Scorer<N, C, B>,
    ask: Search,
    results: Seq<ResultModel>,
) -> bool {
    exists|
        found: Seq<ResultModel>,
        matched: Option<Seq<ResultModel>>,
        scored: Seq<ResultModel>,
        boosted: Seq<ResultModel>,
    | #[trigger]
        goes_through(setup, store, scorer, ask, found, matched, scored, boosted, results)
}

/// Whether an error reports that a search for a text failed.
pub open spec fn reports_search<E: EmbeddingProvider, V: VectorStore>(
    embedding: E,
    store: V,
    input: Seq<char>,
    top_k: nat,
    filters: Map<Seq<char>, Seq<char>>,
    threshold: Option<i64>,
    err: CoreError,
) -> bool {
    ||| super::reports_embedding(embedding, input, err)
    ||| exists|vector: Seq<u32>, cause: VectorStoreError|
        {
            &&& embedding.may_embed(input, Ok(vector))
            &&& #[trigger] store.may_find(vector, top_k, filters, threshold, Err(cause))
            &&& err.reports_store(cause)
        }
}

/// Whether an error reports that the search for an entity failed, after those
/// for the entities before it.
pub open spec fn reports_entity_search<E: EmbeddingProvider, V: VectorStore>(
    embedding: E,
    store: V,
    scope: Map<Seq<char>, Seq<char>>,
    entities: Seq<(EntityType, Seq<char>)>,
    err: CoreError,
) -> bool {
    exists|i: int, found: Seq<Seq<ResultModel>>|
        {
            &&& 0 <= i < entities.len()
            &&& #[trigger] may_know(embedding, store, scope, entities.take(i), found)
            &&& reports_search(
                embedding,
                store,
                entities[i].1,
                ENTITY_MATCHES_PER_QUERY_ENTITY as nat,
                entity_filters(scope, entities[i].0),
                None,
                err,
            )
        }
}

/// Whether an error reports that the search by keywords failed, after the store
/// found something.
pub open spec fn reports_keywords<L, E: EmbeddingProvider, V: VectorStore>(
    setup: Setup<L, E>,
    store: V,
    ask: Search,
    err: CoreError,
) -> bool {
    exists|found: Seq<ResultModel>, cause: VectorStoreError|
        {
            &&& #[trigger] may_start(setup, store, ask, found)
            &&& #[trigger] store.may_match(
                ask.query,
                usize::MAX as nat,
                ask.scope,
                Err(cause),
            )
            &&& err.reports_store(cause)
        }
}

/// Whether an error reports that an entity of the query could not be looked up,
/// after the results had their scores.
pub open spec fn reports_boost<
    L: LlmProvider,
    E: EmbeddingProvider,
    V: VectorStore,
    N: Fn(&str) -> Reading,
    C: Fn(Blend) -> i64,
    B: Fn(i64) -> i64,
>(
    setup: Setup<L, E>,
    store: V,
    scorer: Scorer<N, C, B>,
    ask: Search,
    err: CoreError,
) -> bool {
    &&& reports_entity_search(
        setup.embedding,
        store,
        ask.scope,
        entity::entities_in(ask.query),
        err,
    )
    &&& exists|
        found: Seq<ResultModel>,
        matched: Option<Seq<ResultModel>>,
        scored: Seq<ResultModel>,
    | #[trigger]
        gets_scored(setup, store, scorer, ask, found, matched, scored) && scored.len() > 0
}

/// Whether an error reports that the best results could not be ranked anew.
pub open spec fn reports_reranking<
    L: LlmProvider,
    E: EmbeddingProvider,
    V: VectorStore,
    N: Fn(&str) -> Reading,
    C: Fn(Blend) -> i64,
    B: Fn(i64) -> i64,
>(
    setup: Setup<L, E>,
    store: V,
    scorer: Scorer<N, C, B>,
    ask: Search,
    err: CoreError,
) -> bool {
    &&& ask.rerank
    &&& setup.reranker matches Some(reranker)
    &&& exists|
        found: Seq<ResultModel>,
        matched: Option<Seq<ResultModel>>,
        scored: Seq<ResultModel>,
        boosted: Seq<ResultModel>,
        cause: RerankError,
    |
        {
            &&& #[trigger] gets_boosted(
                setup,
                store,
                scorer,
                ask,
                found,
                matched,
                scored,
                boosted,
            )
            &&& #[trigger] reranker.may_rerank(
                ask.query,
                vector_store::first(boosted, ask.top_k),
                Err(cause),
            )
            &&& err.hands_on(ProviderError::Rerank(cause))
        }
}

/// Whether an error reports that a step of a search failed, after the steps
/// before it.
pub open spec fn reports_step<
    L: LlmProvider,
    E: EmbeddingProvider,
    V: VectorStore,
    N: Fn(&str) -> Reading,
    C: Fn(Blend) -> i64,
    B: Fn(i64) -> i64,
>(
    setup: Setup<L, E>,
    store: V,
    scorer: Scorer<N, C, B>,
    ask: Search,
    err: CoreError,
) -> bool {
    ||| reports_search(
        setup.embedding,
        store,
        ask.query,
        usize::MAX as nat,
        ask.scope,
        ask.threshold,
        err,
    )
    ||| reports_keywords(setup, store, ask, err)
    ||| reports_boost(setup, store, scorer, ask, err)
    ||| reports_reranking(setup, store, scorer, ask, err)
}

/// Keeps the results that are shown.
pub fn keep_visible<N: Fn(&str) -> Reading>(
    results: Vec<SearchResult>,
    show_expired: bool,
    today: &str,
    filter: Option<&FilterExpr>,
    read: &N,
) -> (r: Vec<SearchResult>)
    requires
        filter::reads(*read),
    ensures
        rank::views(r@) == rank::views(results@).filter(
            |x: ResultModel|
                super::visible(
                    *read,
                    x.payload,
                    None,
                    show_expired,
                    today@,
                    super::filter_model(filter),
                ),
        ),
{
    let ghost keep = |x: ResultModel|
        super::visible(
            *read,
            x.payload,
            None,
            show_expired,
            today@,
            super::filter_model(filter),
        );
    let ghost all = rank::views(results@);
    let mut r: Vec<SearchResult> = Vec::new();
    let mut i: usize = 0;
    proof {
        reveal(Seq::filter);
        assert(rank::views(r@) =~= all.take(0).filter(keep));
    }
    while i < results.len()
        invariant
            i <= results.len(),
            filter::reads(*read),
            all == rank::views(results@),
            keep == (|x: ResultModel|
                super::visible(
                    *read,
                    x.payload,
                    None,
                    show_expired,
                    today@,
                    super::filter_model(filter),
                )),
            rank::views(r@) == all.take(i as int).filter(keep),
        decreases results.len() - i,
    {
        let ghost before = rank::views(r@);
        proof {
            reveal(Seq::filter);
            assert(all.take(i + 1).drop_last() =~= all.take(i as int));
            assert(all.take(i + 1).last() == results@[i as int]@);
        }
        if is_visible(&results[i].payload, None, show_expired, today, filter, read) {
            r.push(results[i].clone());
            proof {
                assert(rank::views(r@) =~= before.push(results@[i as int]@));
            }
        }
        i = i + 1;
    }
    proof {
        assert(all.take(i as int) =~= all);
    }
    r
}

/// What a search by keywords found, as a value.
pub open spec fn matches_in(matched: Option<Vec<SearchResult>>) -> Option<Seq<ResultModel>> {
    match matched {
        Some(keywords) => Some(rank::views(keywords@)),
        None => None,
    }
}

/// Combines scores by keywords, if there are any, with those of some results.
pub fn weigh_keywords<C: Fn(Blend) -> i64>(
    results: &mut Vec<SearchResult>,
    matched: &Option<Vec<SearchResult>>,
    explain: bool,
    combine: &C,
)
    requires
        forall|b: Blend| #[trigger] call_requires(*combine, (b,)),
    ensures
        weighed(
            *combine,
            rank::views(old(results)@),
            matches_in(*matched),
            explain,
            rank::views(final(results)@),
        ),
{
    match matched {
        Some(keywords) => {
            if keywords.len() > 0 {
                scoring::combine_with_keyword_scores(results, keywords, explain, combine);
            }
        },
        None => {},
    }
}

/// Adds the ids that the record of an entity links.
pub fn push_links(ids: &mut Vec<String>, payload: &Payload)
    ensures
        text::texts(final(ids)@) == text::texts(old(ids)@) + links(payload@),
{
    let ghost before = text::texts(ids@);
    match payload.get(LINKED_MEMORY_IDS_KEY) {
        Some(linked) => {
            let mut pieces = text::split(linked.as_str(), CharClass::Only(','));
            let ghost new = text::texts(pieces@);
            ids.append(&mut pieces);
            proof {
                assert(text::texts(ids@) =~= before + new);
            }
        },
        None => {
            proof {
                assert(text::texts(ids@) =~= before + links(payload@));
            }
        },
    }
}

/// The ids that some records link.
pub fn collect_links(found: &Vec<SearchResult>) -> (r: Vec<String>)
    ensures
        text::texts(r@) == all_links(rank::views(found@)),
{
    let ghost all = rank::views(found@);
    let mut ids: Vec<String> = Vec::new();
    let mut i: usize = 0;
    proof {
        assert(text::texts(ids@) =~= all_links(all.take(0)));
    }
    while i < found.len()
        invariant
            i <= found.len(),
            all == rank::views(found@),
            text::texts(ids@) == all_links(all.take(i as int)),
        decreases found.len() - i,
    {
        proof {
            assert(all.take(i + 1).drop_last() =~= all.take(i as int));
            assert(all.take(i + 1).last() == found@[i as int]@);
        }
        push_links(&mut ids, &found[i].payload);
        i = i + 1;
    }
    proof {
        assert(all.take(i as int) =~= all);
    }
    ids
}

/// Whether a search may have an outcome.
pub open spec fn may_search<
    L: LlmProvider,
    E: EmbeddingProvider,
    V: VectorStore,
    N: Fn(&str) -> Reading,
    C: Fn(Blend) -> i64,
    B: Fn(i64) -> i64,
>(
    setup: Setup<L, E>,
    store: V,
    scorer: Scorer<N, C, B>,
    query: Seq<char>,
    top_k: usize,
    scope: Map<Seq<char>, Seq<char>>,
    threshold: Option<&Number>,
    show_expired: bool,
    filter: Option<ExprModel>,
    rerank: bool,
    explain: bool,
    stamp: Stamp,
    r: Result<Vec<SearchResult>, CoreError>,
) -> bool {
    exists|ask: Search| #[trigger]
        asks(
            ask,
            query,
            top_k,
            scope,
            threshold,
            show_expired,
            stamp,
            filter,
            rerank,
            explain,
        ) && match search_problem(setup, top_k, scope, threshold, rerank) {
            Some(problem) => r matches Err(err) && err.is_validation(problem),
            None => match r {
                Ok(results) => may_result(setup, store, scorer, ask, rank::views(results@)),
                Err(err) => reports_step(setup, store, scorer, ask, err),
            },
        }
}

impl<L: LlmProvider, E: EmbeddingProvider, V: VectorStore> Memory<L, E, V> {
    /// Searches the store for a text.
    fn find(
        &self,
        input: &str,
        top_k: usize,
        filters: &Payload,
        threshold: Option<i64>,
    ) -> (r: Result<Vec<SearchResult>, CoreError>)
        ensures
            match r {
                Ok(found) => may_meet(
                    self.setup().embedding,
                    self.store(),
                    input@,
                    top_k as nat,
                    filters@,
                    threshold,
                    rank::views(found@),
                ),
                Err(err) => reports_search(
                    self.setup().embedding,
                    self.store(),
                    input@,
                    top_k as nat,
                    filters@,
                    threshold,
                    err,
                ),
            },
    {
        let vector = match self.setup.embedding.embed(input) {
            Ok(vector) => vector,
            Err(err) => {
                let report = CoreError::from(err);
                proof {
                    assert(self.setup.embedding.may_embed(input@, Err(err)));
                }
                return Err(report);
            },
        };
        let outcome = self.vector_store.search(vector.as_slice(), top_k, filters, threshold);
        proof {
            assert(self.setup.embedding.may_embed(input@, Ok(vector@)));
            assert(self.vector_store.may_find(
                vector@,
                top_k as nat,
                filters@,
                threshold,
                vector_store::found_in(outcome),
            ));
        }
        match outcome {
            Ok(found) => Ok(found),
            Err(err) => {
                let report = CoreError::from(err);
                proof {
                    assert(report.reports_store(err));
                }
                Err(report)
            },
        }
    }

    /// The ids of the memories that some entities link in a scope.
    fn linked_ids(&self, entities: &Vec<(EntityType, String)>, scope: &Payload) -> (r: Result<
        Vec<String>,
        CoreError,
    >)
        ensures
            match r {
                Ok(ids) => exists|found: Seq<Seq<ResultModel>>| #[trigger]
                    may_know(
                        self.setup().embedding,
                        self.store(),
                        scope@,
                        entity::entity_models(entities@),
                        found,
                    ) && text::texts(ids@) == links_of_all(found),
                Err(err) => reports_entity_search(
                    self.setup().embedding,
                    self.store(),
                    scope@,
                    entity::entity_models(entities@),
                    err,
                ),
            },
    {
        let ghost models = entity::entity_models(entities@);
        let ghost mut met: Seq<Seq<ResultModel>> = Seq::empty();
        let mut ids: Vec<String> = Vec::new();
        let mut i: usize = 0;
        proof {
            assert(text::texts(ids@) =~= links_of_all(met));
        }
        while i < entities.len()
            invariant
                i <= entities.len(),
                models == entity::entity_models(entities@),
                met.len() == i,
                text::texts(ids@) == links_of_all(met),
                forall|j: int|
                    0 <= j < i ==> may_meet(
                        self.setup().embedding,
                        self.store(),
                        (#[trigger] models[j]).1,
                        ENTITY_MATCHES_PER_QUERY_ENTITY as nat,
                        entity_filters(scope@, models[j].0),
                        None,
                        met[j],
                    ),
            decreases entities.len() - i,
        {
            let mut filters = scope.clone();
            filters.insert(ENTITY_RECORD_KIND_KEY.to_owned(), ENTITY_RECORD_KIND_VALUE.to_owned());
            filters.insert(ENTITY_TYPE_KEY.to_owned(), entities[i].0.as_str().to_owned());
            proof {
                assert(models[i as int] == (entities@[i as int].0, entities@[i as int].1@));
                assert(filters@ =~= entity_filters(scope@, models[i as int].0));
            }
            let found = match self.find(
                entities[i].1.as_str(),
                ENTITY_MATCHES_PER_QUERY_ENTITY,
                &filters,
                None,
            ) {
                Ok(found) => found,
                Err(err) => {
                    proof {
                        let before = models.take(i as int);
                        assert forall|j: int| 0 <= j < before.len() implies may_meet(
                            self.setup().embedding,
                            self.store(),
                            (#[trigger] before[j]).1,
                            ENTITY_MATCHES_PER_QUERY_ENTITY as nat,
                            entity_filters(scope@, before[j].0),
                            None,
                            met[j],
                        ) by {
                            assert(before[j] == models[j]);
                        }
                        assert(may_know(
                            self.setup().embedding,
                            self.store(),
                            scope@,
                            before,
                            met,
                        ));
                    }
                    return Err(err);
                },
            };
            let mut new = collect_links(&found);
            let ghost before = text::texts(ids@);
            let ghost added = text::texts(new@);
            let ghost earlier = met;
            ids.append(&mut new);
            proof {
                met = met.push(rank::views(found@));
                assert(met.drop_last() =~= earlier);
                assert(text::texts(ids@) =~= before + added);
                assert forall|j: int| 0 <= j < i + 1 implies may_meet(
                    self.setup().embedding,
                    self.store(),
                    (#[trigger] models[j]).1,
                    ENTITY_MATCHES_PER_QUERY_ENTITY as nat,
                    entity_filters(scope@, models[j].0),
                    None,
                    met[j],
                ) by {
                    if j < i {
                        assert(met[j] == earlier[j]);
                    }
                }
            }
            i = i + 1;
        }
        proof {
            assert(may_know(self.setup().embedding, self.store(), scope@, models, met));
        }
        Ok(ids)
    }

    /// Boosts the results that entities of the query link.
    pub fn apply_entity_boost<
        N: Fn(&str) -> Reading,
        C: Fn(Blend) -> i64,
        B: Fn(i64) -> i64,
    >(
        &self,
        query: &str,
        scope: &Payload,
        results: &mut Vec<SearchResult>,
        explain: bool,
        scorer: &Scorer<N, C, B>,
    ) -> (r: Result<(), CoreError>)
        requires
            scorer.answers(),
        ensures
            match r {
                Ok(()) => may_boost(
                    self.setup().embedding,
                    self.store(),
                    scorer.boost,
                    scorer.factor,
                    query@,
                    scope@,
                    explain,
                    rank::views(old(results)@),
                    rank::views(final(results)@),
                ),
                Err(err) => {
                    &&& reports_entity_search(
                        self.setup().embedding,
                        self.store(),
                        scope@,
                        entity::entities_in(query@),
                        err,
                    )
                    &&& old(results)@.len() > 0
                    &&& final(results)@ == old(results)@
                },
            },
    {
        let ghost before = rank::views(results@);
        if results.len() == 0 {
            return Ok(());
        }
        let entities = entity::extract_entities(query);
        proof {
            assert(entity::entity_models(entities@).len() == entities@.len());
        }
        if entities.len() == 0 {
            return Ok(());
        }
        let ids = match self.linked_ids(&entities, scope) {
            Ok(ids) => ids,
            Err(err) => {
                return Err(err);
            },
        };
        let ghost found = choose|found: Seq<Seq<ResultModel>>| #[trigger]
            may_know(
                self.setup().embedding,
                self.store(),
                scope@,
                entity::entity_models(entities@),
                found,
            ) && text::texts(ids@) == links_of_all(found);
        scoring::boost_results(results, &ids, explain, &scorer.boost, scorer.factor);
        proof {
            let scores = choose|scores: Seq<i64>| #[trigger]
                scoring::may_boost(scorer.boost, before, text::texts(ids@), scores) && rank::views(
                    results@,
                ) == scoring::after_boost(
                    before,
                    text::texts(ids@),
                    scores,
                    scorer.factor,
                    explain,
                );
            assert(may_know(
                self.setup().embedding,
                self.store(),
                scope@,
                entity::entities_in(query@),
                found,
            ));
            assert(scoring::may_boost(scorer.boost, before, links_of_all(found), scores));
        }
        Ok(())
    }

    /// The memories in a scope that are closest to a query.
    pub fn search<N: Fn(&str) -> Reading, C: Fn(Blend) -> i64, B: Fn(i64) -> i64>(
        &self,
        query: &str,
        top_k: usize,
        scope: &Payload,
        threshold: Option<&Number>,
        show_expired: bool,
        filter: Option<&FilterExpr>,
        rerank: bool,
        explain: bool,
        stamp: Stamp,
        scorer: &Scorer<N, C, B>,
    ) -> (r: Result<Vec<SearchResult>, CoreError>)
        requires
            scorer.answers(),
        ensures
            may_search(
                self.setup(),
                self.store(),
                *scorer,
                query@,
                top_k,
                scope@,
                threshold,
                show_expired,
                super::filter_model(filter),
                rerank,
                explain,
                stamp,
                r,
            ),
    {
        let today = calendar::unix_seconds_to_ymd_string(stamp.seconds);
        let key = match threshold {
            Some(t) => Some(t.key),
            None => None,
        };
        let ghost ask = Search {
            query: query@,
            top_k: top_k as nat,
            scope: scope@,
            threshold: key,
            show_expired,
            today: today@,
            filter: super::filter_model(filter),
            rerank,
            explain,
        };
        proof {
            assert(asks(
                ask,
                query@,
                top_k,
                scope@,
                threshold,
                show_expired,
                stamp,
                super::filter_model(filter),
                rerank,
                explain,
            ));
        }
        match self.check_search(top_k, scope, threshold, rerank) {
            Ok(()) => {},
            Err(err) => {
                return Err(err);
            },
        }
        let found = match self.find(query, usize::MAX, scope, key) {
            Ok(found) => found,
            Err(err) => {
                return Err(err);
            },
        };
        let ghost all = rank::views(found@);
        let visible = keep_visible(found, show_expired, today.as_str(), filter, &scorer.read);
        proof {
            let keep = |x: ResultModel|
                super::visible(
                    scorer.read,
                    x.payload,
                    None,
                    show_expired,
                    today@,
                    super::filter_model(filter),
                );
            assert(keep =~= |x: ResultModel| result_shown(scorer.read, ask, x));
        }
        let mut results = if explain {
            scoring::explain_results(visible)
        } else {
            visible
        };
        proof {
            assert(rank::views(results@) == presented(scorer.read, ask, all));
        }
        let outcome = self.vector_store.keyword_search(query, usize::MAX, scope);
        let matched = match outcome {
            Ok(matched) => matched,
            Err(err) => {
                let report = CoreError::from(err);
                proof {
                    assert(report.reports_store(err));
                    assert(may_start(self.setup(), self.store(), ask, all));
                    assert(self.store().may_match(
                        ask.query,
                        usize::MAX as nat,
                        ask.scope,
                        Err(err),
                    ));
                }
                return Err(report);
            },
        };
        let ghost matches = matches_in(matched);
        proof {
            assert(may_match(self.store(), ask, matches));
        }
        weigh_keywords(&mut results, &matched, explain, &scorer.combine);
        let ghost scored = rank::views(results@);
        proof {
            assert(gets_scored(
                self.setup(),
                self.store(),
                *scorer,
                ask,
                all,
                matches,
                scored,
            ));
        }
        match self.apply_entity_boost(query, scope, &mut results, explain, scorer) {
            Ok(()) => {},
            Err(err) => {
                return Err(err);
            },
        }
        let ghost boosted = rank::views(results@);
        let best = vector_store::keep_first(results, top_k);
        let ghost cut = rank::views(best@);
        if rerank {
            match &self.setup.reranker {
                Some(reranker) => {
                    let outcome = reranker.rerank(query, best);
                    proof {
                        assert(reranker.may_rerank(query@, cut, reranker::reranked_in(outcome)));
                    }
                    match outcome {
                        Ok(results) => {
                            proof {
                                assert(goes_through(
                                    self.setup(),
                                    self.store(),
                                    *scorer,
                                    ask,
                                    all,
                                    matches,
                                    scored,
                                    boosted,
                                    rank::views(results@),
                                ));
                            }
                            return Ok(results);
                        },
                        Err(err) => {
                            let report = CoreError::from(err);
                            proof {
                                assert(report.hands_on(ProviderError::Rerank(err)));
                                assert(gets_boosted(
                                    self.setup(),
                                    self.store(),
                                    *scorer,
                                    ask,
                                    all,
                                    matches,
                                    scored,
                                    boosted,
                                ));
                                assert(reports_reranking(
                                    self.setup(),
                                    self.store(),
                                    *scorer,
                                    ask,
                                    report,
                                ));
                            }
                            return Err(report);
                        },
                    }
                },
                None => {},
            }
        }
        proof {
            assert(goes_through(
                self.setup(),
                self.store(),
                *scorer,
                ask,
                all,
                matches,
                scored,
                boosted,
                cut,
            ));
        }
        Ok(best)
    }

    /// Refuses a search that cannot be made.
    fn check_search(
        &self,
        top_k: usize,
        scope: &Payload,
        threshold: Option<&Number>,
        rerank: bool,
    ) -> (r: Result<(), CoreError>)
        ensures
            match search_problem(self.setup(), top_k, scope@, threshold, rerank) {
                Some(problem) => r matches Err(err) && err.is_validation(problem),
                None => r is Ok,
            },
    {
        if rerank && self.setup.reranker.is_none() {
            return Err(
                CoreError::Validation(
                    "rerank was requested but no reranker is configured".to_owned(),
                ),
            );
        }
        if top_k == 0 {
            return Err(CoreError::Validation("top_k must be greater than zero".to_owned()));
        }
        match self.setup.max_top_k {
            Some(max) => {
                if top_k > max {
                    let mut message = text::concat3(
                        "top_k of ",
                        text::to_decimal(top_k as u128).as_str(),
                        " exceeds the configured ceiling of ",
                    );
                    message.append(text::to_decimal(max as u128).as_str());
                    return Err(CoreError::Validation(message));
                }
            },
            None => {},
        }
        if !has_scope_id(scope) {
            return Err(CoreError::Validation(SCOPE_REQUIRED.to_owned()));
        }
        match threshold {
            Some(t) => {
                if is_comparable(t.key) && t.key < 0 {
                    return Err(
                        CoreError::Validation(
                            text::concat("threshold must not be negative, got ", t.text.as_str()),
                        ),
                    );
                }
            },
            None => {},
        }
        Ok(())
    }
}

/// Whether results are visible memories of a scope, each once, with the
/// payloads that the store has.
pub open spec fn genuine<N: Fn(&str) -> Reading>(
    read: N,
    records: Map<Seq<char>, RecordModel>,
    ask: Search,
    results: Seq<ResultModel>,
) -> bool {
    &&& distinct_ids(results)
    &&& forall|i: int|
        0 <= i < results.len() ==> {
            let r = #[trigger] results[i];
            &&& is_shown(read, records, ask, r.id)
            &&& r.payload == records[r.id].payload
        }
}

/// Whether no two results have the same id.
pub open spec fn distinct_ids(results: Seq<ResultModel>) -> bool {
    forall|i: int, j: int|
        0 <= i < j < results.len() ==> (#[trigger] results[i]).id != (#[trigger] results[j]).id
}

/// Whether the record with an id is there and is shown.
pub open spec fn is_shown<N: Fn(&str) -> Reading>(
    read: N,
    records: Map<Seq<char>, RecordModel>,
    ask: Search,
    id: Seq<char>,
) -> bool {
    &&& records.contains_key(id)
    &&& super::visible(
        read,
        records[id].payload,
        Some(ask.scope),
        ask.show_expired,
        ask.today,
        ask.filter,
    )
}

pub proof fn lemma_shown_is_genuine<N: Fn(&str) -> Reading>(
    read: N,
    records: Map<Seq<char>, RecordModel>,
    ask: Search,
    top_k: nat,
    found: Seq<ResultModel>,
)
    requires
        vector_store::sound_results(records, top_k, ask.scope, ask.threshold, found),
    ensures
        genuine(read, records, ask, shown(read, ask, found)),
        rank::in_order::<SearchResult>(shown(read, ask, found)),
        forall|i: int|
            0 <= i < shown(read, ask, found).len() ==> found.contains(
                #[trigger] shown(read, ask, found)[i],
            ),
    decreases found.len(),
{
    reveal(Seq::filter);
    let kept = shown(read, ask, found);
    if found.len() > 0 {
        let rest = found.drop_last();
        let last = found.last();
        assert(found[found.len() - 1] == last);
        assert(vector_store::sound_results(records, top_k, ask.scope, ask.threshold, rest)) by {
            assert forall|i: int| 0 <= i < rest.len() implies #[trigger] rest[i] == found[i] by {}
            assert forall|i: int, j: int| 0 <= i < j < rest.len() implies SearchResult::may_precede(
                #[trigger] rest[i],
                #[trigger] rest[j],
            ) by {
                assert(SearchResult::may_precede(found[i], found[j]));
            }
        }
        lemma_shown_is_genuine(read, records, ask, top_k, rest);
        let before = shown(read, ask, rest);
        if result_shown(read, ask, last) {
            assert(kept =~= before.push(last));
            assert forall|i: int, j: int| 0 <= i < j < kept.len() implies (#[trigger] kept[i]).id != (
            #[trigger] kept[j]).id && SearchResult::may_precede(kept[i], kept[j]) by {
                assert(kept[i] == before[i]);
                if j == before.len() {
                    assert(rest.contains(before[i]));
                    let k = choose|k: int| 0 <= k < rest.len() && rest[k] == before[i];
                    assert(SearchResult::may_precede(found[k], found[found.len() - 1]));
                } else {
                    assert(kept[j] == before[j]);
                    assert(SearchResult::may_precede(before[i], before[j]));
                }
            }
        } else {
            assert(kept =~= before);
        }
        assert forall|i: int| 0 <= i < kept.len() implies found.contains(#[trigger] kept[i]) by {
            if i < before.len() {
                assert(kept[i] == before[i]);
                assert(rest.contains(before[i]));
                let k = choose|k: int| 0 <= k < rest.len() && rest[k] == before[i];
                assert(found[k] == kept[i]);
            }
        }
    }
}

/// Results stay genuine where only their scores, their details and their order
/// change.
proof fn lemma_genuine_rescored<N: Fn(&str) -> Reading>(
    read: N,
    records: Map<Seq<char>, RecordModel>,
    ask: Search,
    before: Seq<ResultModel>,
    after: Seq<ResultModel>,
)
    requires
        genuine(read, records, ask, before),
        before.len() == after.len(),
        forall|i: int|
            0 <= i < before.len() ==> (#[trigger] after[i]).id == before[i].id && after[i].payload
                == before[i].payload,
    ensures
        genuine(read, records, ask, after),
{
    assert forall|i: int| 0 <= i < after.len() implies {
        let r = #[trigger] after[i];
        &&& is_shown(read, records, ask, r.id)
        &&& r.payload == records[r.id].payload
    } by {
        assert(before[i].id == after[i].id);
    }
    assert forall|i: int, j: int| 0 <= i < j < after.len() implies (#[trigger] after[i]).id != (
    #[trigger] after[j]).id by {
        assert(before[i].id != before[j].id);
    }
}

proof fn lemma_genuine_ranked<N: Fn(&str) -> Reading>(
    read: N,
    records: Map<Seq<char>, RecordModel>,
    ask: Search,
    results: Seq<ResultModel>,
)
    requires
        genuine(read, records, ask, results),
    ensures
        genuine(read, records, ask, rank::ranked::<SearchResult>(results)),
        rank::in_order::<SearchResult>(rank::ranked::<SearchResult>(results)),
        rank::ranked::<SearchResult>(results).len() == results.len(),
{
    broadcast use vstd::seq_lib::group_to_multiset_ensures;

    let sorted = rank::ranked::<SearchResult>(results);
    rank::law_ranked::<SearchResult>(results);
    assert(results.no_duplicates()) by {
        assert forall|i: int, j: int| 0 <= i < j < results.len() implies results[i] != results[j] by {
            assert(results[i].id != results[j].id);
        }
    }
    results.lemma_multiset_has_no_duplicates();
    sorted.lemma_multiset_has_no_duplicates_conv();
    assert forall|i: int| 0 <= i < sorted.len() implies results.contains(#[trigger] sorted[i]) by {
        assert(sorted.to_multiset().count(sorted[i]) > 0);
        assert(results.to_multiset().count(sorted[i]) > 0);
    }
    assert forall|i: int| 0 <= i < sorted.len() implies {
        let r = #[trigger] sorted[i];
        &&& is_shown(read, records, ask, r.id)
        &&& r.payload == records[r.id].payload
    } by {
        let k = choose|k: int| 0 <= k < results.len() && results[k] == sorted[i];
        assert(is_shown(read, records, ask, results[k].id));
    }
    assert forall|i: int, j: int| 0 <= i < j < sorted.len() implies (#[trigger] sorted[i]).id != (
    #[trigger] sorted[j]).id by {
        assert(results.contains(sorted[i]));
        assert(results.contains(sorted[j]));
        let k = choose|k: int| 0 <= k < results.len() && results[k] == sorted[i];
        let l = choose|l: int| 0 <= l < results.len() && results[l] == sorted[j];
        assert(sorted[i] != sorted[j]);
        if k < l {
            assert(results[k].id != results[l].id);
        } else {
            assert(results[l].id != results[k].id);
        }
    }
}

/// The results of a search, before they are cut: visible memories of the scope,
/// each once, the closer ones first, and as many as there are.
pub proof fn law_steps_of_a_search<
    L: LlmProvider,
    E: EmbeddingProvider,
    V: VectorStore,
    N: Fn(&str) -> Reading,
    C: Fn(Blend) -> i64,
    B: Fn(i64) -> i64,
>(
    setup: Setup<L, E>,
    store: V,
    scorer: Scorer<N, C, B>,
    ask: Search,
    found: Seq<ResultModel>,
    matched: Option<Seq<ResultModel>>,
    scored: Seq<ResultModel>,
    boosted: Seq<ResultModel>,
    results: Seq<ResultModel>,
)
    requires
        goes_through(setup, store, scorer, ask, found, matched, scored, boosted, results),
    ensures
        genuine(scorer.read, store.records(), ask, boosted),
        rank::in_order::<SearchResult>(boosted),
        boosted.len() == shown(scorer.read, ask, found).len(),
{
    let records = store.records();
    let kept = shown(scorer.read, ask, found);
    let start = presented(scorer.read, ask, found);
    lemma_shown_is_genuine(scorer.read, records, ask, usize::MAX as nat, found);
    lemma_genuine_rescored(scorer.read, records, ask, kept, start);
    assert(rank::in_order::<SearchResult>(start)) by {
        assert forall|i: int, j: int| 0 <= i < j < start.len() implies SearchResult::may_precede(
            #[trigger] start[i],
            #[trigger] start[j],
        ) by {
            assert(SearchResult::may_precede(kept[i], kept[j]));
        }
    }
    if matched matches Some(keywords) && keywords.len() > 0 {
        let keywords = matched->0;
        let scores = choose|scores: Seq<i64>| #[trigger]
            scoring::may_combine(scorer.combine, start, keywords, scores) && scored
                == rank::ranked::<SearchResult>(
                scoring::combined(start, keywords, scores, ask.explain),
            );
        let new = scoring::combined(start, keywords, scores, ask.explain);
        lemma_genuine_rescored(scorer.read, records, ask, start, new);
        lemma_genuine_ranked(scorer.read, records, ask, new);
    }
    if scored.len() > 0 && entity::entities_in(ask.query).len() > 0 {
        let (met, scores) = choose|met: Seq<Seq<ResultModel>>, scores: Seq<i64>|
            {
                &&& may_know(
                    setup.embedding,
                    store,
                    ask.scope,
                    entity::entities_in(ask.query),
                    met,
                )
                &&& #[trigger] scoring::may_boost(scorer.boost, scored, links_of_all(met), scores)
                &&& boosted == scoring::after_boost(
                    scored,
                    links_of_all(met),
                    scores,
                    scorer.factor,
                    ask.explain,
                )
            };
        let ids = links_of_all(met);
        if scoring::any_has_id(scored, ids) {
            let new = scoring::boosted(scored, ids, scores, scorer.factor, ask.explain);
            lemma_genuine_rescored(scorer.read, records, ask, scored, new);
            lemma_genuine_ranked(scorer.read, records, ask, new);
        }
    }
}

/// A search hands out visible memories of its scope alone, each once, and not
/// more than were asked for; it hands out fewer only where there are no more.
/// Without a reranker the closer ones come first, with the payloads that the
/// store has.
pub proof fn law_search<
    L: LlmProvider,
    E: EmbeddingProvider,
    V: VectorStore,
    N: Fn(&str) -> Reading,
    C: Fn(Blend) -> i64,
    B: Fn(i64) -> i64,
>(
    setup: Setup<L, E>,
    store: V,
    scorer: Scorer<N, C, B>,
    ask: Search,
    found: Seq<ResultModel>,
    matched: Option<Seq<ResultModel>>,
    scored: Seq<ResultModel>,
    boosted: Seq<ResultModel>,
    results: Seq<ResultModel>,
)
    requires
        goes_through(setup, store, scorer, ask, found, matched, scored, boosted, results),
    ensures
        results.len() == if shown(scorer.read, ask, found).len() < ask.top_k {
            shown(scorer.read, ask, found).len()
        } else {
            ask.top_k
        },
        distinct_ids(results),
        forall|i: int|
            0 <= i < results.len() ==> is_shown(
                scorer.read,
                store.records(),
                ask,
                (#[trigger] results[i]).id,
            ),
        !ask.rerank ==> genuine(scorer.read, store.records(), ask, results)
            && rank::in_order::<SearchResult>(results),
{
    broadcast use vstd::seq_lib::group_to_multiset_ensures;

    let records = store.records();
    law_steps_of_a_search(setup, store, scorer, ask, found, matched, scored, boosted, results);
    let best = vector_store::first(boosted, ask.top_k);
    rank::law_page_length(boosted, 0, ask.top_k);
    assert forall|i: int| 0 <= i < best.len() implies #[trigger] best[i] == boosted[i] by {}
    assert(genuine(scorer.read, records, ask, best)) by {
        assert forall|i: int, j: int| 0 <= i < j < best.len() implies (#[trigger] best[i]).id != (
        #[trigger] best[j]).id by {
            assert(boosted[i].id != boosted[j].id);
        }
    }
    assert(rank::in_order::<SearchResult>(best)) by {
        assert forall|i: int, j: int| 0 <= i < j < best.len() implies SearchResult::may_precede(
            #[trigger] best[i],
            #[trigger] best[j],
        ) by {
            assert(SearchResult::may_precede(boosted[i], boosted[j]));
        }
    }
    if ask.rerank {
        let before = reranker::ids_of(best);
        let after = reranker::ids_of(results);
        assert(before.no_duplicates()) by {
            assert forall|i: int, j: int| 0 <= i < j < before.len() implies before[i] != before[j] by {
                assert(best[i].id != best[j].id);
            }
        }
        before.lemma_multiset_has_no_duplicates();
        after.lemma_multiset_has_no_duplicates_conv();
        assert(before.to_multiset().len() == before.len());
        assert(after.to_multiset().len() == after.len());
        assert forall|i: int| 0 <= i < results.len() implies is_shown(
            scorer.read,
            records,
            ask,
            (#[trigger] results[i]).id,
        ) by {
            assert(after[i] == results[i].id);
            assert(after.to_multiset().count(after[i]) > 0);
            assert(before.contains(after[i]));
            let k = choose|k: int| 0 <= k < before.len() && before[k] == after[i];
            assert(best[k].id == results[i].id);
        }
        assert forall|i: int, j: int| 0 <= i < j < results.len() implies (#[trigger] results[i]).id
            != (#[trigger] results[j]).id by {
            assert(after[i] != after[j]);
        }
    }
}

} // verus!
