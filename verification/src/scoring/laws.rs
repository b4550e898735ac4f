//! What combined and boosted scores are made of.

use super::{Blend, KeywordScore};
use crate::rank;
use crate::reranker;
use crate::reranker::laws as extremes;
use crate::scoring;
use crate::vector_store::{ResultModel, ScoreDetails, SearchResult};
use vstd::prelude::*;

verus! {

/// Whether a score by keywords is the one that a result has: that of the last
/// keyword result with its id, with the least and the greatest of those scores.
pub open spec fn is_keyword_score(
    keyword_results: Seq<ResultModel>,
    id: Seq<char>,
    keyword: Option<KeywordScore>,
) -> bool {
    match keyword {
        None => forall|j: int|
            0 <= j < keyword_results.len() ==> (#[trigger] keyword_results[j]).id != id,
        Some(k) => {
            &&& exists|j: int|
                {
                    &&& 0 <= j < keyword_results.len()
                    &&& (#[trigger] keyword_results[j]).id == id
                    &&& keyword_results[j].score == k.score
                    &&& forall|m: int|
                        j < m < keyword_results.len() ==> (#[trigger] keyword_results[m]).id != id
                }
            &&& extremes::is_least(keyword_results, k.least)
            &&& extremes::is_greatest(keyword_results, k.greatest)
            &&& extremes::is_number(k.score) ==> k.least <= k.score <= k.greatest
        },
    }
}

proof fn lemma_score_for(results: Seq<ResultModel>, id: Seq<char>)
    ensures
        match scoring::score_for(results, id) {
            None => forall|j: int| 0 <= j < results.len() ==> (#[trigger] results[j]).id != id,
            Some(score) => exists|j: int|
                {
                    &&& 0 <= j < results.len()
                    &&& (#[trigger] results[j]).id == id
                    &&& results[j].score == score
                    &&& forall|m: int|
                        j < m < results.len() ==> (#[trigger] results[m]).id != id
                },
        },
    decreases results.len(),
{
    if results.len() > 0 {
        let rest = results.drop_last();
        lemma_score_for(rest, id);
        assert(results[results.len() - 1] == results.last());
        assert forall|j: int| 0 <= j < rest.len() implies #[trigger] rest[j] == results[j] by {}
        if results.last().id != id {
            match scoring::score_for(rest, id) {
                None => {
                    assert forall|j: int| 0 <= j < results.len() implies (
                    #[trigger] results[j]).id != id by {
                        if j < rest.len() {
                            assert(rest[j].id != id);
                        }
                    }
                },
                Some(score) => {
                    let j = choose|j: int|
                        {
                            &&& 0 <= j < rest.len()
                            &&& (#[trigger] rest[j]).id == id
                            &&& rest[j].score == score
                            &&& forall|m: int|
                                j < m < rest.len() ==> (#[trigger] rest[m]).id != id
                        };
                    assert(results[j].id == id);
                    assert forall|m: int| j < m < results.len() implies (
                    #[trigger] results[m]).id != id by {
                        if m < rest.len() {
                            assert(rest[m].id != id);
                        }
                    }
                },
            }
        }
    }
}

/// Whether parts are those that the combined score of a result is made of: its
/// own score, the least and the greatest of the scores found, and its score by
/// keywords.
pub open spec fn are_parts(
    results: Seq<ResultModel>,
    keyword_results: Seq<ResultModel>,
    result: ResultModel,
    parts: Blend,
) -> bool {
    &&& parts.score == result.score
    &&& extremes::is_least(results, parts.least)
    &&& extremes::is_greatest(results, parts.greatest)
    &&& extremes::is_number(parts.score) ==> parts.least <= parts.score <= parts.greatest
    &&& is_keyword_score(keyword_results, result.id, parts.keyword)
}

/// Whether one result is another with a combined score. What is explained has
/// the score by keywords and the combined score in its details, and keeps the
/// others.
pub open spec fn is_combined<C: Fn(Blend) -> i64>(
    combine: C,
    results: Seq<ResultModel>,
    keyword_results: Seq<ResultModel>,
    explain: bool,
    before: ResultModel,
    after: ResultModel,
) -> bool {
    exists|parts: Blend|
        {
            &&& #[trigger] call_ensures(combine, (parts,), after.score)
            &&& are_parts(results, keyword_results, before, parts)
            &&& after.id == before.id
            &&& after.payload == before.payload
            &&& !explain ==> after.score_details == before.score_details
            &&& explain ==> match before.score_details {
                None => after.score_details is None,
                Some(d) => {
                    &&& after.score_details is Some
                    &&& after.score_details->0.semantic_score == d.semantic_score
                    &&& after.score_details->0.entity_boost == d.entity_boost
                    &&& after.score_details->0.raw_score == after.score
                    &&& after.score_details->0.final_score == after.score
                    &&& after.score_details->0.bm25_score == match parts.keyword {
                        Some(k) => Some(k.score),
                        None => None,
                    }
                },
            }
        }
}

proof fn lemma_blend(
    results: Seq<ResultModel>,
    keyword_results: Seq<ResultModel>,
    k: int,
)
    requires
        0 <= k < results.len(),
    ensures
        are_parts(
            results,
            keyword_results,
            results[k],
            scoring::blend_of(results, keyword_results, results[k]),
        ),
{
    extremes::law_extremes(results);
    extremes::law_extremes(keyword_results);
    lemma_score_for(keyword_results, results[k].id);
}

proof fn lemma_combined<C: Fn(Blend) -> i64>(
    combine: C,
    results: Seq<ResultModel>,
    keyword_results: Seq<ResultModel>,
    explain: bool,
    scores: Seq<i64>,
    k: int,
)
    requires
        scoring::may_combine(combine, results, keyword_results, scores),
        0 <= k < results.len(),
    ensures
        is_combined(
            combine,
            results,
            keyword_results,
            explain,
            results[k],
            scoring::combined(results, keyword_results, scores, explain)[k],
        ),
{
    let parts = scoring::blend_of(results, keyword_results, results[k]);
    lemma_blend(results, keyword_results, k);
    let after = scoring::combined(results, keyword_results, scores, explain)[k];
    assert(call_ensures(combine, (parts,), scores[k]));
    assert(after.score == scores[k]);
    assert(call_ensures(combine, (parts,), after.score));
}

/// Whether a result is one of others with a combined score.
pub open spec fn is_one_combined<C: Fn(Blend) -> i64>(
    combine: C,
    results: Seq<ResultModel>,
    keyword_results: Seq<ResultModel>,
    explain: bool,
    after: ResultModel,
) -> bool {
    exists|k: int|
        0 <= k < results.len() && is_combined(
            combine,
            results,
            keyword_results,
            explain,
            #[trigger] results[k],
            after,
        )
}

/// Whether a result has its combined score in others.
pub open spec fn is_combined_in<C: Fn(Blend) -> i64>(
    combine: C,
    results: Seq<ResultModel>,
    keyword_results: Seq<ResultModel>,
    explain: bool,
    before: ResultModel,
    after: Seq<ResultModel>,
) -> bool {
    exists|i: int|
        0 <= i < after.len() && is_combined(
            combine,
            results,
            keyword_results,
            explain,
            before,
            #[trigger] after[i],
        )
}

/// Combining gives every result one new score, made of its own score and of the
/// score by keywords, and puts the lower scores first.
pub proof fn law_combined_scores<C: Fn(Blend) -> i64>(
    combine: C,
    results: Seq<ResultModel>,
    keyword_results: Seq<ResultModel>,
    explain: bool,
    after: Seq<ResultModel>,
)
    requires
        scoring::may_come_out(combine, results, keyword_results, explain, after),
    ensures
        after.len() == results.len(),
        forall|i: int, j: int|
            0 <= i < j < after.len() ==> (#[trigger] after[i]).score <= (#[trigger] after[j]).score,
        forall|i: int|
            0 <= i < after.len() ==> is_one_combined(
                combine,
                results,
                keyword_results,
                explain,
                #[trigger] after[i],
            ),
        forall|k: int|
            0 <= k < results.len() ==> is_combined_in(
                combine,
                results,
                keyword_results,
                explain,
                #[trigger] results[k],
                after,
            ),
{
    let scores = choose|scores: Seq<i64>| #[trigger]
        scoring::may_combine(combine, results, keyword_results, scores) && after == rank::ranked::<
            SearchResult,
        >(scoring::combined(results, keyword_results, scores, explain));
    let new = scoring::combined(results, keyword_results, scores, explain);
    rank::laws::law_sorting_keeps_and_orders::<SearchResult>(new);
    assert forall|i: int| 0 <= i < after.len() implies is_one_combined(
        combine,
        results,
        keyword_results,
        explain,
        #[trigger] after[i],
    ) by {
        let k = rank::laws::lemma_comes_from::<SearchResult>(new, i);
        lemma_combined(combine, results, keyword_results, explain, scores, k);
    }
    assert forall|k: int| 0 <= k < results.len() implies is_combined_in(
        combine,
        results,
        keyword_results,
        explain,
        #[trigger] results[k],
        after,
    ) by {
        let i = rank::laws::lemma_goes_to::<SearchResult>(new, k);
        lemma_combined(combine, results, keyword_results, explain, scores, k);
    }
}

/// Whether one result is another after a boost: with the boosted score where its
/// id is among those given, unchanged otherwise. What is explained has the boost
/// and the boosted score in its details, and keeps the others.
pub open spec fn is_boosted<B: Fn(i64) -> i64>(
    boost: B,
    ids: Seq<Seq<char>>,
    factor: i64,
    explain: bool,
    before: ResultModel,
    after: ResultModel,
) -> bool {
    if exists|n: int| 0 <= n < ids.len() && ids[n] == before.id {
        &&& call_ensures(boost, (before.score,), after.score)
        &&& after.id == before.id
        &&& after.payload == before.payload
        &&& !explain ==> after.score_details == before.score_details
        &&& explain ==> match before.score_details {
            None => after.score_details is None,
            Some(d) => {
                &&& after.score_details is Some
                &&& after.score_details->0.semantic_score == d.semantic_score
                &&& after.score_details->0.bm25_score == d.bm25_score
                &&& after.score_details->0.raw_score == d.raw_score
                &&& after.score_details->0.entity_boost == Some(factor)
                &&& after.score_details->0.final_score == after.score
            },
        }
    } else {
        after == before
    }
}

/// Whether a result is one of others after a boost.
pub open spec fn is_one_boosted<B: Fn(i64) -> i64>(
    boost: B,
    ids: Seq<Seq<char>>,
    factor: i64,
    explain: bool,
    results: Seq<ResultModel>,
    after: ResultModel,
) -> bool {
    exists|k: int|
        0 <= k < results.len() && is_boosted(
            boost,
            ids,
            factor,
            explain,
            #[trigger] results[k],
            after,
        )
}

/// Whether a result stands after a boost in others.
pub open spec fn is_boosted_in<B: Fn(i64) -> i64>(
    boost: B,
    ids: Seq<Seq<char>>,
    factor: i64,
    explain: bool,
    before: ResultModel,
    after: Seq<ResultModel>,
) -> bool {
    exists|i: int|
        0 <= i < after.len() && is_boosted(
            boost,
            ids,
            factor,
            explain,
            before,
            #[trigger] after[i],
        )
}

/// A boost changes the scores of the results with the given ids and of no others;
/// if there are any, the lower scores come first after it.
pub proof fn law_boosted_scores<B: Fn(i64) -> i64>(
    boost: B,
    results: Seq<ResultModel>,
    ids: Seq<Seq<char>>,
    scores: Seq<i64>,
    factor: i64,
    explain: bool,
    after: Seq<ResultModel>,
)
    requires
        scoring::may_boost(boost, results, ids, scores),
        after == scoring::after_boost(results, ids, scores, factor, explain),
    ensures
        after.len() == results.len(),
        (forall|k: int| 0 <= k < results.len() ==> !ids.contains((#[trigger] results[k]).id))
            ==> after == results,
        (exists|k: int| 0 <= k < results.len() && ids.contains((#[trigger] results[k]).id))
            ==> forall|i: int, j: int|
            0 <= i < j < after.len() ==> (#[trigger] after[i]).score <= (#[trigger] after[j]).score,
        forall|i: int|
            0 <= i < after.len() ==> is_one_boosted(
                boost,
                ids,
                factor,
                explain,
                results,
                #[trigger] after[i],
            ),
        forall|k: int|
            0 <= k < results.len() ==> is_boosted_in(
                boost,
                ids,
                factor,
                explain,
                #[trigger] results[k],
                after,
            ),
{
    let new = scoring::boosted(results, ids, scores, factor, explain);
    rank::laws::law_sorting_keeps_and_orders::<SearchResult>(new);
    assert forall|k: int| 0 <= k < results.len() implies is_boosted(
        boost,
        ids,
        factor,
        explain,
        #[trigger] results[k],
        new[k],
    ) by {
        if ids.contains(results[k].id) {
            assert(call_ensures(boost, (results[k].score,), new[k].score));
        }
    }
    if scoring::any_has_id(results, ids) {
        assert forall|i: int| 0 <= i < after.len() implies is_one_boosted(
            boost,
            ids,
            factor,
            explain,
            results,
            #[trigger] after[i],
        ) by {
            let k = rank::laws::lemma_comes_from::<SearchResult>(new, i);
            assert(is_boosted(boost, ids, factor, explain, results[k], after[i]));
        }
        assert forall|k: int| 0 <= k < results.len() implies is_boosted_in(
            boost,
            ids,
            factor,
            explain,
            #[trigger] results[k],
            after,
        ) by {
            let i = rank::laws::lemma_goes_to::<SearchResult>(new, k);
            assert(is_boosted(boost, ids, factor, explain, results[k], after[i]));
        }
    } else {
        assert forall|k: int| 0 <= k < results.len() implies is_boosted(
            boost,
            ids,
            factor,
            explain,
            #[trigger] results[k],
            after[k],
        ) by {
            assert(!ids.contains(results[k].id));
        }
        assert forall|i: int| 0 <= i < after.len() implies is_one_boosted(
            boost,
            ids,
            factor,
            explain,
            results,
            #[trigger] after[i],
        ) by {
            assert(is_boosted(boost, ids, factor, explain, results[i], after[i]));
        }
    }
}

/// What is explained keeps its place, its id, its score and its payload, and its
/// details say that the score is all that it is made of.
pub proof fn law_explained(results: Seq<ResultModel>)
    ensures
        scoring::explained(results).len() == results.len(),
        forall|i: int|
            0 <= i < results.len() ==> {
                let r = #[trigger] scoring::explained(results)[i];
                &&& r.id == results[i].id
                &&& r.score == results[i].score
                &&& r.payload == results[i].payload
                &&& r.score_details is Some
                &&& r.score_details->0.semantic_score == results[i].score
                &&& r.score_details->0.raw_score == results[i].score
                &&& r.score_details->0.final_score == results[i].score
                &&& r.score_details->0.bm25_score is None
                &&& r.score_details->0.entity_boost is None
            },
{
}

} // verus!
