//! How the scores of search results are made: by meaning, by keywords, and by
//! the entities that a query names.

pub mod laws;

use crate::rank;
use crate::reranker;
use crate::text;
use crate::vector_store::{ResultModel, ScoreDetails, SearchResult};
use vstd::prelude::*;

verus! {

/// The score that a search by keywords gave, and the least and the greatest
/// that it gave.
#[derive(Clone, Copy, Debug, PartialEq, Eq, Structural)]
pub struct KeywordScore {
    pub score: i64,
    pub least: i64,
    pub greatest: i64,
}

/// What a combined score is made of: the score by meaning, the least and the
/// greatest of these, and the score by keywords, if there is one.
#[derive(Clone, Copy, Debug, PartialEq, Eq, Structural)]
pub struct Blend {
    pub score: i64,
    pub least: i64,
    pub greatest: i64,
    pub keyword: Option<KeywordScore>,
}

/// The score that some results have for an id; of two, the later one counts.
pub open spec fn score_for(results: Seq<ResultModel>, id: Seq<char>) -> Option<i64>
    decreases results.len(),
{
    if results.len() == 0 {
        None
    } else if results.last().id == id {
        Some(results.last().score)
    } else {
        score_for(results.drop_last(), id)
    }
}

/// What the combined score of a result is made of.
pub open spec fn blend_of(
    results: Seq<ResultModel>,
    keyword_results: Seq<ResultModel>,
    result: ResultModel,
) -> Blend {
    Blend {
        score: result.score,
        least: reranker::least(results),
        greatest: reranker::greatest(results),
        keyword: match score_for(keyword_results, result.id) {
            Some(score) => Some(
                KeywordScore {
                    score,
                    least: reranker::least(keyword_results),
                    greatest: reranker::greatest(keyword_results),
                },
            ),
            None => None,
        },
    }
}

/// Details with a combined score in them.
pub open spec fn with_combination(
    details: Option<ScoreDetails>,
    keyword: Option<i64>,
    score: i64,
) -> Option<ScoreDetails> {
    match details {
        Some(d) => Some(
            ScoreDetails {
                semantic_score: d.semantic_score,
                bm25_score: keyword,
                entity_boost: d.entity_boost,
                raw_score: score,
                final_score: score,
            },
        ),
        None => None,
    }
}

/// Some results with their combined scores.
pub open spec fn combined(
    results: Seq<ResultModel>,
    keyword_results: Seq<ResultModel>,
    scores: Seq<i64>,
    explain: bool,
) -> Seq<ResultModel> {
    Seq::new(
        results.len(),
        |i: int|
            ResultModel {
                id: results[i].id,
                score: scores[i],
                payload: results[i].payload,
                score_details: if explain {
                    with_combination(
                        results[i].score_details,
                        score_for(keyword_results, results[i].id),
                        scores[i],
                    )
                } else {
                    results[i].score_details
                },
            },
    )
}

/// Whether something may give some results these combined scores.
pub open spec fn may_combine<C: Fn(Blend) -> i64>(
    combine: C,
    results: Seq<ResultModel>,
    keyword_results: Seq<ResultModel>,
    scores: Seq<i64>,
) -> bool {
    &&& scores.len() == results.len()
    &&& forall|i: int|
        0 <= i < results.len() ==> call_ensures(
            combine,
            (blend_of(results, keyword_results, #[trigger] results[i]),),
            scores[i],
        )
}

/// Whether results may come out of others, sorted anew, when something combines
/// scores by keywords with theirs.
pub open spec fn may_come_out<C: Fn(Blend) -> i64>(
    combine: C,
    results: Seq<ResultModel>,
    keyword_results: Seq<ResultModel>,
    explain: bool,
    after: Seq<ResultModel>,
) -> bool {
    exists|scores: Seq<i64>| #[trigger]
        may_combine(combine, results, keyword_results, scores) && after == rank::ranked::<
            SearchResult,
        >(combined(results, keyword_results, scores, explain))
}

/// Whether something makes one score of the same parts each time.
pub open spec fn settles<T, F: Fn(T) -> i64>(f: F) -> bool {
    forall|x: T, a: i64, b: i64| #[trigger]
        call_ensures(f, (x,), a) && #[trigger] call_ensures(f, (x,), b) ==> a == b
}

fn find_score(results: &Vec<SearchResult>, id: &str) -> (r: Option<i64>)
    ensures
        r == score_for(rank::views(results@), id@),
{
    let ghost all = rank::views(results@);
    let mut i: usize = results.len();
    proof {
        assert(all.take(i as int) =~= all);
    }
    while i > 0
        invariant
            i <= results.len(),
            all == rank::views(results@),
            score_for(all, id@) == score_for(all.take(i as int), id@),
        decreases i,
    {
        proof {
            assert(all.take(i as int).last() == results@[i - 1]@);
            assert(all.take(i as int).drop_last() =~= all.take(i - 1));
        }
        if text::same(results[i - 1].id.as_str(), id) {
            return Some(results[i - 1].score);
        }
        i = i - 1;
    }
    None
}

/// Gives results the scores that `combine` makes of their scores by meaning and
/// by keywords, and sorts them anew.
pub fn combine_with_keyword_scores<C: Fn(Blend) -> i64>(
    results: &mut Vec<SearchResult>,
    keyword_results: &Vec<SearchResult>,
    explain: bool,
    combine: &C,
)
    requires
        forall|b: Blend| #[trigger] call_requires(*combine, (b,)),
    ensures
        may_come_out(
            *combine,
            rank::views(old(results)@),
            rank::views(keyword_results@),
            explain,
            rank::views(final(results)@),
        ),
{
    let ghost all = rank::views(results@);
    let ghost keywords = rank::views(keyword_results@);
    let low = reranker::least_score(results);
    let high = reranker::greatest_score(results);
    let keyword_low = reranker::least_score(keyword_results);
    let keyword_high = reranker::greatest_score(keyword_results);
    let ghost mut scores: Seq<i64> = Seq::empty();
    let mut new: Vec<SearchResult> = Vec::new();
    let mut i: usize = 0;
    proof {
        assert(rank::views(new@) =~= combined(all.take(0), keywords, scores, explain));
    }
    while i < results.len()
        invariant
            i <= results.len(),
            forall|b: Blend| #[trigger] call_requires(*combine, (b,)),
            all == rank::views(results@),
            keywords == rank::views(keyword_results@),
            low == reranker::least(all),
            high == reranker::greatest(all),
            keyword_low == reranker::least(keywords),
            keyword_high == reranker::greatest(keywords),
            scores.len() == i,
            rank::views(new@) == combined(all.take(i as int), keywords, scores, explain),
            forall|j: int|
                0 <= j < i ==> call_ensures(
                    *combine,
                    (blend_of(all, keywords, #[trigger] all[j]),),
                    scores[j],
                ),
        decreases results.len() - i,
    {
        let result = &results[i];
        let raw = find_score(keyword_results, result.id.as_str());
        let keyword = match raw {
            Some(score) => Some(
                KeywordScore { score, least: keyword_low, greatest: keyword_high },
            ),
            None => None,
        };
        let blend = Blend { score: result.score, least: low, greatest: high, keyword };
        let score = combine(blend);
        let details = if explain {
            match result.score_details {
                Some(d) => Some(
                    ScoreDetails {
                        semantic_score: d.semantic_score,
                        bm25_score: raw,
                        entity_boost: d.entity_boost,
                        raw_score: score,
                        final_score: score,
                    },
                ),
                None => None,
            }
        } else {
            result.score_details
        };
        let ghost before = rank::views(new@);
        let ghost old_scores = scores;
        new.push(
            SearchResult {
                id: result.id.clone(),
                score,
                payload: result.payload.clone(),
                score_details: details,
            },
        );
        proof {
            assert(blend == blend_of(all, keywords, all[i as int]));
            scores = scores.push(score);
            let next = combined(all.take(i + 1), keywords, scores, explain);
            assert(rank::views(new@) =~= before.push(new@.last()@));
            assert(new@.last()@ =~= next.last());
            assert forall|j: int| 0 <= j < before.len() implies before[j] == next[j] by {}
            assert(rank::views(new@) =~= next);
            assert forall|j: int| 0 <= j < i + 1 implies call_ensures(
                *combine,
                (blend_of(all, keywords, #[trigger] all[j]),),
                scores[j],
            ) by {
                if j < i {
                    assert(scores[j] == old_scores[j]);
                }
            }
        }
        i = i + 1;
    }
    proof {
        assert(all.take(i as int) =~= all);
        assert(may_combine(*combine, all, keywords, scores));
    }
    *results = rank::sort(new);
}

/// Details with a boost in them.
pub open spec fn with_boost(details: Option<ScoreDetails>, factor: i64, score: i64) -> Option<
    ScoreDetails,
> {
    match details {
        Some(d) => Some(
            ScoreDetails {
                semantic_score: d.semantic_score,
                bm25_score: d.bm25_score,
                entity_boost: Some(factor),
                raw_score: d.raw_score,
                final_score: score,
            },
        ),
        None => None,
    }
}

/// Some results, those with the given ids with boosted scores.
pub open spec fn boosted(
    results: Seq<ResultModel>,
    ids: Seq<Seq<char>>,
    scores: Seq<i64>,
    factor: i64,
    explain: bool,
) -> Seq<ResultModel> {
    Seq::new(
        results.len(),
        |i: int|
            if ids.contains(results[i].id) {
                ResultModel {
                    id: results[i].id,
                    score: scores[i],
                    payload: results[i].payload,
                    score_details: if explain {
                        with_boost(results[i].score_details, factor, scores[i])
                    } else {
                        results[i].score_details
                    },
                }
            } else {
                results[i]
            },
    )
}

/// Whether something may give the results with the given ids these scores.
pub open spec fn may_boost<B: Fn(i64) -> i64>(
    boost: B,
    results: Seq<ResultModel>,
    ids: Seq<Seq<char>>,
    scores: Seq<i64>,
) -> bool {
    &&& scores.len() == results.len()
    &&& forall|i: int|
        0 <= i < results.len() && ids.contains((#[trigger] results[i]).id) ==> call_ensures(
            boost,
            (results[i].score,),
            scores[i],
        )
}

/// Whether some result has one of the given ids.
pub open spec fn any_has_id(results: Seq<ResultModel>, ids: Seq<Seq<char>>) -> bool {
    exists|i: int| 0 <= i < results.len() && ids.contains((#[trigger] results[i]).id)
}

/// Some results after a boost: sorted anew if one of them was boosted.
pub open spec fn after_boost(
    results: Seq<ResultModel>,
    ids: Seq<Seq<char>>,
    scores: Seq<i64>,
    factor: i64,
    explain: bool,
) -> Seq<ResultModel> {
    if any_has_id(results, ids) {
        rank::ranked::<SearchResult>(boosted(results, ids, scores, factor, explain))
    } else {
        results
    }
}

/// Gives the results with the given ids the scores that `boost` makes of
/// theirs, and sorts the results anew if there were any.
pub fn boost_results<B: Fn(i64) -> i64>(
    results: &mut Vec<SearchResult>,
    ids: &Vec<String>,
    explain: bool,
    boost: &B,
    factor: i64,
)
    requires
        forall|s: i64| #[trigger] call_requires(*boost, (s,)),
    ensures
        exists|scores: Seq<i64>| #[trigger]
            may_boost(*boost, rank::views(old(results)@), text::texts(ids@), scores) && rank::views(
                final(results)@,
            ) == after_boost(
                rank::views(old(results)@),
                text::texts(ids@),
                scores,
                factor,
                explain,
            ),
{
    let ghost all = rank::views(results@);
    let ghost wanted = text::texts(ids@);
    let ghost mut scores: Seq<i64> = Seq::empty();
    let mut new: Vec<SearchResult> = Vec::new();
    let mut any = false;
    let mut i: usize = 0;
    proof {
        assert(rank::views(new@) =~= boosted(all.take(0), wanted, scores, factor, explain));
    }
    while i < results.len()
        invariant
            i <= results.len(),
            forall|s: i64| #[trigger] call_requires(*boost, (s,)),
            all == rank::views(results@),
            wanted == text::texts(ids@),
            scores.len() == i,
            any == any_has_id(all.take(i as int), wanted),
            rank::views(new@) == boosted(all.take(i as int), wanted, scores, factor, explain),
            forall|j: int|
                0 <= j < i && wanted.contains((#[trigger] all[j]).id) ==> call_ensures(
                    *boost,
                    (all[j].score,),
                    scores[j],
                ),
        decreases results.len() - i,
    {
        let result = &results[i];
        let ghost before = rank::views(new@);
        let ghost old_scores = scores;
        let ghost was = any;
        let ghost now = all.take(i as int);
        let ghost then_all = all.take(i + 1);
        proof {
            assert(all[i as int] == result@);
            assert forall|j: int| 0 <= j < i implies now[j] == then_all[j] by {}
            if was {
                let j = choose|j: int| 0 <= j < now.len() && wanted.contains((#[trigger] now[j]).id);
                assert(wanted.contains(then_all[j].id));
            }
        }
        if text::is_among(result.id.as_str(), ids) {
            let score = boost(result.score);
            let details = if explain {
                match result.score_details {
                    Some(d) => Some(
                        ScoreDetails {
                            semantic_score: d.semantic_score,
                            bm25_score: d.bm25_score,
                            entity_boost: Some(factor),
                            raw_score: d.raw_score,
                            final_score: score,
                        },
                    ),
                    None => None,
                }
            } else {
                result.score_details
            };
            new.push(
                SearchResult {
                    id: result.id.clone(),
                    score,
                    payload: result.payload.clone(),
                    score_details: details,
                },
            );
            any = true;
            proof {
                scores = scores.push(score);
                assert(wanted.contains(then_all[i as int].id));
            }
        } else {
            new.push(result.clone());
            proof {
                scores = scores.push(0);
                if any_has_id(then_all, wanted) {
                    let j = choose|j: int|
                        0 <= j < then_all.len() && wanted.contains((#[trigger] then_all[j]).id);
                    assert(j < i);
                    assert(wanted.contains(now[j].id));
                }
            }
        }
        proof {
            let next = boosted(then_all, wanted, scores, factor, explain);
            assert(rank::views(new@) =~= before.push(new@.last()@));
            assert(new@.last()@ =~= next.last());
            assert forall|j: int| 0 <= j < before.len() implies before[j] == next[j] by {}
            assert(rank::views(new@) =~= next);
            assert forall|j: int|
                0 <= j < i + 1 && wanted.contains((#[trigger] all[j]).id) implies call_ensures(
                *boost,
                (all[j].score,),
                scores[j],
            ) by {
                if j < i {
                    assert(scores[j] == old_scores[j]);
                }
            }
        }
        i = i + 1;
    }
    proof {
        assert(all.take(i as int) =~= all);
        assert(may_boost(*boost, all, wanted, scores));
    }
    if any {
        *results = rank::sort(new);
    }
}

/// A result without its details.
pub open spec fn plain_result(r: ResultModel) -> ResultModel {
    ResultModel { id: r.id, score: r.score, payload: r.payload, score_details: None }
}

/// Some results without their details.
pub open spec fn plain_results(results: Seq<ResultModel>) -> Seq<ResultModel> {
    results.map_values(|r: ResultModel| plain_result(r))
}

/// The details of a result that is explained by its score alone.
pub open spec fn first_details(score: i64) -> ScoreDetails {
    ScoreDetails {
        semantic_score: score,
        bm25_score: None,
        entity_boost: None,
        raw_score: score,
        final_score: score,
    }
}

/// Some results with the details that their scores alone give.
pub open spec fn explained(results: Seq<ResultModel>) -> Seq<ResultModel> {
    results.map_values(
        |r: ResultModel|
            ResultModel {
                id: r.id,
                score: r.score,
                payload: r.payload,
                score_details: Some(first_details(r.score)),
            },
    )
}

/// Gives results the details that their scores alone give.
pub fn explain_results(results: Vec<SearchResult>) -> (r: Vec<SearchResult>)
    ensures
        rank::views(r@) == explained(rank::views(results@)),
{
    let ghost all = explained(rank::views(results@));
    let mut r: Vec<SearchResult> = Vec::new();
    let mut i: usize = 0;
    while i < results.len()
        invariant
            i <= results.len(),
            all == explained(rank::views(results@)),
            rank::views(r@) == all.take(i as int),
        decreases results.len() - i,
    {
        let ghost before = rank::views(r@);
        let score = results[i].score;
        r.push(
            SearchResult {
                id: results[i].id.clone(),
                score,
                payload: results[i].payload.clone(),
                score_details: Some(
                    ScoreDetails {
                        semantic_score: score,
                        bm25_score: None,
                        entity_boost: None,
                        raw_score: score,
                        final_score: score,
                    },
                ),
            },
        );
        proof {
            assert(r@.last()@ =~= all[i as int]);
            assert(rank::views(r@) =~= before.push(all[i as int]));
            assert(all.take(i + 1) =~= before.push(all[i as int]));
        }
        i = i + 1;
    }
    proof {
        assert(all.take(i as int) =~= all);
    }
    r
}

/// What is sorted is what was there.
pub proof fn lemma_ranked_members(s: Seq<ResultModel>, i: int)
    requires
        0 <= i < rank::ranked::<SearchResult>(s).len(),
    ensures
        s.contains(rank::ranked::<SearchResult>(s)[i]),
{
    broadcast use vstd::seq_lib::group_to_multiset_ensures;

    let sorted = rank::ranked::<SearchResult>(s);
    rank::law_ranked::<SearchResult>(s);
    assert(sorted.to_multiset().count(sorted[i]) > 0);
}

/// The least and the greatest score do not depend on details.
pub proof fn lemma_bounds_are_plain(results: Seq<ResultModel>)
    ensures
        reranker::least(plain_results(results)) == reranker::least(results),
        reranker::greatest(plain_results(results)) == reranker::greatest(results),
    decreases results.len(),
{
    if results.len() > 0 {
        lemma_bounds_are_plain(results.drop_last());
        assert(plain_results(results).drop_last() =~= plain_results(results.drop_last()));
    }
}

/// A score is above another or not: results are in order after sorting.
pub proof fn lemma_results_are_ordered(s: Seq<ResultModel>)
    ensures
        rank::in_order::<SearchResult>(rank::ranked::<SearchResult>(s)),
        rank::ranked::<SearchResult>(s).len() == s.len(),
{
    rank::law_ranked::<SearchResult>(s);
}

/// Combining scores gives each result one new score and keeps the rest, whether
/// or not the scores are explained: two copies of some results come out with the
/// same ids, scores and payloads, in the same order, the closer ones first. A
/// result that no keyword matched has no score by keywords in its details.
pub proof fn law_combination<C: Fn(Blend) -> i64>(
    combine: C,
    results: Seq<ResultModel>,
    keyword_results: Seq<ResultModel>,
    told: Seq<ResultModel>,
    untold: Seq<ResultModel>,
)
    requires
        settles(combine),
        may_come_out(combine, results, keyword_results, true, told),
        may_come_out(combine, results, keyword_results, false, untold),
    ensures
        plain_results(told) == plain_results(untold),
        rank::in_order::<SearchResult>(told),
        told.len() == results.len(),
        reranker::ids_of(told).to_multiset() == reranker::ids_of(results).to_multiset(),
        forall|i: int|
            0 <= i < told.len() ==> exists|k: int|
                0 <= k < results.len() && (#[trigger] results[k]).id == (#[trigger] told[i]).id
                    && results[k].payload == told[i].payload,
        forall|i: int|
            0 <= i < told.len() && ((#[trigger] told[i]).score_details is Some) ==> {
                &&& told[i].score_details->0.final_score == told[i].score
                &&& told[i].score_details->0.bm25_score == score_for(keyword_results, told[i].id)
            },
{
    let one = choose|scores: Seq<i64>| #[trigger]
        may_combine(combine, results, keyword_results, scores) && told == rank::ranked::<
            SearchResult,
        >(combined(results, keyword_results, scores, true));
    let other = choose|scores: Seq<i64>| #[trigger]
        may_combine(combine, results, keyword_results, scores) && untold == rank::ranked::<
            SearchResult,
        >(combined(results, keyword_results, scores, false));
    assert forall|i: int| 0 <= i < results.len() implies one[i] == other[i] by {
        let blend = blend_of(results, keyword_results, results[i]);
        assert(call_ensures(combine, (blend,), one[i]));
        assert(call_ensures(combine, (blend,), other[i]));
    }
    assert(one =~= other);
    let a = combined(results, keyword_results, one, true);
    let b = combined(results, keyword_results, one, false);
    lemma_plain_ranked(a);
    lemma_plain_ranked(b);
    assert(plain_results(a) =~= plain_results(b));
    lemma_results_are_ordered(a);
    rank::law_ranked::<SearchResult>(a);
    reranker::lemma_ids_multiset(told, a);
    assert(reranker::ids_of(a) =~= reranker::ids_of(results));
    assert forall|i: int| 0 <= i < told.len() implies exists|k: int|
        0 <= k < results.len() && (#[trigger] results[k]).id == (#[trigger] told[i]).id
            && results[k].payload == told[i].payload by {
        lemma_ranked_members(a, i);
        let k = choose|k: int| 0 <= k < a.len() && a[k] == told[i];
        assert(results[k].id == told[i].id);
    }
    assert forall|i: int| 0 <= i < told.len() && ((#[trigger] told[i]).score_details is Some) implies {
        &&& told[i].score_details->0.final_score == told[i].score
        &&& told[i].score_details->0.bm25_score == score_for(keyword_results, told[i].id)
    } by {
        lemma_ranked_members(a, i);
        let k = choose|k: int| 0 <= k < a.len() && a[k] == told[i];
        assert(results[k].id == told[i].id);
    }
}

proof fn lemma_plain_placed(x: ResultModel, s: Seq<ResultModel>)
    ensures
        plain_results(rank::placed::<SearchResult>(x, s)) == rank::placed::<SearchResult>(
            plain_result(x),
            plain_results(s),
        ),
    decreases s.len(),
{
    let left = plain_results(rank::placed::<SearchResult>(x, s));
    let right = rank::placed::<SearchResult>(plain_result(x), plain_results(s));
    if s.len() == 0 {
        assert(left =~= right);
    } else {
        lemma_plain_placed(x, s.skip(1));
        assert(plain_results(s).skip(1) =~= plain_results(s.skip(1)));
        assert(left =~= right);
    }
}

proof fn lemma_plain_ranked(s: Seq<ResultModel>)
    ensures
        plain_results(rank::ranked::<SearchResult>(s)) == rank::ranked::<SearchResult>(
            plain_results(s),
        ),
    decreases s.len(),
{
    if s.len() == 0 {
        assert(plain_results(rank::ranked::<SearchResult>(s)) =~= rank::ranked::<SearchResult>(
            plain_results(s),
        ));
    } else {
        lemma_plain_ranked(s.skip(1));
        lemma_plain_placed(s[0], rank::ranked::<SearchResult>(s.skip(1)));
        assert(plain_results(s).skip(1) =~= plain_results(s.skip(1)));
    }
}

/// Explaining changes details alone: with the same combined scores, results
/// come out with the same ids, scores and payloads, in the same order.
pub proof fn law_explaining_a_combination_changes_no_score(
    results: Seq<ResultModel>,
    keyword_results: Seq<ResultModel>,
    scores: Seq<i64>,
)
    ensures
        plain_results(
            rank::ranked::<SearchResult>(
                combined(explained(results), keyword_results, scores, true),
            ),
        ) == plain_results(
            rank::ranked::<SearchResult>(combined(results, keyword_results, scores, false)),
        ),
{
    let a = combined(explained(results), keyword_results, scores, true);
    let b = combined(results, keyword_results, scores, false);
    lemma_plain_ranked(a);
    lemma_plain_ranked(b);
    assert(plain_results(a) =~= plain_results(b));
}

/// Explaining changes details alone: with the same boosted scores, results come
/// out with the same ids, scores and payloads, in the same order.
pub proof fn law_explaining_a_boost_changes_no_score(
    with_details: Seq<ResultModel>,
    without: Seq<ResultModel>,
    ids: Seq<Seq<char>>,
    scores: Seq<i64>,
    factor: i64,
)
    requires
        plain_results(with_details) == plain_results(without),
    ensures
        plain_results(after_boost(with_details, ids, scores, factor, true)) == plain_results(
            after_boost(without, ids, scores, factor, false),
        ),
{
    assert(with_details.len() == without.len()) by {
        assert(plain_results(with_details).len() == with_details.len());
        assert(plain_results(without).len() == without.len());
    }
    assert forall|i: int| 0 <= i < without.len() implies with_details[i].id == without[i].id
        && with_details[i].score == without[i].score && with_details[i].payload
        == without[i].payload by {
        assert(plain_results(with_details)[i] == plain_results(without)[i]);
    }
    let a = boosted(with_details, ids, scores, factor, true);
    let b = boosted(without, ids, scores, factor, false);
    lemma_plain_ranked(a);
    lemma_plain_ranked(b);
    assert(plain_results(a) =~= plain_results(b));
    assert(any_has_id(with_details, ids) == any_has_id(without, ids)) by {
        if any_has_id(with_details, ids) {
            let i = choose|i: int|
                0 <= i < with_details.len() && ids.contains((#[trigger] with_details[i]).id);
            assert(ids.contains(without[i].id));
        }
        if any_has_id(without, ids) {
            let i = choose|i: int|
                0 <= i < without.len() && ids.contains((#[trigger] without[i]).id);
            assert(ids.contains(with_details[i].id));
        }
    }
}

} // verus!
