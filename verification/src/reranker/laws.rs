//! What a new ranking by shared words is made of.

use super::{LocalOverlapReranker, Overlap, RerankError, Reranker};
use crate::number;
use crate::rank;
use crate::reranker;
use crate::text;
use crate::text::CharClass;
use crate::vector_store::{ResultModel, SearchResult};
use vstd::prelude::*;

verus! {

/// Whether an order key is that of a number that compares with others.
pub open spec fn is_number(key: i64) -> bool {
    -0x7ff0_0000_0000_0000 <= key <= 0x7ff0_0000_0000_0000
}

/// Whether a score is the least of some results: none that compares is below it,
/// and it is the score of one of them. Where none compares it is infinite.
pub open spec fn is_least(results: Seq<ResultModel>, score: i64) -> bool {
    &&& forall|i: int|
        0 <= i < results.len() && is_number((#[trigger] results[i]).score) ==> score
            <= results[i].score
    &&& (score == 0x7ff0_0000_0000_0000 && forall|i: int|
        0 <= i < results.len() ==> !is_number((#[trigger] results[i]).score)) || exists|i: int|
        0 <= i < results.len() && is_number((#[trigger] results[i]).score) && results[i].score
            == score
}

/// Whether a score is the greatest of some results: none that compares is above
/// it, and it is the score of one of them. Where none compares it is infinite, on
/// the other side.
pub open spec fn is_greatest(results: Seq<ResultModel>, score: i64) -> bool {
    &&& forall|i: int|
        0 <= i < results.len() && is_number((#[trigger] results[i]).score) ==> score
            >= results[i].score
    &&& (score == -0x7ff0_0000_0000_0000 && forall|i: int|
        0 <= i < results.len() ==> !is_number((#[trigger] results[i]).score)) || exists|i: int|
        0 <= i < results.len() && is_number((#[trigger] results[i]).score) && results[i].score
            == score
}

/// The least and the greatest score of some results are what they are called.
pub proof fn law_extremes(results: Seq<ResultModel>)
    ensures
        is_least(results, reranker::least(results)),
        is_greatest(results, reranker::greatest(results)),
    decreases results.len(),
{
    if results.len() > 0 {
        let rest = results.drop_last();
        law_extremes(rest);
        let low = reranker::least(results);
        let high = reranker::greatest(results);
        assert(results[results.len() - 1] == results.last());
        assert forall|i: int| 0 <= i < rest.len() implies #[trigger] rest[i] == results[i] by {}
        assert forall|i: int|
            0 <= i < results.len() && is_number((#[trigger] results[i]).score) implies low
            <= results[i].score <= high by {
            if i < rest.len() {
                assert(is_number(rest[i].score));
            }
        }
        let last = results.last().score;
        if is_number(last) {
            if low != last {
                assert(low == reranker::least(rest));
                if forall|i: int| 0 <= i < rest.len() ==> !is_number((#[trigger] rest[i]).score) {
                    assert(last >= low);
                } else {
                    let i = choose|i: int|
                        0 <= i < rest.len() && is_number((#[trigger] rest[i]).score)
                            && rest[i].score == low;
                    assert(results[i].score == low);
                }
            }
            if high != last {
                assert(high == reranker::greatest(rest));
                if forall|i: int| 0 <= i < rest.len() ==> !is_number((#[trigger] rest[i]).score) {
                    assert(last <= high);
                } else {
                    let i = choose|i: int|
                        0 <= i < rest.len() && is_number((#[trigger] rest[i]).score)
                            && rest[i].score == high;
                    assert(results[i].score == high);
                }
            }
        } else {
            if exists|i: int| 0 <= i < rest.len() && is_number((#[trigger] rest[i]).score) {
                let i = choose|i: int|
                    0 <= i < rest.len() && is_number((#[trigger] rest[i]).score) && rest[i].score
                        == low;
                assert(results[i].score == low);
                let j = choose|i: int|
                    0 <= i < rest.len() && is_number((#[trigger] rest[i]).score) && rest[i].score
                        == high;
                assert(results[j].score == high);
            } else {
                assert forall|i: int| 0 <= i < results.len() implies !is_number(
                    (#[trigger] results[i]).score,
                ) by {
                    if i < rest.len() {
                        assert(!is_number(rest[i].score));
                    }
                }
            }
        }
    }
}

proof fn lemma_unique(s: Seq<Seq<char>>)
    ensures
        reranker::unique(s).no_duplicates(),
        forall|w: Seq<char>| #[trigger] reranker::unique(s).contains(w) <==> s.contains(w),
    decreases s.len(),
{
    if s.len() > 0 {
        let rest = s.drop_last();
        lemma_unique(rest);
        let before = reranker::unique(rest);
        let all = reranker::unique(s);
        assert forall|w: Seq<char>| #[trigger] all.contains(w) <==> s.contains(w) by {
            if s.contains(w) {
                let i = choose|i: int| 0 <= i < s.len() && s[i] == w;
                if i < rest.len() {
                    assert(rest[i] == w);
                    assert(rest.contains(w));
                    assert(before.contains(w));
                    let k = choose|k: int| 0 <= k < before.len() && before[k] == w;
                    assert(all[k] == w);
                } else {
                    if !before.contains(w) {
                        assert(all[all.len() - 1] == w);
                    }
                }
            }
            if all.contains(w) {
                let k = choose|k: int| 0 <= k < all.len() && all[k] == w;
                if k < before.len() {
                    assert(before[k] == w);
                    assert(before.contains(w));
                    assert(rest.contains(w));
                    let i = choose|i: int| 0 <= i < rest.len() && rest[i] == w;
                    assert(s[i] == w);
                } else {
                    assert(s[s.len() - 1] == w);
                }
            }
        }
    }
}

/// The words of a text are its runs of letters and digits in lower case, each of
/// them once.
pub proof fn law_words(s: Seq<char>)
    ensures
        reranker::words(s).no_duplicates(),
        forall|w: Seq<char>| #[trigger]
            reranker::words(s).contains(w) <==> text::runs(
                text::lowered(s),
                CharClass::NotAlphanumeric,
            ).contains(w),
{
    lemma_unique(text::runs(text::lowered(s), CharClass::NotAlphanumeric));
}

/// The words that two texts share are counted: how many words are words of both.
pub proof fn law_shared(a: Seq<char>, b: Seq<char>)
    ensures
        reranker::shared(reranker::words(a), reranker::words(b)) == reranker::words(
            a,
        ).to_set().intersect(reranker::words(b).to_set()).len(),
        reranker::shared(reranker::words(a), reranker::words(b)) <= reranker::words(a).len(),
{
    law_words(a);
    law_words(b);
    let of = reranker::words(a);
    let among = reranker::words(b);
    let keep = |w: Seq<char>| among.contains(w);
    let kept = of.filter(keep);
    rank::laws::lemma_filtered(of, keep);
    kept.unique_seq_to_set();
    assert(kept.to_set() =~= of.to_set().intersect(among.to_set())) by {
        assert forall|w: Seq<char>| #[trigger]
            kept.to_set().contains(w) <==> of.to_set().intersect(among.to_set()).contains(w) by {
            assert(kept.to_set().contains(w) <==> kept.contains(w));
            assert(of.to_set().contains(w) <==> of.contains(w));
            assert(among.to_set().contains(w) <==> among.contains(w));
        }
    }
    of.unique_seq_to_set();
    vstd::set_lib::lemma_len_subset(kept.to_set(), of.to_set());
}

/// Whether a score may be made of a result of a query: of its old score, of the
/// least and the greatest of the old ones, and of how many of the query's words
/// its content has.
pub open spec fn may_be_new<F: Fn(Overlap) -> i64>(
    scoring: F,
    query: Seq<char>,
    results: Seq<ResultModel>,
    result: ResultModel,
    score: i64,
) -> bool {
    exists|parts: Overlap| #[trigger]
        call_ensures(scoring, (parts,), score) && {
            &&& parts.score == result.score
            &&& is_least(results, parts.least)
            &&& is_greatest(results, parts.greatest)
            &&& is_number(result.score) ==> parts.least <= parts.score <= parts.greatest
            &&& reranker::words(query).len() <= usize::MAX ==> {
                &&& parts.words == reranker::words(query).len()
                &&& result.payload.contains_key("content"@) ==> parts.shared
                    == reranker::words(query).to_set().intersect(
                    reranker::words(result.payload["content"@]).to_set(),
                ).len()
                &&& !result.payload.contains_key("content"@) ==> parts.shared == 0
            }
        }
}

/// Whether a result is another with a new score.
pub open spec fn is_rescored<F: Fn(Overlap) -> i64>(
    scoring: F,
    query: Seq<char>,
    results: Seq<ResultModel>,
    before: ResultModel,
    after: ResultModel,
) -> bool {
    &&& after.id == before.id
    &&& after.payload == before.payload
    &&& after.score_details == before.score_details
    &&& may_be_new(scoring, query, results, before, after.score)
}

/// Whether a result is one of others with a new score.
pub open spec fn is_one_rescored<F: Fn(Overlap) -> i64>(
    scoring: F,
    query: Seq<char>,
    results: Seq<ResultModel>,
    after: ResultModel,
) -> bool {
    exists|k: int|
        0 <= k < results.len() && is_rescored(
            scoring,
            query,
            results,
            #[trigger] results[k],
            after,
        )
}

/// Whether a result has its new score in others.
pub open spec fn is_rescored_in<F: Fn(Overlap) -> i64>(
    scoring: F,
    query: Seq<char>,
    results: Seq<ResultModel>,
    before: ResultModel,
    after: Seq<ResultModel>,
) -> bool {
    exists|i: int|
        0 <= i < after.len() && is_rescored(scoring, query, results, before, #[trigger] after[i])
}

proof fn lemma_no_words()
    ensures
        reranker::words(Seq::empty()).len() == 0,
{
    let none = Seq::<char>::empty();
    let separators = CharClass::NotAlphanumeric;
    assert(text::lowered(none) =~= none);
    assert(text::split_on(none, separators) =~= seq![none]);
    reveal(Seq::filter);
    let keep = |p: Seq<char>| p.len() > 0;
    assert(seq![none].drop_last() =~= Seq::empty());
    assert(seq![none].drop_last().filter(keep) =~= Seq::empty());
    assert(seq![none].filter(keep) =~= Seq::empty());
    assert(text::runs(none, separators) =~= Seq::empty());
}

proof fn lemma_rescored<F: Fn(Overlap) -> i64>(
    scoring: F,
    query: Seq<char>,
    results: Seq<ResultModel>,
    scores: Seq<i64>,
    k: int,
)
    requires
        0 <= k < results.len(),
        call_ensures(scoring, (reranker::overlap_of(query, results, results[k]),), scores[k]),
    ensures
        is_rescored(
            scoring,
            query,
            results,
            results[k],
            reranker::rescored(results, scores)[k],
        ),
{
    let result = results[k];
    let parts = reranker::overlap_of(query, results, result);
    law_extremes(results);
    law_shared(query, reranker::content_in(result.payload));
    assert(call_ensures(scoring, (parts,), scores[k]));
    if !result.payload.contains_key("content"@) {
        lemma_no_words();
        assert(reranker::words(query).to_set().intersect(reranker::words(Seq::empty()).to_set())
            =~= Set::empty());
    }
}

/// Ranking anew by shared words gives every result one new score, made of its own
/// content, and puts the lower scores first.
pub proof fn law_overlap_ranking<F: Fn(Overlap) -> i64 + Send + Sync>(
    by: LocalOverlapReranker<F>,
    query: Seq<char>,
    results: Seq<ResultModel>,
    outcome: Result<Seq<ResultModel>, RerankError>,
)
    requires
        by.may_rerank(query, results, outcome),
    ensures
        outcome is Ok,
        outcome->Ok_0.len() == results.len(),
        forall|i: int, j: int|
            0 <= i < j < results.len() ==> (#[trigger] outcome->Ok_0[i]).score <= (
            #[trigger] outcome->Ok_0[j]).score,
        forall|i: int|
            0 <= i < results.len() ==> is_one_rescored(
                by.scoring(),
                query,
                results,
                #[trigger] outcome->Ok_0[i],
            ),
        forall|k: int|
            0 <= k < results.len() ==> is_rescored_in(
                by.scoring(),
                query,
                results,
                #[trigger] results[k],
                outcome->Ok_0,
            ),
{
    let scores = choose|scores: Seq<i64>|
        {
            &&& scores.len() == results.len()
            &&& outcome == Ok::<Seq<ResultModel>, RerankError>(
                rank::ranked::<SearchResult>(#[trigger] reranker::rescored(results, scores)),
            )
            &&& forall|i: int|
                0 <= i < results.len() ==> call_ensures(
                    by.scoring(),
                    (reranker::overlap_of(query, results, #[trigger] results[i]),),
                    scores[i],
                )
        };
    let new = reranker::rescored(results, scores);
    let after = outcome->Ok_0;
    rank::laws::law_sorting_keeps_and_orders::<SearchResult>(new);
    assert forall|i: int| 0 <= i < results.len() implies is_one_rescored(
        by.scoring(),
        query,
        results,
        #[trigger] after[i],
    ) by {
        let k = rank::laws::lemma_comes_from::<SearchResult>(new, i);
        lemma_rescored(by.scoring(), query, results, scores, k);
    }
    assert forall|k: int| 0 <= k < results.len() implies is_rescored_in(
        by.scoring(),
        query,
        results,
        #[trigger] results[k],
        after,
    ) by {
        let i = rank::laws::lemma_goes_to::<SearchResult>(new, k);
        lemma_rescored(by.scoring(), query, results, scores, k);
    }
}

} // verus!
