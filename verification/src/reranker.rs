//! Ranking search results anew by how they match the words of the query.

pub mod laws;

use crate::number;
use crate::number::{is_comparable, INFINITY};
use crate::payload::Payload;
use crate::rank;
use crate::text;
use crate::text::CharClass;
use crate::vector_store::{ResultModel, SearchResult};
use vstd::prelude::*;

verus! {

/// Why results could not be ranked anew.
#[derive(Clone, Debug, PartialEq, Eq)]
pub enum RerankError {
    Backend(String),
}

impl RerankError {
    /// What the error says.
    pub open spec fn shown(self) -> Seq<char> {
        match self {
            RerankError::Backend(reason) => "backend error: "@ + reason@,
        }
    }

    /// What the error says.
    pub fn to_string(&self) -> (r: String)
        ensures
            r@ == self.shown(),
    {
        match self {
            RerankError::Backend(reason) => text::concat("backend error: ", reason.as_str()),
        }
    }
}

/// The outcome of ranking anew as a value.
pub open spec fn reranked_in(r: Result<Vec<SearchResult>, RerankError>) -> Result<
    Seq<ResultModel>,
    RerankError,
> {
    match r {
        Ok(results) => Ok(rank::views(results@)),
        Err(err) => Err(err),
    }
}

/// The ids of some results.
pub open spec fn ids_of(results: Seq<ResultModel>) -> Seq<Seq<char>> {
    results.map_values(|r: ResultModel| r.id)
}

/// Ranks results anew.
pub trait Reranker: Send + Sync {
    /// Whether ranking results anew may have an outcome; unless the reranker says
    /// more, any.
    open spec fn may_rerank(
        &self,
        query: Seq<char>,
        results: Seq<ResultModel>,
        outcome: Result<Seq<ResultModel>, RerankError>,
    ) -> bool {
        true
    }

    /// Ranks the results of a query anew; none is added and none is dropped.
    fn rerank(&self, query: &str, results: Vec<SearchResult>) -> (r: Result<
        Vec<SearchResult>,
        RerankError,
    >)
        ensures
            self.may_rerank(query@, rank::views(results@), reranked_in(r)),
            r matches Ok(found) ==> ids_of(rank::views(found@)).to_multiset() == ids_of(
                rank::views(results@),
            ).to_multiset(),
    ;
}

impl<T: Reranker + ?Sized> Reranker for Box<T> {
    open spec fn may_rerank(
        &self,
        query: Seq<char>,
        results: Seq<ResultModel>,
        outcome: Result<Seq<ResultModel>, RerankError>,
    ) -> bool {
        (**self).may_rerank(query, results, outcome)
    }

    fn rerank(&self, query: &str, results: Vec<SearchResult>) -> (r: Result<
        Vec<SearchResult>,
        RerankError,
    >) {
        (**self).rerank(query, results)
    }
}

/// A sequence with the first occurrence only of each element.
pub open spec fn unique(s: Seq<Seq<char>>) -> Seq<Seq<char>>
    decreases s.len(),
{
    if s.len() == 0 {
        s
    } else {
        let before = unique(s.drop_last());
        if before.contains(s.last()) {
            before
        } else {
            before.push(s.last())
        }
    }
}

/// The different words of a text, in lower case.
pub open spec fn words(s: Seq<char>) -> Seq<Seq<char>> {
    unique(text::runs(text::lowered(s), CharClass::NotAlphanumeric))
}

/// How many of some words are among others.
pub open spec fn shared(of: Seq<Seq<char>>, among: Seq<Seq<char>>) -> nat {
    of.filter(|w: Seq<char>| among.contains(w)).len()
}

/// The least score of some results; what no number compares with is left out.
pub open spec fn least(results: Seq<ResultModel>) -> i64
    decreases results.len(),
{
    if results.len() == 0 {
        INFINITY
    } else {
        let before = least(results.drop_last());
        if number::compares(results.last().score) && results.last().score < before {
            results.last().score
        } else {
            before
        }
    }
}

/// The greatest score of some results; what no number compares with is left out.
pub open spec fn greatest(results: Seq<ResultModel>) -> i64
    decreases results.len(),
{
    if results.len() == 0 {
        (-INFINITY) as i64
    } else {
        let before = greatest(results.drop_last());
        if number::compares(results.last().score) && results.last().score > before {
            results.last().score
        } else {
            before
        }
    }
}

/// What a new score is made of: the old one, the least and the greatest of the
/// old ones, and how many of the query's words the content has.
#[derive(Clone, Copy, Debug, PartialEq, Eq, Structural)]
pub struct Overlap {
    pub score: i64,
    pub least: i64,
    pub greatest: i64,
    pub shared: usize,
    pub words: usize,
}

/// The content that a payload has.
pub open spec fn content_in(payload: Map<Seq<char>, Seq<char>>) -> Seq<char> {
    if payload.contains_key("content"@) {
        payload["content"@]
    } else {
        Seq::empty()
    }
}

/// What the new score of a result is made of.
pub open spec fn overlap_of(
    query: Seq<char>,
    results: Seq<ResultModel>,
    result: ResultModel,
) -> Overlap {
    Overlap {
        score: result.score,
        least: least(results),
        greatest: greatest(results),
        shared: shared(words(query), words(content_in(result.payload))) as usize,
        words: words(query).len() as usize,
    }
}

/// Some results with new scores.
pub open spec fn rescored(results: Seq<ResultModel>, scores: Seq<i64>) -> Seq<ResultModel> {
    Seq::new(
        results.len(),
        |i: int|
            ResultModel {
                id: results[i].id,
                score: scores[i],
                payload: results[i].payload,
                score_details: results[i].score_details,
            },
    )
}

/// Ranks results by their scores and by the words that they share with the
/// query; `rescore` makes one score of the two.
pub struct LocalOverlapReranker<F: Fn(Overlap) -> i64> {
    rescore: F,
}

impl<F: Fn(Overlap) -> i64> LocalOverlapReranker<F> {
    /// What makes the scores.
    pub closed spec fn scoring(&self) -> F {
        self.rescore
    }

    #[verifier::type_invariant]
    spec fn well_formed(&self) -> bool {
        forall|o: Overlap| #[trigger] call_requires(self.rescore, (o,))
    }

    pub fn new(rescore: F) -> (r: Self)
        requires
            forall|o: Overlap| #[trigger] call_requires(rescore, (o,)),
        ensures
            r.scoring() == rescore,
    {
        LocalOverlapReranker { rescore }
    }
}

fn keep_unique(v: Vec<String>) -> (r: Vec<String>)
    ensures
        text::texts(r@) == unique(text::texts(v@)),
{
    let ghost all = text::texts(v@);
    let mut r: Vec<String> = Vec::new();
    let mut i: usize = 0;
    proof {
        assert(text::texts(r@) =~= unique(all.take(0)));
    }
    while i < v.len()
        invariant
            i <= v.len(),
            all == text::texts(v@),
            text::texts(r@) == unique(all.take(i as int)),
        decreases v.len() - i,
    {
        let ghost before = text::texts(r@);
        proof {
            assert(all.take(i + 1).drop_last() =~= all.take(i as int));
            assert(all.take(i + 1).last() == v@[i as int]@);
        }
        if !text::is_among(v[i].as_str(), &r) {
            r.push(v[i].clone());
            proof {
                assert(text::texts(r@) =~= before.push(v@[i as int]@));
            }
        }
        i = i + 1;
    }
    proof {
        assert(all.take(i as int) =~= all);
    }
    r
}

/// The different words of a text, in lower case.
pub fn tokenize(s: &str) -> (r: Vec<String>)
    ensures
        text::texts(r@) == words(s@),
{
    let lower = text::to_lowercase(s);
    keep_unique(text::split_runs(lower.as_str(), CharClass::NotAlphanumeric))
}

fn count_shared(of: &Vec<String>, among: &Vec<String>) -> (n: usize)
    ensures
        n == shared(text::texts(of@), text::texts(among@)),
        n <= of@.len(),
{
    let ghost all = text::texts(of@);
    let ghost others = text::texts(among@);
    let ghost keep = |w: Seq<char>| others.contains(w);
    let mut n: usize = 0;
    let mut i: usize = 0;
    proof {
        reveal(Seq::filter);
    }
    while i < of.len()
        invariant
            i <= of.len(),
            n <= i,
            all == text::texts(of@),
            others == text::texts(among@),
            keep == (|w: Seq<char>| others.contains(w)),
            n == all.take(i as int).filter(keep).len(),
        decreases of.len() - i,
    {
        proof {
            reveal(Seq::filter);
            assert(all.take(i + 1).drop_last() =~= all.take(i as int));
            assert(all.take(i + 1).last() == of@[i as int]@);
        }
        if text::is_among(of[i].as_str(), among) {
            n = n + 1;
        }
        i = i + 1;
    }
    proof {
        assert(all.take(i as int) =~= all);
    }
    n
}

/// The least score of some results.
pub fn least_score(results: &Vec<SearchResult>) -> (r: i64)
    ensures
        r == least(rank::views(results@)),
{
    let ghost all = rank::views(results@);
    let mut r: i64 = INFINITY;
    let mut i: usize = 0;
    while i < results.len()
        invariant
            i <= results.len(),
            all == rank::views(results@),
            r == least(all.take(i as int)),
        decreases results.len() - i,
    {
        proof {
            assert(all.take(i + 1).drop_last() =~= all.take(i as int));
            assert(all.take(i + 1).last() == results@[i as int]@);
        }
        if is_comparable(results[i].score) && results[i].score < r {
            r = results[i].score;
        }
        i = i + 1;
    }
    proof {
        assert(all.take(i as int) =~= all);
    }
    r
}

/// The greatest score of some results.
pub fn greatest_score(results: &Vec<SearchResult>) -> (r: i64)
    ensures
        r == greatest(rank::views(results@)),
{
    let ghost all = rank::views(results@);
    let mut r: i64 = -INFINITY;
    let mut i: usize = 0;
    while i < results.len()
        invariant
            i <= results.len(),
            all == rank::views(results@),
            r == greatest(all.take(i as int)),
        decreases results.len() - i,
    {
        proof {
            assert(all.take(i + 1).drop_last() =~= all.take(i as int));
            assert(all.take(i + 1).last() == results@[i as int]@);
        }
        if is_comparable(results[i].score) && results[i].score > r {
            r = results[i].score;
        }
        i = i + 1;
    }
    proof {
        assert(all.take(i as int) =~= all);
    }
    r
}

/// Reranking by overlap, from the words of the query and the old extremes.
fn rescore_all<F: Fn(Overlap) -> i64>(
    rescore: &F,
    query: &str,
    results: &Vec<SearchResult>,
) -> (r: (Vec<SearchResult>, Ghost<Seq<i64>>))
    requires
        forall|o: Overlap| #[trigger] call_requires(*rescore, (o,)),
    ensures
        r.1@.len() == results@.len(),
        rank::views(r.0@) == rescored(rank::views(results@), r.1@),
        forall|i: int|
            0 <= i < results@.len() ==> call_ensures(
                *rescore,
                (overlap_of(query@, rank::views(results@), #[trigger] rank::views(results@)[i]),),
                r.1@[i],
            ),
{
    let query_words = tokenize(query);
    let low = least_score(results);
    let high = greatest_score(results);
    let ghost all = rank::views(results@);
    let ghost mut scores: Seq<i64> = Seq::empty();
    let mut r: Vec<SearchResult> = Vec::new();
    let mut i: usize = 0;
    proof {
        assert(rank::views(r@) =~= rescored(all.take(0), scores));
    }
    while i < results.len()
        invariant
            i <= results.len(),
            forall|o: Overlap| #[trigger] call_requires(*rescore, (o,)),
            all == rank::views(results@),
            low == least(all),
            high == greatest(all),
            text::texts(query_words@) == words(query@),
            scores.len() == i,
            rank::views(r@) == rescored(all.take(i as int), scores),
            forall|j: int|
                0 <= j < i ==> call_ensures(
                    *rescore,
                    (overlap_of(query@, all, #[trigger] all[j]),),
                    scores[j],
                ),
        decreases results.len() - i,
    {
        let result = &results[i];
        let content_words = match result.payload.get("content") {
            Some(content) => tokenize(content.as_str()),
            None => tokenize(""),
        };
        proof {
            reveal_strlit("");
            assert(""@ =~= Seq::<char>::empty());
            assert(text::texts(content_words@) == words(content_in(all[i as int].payload)));
        }
        let count = count_shared(&query_words, &content_words);
        let overlap = Overlap {
            score: result.score,
            least: low,
            greatest: high,
            shared: count,
            words: query_words.len(),
        };
        let score = rescore(overlap);
        let ghost before = rank::views(r@);
        let ghost old_scores = scores;
        r.push(
            SearchResult {
                id: result.id.clone(),
                score,
                payload: result.payload.clone(),
                score_details: result.score_details,
            },
        );
        proof {
            assert(words(query@).len() == query_words@.len());
            assert(overlap == overlap_of(query@, all, all[i as int]));
            scores = scores.push(score);
            let next = rescored(all.take(i + 1), scores);
            assert(rank::views(r@) =~= before.push(r@.last()@));
            assert(r@.last()@ =~= next.last());
            assert forall|j: int| 0 <= j < before.len() implies before[j] == next[j] by {}
            assert(rank::views(r@) =~= next);
            assert forall|j: int| 0 <= j < i + 1 implies call_ensures(
                *rescore,
                (overlap_of(query@, all, #[trigger] all[j]),),
                scores[j],
            ) by {
                if j < i {
                    assert(scores[j] == old_scores[j]);
                }
            }
        }
        i = i + 1;
    }
    proof {
        assert(all.take(i as int) =~= all);
    }
    (r, Ghost(scores))
}

proof fn lemma_rescored_ids(results: Seq<ResultModel>, scores: Seq<i64>)
    requires
        scores.len() == results.len(),
    ensures
        ids_of(rank::ranked::<SearchResult>(rescored(results, scores))).to_multiset() == ids_of(
            results,
        ).to_multiset(),
{
    let new = rescored(results, scores);
    rank::law_ranked::<SearchResult>(new);
    lemma_ids_multiset(rank::ranked::<SearchResult>(new), new);
    assert(ids_of(new) =~= ids_of(results));
}

/// Sequences with the same elements have the same ids.
pub proof fn lemma_ids_multiset(a: Seq<ResultModel>, b: Seq<ResultModel>)
    requires
        a.to_multiset() == b.to_multiset(),
    ensures
        ids_of(a).to_multiset() == ids_of(b).to_multiset(),
    decreases a.len(),
{
    broadcast use vstd::seq_lib::group_to_multiset_ensures;

    assert(a.to_multiset().len() == a.len());
    assert(b.to_multiset().len() == b.len());
    if a.len() == 0 {
        assert(ids_of(a) =~= ids_of(b));
    } else {
        let x = a.last();
        assert(a.contains(x));
        assert(b.to_multiset().contains(x));
        assert(b.contains(x));
        let k = choose|k: int| 0 <= k < b.len() && b[k] == x;
        let rest_a = a.drop_last();
        let rest_b = b.remove(k);
        assert(a =~= rest_a.push(x));
        assert(rest_a.to_multiset() =~= a.to_multiset().remove(x));
        assert(rest_b.to_multiset() =~= b.to_multiset().remove(x));
        lemma_ids_multiset(rest_a, rest_b);
        assert(ids_of(a) =~= ids_of(rest_a).push(x.id));
        assert(ids_of(rest_b) =~= ids_of(b).remove(k));
        assert(ids_of(b)[k] == x.id);
        assert(ids_of(b).to_multiset() =~= ids_of(rest_b).to_multiset().insert(x.id));
        assert(ids_of(a).to_multiset() =~= ids_of(rest_a).to_multiset().insert(x.id));
    }
}

impl<F: Fn(Overlap) -> i64 + Send + Sync> Reranker for LocalOverlapReranker<F> {
    /// The outcome is the results with their new scores, sorted by them.
    open spec fn may_rerank(
        &self,
        query: Seq<char>,
        results: Seq<ResultModel>,
        outcome: Result<Seq<ResultModel>, RerankError>,
    ) -> bool {
        exists|scores: Seq<i64>|
            {
                &&& scores.len() == results.len()
                &&& outcome == Ok::<Seq<ResultModel>, RerankError>(
                    rank::ranked::<SearchResult>(#[trigger] rescored(results, scores)),
                )
                &&& forall|i: int|
                    0 <= i < results.len() ==> call_ensures(
                        self.scoring(),
                        (overlap_of(query, results, #[trigger] results[i]),),
                        scores[i],
                    )
            }
    }

    fn rerank(&self, query: &str, results: Vec<SearchResult>) -> (r: Result<
        Vec<SearchResult>,
        RerankError,
    >)
        ensures
            r is Ok,
    {
        proof {
            use_type_invariant(self);
        }
        let (new, Ghost(scores)) = rescore_all(&self.rescore, query, &results);
        proof {
            lemma_rescored_ids(rank::views(results@), scores);
        }
        Ok(rank::sort(new))
    }
}

/// Checks that hold of every reranker of its kind.
pub trait RerankerContractTests: Reranker {
    /// Whether no results stay none.
    fn contract_empty_input_is_empty_output(&self) -> (r: bool)
        ensures
            exists|outcome: Result<Seq<ResultModel>, RerankError>|
                #[trigger] self.may_rerank("query"@, Seq::empty(), outcome) && r == (outcome matches Ok(
                    found,
                ) && found.len() == 0),
    {
        let none: Vec<SearchResult> = Vec::new();
        proof {
            assert(rank::views(none@) =~= Seq::empty());
        }
        let outcome = self.rerank("query", none);
        proof {
            assert(self.may_rerank("query"@, Seq::empty(), reranked_in(outcome)));
        }
        match outcome {
            Ok(found) => found.len() == 0,
            Err(_) => false,
        }
    }

    /// Whether two results come back, each of them.
    fn contract_preserves_the_same_set_of_ids(&self) -> (r: bool)
        ensures
            exists|outcome: Result<Seq<ResultModel>, RerankError>|
                #[trigger] self.may_rerank("fox"@, two_results(), outcome) && r == (outcome is Ok),
    {
        let mut a = Payload::new();
        a.insert("content".to_owned(), "the quick brown fox".to_owned());
        let mut b = Payload::new();
        b.insert("content".to_owned(), "a lazy dog sleeps".to_owned());
        let mut input: Vec<SearchResult> = Vec::new();
        input.push(
            SearchResult { id: "a".to_owned(), score: HALF_KEY, payload: a, score_details: None },
        );
        input.push(
            SearchResult { id: "b".to_owned(), score: HALF_KEY, payload: b, score_details: None },
        );
        proof {
            assert(rank::views(input@) =~= two_results());
        }
        match self.rerank("fox", input) {
            Ok(found) => {
                proof {
                    reveal_strlit("a");
                    reveal_strlit("b");
                    assert("a"@[0] != "b"@[0]);
                    lemma_two_ids(rank::views(found@));
                }
                found.len() == 2 && (text::same(found[0].id.as_str(), "a") && text::same(
                    found[1].id.as_str(),
                    "b",
                ) || text::same(found[0].id.as_str(), "b") && text::same(
                    found[1].id.as_str(),
                    "a",
                ))
            },
            Err(_) => false,
        }
    }

    /// Whether ranking anew fails in the backend.
    fn contract_rejects_backend_error(&self) -> (r: bool)
        ensures
            exists|outcome: Result<Seq<ResultModel>, RerankError>|
                #[trigger] self.may_rerank("query"@, Seq::empty(), outcome) && r == (outcome is Err),
    {
        let none: Vec<SearchResult> = Vec::new();
        proof {
            assert(rank::views(none@) =~= Seq::empty());
        }
        let outcome = self.rerank("query", none);
        proof {
            assert(self.may_rerank("query"@, Seq::empty(), reranked_in(outcome)));
        }
        match outcome {
            Err(RerankError::Backend(_)) => true,
            Ok(_) => false,
        }
    }
}

impl<T: Reranker + ?Sized> RerankerContractTests for T {

}

/// The order key of one half.
pub const HALF_KEY: i64 = 0x3fe0_0000_0000_0000;

/// The results that the contract checks of a reranker use.
pub open spec fn two_results() -> Seq<ResultModel> {
    seq![
        ResultModel {
            id: "a"@,
            score: HALF_KEY,
            payload: Map::empty().insert("content"@, "the quick brown fox"@),
            score_details: None,
        },
        ResultModel {
            id: "b"@,
            score: HALF_KEY,
            payload: Map::empty().insert("content"@, "a lazy dog sleeps"@),
            score_details: None,
        },
    ]
}

proof fn lemma_two_ids(found: Seq<ResultModel>)
    requires
        ids_of(found).to_multiset() == ids_of(two_results()).to_multiset(),
        "a"@ != "b"@,
    ensures
        found.len() == 2,
        (found[0].id == "a"@ && found[1].id == "b"@) || (found[0].id == "b"@ && found[1].id
            == "a"@),
{
    broadcast use vstd::seq_lib::group_to_multiset_ensures;

    let ids = ids_of(found);
    let wanted = ids_of(two_results());
    assert(wanted =~= seq!["a"@, "b"@]);
    assert(ids.to_multiset().len() == ids.len());
    assert(wanted.to_multiset().len() == wanted.len());
    assert(ids.len() == 2);
    assert(wanted =~= Seq::empty().push("a"@).push("b"@));
    assert(ids =~= Seq::empty().push(ids[0]).push(ids[1]));
    assert(ids.to_multiset().count("a"@) == 1);
    assert(ids.to_multiset().count("b"@) == 1);
}

} // verus!
