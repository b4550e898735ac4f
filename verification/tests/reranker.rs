use memoria_core::number::{key_bits, order_key};
use memoria_core::payload::Payload;
use memoria_core::reranker::{greatest_score, least_score, tokenize, LocalOverlapReranker, Overlap, RerankError, Reranker, RerankerContractTests};
use memoria_core::vector_store::SearchResult;

/// The order key of a score.
fn key(score: f32) -> i64 {
    order_key(f64::from(score).to_bits())
}

/// The score that an order key stands for.
fn score_of(key: i64) -> f32 {
    f64::from_bits(key_bits(key)) as f32
}

/// A score, brought between zero and one by the least and the greatest.
fn normalize(score: f32, least: f32, greatest: f32) -> f32 {
    let range = greatest - least;
    if range > 0.0 {
        (score - least) / range
    } else {
        0.0
    }
}

/// The midpoint of the distances by meaning and by words.
fn rescore(overlap: Overlap) -> i64 {
    let semantic = normalize(score_of(overlap.score), score_of(overlap.least), score_of(overlap.greatest));
    let lexical = if overlap.words == 0 { 1.0 } else { 1.0 - overlap.shared as f32 / overlap.words as f32 };
    key(f32::midpoint(semantic, lexical))
}

/// A reranker that always fails.
struct FakeRerankerProvider;

impl FakeRerankerProvider {
    fn failing() -> Self {
        Self
    }
}

impl Reranker for FakeRerankerProvider {
    fn rerank(&self, _query: &str, _results: Vec<SearchResult>) -> Result<Vec<SearchResult>, RerankError> {
        Err(RerankError::Backend("fake backend failure".to_string()))
    }
}

fn result_with_content(id: &str, score: f32, content: &str) -> SearchResult {
    let mut payload = Payload::new();
    payload.insert("content".to_string(), content.to_string());
    SearchResult { id: id.to_string(), score: key(score), payload, score_details: None }
}

#[test]
fn local_overlap_reranker_passes_the_shared_contract() {
    assert!(LocalOverlapReranker::new(rescore).contract_empty_input_is_empty_output());
    assert!(LocalOverlapReranker::new(rescore).contract_preserves_the_same_set_of_ids());
}

#[test]
fn local_overlap_reranker_ranks_lexically_closer_content_first() {
    let reranker = LocalOverlapReranker::new(rescore);
    let input = vec![
        result_with_content("unrelated", 0.5, "cooking pasta recipes"),
        result_with_content("relevant", 0.5, "I love rust programming"),
    ];
    let output = reranker.rerank("rust programming", input).expect("expected a successful rerank");
    assert_eq!(output[0].id, "relevant", "the lexically closer result should be ranked first");
}

#[test]
fn local_overlap_reranker_is_deterministic() {
    let reranker = LocalOverlapReranker::new(rescore);
    let input = || {
        vec![
            result_with_content("a", 0.3, "alpha beta gamma"),
            result_with_content("b", 0.4, "delta epsilon zeta"),
        ]
    };
    let first = reranker.rerank("alpha", input()).expect("expected a successful rerank");
    let second = reranker.rerank("alpha", input()).expect("expected a successful rerank");
    assert_eq!(first, second, "reranking must be deterministic for the same input");
}

#[test]
fn local_overlap_reranker_handles_an_empty_query() {
    let reranker = LocalOverlapReranker::new(rescore);
    let input = vec![result_with_content("a", 0.2, "some content")];
    let output = reranker.rerank("", input).expect("expected a successful rerank");
    assert_eq!(output.len(), 1, "an empty query must not drop candidates");
}

#[test]
fn fake_reranker_provider_contract_rejects_backend_error() {
    assert!(FakeRerankerProvider::failing().contract_rejects_backend_error());
}

#[test]
fn a_reranked_score_is_the_midpoint_of_meaning_and_words() {
    let reranker = LocalOverlapReranker::new(rescore);
    let input = vec![
        result_with_content("near", 1.0, "nothing in common"),
        result_with_content("far", 3.0, "rust programming"),
        result_with_content("between", 1.5, "some rust"),
    ];
    let output = reranker.rerank("Rust, programming!", input).expect("expected a successful rerank");
    let scores: Vec<(&str, f32)> = output.iter().map(|r| (r.id.as_str(), score_of(r.score))).collect();
    assert_eq!(scores, vec![("between", 0.375), ("near", 0.5), ("far", 0.5)]);
}

#[test]
fn words_are_lower_case_runs_of_letters_and_digits_counted_once() {
    assert_eq!(tokenize("The CAT, the cat; ÄRGER-2"), vec!["the".to_string(), "cat".to_string(), "ärger".to_string(), "2".to_string()]);
}

#[test]
fn a_broken_reranker_contract_is_reported() {
    assert!(!LocalOverlapReranker::new(rescore).contract_rejects_backend_error());
    assert!(!FakeRerankerProvider::failing().contract_empty_input_is_empty_output());
    assert!(!FakeRerankerProvider::failing().contract_preserves_the_same_set_of_ids());
}

#[test]
fn a_score_that_is_no_number_is_no_extreme() {
    let result = |id: &str, score: f32| SearchResult { id: id.to_string(), score: key(score), payload: Payload::new(), score_details: None };
    for nothing in [f32::NAN, -f32::NAN] {
        let results = vec![result("a", 1.0), result("b", nothing), result("c", 3.0)];
        assert_eq!(score_of(least_score(&results)), 1.0);
        assert_eq!(score_of(greatest_score(&results)), 3.0);
        let reranked = LocalOverlapReranker::new(rescore).rerank("tea", results).expect("rerank should succeed");
        let score = |id: &str| score_of(reranked.iter().find(|r| r.id == id).expect("no result should be lost").score);
        assert_eq!(score("a"), 0.5);
        assert!(score("b").is_nan());
        assert_eq!(score("c"), 1.0);
    }
    assert_eq!(score_of(least_score(&vec![result("b", f32::NAN)])), f32::INFINITY);
    assert_eq!(score_of(greatest_score(&vec![result("b", f32::NAN)])), f32::NEG_INFINITY);
}
