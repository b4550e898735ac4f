#![allow(dead_code)]

use std::cell::{Cell, RefCell};
use std::collections::HashMap;
use std::rc::Rc;

use memoria_core::calendar::unix_seconds_to_ymd_string;
use memoria_core::embedding::{EmbeddingConfig, EmbeddingError, EmbeddingProvider};
use memoria_core::filter::{FilterExpr, FilterOp, FilterValue};
use memoria_core::history::{History, HistoryEntry, HistoryEvent};
use memoria_core::llm::{Completion, LlmConfig, LlmError, LlmProvider, Message, Role};
use memoria_core::memory::listing::EntitySummary;
use memoria_core::memory::searching::Scorer;
use memoria_core::memory::{next_record_id, Memory, MemoryConfig, Stamp, ENTITY_TEXT_KEY, ENTITY_TYPE_KEY, LINKED_MEMORY_IDS_KEY};
use memoria_core::number::{key_bits, order_key, Number, Reading, UNORDERED};
use memoria_core::payload::Payload;
use memoria_core::reranker::{RerankError, Reranker};
use memoria_core::scoring::Blend;
use memoria_core::vector_store::{
    InMemoryVectorStore, ScoreDetails, SearchResult, VectorRecord, VectorStore, VectorStoreConfig, VectorStoreError,
};
use memoria_core::CoreError;

/// A language model with a fixed behaviour.
struct FakeLlmProvider {
    failure: Option<LlmError>,
    raw_response: Option<String>,
}

impl FakeLlmProvider {
    fn new() -> Self {
        Self { failure: None, raw_response: None }
    }

    fn failing() -> Self {
        Self { failure: Some(LlmError::Backend("fake backend failure".to_string())), raw_response: None }
    }

    fn timing_out() -> Self {
        Self { failure: Some(LlmError::Timeout), raw_response: None }
    }

    fn returning_malformed(reason: &str) -> Self {
        Self { failure: Some(LlmError::Malformed(reason.to_string())), raw_response: None }
    }

    fn unauthorized() -> Self {
        Self { failure: Some(LlmError::AuthFailure), raw_response: None }
    }

    fn with_response(content: &str) -> Self {
        Self { failure: None, raw_response: Some(content.to_string()) }
    }

    fn with_facts(content: &str) -> Self {
        Self::with_response(content)
    }
}

impl LlmProvider for FakeLlmProvider {
    fn complete(&self, messages: &[Message]) -> Result<Completion, LlmError> {
        if let Some(failure) = &self.failure {
            return Err(failure.clone());
        }
        if messages.is_empty() {
            return Err(LlmError::EmptyMessages);
        }
        let said: Vec<&str> = messages.iter().map(|m| m.content.as_str()).collect();
        let content = self.raw_response.clone().unwrap_or_else(|| said.join(" "));
        Ok(Completion::new(&content))
    }
}

/// A language model that repeats the last message.
struct EchoLlmProvider;

impl EchoLlmProvider {
    fn new() -> Self {
        Self
    }
}

impl LlmProvider for EchoLlmProvider {
    fn complete(&self, messages: &[Message]) -> Result<Completion, LlmError> {
        let last = messages.last().ok_or(LlmError::EmptyMessages)?;
        Ok(Completion::new(&last.content))
    }
}

/// An embedding provider with a fixed behaviour.
#[derive(Clone)]
struct FakeEmbeddingProvider {
    failure: Option<EmbeddingError>,
}

impl FakeEmbeddingProvider {
    fn new() -> Self {
        Self { failure: None }
    }

    fn failing() -> Self {
        Self { failure: Some(EmbeddingError::Backend("fake backend failure".to_string())) }
    }

    fn timing_out() -> Self {
        Self { failure: Some(EmbeddingError::Timeout) }
    }
}

impl EmbeddingProvider for FakeEmbeddingProvider {
    fn embed(&self, input: &str) -> Result<Vec<u32>, EmbeddingError> {
        if let Some(failure) = &self.failure {
            return Err(failure.clone());
        }
        if input.is_empty() {
            return Err(EmbeddingError::EmptyInput);
        }
        let mut vector = Vec::new();
        for d in 0..8_u16 {
            let mut acc = f32::from(d);
            for (i, b) in input.bytes().enumerate() {
                let weight = ((i + usize::from(d)) % 8) as f32 + 1.0;
                acc = f32::from(b).mul_add(weight, acc);
            }
            vector.push(acc.to_bits());
        }
        Ok(vector)
    }
}

/// The order key of a score.
fn key(score: f32) -> i64 {
    order_key(f64::from(score).to_bits())
}

/// The score that an order key stands for.
fn score_of(key: i64) -> f32 {
    f64::from_bits(key_bits(key)) as f32
}

/// The sum of the differences of two vectors' components.
fn distance(a: &[u32], b: &[u32]) -> i64 {
    let parts = a.iter().zip(b).map(|(x, y)| (f32::from_bits(*x) - f32::from_bits(*y)).abs());
    key(parts.fold(0.0_f32, |sum, d| sum + d))
}

/// What a text says as a number.
fn read(s: &str) -> Reading {
    match s.parse::<f64>() {
        Ok(x) if x.is_nan() => Reading::Unordered,
        Ok(x) => Reading::Ordered(order_key(x.to_bits())),
        Err(_) => Reading::Words,
    }
}

/// A number that filters and limits compare with.
fn number(x: f64) -> Number {
    Number { key: order_key(x.to_bits()), text: x.to_string() }
}

/// A score, brought between zero and one by the least and the greatest.
fn normalize(score: f32, least: f32, greatest: f32) -> f32 {
    let range = greatest - least;
    if range > 0.0 {
        (score - least) / range
    } else {
        0.0
    }
}

/// The midpoint of the scores by meaning and by keywords.
fn combine(blend: Blend) -> i64 {
    let semantic = normalize(score_of(blend.score), score_of(blend.least), score_of(blend.greatest));
    let keyword = match blend.keyword {
        Some(k) => normalize(score_of(k.score), score_of(k.least), score_of(k.greatest)),
        None => 1.0,
    };
    key(f32::midpoint(semantic, keyword))
}

const ENTITY_BOOST_FRACTION: f32 = 0.15;

/// A score that an entity of the query brings closer.
fn boost(score: i64) -> i64 {
    key(score_of(score) * (1.0 - ENTITY_BOOST_FRACTION))
}

/// A store that keeps its records in the order they came in.
struct VecVectorStore {
    records: Vec<VectorRecord>,
}

impl VecVectorStore {
    fn new() -> Self {
        Self { records: Vec::new() }
    }
}

impl VectorStore for VecVectorStore {
    fn insert(&mut self, record: VectorRecord) -> Result<(), VectorStoreError> {
        if let Some(existing) = self.records.first() {
            let expected = existing.vector.len();
            let actual = record.vector.len();
            if expected != actual {
                return Err(VectorStoreError::DimensionMismatch { expected, actual });
            }
        }
        self.records.push(record);
        Ok(())
    }

    fn search(&self, vector: &[u32], top_k: usize, filters: &Payload, threshold: Option<i64>) -> Result<Vec<SearchResult>, VectorStoreError> {
        let mut scored: Vec<SearchResult> = self
            .records
            .iter()
            .filter(|r| r.payload.matches(filters))
            .map(|r| SearchResult { id: r.id.clone(), score: distance(&r.vector, vector), payload: r.payload.clone(), score_details: None })
            .filter(|r| threshold.is_none_or(|t| r.score <= t))
            .collect();
        scored.sort_by_key(|r| r.score);
        scored.truncate(top_k);
        Ok(scored)
    }

    fn get(&self, id: &str) -> Result<Option<VectorRecord>, VectorStoreError> {
        Ok(self.records.iter().find(|r| r.id == id).cloned())
    }

    fn update(&mut self, record: VectorRecord) -> Result<(), VectorStoreError> {
        match self.records.iter_mut().find(|r| r.id == record.id) {
            Some(existing) => {
                *existing = record;
                Ok(())
            }
            None => Err(VectorStoreError::NotFound),
        }
    }

    fn delete(&mut self, id: &str) -> Result<(), VectorStoreError> {
        self.records.retain(|r| r.id != id);
        Ok(())
    }

    fn list(&self, offset: usize, limit: usize) -> Result<Vec<String>, VectorStoreError> {
        Ok(self.records.iter().map(|r| r.id.clone()).skip(offset).take(limit).collect())
    }

    fn reset(&mut self) -> Result<(), VectorStoreError> {
        self.records.clear();
        Ok(())
    }

    fn keyword_search(&self, _query: &str, _top_k: usize, _filters: &Payload) -> Result<Option<Vec<SearchResult>>, VectorStoreError> {
        Ok(None)
    }
}

/// A reranker that always fails.
struct FakeRerankerProvider;

impl FakeRerankerProvider {
    fn failing() -> Self {
        Self
    }
}

impl Reranker for FakeRerankerProvider {
    fn rerank(&self, _query: &str, _results: Vec<SearchResult>) -> Result<Vec<SearchResult>, RerankError> {
        Err(RerankError::Backend("fake backend failure".to_string()))
    }
}

/// A store whose keyword search finds the records with the given contents.
struct FixedKeywordSearchVectorStore {
    kept: VecVectorStore,
    matches: Vec<Found>,
}

impl FixedKeywordSearchVectorStore {
    fn new(matches: Vec<Found>) -> Self {
        Self { kept: VecVectorStore::new(), matches }
    }
}

impl VectorStore for FixedKeywordSearchVectorStore {
    fn insert(&mut self, record: VectorRecord) -> Result<(), VectorStoreError> {
        self.kept.insert(record)
    }

    fn search(&self, vector: &[u32], top_k: usize, filters: &Payload, threshold: Option<i64>) -> Result<Vec<SearchResult>, VectorStoreError> {
        self.kept.search(vector, top_k, filters, threshold)
    }

    fn get(&self, id: &str) -> Result<Option<VectorRecord>, VectorStoreError> {
        self.kept.get(id)
    }

    fn update(&mut self, record: VectorRecord) -> Result<(), VectorStoreError> {
        self.kept.update(record)
    }

    fn delete(&mut self, id: &str) -> Result<(), VectorStoreError> {
        self.kept.delete(id)
    }

    fn list(&self, offset: usize, limit: usize) -> Result<Vec<String>, VectorStoreError> {
        self.kept.list(offset, limit)
    }

    fn reset(&mut self) -> Result<(), VectorStoreError> {
        self.kept.reset()
    }

    fn keyword_search(&self, _query: &str, _top_k: usize, _filters: &Payload) -> Result<Option<Vec<SearchResult>>, VectorStoreError> {
        let mut found = Vec::new();
        for wanted in &self.matches {
            let content = wanted.payload.get("content");
            let held = self.kept.records.iter().find(|r| r.payload.get("content") == content);
            let mut result = wanted.inner();
            if let Some(record) = held {
                result.id = record.id.clone();
            }
            found.push(result);
        }
        Ok(Some(found))
    }
}

fn payload_of(map: &HashMap<String, String>) -> Payload {
    Payload::from_pairs(map.iter().map(|(k, v)| (k.clone(), v.clone())).collect())
}

fn map_of(payload: &Payload) -> HashMap<String, String> {
    (0..payload.len()).map(|i| (payload.key_at(i).clone(), payload.value_at(i).clone())).collect()
}

fn is_expired(payload: &HashMap<String, String>, today: &str) -> bool {
    memoria_core::calendar::is_expired(&payload_of(payload), today)
}

fn is_entity_record(payload: &HashMap<String, String>) -> bool {
    memoria_core::memory::is_entity_record(&payload_of(payload))
}

fn message(role: Role, content: impl Into<String>) -> Message {
    Message::new(role, &content.into())
}

fn message_with_images(role: Role, content: impl Into<String>, images: Vec<String>) -> Message {
    Message::with_images(role, &content.into(), images)
}

/// A record with its payload as a map.
#[derive(Clone, Debug, PartialEq)]
struct Record {
    id: String,
    vector: Vec<u32>,
    payload: HashMap<String, String>,
}

impl Record {
    fn new(id: String, vector: Vec<u32>, payload: HashMap<String, String>) -> Self {
        Self { id, vector, payload }
    }

    fn of(record: VectorRecord) -> Self {
        Self { id: record.id, vector: record.vector, payload: map_of(&record.payload) }
    }
}

/// How a score came about, in numbers.
#[derive(Clone, Debug, PartialEq)]
struct Details {
    semantic_score: f32,
    bm25_score: Option<f32>,
    entity_boost: Option<f32>,
    raw_score: f32,
    final_score: f32,
}

impl Details {
    fn of(details: ScoreDetails) -> Self {
        Self {
            semantic_score: score_of(details.semantic_score),
            bm25_score: details.bm25_score.map(score_of),
            entity_boost: details.entity_boost.map(score_of),
            raw_score: score_of(details.raw_score),
            final_score: score_of(details.final_score),
        }
    }

    fn inner(&self) -> ScoreDetails {
        ScoreDetails {
            semantic_score: key(self.semantic_score),
            bm25_score: self.bm25_score.map(key),
            entity_boost: self.entity_boost.map(key),
            raw_score: key(self.raw_score),
            final_score: key(self.final_score),
        }
    }
}

/// A search result with its scores as numbers.
#[derive(Clone, Debug, PartialEq)]
struct Found {
    id: String,
    score: f32,
    payload: HashMap<String, String>,
    score_details: Option<Details>,
}

impl Found {
    fn of(result: SearchResult) -> Self {
        Self {
            id: result.id,
            score: score_of(result.score),
            payload: map_of(&result.payload),
            score_details: result.score_details.map(Details::of),
        }
    }

    fn inner(&self) -> SearchResult {
        SearchResult {
            id: self.id.clone(),
            score: key(self.score),
            payload: payload_of(&self.payload),
            score_details: self.score_details.as_ref().map(Details::inner),
        }
    }
}

fn combine_with_keyword_scores(results: &mut Vec<Found>, keyword_results: &[Found], explain: bool) {
    let mut inner: Vec<SearchResult> = results.iter().map(Found::inner).collect();
    let keywords: Vec<SearchResult> = keyword_results.iter().map(Found::inner).collect();
    memoria_core::scoring::combine_with_keyword_scores(&mut inner, &keywords, explain, &combine);
    *results = inner.into_iter().map(Found::of).collect();
}

/// A store that a test and a memory share.
struct Shared<V>(Rc<RefCell<V>>);

impl<V> Clone for Shared<V> {
    fn clone(&self) -> Self {
        Self(Rc::clone(&self.0))
    }
}

impl<V: VectorStore> Shared<V> {
    fn get(&self, id: &str) -> Result<Option<Record>, VectorStoreError> {
        Ok(self.0.borrow().get(id)?.map(Record::of))
    }

    fn insert(&self, record: Record) -> Result<(), VectorStoreError> {
        self.0.borrow_mut().insert(VectorRecord::new(&record.id, record.vector, payload_of(&record.payload)))
    }

    fn list(&self, offset: usize, limit: usize) -> Result<Vec<String>, VectorStoreError> {
        self.0.borrow().list(offset, limit)
    }

    fn search(
        &self,
        vector: &[f32],
        top_k: usize,
        filters: &HashMap<String, String>,
        threshold: Option<f32>,
    ) -> Result<Vec<Found>, VectorStoreError> {
        let bits: Vec<u32> = vector.iter().map(|c| c.to_bits()).collect();
        let found = self.0.borrow().search(&bits, top_k, &payload_of(filters), threshold.map(key))?;
        Ok(found.into_iter().map(Found::of).collect())
    }
}

impl<V: VectorStore> VectorStore for Shared<V> {
    fn insert(&mut self, record: VectorRecord) -> Result<(), VectorStoreError> {
        self.0.borrow_mut().insert(record)
    }

    fn search(&self, vector: &[u32], top_k: usize, filters: &Payload, threshold: Option<i64>) -> Result<Vec<SearchResult>, VectorStoreError> {
        self.0.borrow().search(vector, top_k, filters, threshold)
    }

    fn get(&self, id: &str) -> Result<Option<VectorRecord>, VectorStoreError> {
        self.0.borrow().get(id)
    }

    fn update(&mut self, record: VectorRecord) -> Result<(), VectorStoreError> {
        self.0.borrow_mut().update(record)
    }

    fn delete(&mut self, id: &str) -> Result<(), VectorStoreError> {
        self.0.borrow_mut().delete(id)
    }

    fn list(&self, offset: usize, limit: usize) -> Result<Vec<String>, VectorStoreError> {
        self.0.borrow().list(offset, limit)
    }

    fn reset(&mut self) -> Result<(), VectorStoreError> {
        self.0.borrow_mut().reset()
    }

    fn keyword_search(&self, query: &str, top_k: usize, filters: &Payload) -> Result<Option<Vec<SearchResult>>, VectorStoreError> {
        self.0.borrow().keyword_search(query, top_k, filters)
    }
}

/// A memory whose arguments and results are plain numbers and maps.
struct TestMemory<L: LlmProvider, E: EmbeddingProvider, V: VectorStore> {
    inner: RefCell<Memory<L, E, Shared<V>>>,
    vector_store: Shared<V>,
    ticks: Cell<u32>,
}

type TestScorer = Scorer<fn(&str) -> Reading, fn(Blend) -> i64, fn(i64) -> i64>;

fn scorer() -> TestScorer {
    Scorer { read, combine, boost, factor: key(1.0 - ENTITY_BOOST_FRACTION) }
}

impl<L: LlmProvider, E: EmbeddingProvider, V: VectorStore> TestMemory<L, E, V> {
    fn new(llm: L, embedding: E, store: V) -> Self {
        let shared = Shared(Rc::new(RefCell::new(store)));
        Self { inner: RefCell::new(Memory::new(llm, embedding, shared.clone())), vector_store: shared, ticks: Cell::new(0) }
    }

    fn with(self, change: impl FnOnce(Memory<L, E, Shared<V>>) -> Memory<L, E, Shared<V>>) -> Self {
        Self { inner: RefCell::new(change(self.inner.into_inner())), vector_store: self.vector_store, ticks: self.ticks }
    }

    fn with_reranker(self, reranker: impl Reranker + 'static) -> Self {
        self.with(|memory| memory.with_reranker(Box::new(reranker)))
    }

    fn with_max_top_k(self, limit: usize) -> Self {
        self.with(|memory| memory.with_max_top_k(limit))
    }

    fn with_max_content_length(self, limit: usize) -> Self {
        self.with(|memory| memory.with_max_content_length(limit))
    }

    fn with_max_metadata_bytes(self, limit: usize) -> Self {
        self.with(|memory| memory.with_max_metadata_bytes(limit))
    }

    fn stamp(&self) -> Stamp {
        self.ticks.set(self.ticks.get() + 1);
        Stamp { seconds: 1_787_500_000, subsec_nanos: self.ticks.get(), process_id: 7 }
    }

    fn add(&self, messages: &[Message], scope: HashMap<String, String>, infer: bool) -> Result<Vec<String>, CoreError> {
        let stamp = self.stamp();
        self.inner.borrow_mut().add(messages, &payload_of(&scope), infer, stamp)
    }

    #[allow(clippy::too_many_arguments)]
    fn search(
        &self,
        query: &str,
        top_k: usize,
        scope: &HashMap<String, String>,
        threshold: Option<f32>,
        show_expired: bool,
        filter: Option<&FilterExpr>,
        rerank: bool,
        explain: bool,
    ) -> Result<Vec<Found>, CoreError> {
        let limit = threshold.map(|t| Number { key: if t.is_nan() { UNORDERED } else { key(t) }, text: t.to_string() });
        let stamp = self.stamp();
        let found = self.inner.borrow().search(
            query,
            top_k,
            &payload_of(scope),
            limit.as_ref(),
            show_expired,
            filter,
            rerank,
            explain,
            stamp,
            &scorer(),
        )?;
        Ok(found.into_iter().map(Found::of).collect())
    }

    fn apply_entity_boost(&self, query: &str, scope: &HashMap<String, String>, results: &mut Vec<Found>, explain: bool) -> Result<(), CoreError> {
        let mut inner: Vec<SearchResult> = results.iter().map(Found::inner).collect();
        self.inner.borrow().apply_entity_boost(query, &payload_of(scope), &mut inner, explain, &scorer())?;
        *results = inner.into_iter().map(Found::of).collect();
        Ok(())
    }

    fn list(
        &self,
        scope: &HashMap<String, String>,
        offset: usize,
        limit: usize,
        show_expired: bool,
        filter: Option<&FilterExpr>,
    ) -> Result<Vec<String>, CoreError> {
        let stamp = self.stamp();
        self.inner.borrow().list(&payload_of(scope), offset, limit, show_expired, filter, stamp, &read)
    }

    fn list_all(&self, offset: usize, limit: usize, show_expired: bool, filter: Option<&FilterExpr>) -> Result<Vec<String>, CoreError> {
        let stamp = self.stamp();
        self.inner.borrow().list_all(offset, limit, show_expired, filter, stamp, &read)
    }

    fn get(&self, id: &str) -> Result<Option<Record>, CoreError> {
        Ok(self.inner.borrow().get(id)?.map(Record::of))
    }

    fn update(&self, id: &str, content: Option<&str>, metadata: Option<HashMap<String, String>>) -> Result<(), CoreError> {
        self.inner.borrow_mut().update(id, content, metadata.as_ref().map(payload_of))
    }

    fn delete(&self, id: &str) -> Result<(), CoreError> {
        self.inner.borrow_mut().delete(id)
    }

    fn reset(&self, scope: &HashMap<String, String>, filter: Option<&FilterExpr>) -> Result<usize, CoreError> {
        self.inner.borrow_mut().reset(&payload_of(scope), filter, &read)
    }

    fn history(&self, id: &str, offset: usize, limit: usize) -> Result<Vec<HistoryEntry>, CoreError> {
        self.inner.borrow().history(id, offset, limit)
    }

    fn history_snapshot(&self) -> HashMap<String, Vec<HistoryEntry>> {
        let history = self.inner.borrow().history_snapshot();
        (0..history.len()).map(|i| history.log(i)).map(|(id, log)| (id.clone(), log.clone())).collect()
    }

    fn load_history_snapshot(&self, snapshot: HashMap<String, Vec<HistoryEntry>>) {
        let mut history = History::new();
        for (id, log) in snapshot {
            history.set(id, log);
        }
        self.inner.borrow_mut().load_history_snapshot(history);
    }

    fn list_entities(&self) -> Result<Vec<EntitySummary>, CoreError> {
        self.inner.borrow().list_entities()
    }

    fn health_check(&self) -> Result<(), CoreError> {
        self.inner.borrow().health_check()
    }
}

fn scope() -> HashMap<String, String> {
    HashMap::from([("user_id".to_string(), "alice".to_string())])
}

#[test]
fn unix_seconds_to_ymd_string_matches_real_reference_dates() {
    assert_eq!(unix_seconds_to_ymd_string(0), "1970-01-01");
    assert_eq!(unix_seconds_to_ymd_string(86400), "1970-01-02");
    assert_eq!(unix_seconds_to_ymd_string(1_609_459_200), "2021-01-01");
    assert_eq!(unix_seconds_to_ymd_string(1_700_000_000), "2023-11-14");
    assert_eq!(unix_seconds_to_ymd_string(1_787_500_000), "2026-08-23");
    assert_eq!(unix_seconds_to_ymd_string(946_684_800), "2000-01-01");
    assert_eq!(unix_seconds_to_ymd_string(1_735_689_599), "2024-12-31");
}

#[test]
fn unix_seconds_to_ymd_string_handles_a_real_leap_day() {
    assert_eq!(unix_seconds_to_ymd_string(951_782_400), "2000-02-29", "the year 2000 is a leap year (divisible by 400)");
}

#[test]
fn is_expired_true_for_a_past_date() {
    let payload = HashMap::from([("expiration_date".to_string(), "2020-01-01".to_string())]);
    assert!(is_expired(&payload, "2026-08-24"));
}

#[test]
fn is_expired_false_for_a_future_date() {
    let payload = HashMap::from([("expiration_date".to_string(), "2030-01-01".to_string())]);
    assert!(!is_expired(&payload, "2026-08-24"));
}

#[test]
fn is_expired_false_for_the_current_date() {
    let payload = HashMap::from([("expiration_date".to_string(), "2026-08-24".to_string())]);
    assert!(!is_expired(&payload, "2026-08-24"), "a record expiring today has not yet expired");
}

#[test]
fn is_expired_false_when_no_expiration_date_is_set() {
    let payload = HashMap::new();
    assert!(!is_expired(&payload, "2026-08-24"));
}

#[test]
fn test_search_excludes_an_expired_record_by_default() {
    let llm = FakeLlmProvider::with_facts("irrelevant");
    let embedding = FakeEmbeddingProvider::new();
    let store = InMemoryVectorStore::new(distance);
    let memory = TestMemory::new(llm, embedding, store);

    let expired_scope =
        HashMap::from([("user_id".to_string(), "alice".to_string()), ("expiration_date".to_string(), "2000-01-01".to_string())]);
    memory.add(&[message(Role::User, "An expired fact.")], expired_scope, false).expect("add should succeed");

    let results = memory.search("fact", 10, &scope(), None, false, None, false, false).expect("search should succeed");
    assert!(
        !results.iter().any(|r| r.payload.get("content").map(String::as_str) == Some("An expired fact.")),
        "an expired record must not appear in search results by default"
    );
}

#[test]
fn test_search_includes_an_expired_record_with_show_expired_true() {
    let llm = FakeLlmProvider::with_facts("irrelevant");
    let embedding = FakeEmbeddingProvider::new();
    let store = InMemoryVectorStore::new(distance);
    let memory = TestMemory::new(llm, embedding, store);

    let expired_scope =
        HashMap::from([("user_id".to_string(), "alice".to_string()), ("expiration_date".to_string(), "2000-01-01".to_string())]);
    memory.add(&[message(Role::User, "An expired fact.")], expired_scope, false).expect("add should succeed");

    let results = memory.search("fact", 10, &scope(), None, true, None, false, false).expect("search should succeed");
    assert!(
        results.iter().any(|r| r.payload.get("content").map(String::as_str) == Some("An expired fact.")),
        "show_expired=true must still surface an expired record"
    );
}

#[test]
fn test_search_includes_a_non_expired_future_dated_record_by_default() {
    let llm = FakeLlmProvider::with_facts("irrelevant");
    let embedding = FakeEmbeddingProvider::new();
    let store = InMemoryVectorStore::new(distance);
    let memory = TestMemory::new(llm, embedding, store);

    let future_scope =
        HashMap::from([("user_id".to_string(), "alice".to_string()), ("expiration_date".to_string(), "2099-01-01".to_string())]);
    memory.add(&[message(Role::User, "A future fact.")], future_scope, false).expect("add should succeed");

    let results = memory.search("fact", 10, &scope(), None, false, None, false, false).expect("search should succeed");
    assert!(
        results.iter().any(|r| r.payload.get("content").map(String::as_str) == Some("A future fact.")),
        "a record expiring in the future must still appear with show_expired=false"
    );
}

#[test]
fn test_search_excluding_expired_records_does_not_shrink_top_k_below_available_valid_results() {
    let llm = FakeLlmProvider::with_facts("irrelevant");
    let embedding = FakeEmbeddingProvider::new();
    let store = InMemoryVectorStore::new(distance);
    let memory = TestMemory::new(llm, embedding, store);

    for i in 1..=3 {
        let expired_scope = HashMap::from([
            ("user_id".to_string(), "alice".to_string()),
            ("expiration_date".to_string(), "2000-01-01".to_string()),
        ]);
        memory.add(&[message(Role::User, format!("Expired fact {i}."))], expired_scope, false).expect("add should succeed");
    }
    for i in 1..=3 {
        let s = HashMap::from([("user_id".to_string(), "alice".to_string())]);
        memory.add(&[message(Role::User, format!("Valid fact {i}."))], s, false).expect("add should succeed");
    }

    let results = memory.search("fact", 3, &scope(), None, false, None, false, false).expect("search should succeed");
    assert_eq!(results.len(), 3, "top_k=3 must return 3 real results, not fewer because expired ones were counted against the limit");
    assert!(results.iter().all(|r| r.payload.get("content").is_some_and(|c| c.starts_with("Valid fact"))));
}

#[test]
fn test_list_excludes_an_expired_record_by_default() {
    let llm = FakeLlmProvider::with_facts("irrelevant");
    let embedding = FakeEmbeddingProvider::new();
    let store = InMemoryVectorStore::new(distance);
    let memory = TestMemory::new(llm, embedding, store);

    let expired_scope =
        HashMap::from([("user_id".to_string(), "alice".to_string()), ("expiration_date".to_string(), "2000-01-01".to_string())]);
    let ids = memory.add(&[message(Role::User, "An expired fact.")], expired_scope, false).expect("add should succeed");
    let expired_id = ids.first().expect("expected an id").clone();

    let listed = memory.list(&scope(), 0, 100, false, None).expect("list should succeed");
    assert!(!listed.contains(&expired_id), "an expired record must not appear in list results by default");
}

#[test]
fn test_list_includes_an_expired_record_with_show_expired_true() {
    let llm = FakeLlmProvider::with_facts("irrelevant");
    let embedding = FakeEmbeddingProvider::new();
    let store = InMemoryVectorStore::new(distance);
    let memory = TestMemory::new(llm, embedding, store);

    let expired_scope =
        HashMap::from([("user_id".to_string(), "alice".to_string()), ("expiration_date".to_string(), "2000-01-01".to_string())]);
    let ids = memory.add(&[message(Role::User, "An expired fact.")], expired_scope, false).expect("add should succeed");
    let expired_id = ids.first().expect("expected an id").clone();

    let listed = memory.list(&scope(), 0, 100, true, None).expect("list should succeed");
    assert!(listed.contains(&expired_id), "show_expired=true must still surface an expired record in list");
}

#[test]
fn test_search_applies_a_real_filter_on_top_of_scope() {
    let llm = FakeLlmProvider::with_facts("irrelevant");
    let embedding = FakeEmbeddingProvider::new();
    let store = InMemoryVectorStore::new(distance);
    let memory = TestMemory::new(llm, embedding, store);

    let engineering_scope =
        HashMap::from([("user_id".to_string(), "alice".to_string()), ("category".to_string(), "engineering".to_string())]);
    let sales_scope =
        HashMap::from([("user_id".to_string(), "alice".to_string()), ("category".to_string(), "sales".to_string())]);
    memory.add(&[message(Role::User, "An engineering fact.")], engineering_scope, false).expect("add should succeed");
    memory.add(&[message(Role::User, "A sales fact.")], sales_scope, false).expect("add should succeed");

    let filter = FilterExpr::Field("category".to_string(), FilterOp::Eq(FilterValue::String("engineering".to_string())));
    let results = memory.search("fact", 10, &scope(), None, true, Some(&filter), false, false).expect("search should succeed");
    assert_eq!(results.len(), 1);
    assert_eq!(results[0].payload.get("content"), Some(&"An engineering fact.".to_string()));
}

#[test]
fn test_search_filters_do_not_shrink_top_k_below_available_matching_results() {
    let llm = FakeLlmProvider::with_facts("irrelevant");
    let embedding = FakeEmbeddingProvider::new();
    let store = InMemoryVectorStore::new(distance);
    let memory = TestMemory::new(llm, embedding, store);

    for i in 1..=3 {
        let s = HashMap::from([("user_id".to_string(), "alice".to_string()), ("category".to_string(), "sales".to_string())]);
        memory.add(&[message(Role::User, format!("Sales fact {i}."))], s, false).expect("add should succeed");
    }
    for i in 1..=3 {
        let s = HashMap::from([("user_id".to_string(), "alice".to_string()), ("category".to_string(), "engineering".to_string())]);
        memory.add(&[message(Role::User, format!("Engineering fact {i}."))], s, false).expect("add should succeed");
    }

    let filter = FilterExpr::Field("category".to_string(), FilterOp::Eq(FilterValue::String("engineering".to_string())));
    let results = memory.search("fact", 3, &scope(), None, true, Some(&filter), false, false).expect("search should succeed");
    assert_eq!(results.len(), 3, "top_k=3 must return 3 real matches, not fewer because non-matching records were counted against the limit");
    assert!(results.iter().all(|r| r.payload.get("content").is_some_and(|c| c.starts_with("Engineering fact"))));
}

#[test]
fn test_search_with_no_filter_is_unaffected() {
    let llm = FakeLlmProvider::with_facts("irrelevant");
    let embedding = FakeEmbeddingProvider::new();
    let store = InMemoryVectorStore::new(distance);
    let memory = TestMemory::new(llm, embedding, store);
    memory.add(&[message(Role::User, "A fact.")], scope(), false).expect("add should succeed");

    let results = memory.search("fact", 10, &scope(), None, true, None, false, false).expect("search should succeed");
    assert_eq!(results.len(), 1, "an absent filter must not change existing search behavior");
}

#[test]
fn test_list_applies_a_real_filter() {
    let llm = FakeLlmProvider::with_facts("irrelevant");
    let embedding = FakeEmbeddingProvider::new();
    let store = InMemoryVectorStore::new(distance);
    let memory = TestMemory::new(llm, embedding, store);

    let engineering_scope =
        HashMap::from([("user_id".to_string(), "alice".to_string()), ("category".to_string(), "engineering".to_string())]);
    let sales_scope =
        HashMap::from([("user_id".to_string(), "alice".to_string()), ("category".to_string(), "sales".to_string())]);
    let engineering_ids =
        memory.add(&[message(Role::User, "An engineering fact.")], engineering_scope, false).expect("add should succeed");
    let sales_ids = memory.add(&[message(Role::User, "A sales fact.")], sales_scope, false).expect("add should succeed");

    let filter = FilterExpr::Field("category".to_string(), FilterOp::Eq(FilterValue::String("engineering".to_string())));
    let listed = memory.list(&scope(), 0, 100, true, Some(&filter)).expect("list should succeed");
    assert!(listed.contains(engineering_ids.first().expect("expected an id")));
    assert!(!listed.contains(sales_ids.first().expect("expected an id")));
}

#[test]
fn test_add_single_message_creates_one_or_more_records() {
    let llm = FakeLlmProvider::with_facts("Alice is an engineer.\nBob lives in Berlin.");
    let embedding = FakeEmbeddingProvider::new();
    let store = InMemoryVectorStore::new(distance);
    let memory = TestMemory::new(llm, embedding, store);

    let messages = [message(Role::User, "Alice is an engineer and Bob lives in Berlin.")];
    let ids = memory.add(&messages, scope(), true).expect("add should succeed");
    assert!(
        !ids.is_empty(),
        "add should return at least one record id"
    );

    let id = ids.first().expect("expected at least one id");
    let record = memory
        .vector_store
        .get(id)
        .expect("get should succeed")
        .expect("record should exist in the store");
    assert_eq!(&record.id, id);
}

#[test]
fn test_add_with_infer_false_stores_raw_content_verbatim_not_extracted_facts() {
    let llm = FakeLlmProvider::with_facts("a completely different extracted fact");
    let embedding = FakeEmbeddingProvider::new();
    let store = InMemoryVectorStore::new(distance);
    let memory = TestMemory::new(llm, embedding, store);

    let messages = [message(Role::User, "The user is allergic to shellfish.")];
    let ids = memory.add(&messages, scope(), false).expect("add should succeed");
    let id = ids.first().expect("expected at least one id");
    let record = memory.vector_store.get(id).expect("get should succeed").expect("record should exist");
    assert_eq!(
        record.payload.get("content"),
        Some(&"The user is allergic to shellfish.".to_string()),
        "infer=false must store the raw message content verbatim, never the LLM's extracted fact"
    );
}

#[test]
fn test_add_with_infer_false_tags_the_payload_with_the_real_message_role() {
    let llm = FakeLlmProvider::with_facts("irrelevant");
    let embedding = FakeEmbeddingProvider::new();
    let store = InMemoryVectorStore::new(distance);
    let memory = TestMemory::new(llm, embedding, store);

    let messages = [message(Role::Assistant, "Sure, I can help with that.")];
    let ids = memory.add(&messages, scope(), false).expect("add should succeed");
    let id = ids.first().expect("expected at least one id");
    let record = memory.vector_store.get(id).expect("get should succeed").expect("record should exist");
    assert_eq!(record.payload.get("role"), Some(&"assistant".to_string()));
}

#[test]
fn test_add_with_infer_false_creates_one_record_per_message_not_per_fact() {
    let llm = FakeLlmProvider::with_facts("one\ntwo\nthree");
    let embedding = FakeEmbeddingProvider::new();
    let store = InMemoryVectorStore::new(distance);
    let memory = TestMemory::new(llm, embedding, store);

    let messages = [message(Role::User, "First message."), message(Role::User, "Second message.")];
    let ids = memory.add(&messages, scope(), false).expect("add should succeed");
    assert_eq!(ids.len(), 2, "infer=false must produce exactly one record per input message");
}

#[test]
fn test_add_with_procedural_memory_type_and_agent_id_creates_one_summarized_record() {
    let llm = FakeLlmProvider::with_response("1. Called the API. Result: 200 OK.");
    let embedding = FakeEmbeddingProvider::new();
    let store = InMemoryVectorStore::new(distance);
    let memory = TestMemory::new(llm, embedding, store);

    let messages = [message(Role::User, "Call the API."), message(Role::Assistant, "Called it, got 200 OK.")];
    let mut scope = HashMap::new();
    scope.insert("agent_id".to_string(), "agent-1".to_string());
    scope.insert("memory_type".to_string(), "procedural_memory".to_string());

    let ids = memory.add(&messages, scope, true).expect("add should succeed");
    assert_eq!(ids.len(), 1, "procedural memory must always produce exactly one summarized record, not one per message or fact");
    let record = memory.vector_store.get(&ids[0]).unwrap().unwrap();
    assert_eq!(record.payload.get("content"), Some(&"1. Called the API. Result: 200 OK.".to_string()));
    assert_eq!(record.payload.get("memory_type"), Some(&"procedural_memory".to_string()));
    assert_eq!(record.payload.get("agent_id"), Some(&"agent-1".to_string()));
}

#[test]
fn test_add_with_procedural_memory_rejects_an_empty_llm_summary() {
    let llm = FakeLlmProvider::with_response("");
    let embedding = FakeEmbeddingProvider::new();
    let store = InMemoryVectorStore::new(distance);
    let memory = TestMemory::new(llm, embedding, store);

    let messages = [message(Role::User, "Call the API.")];
    let mut scope = HashMap::new();
    scope.insert("agent_id".to_string(), "agent-1".to_string());
    scope.insert("memory_type".to_string(), "procedural_memory".to_string());

    let result = memory.add(&messages, scope, true);
    assert!(
        matches!(result, Err(CoreError::Validation(_))),
        "an empty LLM summary must be a real, clear error, not a silently-created empty record"
    );
}

#[test]
fn test_add_with_procedural_memory_type_but_no_agent_id_falls_back_to_normal_extraction() {
    let llm = FakeLlmProvider::with_facts("Alice is an engineer.");
    let embedding = FakeEmbeddingProvider::new();
    let store = InMemoryVectorStore::new(distance);
    let memory = TestMemory::new(llm, embedding, store);

    let messages = [message(Role::User, "Alice is an engineer.")];
    let mut scope = HashMap::new();
    scope.insert("user_id".to_string(), "alice".to_string());
    scope.insert("memory_type".to_string(), "procedural_memory".to_string());

    let ids = memory.add(&messages, scope, true).expect("add should succeed");
    let record = memory.vector_store.get(&ids[0]).unwrap().unwrap();
    assert_eq!(
        record.payload.get("content"),
        Some(&"Alice is an engineer.".to_string()),
        "without agent_id, memory_type=procedural_memory must not trigger summarization"
    );
}

#[test]
fn test_add_with_an_image_message_describes_it_via_the_llm_before_storage() {
    let llm = FakeLlmProvider::with_response("A photo of a red bicycle.");
    let embedding = FakeEmbeddingProvider::new();
    let store = InMemoryVectorStore::new(distance);
    let memory = TestMemory::new(llm, embedding, store);

    let messages = [message_with_images(Role::User, "", vec!["base64imagedata".to_string()])];
    let ids = memory.add(&messages, scope(), false).expect("add should succeed");
    assert_eq!(ids.len(), 1);
    let record = memory.vector_store.get(&ids[0]).unwrap().unwrap();
    assert_eq!(
        record.payload.get("content"),
        Some(&"A photo of a red bicycle.".to_string()),
        "an image-bearing message's content must be replaced by the LLM's real description before storage"
    );
}

#[test]
fn test_add_creates_a_linked_entity_record_for_a_real_proper_noun() {
    let llm = FakeLlmProvider::with_response("unused");
    let embedding = FakeEmbeddingProvider::new();
    let store = InMemoryVectorStore::new(distance);
    let memory = TestMemory::new(llm, embedding, store);

    let messages = [message(Role::User, "Bob Smith works at the office.")];
    let ids = memory.add(&messages, scope(), false).expect("add should succeed");
    let memory_id = &ids[0];

    let all_ids = memory.vector_store.list(0, usize::MAX).expect("list should succeed");
    let entity_record = all_ids
        .iter()
        .filter_map(|id| memory.vector_store.get(id).ok().flatten())
        .find(|r| is_entity_record(&r.payload))
        .expect("a real entity record should have been created for the proper noun");
    assert_eq!(entity_record.payload.get(ENTITY_TYPE_KEY), Some(&"proper".to_string()));
    assert_eq!(entity_record.payload.get(ENTITY_TEXT_KEY), Some(&"Bob Smith".to_string()));
    assert_eq!(entity_record.payload.get(LINKED_MEMORY_IDS_KEY), Some(memory_id));
    assert_eq!(entity_record.payload.get("user_id"), Some(&"alice".to_string()), "the entity record must carry the same scope");
}

#[test]
fn test_add_twice_with_the_same_entity_links_both_memory_ids_to_one_entity_record() {
    let llm = FakeLlmProvider::with_response("unused");
    let embedding = FakeEmbeddingProvider::new();
    let store = InMemoryVectorStore::new(distance);
    let memory = TestMemory::new(llm, embedding, store);

    let first = memory
        .add(&[message(Role::User, "Bob Smith works at the office.")], scope(), false)
        .expect("add should succeed");
    let second = memory
        .add(&[message(Role::User, "Bob Smith left early today.")], scope(), false)
        .expect("add should succeed");

    let all_ids = memory.vector_store.list(0, usize::MAX).expect("list should succeed");
    let entity_records: Vec<Record> =
        all_ids.iter().filter_map(|id| memory.vector_store.get(id).ok().flatten()).filter(|r| is_entity_record(&r.payload)).collect();
    assert_eq!(entity_records.len(), 1, "the same entity mentioned twice must dedup into exactly one entity record");
    let linked: Vec<&str> = entity_records[0].payload.get(LINKED_MEMORY_IDS_KEY).unwrap().split(',').collect();
    assert!(linked.contains(&first[0].as_str()));
    assert!(linked.contains(&second[0].as_str()));
}

#[test]
fn test_entity_records_never_appear_in_search_results() {
    let llm = FakeLlmProvider::with_response("unused");
    let embedding = FakeEmbeddingProvider::new();
    let store = InMemoryVectorStore::new(distance);
    let memory = TestMemory::new(llm, embedding, store);

    memory.add(&[message(Role::User, "Bob Smith works at the office.")], scope(), false).expect("add should succeed");
    let results = memory.search("Bob Smith", 100, &scope(), None, true, None, false, false).expect("search should succeed");
    assert!(
        results.iter().all(|r| !is_entity_record(&r.payload)),
        "an entity record must never be returned as a real search result"
    );
}

#[test]
fn test_entity_records_never_appear_in_list_results() {
    let llm = FakeLlmProvider::with_response("unused");
    let embedding = FakeEmbeddingProvider::new();
    let store = InMemoryVectorStore::new(distance);
    let memory = TestMemory::new(llm, embedding, store);

    let ids = memory.add(&[message(Role::User, "Bob Smith works at the office.")], scope(), false).expect("add should succeed");
    let listed = memory.list(&scope(), 0, 100, true, None).expect("list should succeed");
    assert_eq!(listed, ids, "list must return only the real memory record, never the entity record created alongside it");
}

#[test]
fn test_entity_records_are_not_counted_by_list_entities() {
    let llm = FakeLlmProvider::with_response("unused");
    let embedding = FakeEmbeddingProvider::new();
    let store = InMemoryVectorStore::new(distance);
    let memory = TestMemory::new(llm, embedding, store);

    memory.add(&[message(Role::User, "Bob Smith works at the office.")], scope(), false).expect("add should succeed");
    let entities = memory.list_entities().expect("list_entities should succeed");
    let alice = entities.iter().find(|e| e.entity_id == "alice").expect("alice entity");
    assert_eq!(alice.memory_count, 1, "the entity record's own scope fields must not inflate list_entities' real memory count");
}

#[test]
fn test_apply_entity_boost_lowers_the_score_of_a_record_linked_to_a_matching_entity() {
    let llm = FakeLlmProvider::with_response("unused");
    let embedding = FakeEmbeddingProvider::new();
    let store = InMemoryVectorStore::new(distance);
    let memory = TestMemory::new(llm, embedding, store);

    let bob_ids = memory.add(&[message(Role::User, "Bob Smith works at the office.")], scope(), false).expect("add should succeed");
    let unrelated_ids = memory.add(&[message(Role::User, "The weather was nice today.")], scope(), false).expect("add should succeed");

    let mut results = vec![
        Found { id: unrelated_ids[0].clone(), score: 10.0, payload: HashMap::new(), score_details: None },
        Found { id: bob_ids[0].clone(), score: 10.5, payload: HashMap::new(), score_details: None },
    ];
    memory.apply_entity_boost("Tell me about Bob Smith", &scope(), &mut results, false).expect("boost should succeed");

    let bob_result = results.iter().find(|r| r.id == bob_ids[0]).expect("bob's record");
    assert!(bob_result.score < 10.5, "a record linked to a matching query entity must have its score lowered (lower is better), got {}", bob_result.score);
    assert_eq!(results[0].id, bob_ids[0], "for two near-tied candidates, the boosted record must now rank first");
}

#[test]
fn test_apply_entity_boost_explain_true_records_the_real_boost_factor() {
    let llm = FakeLlmProvider::with_response("unused");
    let embedding = FakeEmbeddingProvider::new();
    let store = InMemoryVectorStore::new(distance);
    let memory = TestMemory::new(llm, embedding, store);

    let bob_ids = memory.add(&[message(Role::User, "Bob Smith works at the office.")], scope(), false).expect("add should succeed");
    let unrelated_ids = memory.add(&[message(Role::User, "The weather was nice today.")], scope(), false).expect("add should succeed");

    let mut results = vec![
        Found {
            id: unrelated_ids[0].clone(),
            score: 10.0,
            payload: HashMap::new(),
            score_details: Some(Details { semantic_score: 10.0, bm25_score: None, entity_boost: None, raw_score: 10.0, final_score: 10.0 }),
        },
        Found {
            id: bob_ids[0].clone(),
            score: 10.5,
            payload: HashMap::new(),
            score_details: Some(Details { semantic_score: 10.5, bm25_score: None, entity_boost: None, raw_score: 10.5, final_score: 10.5 }),
        },
    ];
    memory.apply_entity_boost("Tell me about Bob Smith", &scope(), &mut results, true).expect("boost should succeed");

    let bob_result = results.iter().find(|r| r.id == bob_ids[0]).expect("bob's record");
    let bob_details = bob_result.score_details.as_ref().expect("score_details must still be present after boosting");
    assert_eq!(bob_details.entity_boost, Some(1.0 - ENTITY_BOOST_FRACTION), "entity_boost must record the real multiplicative factor applied");
    assert!((bob_details.final_score - bob_result.score).abs() < 1e-6, "final_score must equal the real post-boost score");
    assert!((bob_details.raw_score - 10.5).abs() < 1e-6, "raw_score must stay at the pre-boost value");

    let unrelated_result = results.iter().find(|r| r.id == unrelated_ids[0]).expect("unrelated record");
    assert_eq!(unrelated_result.score_details.as_ref().expect("score_details must still be present").entity_boost, None, "an unboosted result must record no entity_boost");
}

#[test]
fn test_apply_entity_boost_is_a_no_op_when_the_query_has_no_entities() {
    let llm = FakeLlmProvider::with_response("unused");
    let embedding = FakeEmbeddingProvider::new();
    let store = InMemoryVectorStore::new(distance);
    let memory = TestMemory::new(llm, embedding, store);
    memory.add(&[message(Role::User, "Bob Smith works at the office.")], scope(), false).expect("add should succeed");

    let mut results = vec![Found { id: "some-id".to_string(), score: 5.0, payload: HashMap::new(), score_details: None }];
    memory.apply_entity_boost("just a plain lowercase query", &scope(), &mut results, false).expect("boost should succeed");
    assert!((results[0].score - 5.0).abs() < 1e-6, "a query with no extractable entities must leave scores unchanged, got {}", results[0].score);
}

#[test]
fn test_apply_entity_boost_is_a_no_op_when_no_stored_entity_matches() {
    let llm = FakeLlmProvider::with_response("unused");
    let embedding = FakeEmbeddingProvider::new();
    let store = InMemoryVectorStore::new(distance);
    let memory = TestMemory::new(llm, embedding, store);

    let mut results = vec![Found { id: "some-id".to_string(), score: 5.0, payload: HashMap::new(), score_details: None }];
    memory.apply_entity_boost("Nobody Special mentioned here", &scope(), &mut results, false).expect("boost should succeed");
    assert!((results[0].score - 5.0).abs() < 1e-6, "a query entity with no matching stored entity record must leave scores unchanged, got {}", results[0].score);
}

#[test]
fn test_add_with_a_text_only_message_never_calls_describe_image() {
    let llm = FakeLlmProvider::with_response("Alice is an engineer.");
    let embedding = FakeEmbeddingProvider::new();
    let store = InMemoryVectorStore::new(distance);
    let memory = TestMemory::new(llm, embedding, store);

    let messages = [message(Role::User, "Alice is an engineer.")];
    let ids = memory.add(&messages, scope(), false).expect("add should succeed");
    let record = memory.vector_store.get(&ids[0]).unwrap().unwrap();
    assert_eq!(
        record.payload.get("content"),
        Some(&"Alice is an engineer.".to_string()),
        "a message with no images must be stored as-is, not routed through image description"
    );
}

#[test]
fn test_add_with_infer_true_still_calls_extract_facts_unchanged() {
    let llm = FakeLlmProvider::with_facts("Alice is an engineer.\nBob lives in Berlin.");
    let embedding = FakeEmbeddingProvider::new();
    let store = InMemoryVectorStore::new(distance);
    let memory = TestMemory::new(llm, embedding, store);

    let messages = [message(Role::User, "Alice is an engineer and Bob lives in Berlin.")];
    let ids = memory.add(&messages, scope(), true).expect("add should succeed");
    assert_eq!(ids.len(), 2, "infer=true's existing extraction behavior must be unchanged");
    let contents: Vec<String> = ids
        .iter()
        .map(|id| memory.vector_store.get(id).unwrap().unwrap().payload.get("content").unwrap().clone())
        .collect();
    assert!(contents.contains(&"Alice is an engineer.".to_string()));
    assert!(contents.contains(&"Bob lives in Berlin.".to_string()));
}

#[test]
fn test_add_with_infer_true_never_tags_a_role_on_the_payload() {
    let llm = FakeLlmProvider::with_facts("Alice is an engineer.");
    let embedding = FakeEmbeddingProvider::new();
    let store = InMemoryVectorStore::new(distance);
    let memory = TestMemory::new(llm, embedding, store);

    let messages = [message(Role::User, "Alice is an engineer.")];
    let ids = memory.add(&messages, scope(), true).expect("add should succeed");
    let id = ids.first().expect("expected at least one id");
    let record = memory.vector_store.get(id).expect("get should succeed").expect("record should exist");
    assert_eq!(record.payload.get("role"), None, "infer=true's facts have no single originating role to tag");
}

#[test]
fn test_add_multiple_messages_in_one_call() {
    let llm = FakeLlmProvider::with_facts("The project started in 2021.\nThe team uses Rust.");
    let embedding = FakeEmbeddingProvider::new();
    let store = InMemoryVectorStore::new(distance);
    let memory = TestMemory::new(llm, embedding, store);

    let messages = [
        message(Role::User, "When did the project start?"),
        message(Role::Assistant, "In 2021, I believe."),
        message(Role::User, "What language does the team use?"),
        message(Role::Assistant, "They use Rust."),
    ];
    let ids = memory.add(&messages, scope(), true).expect("add should succeed");
    assert!(
        !ids.is_empty(),
        "add should return at least one record id for multiple messages"
    );

    for id in &ids {
        let record = memory
            .vector_store
            .get(id)
            .expect("get should succeed")
            .expect("record should exist in the store");
        assert_eq!(&record.id, id);
    }
}

#[test]
fn test_add_scope_is_stored_in_payload() {
    let llm = FakeLlmProvider::with_facts("Alice is an engineer.");
    let embedding = FakeEmbeddingProvider::new();
    let store = InMemoryVectorStore::new(distance);
    let memory = TestMemory::new(llm, embedding, store);

    let messages = [message(Role::User, "Alice is an engineer.")];
    let s = scope();
    let ids = memory.add(&messages, s.clone(), true).expect("add should succeed");
    assert!(!ids.is_empty());

    let query = vec![1.0_f32, 1.0, 1.0, 1.0];
    let results = memory
        .vector_store
        .search(&query, ids.len(), &s, None)
        .expect("search should succeed");
    assert!(
        !results.is_empty(),
        "search with scope filter should return records"
    );

    for result in &results {
        for (key, value) in &s {
            assert_eq!(
                result.payload.get(key),
                Some(value),
                "scope entry {key} should be present in the record payload"
            );
        }
    }
}

#[test]
fn test_add_scope_with_user_id() {
    let llm = FakeLlmProvider::with_facts("Alice is an engineer.");
    let embedding = FakeEmbeddingProvider::new();
    let store = InMemoryVectorStore::new(distance);
    let memory = TestMemory::new(llm, embedding, store);

    let messages = [message(Role::User, "Alice is an engineer.")];
    let s = HashMap::from([("user_id".to_string(), "alice".to_string())]);
    let ids = memory.add(&messages, s, true).expect("add should succeed");
    assert!(!ids.is_empty());
}

#[test]
fn test_add_scope_with_agent_id() {
    let llm = FakeLlmProvider::with_facts("Alice is an engineer.");
    let embedding = FakeEmbeddingProvider::new();
    let store = InMemoryVectorStore::new(distance);
    let memory = TestMemory::new(llm, embedding, store);

    let messages = [message(Role::User, "Alice is an engineer.")];
    let s = HashMap::from([("agent_id".to_string(), "bot1".to_string())]);
    let ids = memory.add(&messages, s, true).expect("add should succeed");
    assert!(!ids.is_empty());
}

#[test]
fn test_add_scope_with_run_id() {
    let llm = FakeLlmProvider::with_facts("Alice is an engineer.");
    let embedding = FakeEmbeddingProvider::new();
    let store = InMemoryVectorStore::new(distance);
    let memory = TestMemory::new(llm, embedding, store);

    let messages = [message(Role::User, "Alice is an engineer.")];
    let s = HashMap::from([("run_id".to_string(), "run-123".to_string())]);
    let ids = memory.add(&messages, s, true).expect("add should succeed");
    assert!(!ids.is_empty());
}

#[test]
fn test_add_empty_scope_is_rejected() {
    let llm = FakeLlmProvider::with_facts("Alice is an engineer.");
    let embedding = FakeEmbeddingProvider::new();
    let store = InMemoryVectorStore::new(distance);
    let memory = TestMemory::new(llm, embedding, store);

    let messages = [message(Role::User, "Alice is an engineer.")];
    let s = HashMap::new();
    let result = memory.add(&messages, s, true);
    assert!(matches!(result, Err(CoreError::Validation(_))));
}

#[test]
fn test_add_scope_with_non_scope_key_is_rejected() {
    let llm = FakeLlmProvider::with_facts("Alice is an engineer.");
    let embedding = FakeEmbeddingProvider::new();
    let store = InMemoryVectorStore::new(distance);
    let memory = TestMemory::new(llm, embedding, store);

    let messages = [message(Role::User, "Alice is an engineer.")];
    let s = HashMap::from([("source".to_string(), "x".to_string())]);
    let result = memory.add(&messages, s, true);
    assert!(matches!(result, Err(CoreError::Validation(_))));
}

#[test]
fn test_add_scope_with_multiple_keys_one_is_scope_id() {
    let llm = FakeLlmProvider::with_facts("Alice is an engineer.");
    let embedding = FakeEmbeddingProvider::new();
    let store = InMemoryVectorStore::new(distance);
    let memory = TestMemory::new(llm, embedding, store);

    let messages = [message(Role::User, "Alice is an engineer.")];
    let s = HashMap::from([("source".to_string(), "x".to_string()), ("user_id".to_string(), "alice".to_string())]);
    let ids = memory.add(&messages, s, true).expect("add should succeed");
    assert!(!ids.is_empty());
}

#[test]
fn test_add_metadata_is_generic() {
    let llm = FakeLlmProvider::with_facts("Alice is an engineer.");
    let embedding = FakeEmbeddingProvider::new();
    let store = InMemoryVectorStore::new(distance);
    let memory = TestMemory::new(llm, embedding, store);

    let messages = [message(Role::User, "Alice is an engineer.")];
    let s = HashMap::from([("user_id".to_string(), "alice".to_string()), ("source".to_string(), "chat_import".to_string())]);
    let ids = memory.add(&messages, s, true).expect("add should succeed");
    assert!(!ids.is_empty());

    let id = ids.first().expect("expected at least one id");
    let record = memory
        .vector_store
        .get(id)
        .expect("get should succeed")
        .expect("record should exist in the store");
    let payload = record.payload;
    assert_eq!(payload.get("user_id"), Some(&"alice".to_string()), "user_id should be in payload");
    assert_eq!(payload.get("source"), Some(&"chat_import".to_string()), "source should be in payload");
}

#[test]
fn test_add_dedup_same_fact_same_scope() {
    let llm = FakeLlmProvider::with_facts("Alice is an engineer.");
    let embedding = FakeEmbeddingProvider::new();
    let store = InMemoryVectorStore::new(distance);
    let memory = TestMemory::new(llm, embedding, store);

    let messages = [message(Role::User, "Alice is an engineer.")];
    let s = scope();
    let ids1 = memory.add(&messages, s.clone(), true).expect("add should succeed");
    let ids2 = memory.add(&messages, s, true).expect("add should succeed");
    assert!(ids2.is_empty(), "second add should return empty ids for duplicate");
    let record = memory.vector_store.get(&ids1[0]).expect("get should succeed").expect("record should exist");
    let payload = record.payload;
    assert_eq!(payload.get("content"), Some(&"Alice is an engineer.".to_string()), "content should be stored in payload");
}

#[test]
fn test_add_dedup_same_fact_different_scope() {
    let llm = FakeLlmProvider::with_facts("Alice is an engineer.");
    let embedding = FakeEmbeddingProvider::new();
    let store = InMemoryVectorStore::new(distance);
    let memory = TestMemory::new(llm, embedding, store);

    let messages = [message(Role::User, "Alice is an engineer.")];
    let s1 = HashMap::from([("user_id".to_string(), "alice".to_string())]);
    let s2 = HashMap::from([("user_id".to_string(), "bob".to_string())]);
    let ids1 = memory.add(&messages, s1, true).expect("add should succeed");
    let ids2 = memory.add(&messages, s2, true).expect("add should succeed");
    assert!(!ids2.is_empty(), "second add should return an id for different scope");
    let unique_ids: std::collections::HashSet<String> = ids1.into_iter().chain(ids2).collect();
    assert_eq!(unique_ids.len(), 2, "same fact in different scopes should result in two records");
}

#[test]
fn test_add_rejects_empty_message_content() {
    let llm = FakeLlmProvider::with_facts("Alice is an engineer.");
    let embedding = FakeEmbeddingProvider::new();
    let store = InMemoryVectorStore::new(distance);
    let memory = TestMemory::new(llm, embedding, store);

    let messages = [
        message(Role::User, "Alice is an engineer."),
        message(Role::User, ""),
    ];
    let result = memory.add(&messages, scope(), true);
    assert!(matches!(result, Err(CoreError::Validation(_))));
}

#[test]
fn test_add_all_messages_have_content_still_works() {
    let llm = FakeLlmProvider::with_facts("Alice is an engineer.");
    let embedding = FakeEmbeddingProvider::new();
    let store = InMemoryVectorStore::new(distance);
    let memory = TestMemory::new(llm, embedding, store);

    let messages = [
        message(Role::User, "Alice is an engineer."),
        message(Role::User, "Bob lives in Berlin."),
    ];
    let ids = memory.add(&messages, scope(), true).expect("add should succeed");
    assert!(!ids.is_empty());
}

#[test]
fn test_search_returns_matching_memories() {
    let llm = FakeLlmProvider::with_facts("Alice is an engineer.");
    let embedding = FakeEmbeddingProvider::new();
    let store = InMemoryVectorStore::new(distance);
    let memory = TestMemory::new(llm, embedding, store);

    let messages = [message(Role::User, "Alice is an engineer.")];
    let _ = memory.add(&messages, scope(), true).expect("add should succeed");

    let query = "Alice engineer";
    let results = memory.search(query, 10, &scope(), None, true, None, false, false).expect("search should succeed");
    assert!(
        !results.is_empty(),
        "search should return matching memories"
    );
    assert!(
        results
            .iter()
            .any(|r| r.payload.get("content").map(String::as_str) == Some("Alice is an engineer.")),
        "search results should contain the added fact"
    );
}

#[test]
fn test_search_respects_top_k() {
    let llm = FakeLlmProvider::with_facts("Fact one.\nFact two.\nFact three.\nFact four.\nFact five.");
    let embedding = FakeEmbeddingProvider::new();
    let store = InMemoryVectorStore::new(distance);
    let memory = TestMemory::new(llm, embedding, store);

    let messages = [message(Role::User, "Five facts.")];
    let _ = memory.add(&messages, scope(), true).expect("add should succeed");

    for i in 1..=5 {
        let fact = format!("Fact {i}.");
        let s = HashMap::from([("user_id".to_string(), "alice".to_string())]);
        memory.add(&[message(Role::User, &fact)], s, true).expect("add should succeed");
    }

    let query = "fact";
    let results = memory.search(query, 3, &scope(), None, true, None, false, false).expect("search should succeed");
    assert!(
        results.len() <= 3,
        "search should return at most top_k results, got {}",
        results.len()
    );
}

#[test]
fn test_search_scoped_to_user() {
    let embedding = FakeEmbeddingProvider::new();
    let store = InMemoryVectorStore::new(distance);
    let memory = TestMemory::new(FakeLlmProvider::new(), embedding.clone(), store);

    let alice_scope = HashMap::from([("user_id".to_string(), "alice".to_string())]);
    let bob_scope = HashMap::from([("user_id".to_string(), "bob".to_string())]);

    let alice_vector = embedding.embed("Alice is an engineer.").expect("embed should succeed");
    let bob_vector = embedding.embed("Bob is a designer.").expect("embed should succeed");

    let mut alice_payload = alice_scope.clone();
    alice_payload.insert("content".to_string(), "Alice is an engineer.".to_string());
    let alice_record = Record::new("rec-1".to_string(), alice_vector, alice_payload);
    memory.vector_store.insert(alice_record).expect("insert should succeed");

    let mut bob_payload = bob_scope.clone();
    bob_payload.insert("content".to_string(), "Bob is a designer.".to_string());
    let bob_record = Record::new("rec-2".to_string(), bob_vector, bob_payload);
    memory.vector_store.insert(bob_record).expect("insert should succeed");

    let results = memory.search("engineer", 10, &alice_scope, None, true, None, false, false).expect("search should succeed");
    assert_eq!(
        results.len(),
        1,
        "should only return alice's records when scoped to alice"
    );
    assert_eq!(
        results[0].payload.get("content"),
        Some(&"Alice is an engineer.".to_string()),
        "returned record should be alice's"
    );

    let results = memory.search("designer", 10, &bob_scope, None, true, None, false, false).expect("search should succeed");
    assert_eq!(
        results.len(),
        1,
        "should only return bob's records when scoped to bob"
    );
    assert_eq!(
        results[0].payload.get("content"),
        Some(&"Bob is a designer.".to_string()),
        "returned record should be bob's"
    );
}

#[test]
fn test_search_no_matches_returns_empty_ok() {
    let llm = FakeLlmProvider::new();
    let embedding = FakeEmbeddingProvider::new();
    let store = InMemoryVectorStore::new(distance);
    let memory = TestMemory::new(llm, embedding, store);

    let result = memory.search("anything", 10, &scope(), None, true, None, false, false);
    assert!(matches!(result, Ok(vec) if vec.is_empty()));
}

#[test]
fn test_search_rejects_zero_top_k() {
    let llm = FakeLlmProvider::new();
    let embedding = FakeEmbeddingProvider::new();
    let store = InMemoryVectorStore::new(distance);
    let memory = TestMemory::new(llm, embedding, store);

    let result = memory.search("anything", 0, &scope(), None, true, None, false, false);
    assert!(matches!(result, Err(CoreError::Validation(_))));
}

#[test]
fn test_search_rejects_a_negative_threshold() {
    let llm = FakeLlmProvider::new();
    let embedding = FakeEmbeddingProvider::new();
    let store = InMemoryVectorStore::new(distance);
    let memory = TestMemory::new(llm, embedding, store);

    let result = memory.search("anything", 10, &scope(), Some(-0.1), true, None, false, false);
    assert!(matches!(result, Err(CoreError::Validation(_))));
}

#[test]
fn test_search_rejects_rerank_when_no_reranker_is_configured() {
    let llm = FakeLlmProvider::new();
    let embedding = FakeEmbeddingProvider::new();
    let store = InMemoryVectorStore::new(distance);
    let memory = TestMemory::new(llm, embedding, store);

    let result = memory.search("anything", 10, &scope(), None, true, None, true, false);
    assert!(matches!(result, Err(CoreError::Validation(_))), "rerank=true with no configured reranker must be a validation error, not a silent no-op");
}

#[test]
fn test_search_with_rerank_true_invokes_the_configured_reranker() {
    let llm = FakeLlmProvider::new();
    let embedding = FakeEmbeddingProvider::new();
    let store = InMemoryVectorStore::new(distance);
    let memory = TestMemory::new(llm, embedding, store).with_reranker(FakeRerankerProvider::failing());

    let result = memory.search("anything", 10, &scope(), None, true, None, true, false);
    assert!(matches!(result, Err(CoreError::Provider { .. })), "rerank=true must actually invoke the configured reranker, got: {result:?}");
}

#[test]
fn test_search_with_rerank_false_never_invokes_the_configured_reranker() {
    let llm = FakeLlmProvider::with_facts("Alice is an engineer.");
    let embedding = FakeEmbeddingProvider::new();
    let store = InMemoryVectorStore::new(distance);
    let memory = TestMemory::new(llm, embedding, store).with_reranker(FakeRerankerProvider::failing());
    memory.add(&[message(Role::User, "Alice is an engineer.")], scope(), true).expect("add should succeed");

    let result = memory.search("engineer", 10, &scope(), None, true, None, false, false);
    assert!(result.is_ok(), "rerank=false must not invoke a configured reranker even if it would fail: {result:?}");
}

fn search_result_with_content(id: &str, distance: f32, content: &str, record_scope: &HashMap<String, String>) -> Found {
    let mut payload = record_scope.clone();
    payload.insert("content".to_string(), content.to_string());
    Found { id: id.to_string(), score: distance, payload, score_details: None }
}

#[test]
fn combine_with_keyword_scores_promotes_a_semantically_middling_result_with_a_much_stronger_keyword_match() {
    let mut results = vec![
        search_result_with_content("best_semantic", 100.0, "a", &scope()),
        search_result_with_content("best_keyword", 150.0, "b", &scope()),
        search_result_with_content("worst_both", 200.0, "c", &scope()),
    ];
    let keyword_results = vec![
        search_result_with_content("best_semantic", -1.0, "a", &scope()),
        search_result_with_content("best_keyword", -10.0, "b", &scope()),
        search_result_with_content("worst_both", -3.0, "c", &scope()),
    ];
    combine_with_keyword_scores(&mut results, &keyword_results, false);
    assert_eq!(results[0].id, "best_keyword", "a strong enough keyword match should be able to promote a semantically-middling result above the semantically-best one, got: {results:?}");
}

#[test]
fn combine_with_keyword_scores_treats_an_unmatched_candidate_as_the_worst_case() {
    let mut results = vec![
        search_result_with_content("matched", 150.0, "matched", &scope()),
        search_result_with_content("unmatched", 150.0, "unmatched", &scope()),
    ];
    let keyword_results = vec![search_result_with_content("matched", -3.0, "matched", &scope())];
    combine_with_keyword_scores(&mut results, &keyword_results, false);
    assert_eq!(results[0].id, "matched", "a real keyword match should outrank a candidate with no keyword match at all, given equal semantic scores");
}

#[test]
fn combine_with_keyword_scores_explain_false_produces_identical_scores_to_before_score_details_existed() {
    let mut with_explain = vec![
        search_result_with_content("a", 100.0, "a", &scope()),
        search_result_with_content("b", 150.0, "b", &scope()),
    ];
    let mut without_explain = with_explain.clone();
    let keyword_results = vec![search_result_with_content("a", -1.0, "a", &scope()), search_result_with_content("b", -10.0, "b", &scope())];
    combine_with_keyword_scores(&mut with_explain, &keyword_results, true);
    combine_with_keyword_scores(&mut without_explain, &keyword_results, false);
    let with_scores: Vec<f32> = with_explain.iter().map(|r| r.score).collect();
    let without_scores: Vec<f32> = without_explain.iter().map(|r| r.score).collect();
    assert_eq!(with_scores, without_scores, "explain must never change the actual combined score or sort order");
    let with_ids: Vec<&str> = with_explain.iter().map(|r| r.id.as_str()).collect();
    let without_ids: Vec<&str> = without_explain.iter().map(|r| r.id.as_str()).collect();
    assert_eq!(with_ids, without_ids, "explain must never change the actual sort order");
    assert!(without_explain.iter().all(|r| r.score_details.is_none()), "explain=false must never populate score_details");
}

#[test]
fn combine_with_keyword_scores_explain_true_records_the_real_component_scores() {
    let mut results = vec![search_result_with_content("matched", 150.0, "matched", &scope()), search_result_with_content("unmatched", 150.0, "unmatched", &scope())];
    for result in &mut results {
        result.score_details = Some(Details {
            semantic_score: result.score,
            bm25_score: None,
            entity_boost: None,
            raw_score: result.score,
            final_score: result.score,
        });
    }
    let keyword_results = vec![search_result_with_content("matched", -3.0, "matched", &scope())];
    combine_with_keyword_scores(&mut results, &keyword_results, true);
    let matched = results.iter().find(|r| r.id == "matched").expect("matched result");
    let matched_details = matched.score_details.as_ref().expect("explain=true must populate score_details");
    assert!((matched_details.semantic_score - 150.0).abs() < 1e-6, "semantic_score must be the pre-normalization original, got {}", matched_details.semantic_score);
    assert_eq!(matched_details.bm25_score, Some(-3.0), "bm25_score must be the real raw keyword score for a matched id");
    assert!((matched_details.raw_score - matched.score).abs() < 1e-6, "raw_score must track the combined score at this stage");
    assert!((matched_details.final_score - matched.score).abs() < 1e-6, "final_score must track the combined score at this stage");
    let unmatched = results.iter().find(|r| r.id == "unmatched").expect("unmatched result");
    assert_eq!(unmatched.score_details.as_ref().expect("explain=true must populate score_details").bm25_score, None, "bm25_score must be None for a candidate with no keyword match");
}

#[test]
fn test_search_combines_keyword_results_when_the_vector_store_supports_it() {
    let llm = FakeLlmProvider::new();
    let embedding = FakeEmbeddingProvider::new();
    let keyword_results = vec![search_result_with_content("b", -5.0, "rust programming", &scope())];
    let store = FixedKeywordSearchVectorStore::new(keyword_results);
    let memory = TestMemory::new(llm, embedding, store);
    memory.add(&[message(Role::User, "irrelevant content here")], scope(), false).expect("add should succeed");
    memory.add(&[message(Role::User, "rust programming")], scope(), false).expect("add should succeed");

    let results = memory.search("query", 10, &scope(), None, true, None, false, false).expect("search should succeed");
    let rust_result = results.iter().find(|r| r.payload.get("content") == Some(&"rust programming".to_string())).expect("expected the rust programming record");
    let other_result = results.iter().find(|r| r.payload.get("content") == Some(&"irrelevant content here".to_string())).expect("expected the irrelevant record");
    assert!(rust_result.score < other_result.score, "the record with a real keyword match should have a better (lower) combined score, got: {results:?}");
}

#[test]
fn test_search_is_unaffected_when_keyword_search_returns_an_empty_result() {
    let llm = FakeLlmProvider::new();
    let embedding = FakeEmbeddingProvider::new();
    let store = FixedKeywordSearchVectorStore::new(Vec::new());
    let memory = TestMemory::new(llm, embedding, store);
    memory.add(&[message(Role::User, "some content")], scope(), false).expect("add should succeed");

    let results = memory.search("query", 10, &scope(), None, true, None, false, false).expect("search should succeed");
    assert_eq!(results.len(), 1);
    assert!(results[0].score > 1.0, "an empty keyword_search result must not trigger normalization/combination at all; expected the raw, unnormalized semantic distance, got {}", results[0].score);
}

#[test]
fn test_search_explain_false_never_populates_score_details() {
    let llm = FakeLlmProvider::new();
    let embedding = FakeEmbeddingProvider::new();
    let keyword_results = vec![search_result_with_content("b", -5.0, "rust programming", &scope())];
    let store = FixedKeywordSearchVectorStore::new(keyword_results);
    let memory = TestMemory::new(llm, embedding, store);
    memory.add(&[message(Role::User, "rust programming")], scope(), false).expect("add should succeed");

    let results = memory.search("query", 10, &scope(), None, true, None, false, false).expect("search should succeed");
    assert!(results.iter().all(|r| r.score_details.is_none()), "explain=false must never populate score_details, even when keyword combination runs");
}

#[test]
fn test_search_explain_true_with_a_keyword_match_records_the_real_breakdown() {
    let embedding = FakeEmbeddingProvider::new();
    let keyword_results = vec![search_result_with_content("rec-1", -5.0, "rust programming", &scope())];
    let store = FixedKeywordSearchVectorStore::new(keyword_results);
    let memory = TestMemory::new(FakeLlmProvider::new(), embedding.clone(), store);
    let vector = embedding.embed("rust programming").expect("embed should succeed");
    let mut payload = scope();
    payload.insert("content".to_string(), "rust programming".to_string());
    memory.vector_store.insert(Record::new("rec-1".to_string(), vector, payload)).expect("insert should succeed");

    let results = memory.search("query", 10, &scope(), None, true, None, false, true).expect("search should succeed");
    let result = &results[0];
    let details = result.score_details.as_ref().expect("explain=true must populate score_details");
    assert_eq!(details.bm25_score, Some(-5.0), "a real keyword match by id must produce the real raw bm25_score");
    assert!((details.final_score - result.score).abs() < 1e-6, "final_score must equal the real returned score");
}

#[test]
fn test_search_explain_true_with_neither_keyword_nor_entity_match_reports_an_unmodified_breakdown() {
    let llm = FakeLlmProvider::new();
    let embedding = FakeEmbeddingProvider::new();
    let store = InMemoryVectorStore::new(distance);
    let memory = TestMemory::new(llm, embedding, store);
    memory.add(&[message(Role::User, "plain lowercase content")], scope(), false).expect("add should succeed");

    let results = memory.search("plain lowercase content", 10, &scope(), None, true, None, false, true).expect("search should succeed");
    let details = results[0].score_details.as_ref().expect("explain=true must populate score_details even with no keyword/entity signal");
    assert_eq!(details.bm25_score, None, "no keyword_search support means bm25_score must be None");
    assert_eq!(details.entity_boost, None, "no matching query entity means entity_boost must be None");
    assert!((details.semantic_score - details.raw_score).abs() < 1e-6, "with no combination stages, semantic_score, raw_score, and final_score must all be equal");
    assert!((details.raw_score - details.final_score).abs() < 1e-6, "with no combination stages, semantic_score, raw_score, and final_score must all be equal");
}

#[test]
fn test_search_explain_true_with_an_entity_boost_records_the_real_factor() {
    let llm = FakeLlmProvider::with_response("unused");
    let embedding = FakeEmbeddingProvider::new();
    let store = InMemoryVectorStore::new(distance);
    let memory = TestMemory::new(llm, embedding, store);
    memory.add(&[message(Role::User, "Bob Smith works at the office.")], scope(), false).expect("add should succeed");
    memory.add(&[message(Role::User, "The weather was nice today.")], scope(), false).expect("add should succeed");

    let results = memory.search("Tell me about Bob Smith", 10, &scope(), None, true, None, false, true).expect("search should succeed");
    let boosted = results.iter().find(|r| r.payload.get("content") == Some(&"Bob Smith works at the office.".to_string())).expect("bob's record");
    let details = boosted.score_details.as_ref().expect("explain=true must populate score_details");
    assert_eq!(details.entity_boost, Some(1.0 - ENTITY_BOOST_FRACTION), "a real entity-linked result must record the real boost factor");
}

#[test]
fn test_search_accepts_a_zero_threshold() {
    let llm = FakeLlmProvider::new();
    let embedding = FakeEmbeddingProvider::new();
    let store = InMemoryVectorStore::new(distance);
    let memory = TestMemory::new(llm, embedding, store);

    let result = memory.search("anything", 10, &scope(), Some(0.0), true, None, false, false);
    assert!(result.is_ok());
}

#[test]
fn test_search_accepts_positive_top_k() {
    let llm = FakeLlmProvider::new();
    let embedding = FakeEmbeddingProvider::new();
    let store = InMemoryVectorStore::new(distance);
    let memory = TestMemory::new(llm, embedding, store);

    let result = memory.search("anything", 1, &scope(), None, true, None, false, false);
    assert!(result.is_ok());
}

#[test]
fn test_update_content_changes_stored_content() {
    let llm = FakeLlmProvider::with_facts("Alice is an engineer.");
    let embedding = FakeEmbeddingProvider::new();
    let store = InMemoryVectorStore::new(distance);
    let memory = TestMemory::new(llm, embedding, store);

    let messages = [message(Role::User, "Alice is an engineer.")];
    let ids = memory.add(&messages, scope(), true).expect("add should succeed");
    let id = ids.first().expect("expected at least one id");

    memory
        .update(id, Some("Alice is a senior engineer."), None)
        .expect("update should succeed");

    let record = memory
        .vector_store
        .get(id)
        .expect("get should succeed")
        .expect("record should exist in the store");
    assert_eq!(
        record.payload.get("content"),
        Some(&"Alice is a senior engineer.".to_string()),
        "content should be updated to new value"
    );
}

#[test]
fn test_update_missing_id_returns_not_found() {
    let llm = FakeLlmProvider::new();
    let embedding = FakeEmbeddingProvider::new();
    let store = InMemoryVectorStore::new(distance);
    let memory = TestMemory::new(llm, embedding, store);

    let result = memory.update("does-not-exist", None, None);
    assert!(matches!(result, Err(CoreError::NotFound(_))));
}

#[test]
fn test_update_metadata_merges_new_key() {
    let llm = FakeLlmProvider::with_facts("Alice is an engineer.");
    let embedding = FakeEmbeddingProvider::new();
    let store = InMemoryVectorStore::new(distance);
    let memory = TestMemory::new(llm, embedding, store);

    let messages = [message(Role::User, "Alice is an engineer.")];
    let ids = memory.add(&messages, scope(), true).expect("add should succeed");
    let id = ids.first().expect("expected at least one id");

    memory.update(id, None, Some(HashMap::from([("source".to_string(), "chat_import".to_string())]))).expect("update should succeed");

    let record = memory.vector_store.get(id).expect("get should succeed").expect("record should exist");
    let payload = record.payload;
    assert_eq!(payload.get("user_id"), Some(&"alice".to_string()), "user_id should still be present");
    assert_eq!(payload.get("source"), Some(&"chat_import".to_string()), "source should be merged");
}

#[test]
fn test_update_metadata_overwrites_existing_key() {
    let llm = FakeLlmProvider::with_facts("Alice is an engineer.");
    let embedding = FakeEmbeddingProvider::new();
    let store = InMemoryVectorStore::new(distance);
    let memory = TestMemory::new(llm, embedding, store);

    let messages = [message(Role::User, "Alice is an engineer.")];
    let ids = memory
        .add(&messages, HashMap::from([("user_id".to_string(), "alice".to_string()), ("source".to_string(), "chat_import".to_string())]), true)
        .expect("add should succeed");
    let id = ids.first().expect("expected at least one id");

    let original_content = memory.vector_store.get(id).expect("get should succeed").expect("record should exist").payload.get("content").cloned();

    memory.update(id, None, Some(HashMap::from([("source".to_string(), "manual_edit".to_string())]))).expect("update should succeed");

    let record = memory.vector_store.get(id).expect("get should succeed").expect("record should exist");
    let payload = record.payload;
    assert_eq!(payload.get("source"), Some(&"manual_edit".to_string()), "source should be overwritten to manual_edit");
    assert_eq!(payload.get("content"), original_content.as_ref(), "content should remain unchanged");
}

#[test]
fn test_update_rejects_changing_user_id() {
    let llm = FakeLlmProvider::with_facts("Alice is an engineer.");
    let embedding = FakeEmbeddingProvider::new();
    let store = InMemoryVectorStore::new(distance);
    let memory = TestMemory::new(llm, embedding, store);

    let messages = [message(Role::User, "Alice is an engineer.")];
    let ids = memory.add(&messages, scope(), true).expect("add should succeed");
    let id = ids.first().expect("expected at least one id");

    let result = memory.update(id, None, Some(HashMap::from([("user_id".to_string(), "mallory".to_string())])));
    assert!(matches!(result, Err(CoreError::Validation(_))));
}

#[test]
fn test_update_rejects_changing_agent_id_or_run_id() {
    let llm = FakeLlmProvider::with_facts("Alice is an engineer.");
    let embedding = FakeEmbeddingProvider::new();
    let store = InMemoryVectorStore::new(distance);
    let memory = TestMemory::new(llm, embedding, store);

    let messages = [message(Role::User, "Alice is an engineer.")];
    let ids = memory.add(&messages, scope(), true).expect("add should succeed");
    let id = ids.first().expect("expected at least one id");

    let result = memory.update(id, None, Some(HashMap::from([("agent_id".to_string(), "other-bot".to_string())])));
    assert!(matches!(result, Err(CoreError::Validation(_))));
}

#[test]
fn test_delete_removes_record() {
    let llm = FakeLlmProvider::with_facts("Alice is an engineer.");
    let embedding = FakeEmbeddingProvider::new();
    let store = InMemoryVectorStore::new(distance);
    let memory = TestMemory::new(llm, embedding, store);

    let messages = [message(Role::User, "Alice is an engineer.")];
    let ids = memory.add(&messages, scope(), true).expect("add should succeed");
    let id = ids.first().expect("expected at least one id");

    memory.delete(id).expect("delete should succeed");

    let record = memory.vector_store.get(id).expect("get should succeed");
    assert_eq!(record, None, "deleted record should no longer be found");
}

#[test]
fn test_delete_is_idempotent_when_called_twice() {
    let llm = FakeLlmProvider::with_facts("Alice is an engineer.");
    let embedding = FakeEmbeddingProvider::new();
    let store = InMemoryVectorStore::new(distance);
    let memory = TestMemory::new(llm, embedding, store);

    let messages = [message(Role::User, "Alice is an engineer.")];
    let ids = memory.add(&messages, scope(), true).expect("add should succeed");
    let id = ids.first().expect("expected at least one id");

    memory.delete(id).expect("first delete should succeed");
    let second = memory.delete(id);
    assert!(second.is_ok(), "deleting an already-deleted id must not error");
}

#[test]
fn test_delete_nonexistent_id_is_idempotent() {
    let llm = FakeLlmProvider::new();
    let embedding = FakeEmbeddingProvider::new();
    let store = InMemoryVectorStore::new(distance);
    let memory = TestMemory::new(llm, embedding, store);

    let result = memory.delete("never-inserted");
    assert!(result.is_ok(), "deleting an id that was never inserted must not error");
}

#[test]
fn test_reset_clears_all_memories_for_scope() {
    let llm = FakeLlmProvider::with_facts("Fact one.\nFact two.");
    let embedding = FakeEmbeddingProvider::new();
    let store = InMemoryVectorStore::new(distance);
    let memory = TestMemory::new(llm, embedding, store);

    let messages = [message(Role::User, "Two facts.")];
    let ids = memory.add(&messages, scope(), true).expect("add should succeed");
    assert!(ids.len() >= 2, "expected at least two records for this test to be meaningful");

    memory.reset(&scope(), None).expect("reset should succeed");

    for id in &ids {
        let record = memory.vector_store.get(id).expect("get should succeed");
        assert_eq!(record, None, "reset should have deleted every record in scope");
    }
}

#[test]
fn test_reset_leaves_other_scopes_untouched() {
    let llm = FakeLlmProvider::with_facts("Alice is an engineer.");
    let embedding = FakeEmbeddingProvider::new();
    let store = InMemoryVectorStore::new(distance);
    let memory = TestMemory::new(llm, embedding, store);

    let alice_scope = HashMap::from([("user_id".to_string(), "alice".to_string())]);
    let bob_scope = HashMap::from([("user_id".to_string(), "bob".to_string())]);

    let alice_ids = memory.add(&[message(Role::User, "Alice is an engineer.")], alice_scope.clone(), true).expect("add should succeed");
    let bob_ids = memory.add(&[message(Role::User, "Alice is an engineer.")], bob_scope, true).expect("add should succeed");

    memory.reset(&alice_scope, None).expect("reset should succeed");

    for id in &alice_ids {
        assert_eq!(memory.vector_store.get(id).expect("get should succeed"), None, "alice's records should be gone");
    }
    for id in &bob_ids {
        assert!(memory.vector_store.get(id).expect("get should succeed").is_some(), "bob's records should be untouched");
    }
}

#[test]
fn test_reset_with_a_real_filter_deletes_only_matching_records() {
    let llm = FakeLlmProvider::with_facts("irrelevant");
    let embedding = FakeEmbeddingProvider::new();
    let store = InMemoryVectorStore::new(distance);
    let memory = TestMemory::new(llm, embedding, store);

    let engineering_scope =
        HashMap::from([("user_id".to_string(), "alice".to_string()), ("category".to_string(), "engineering".to_string())]);
    let sales_scope =
        HashMap::from([("user_id".to_string(), "alice".to_string()), ("category".to_string(), "sales".to_string())]);
    let engineering_ids =
        memory.add(&[message(Role::User, "An engineering fact.")], engineering_scope, false).expect("add should succeed");
    let sales_ids = memory.add(&[message(Role::User, "A sales fact.")], sales_scope, false).expect("add should succeed");

    let filter = FilterExpr::Field("category".to_string(), FilterOp::Eq(FilterValue::String("engineering".to_string())));
    let deleted = memory.reset(&scope(), Some(&filter)).expect("reset should succeed");
    assert_eq!(deleted, 1);

    for id in &engineering_ids {
        assert_eq!(memory.vector_store.get(id).expect("get should succeed"), None, "the matching record must be gone");
    }
    for id in &sales_ids {
        assert!(memory.vector_store.get(id).expect("get should succeed").is_some(), "the non-matching record must survive");
    }
}

#[test]
fn test_reset_with_an_empty_scope_and_no_filter_deletes_everything() {
    let llm = FakeLlmProvider::with_facts("irrelevant");
    let embedding = FakeEmbeddingProvider::new();
    let store = InMemoryVectorStore::new(distance);
    let memory = TestMemory::new(llm, embedding, store);

    let alice_scope = HashMap::from([("user_id".to_string(), "alice".to_string())]);
    let bob_scope = HashMap::from([("user_id".to_string(), "bob".to_string())]);
    let alice_ids = memory.add(&[message(Role::User, "Alice's fact.")], alice_scope, false).expect("add should succeed");
    let bob_ids = memory.add(&[message(Role::User, "Bob's fact.")], bob_scope, false).expect("add should succeed");

    let deleted = memory.reset(&HashMap::new(), None).expect("reset should succeed");
    assert_eq!(deleted, 2);
    for id in alice_ids.iter().chain(bob_ids.iter()) {
        assert_eq!(memory.vector_store.get(id).expect("get should succeed"), None, "an empty scope with no filter must wipe everything");
    }
}

#[test]
fn test_reset_returns_the_real_count_of_deleted_records() {
    let llm = FakeLlmProvider::with_facts("irrelevant");
    let embedding = FakeEmbeddingProvider::new();
    let store = InMemoryVectorStore::new(distance);
    let memory = TestMemory::new(llm, embedding, store);
    for i in 1..=3 {
        let s = HashMap::from([("user_id".to_string(), "alice".to_string())]);
        memory.add(&[message(Role::User, format!("Fact {i}."))], s, false).expect("add should succeed");
    }
    let deleted = memory.reset(&scope(), None).expect("reset should succeed");
    assert_eq!(deleted, 3);
}

#[test]
fn test_reset_records_a_deleted_history_entry_for_each_record_it_removes() {
    let llm = FakeLlmProvider::with_facts("irrelevant");
    let embedding = FakeEmbeddingProvider::new();
    let store = InMemoryVectorStore::new(distance);
    let memory = TestMemory::new(llm, embedding, store);
    let ids = memory.add(&[message(Role::User, "A fact worth remembering.")], scope(), false).expect("add should succeed");

    memory.reset(&scope(), None).expect("reset should succeed");

    let entries = memory.history(&ids[0], 0, 10).expect("history should succeed");
    assert_eq!(entries.len(), 2, "reset must record a Deleted entry alongside the earlier Added one");
    assert_eq!(entries[0].event, HistoryEvent::Added);
    assert_eq!(entries[1].event, HistoryEvent::Deleted);
}

#[test]
fn test_reset_with_no_matching_scope_is_noop() {
    let llm = FakeLlmProvider::with_facts("Alice is an engineer.");
    let embedding = FakeEmbeddingProvider::new();
    let store = InMemoryVectorStore::new(distance);
    let memory = TestMemory::new(llm, embedding, store);

    let ids = memory.add(&[message(Role::User, "Alice is an engineer.")], scope(), true).expect("add should succeed");

    let other_scope = HashMap::from([("user_id".to_string(), "nobody-here".to_string())]);
    memory.reset(&other_scope, None).expect("reset with no matches should not error");

    for id in &ids {
        assert!(memory.vector_store.get(id).expect("get should succeed").is_some(), "unrelated scope's records should be untouched");
    }
}

#[test]
fn test_list_entities_groups_real_records_by_scope_field() {
    let llm = FakeLlmProvider::new();
    let embedding = FakeEmbeddingProvider::new();
    let store = InMemoryVectorStore::new(distance);
    let memory = TestMemory::new(llm, embedding, store);

    memory
        .add(
            &[message(Role::User, "Alice is an engineer.")],
            HashMap::from([("user_id".to_string(), "alice".to_string())]),
            false,
        )
        .expect("add should succeed");
    memory
        .add(
            &[message(Role::User, "Alice likes tea.")],
            HashMap::from([("user_id".to_string(), "alice".to_string())]),
            false,
        )
        .expect("add should succeed");
    memory
        .add(
            &[message(Role::User, "Bob is a designer.")],
            HashMap::from([("user_id".to_string(), "bob".to_string())]),
            false,
        )
        .expect("add should succeed");
    memory
        .add(&[message(Role::User, "Task one.")], HashMap::from([("run_id".to_string(), "run-1".to_string())]), false)
        .expect("add should succeed");

    let entities = memory.list_entities().expect("list_entities should succeed");
    let alice = entities.iter().find(|e| e.entity_type == "user_id" && e.entity_id == "alice").expect("alice entity");
    assert_eq!(alice.memory_count, 2);
    let bob = entities.iter().find(|e| e.entity_type == "user_id" && e.entity_id == "bob").expect("bob entity");
    assert_eq!(bob.memory_count, 1);
    let run = entities.iter().find(|e| e.entity_type == "run_id" && e.entity_id == "run-1").expect("run entity");
    assert_eq!(run.memory_count, 1);
}

#[test]
fn test_list_entities_with_no_records_is_empty() {
    let llm = FakeLlmProvider::new();
    let embedding = FakeEmbeddingProvider::new();
    let store = InMemoryVectorStore::new(distance);
    let memory = TestMemory::new(llm, embedding, store);

    let entities = memory.list_entities().expect("list_entities should succeed");
    assert!(entities.is_empty());
}

#[test]
fn test_history_snapshot_is_empty_for_a_fresh_memory() {
    let llm = FakeLlmProvider::new();
    let embedding = FakeEmbeddingProvider::new();
    let store = InMemoryVectorStore::new(distance);
    let memory = TestMemory::new(llm, embedding, store);

    assert!(memory.history_snapshot().is_empty());
}

#[test]
fn test_history_snapshot_reflects_real_added_and_deleted_entries() {
    let llm = FakeLlmProvider::with_facts("Alice is an engineer.");
    let embedding = FakeEmbeddingProvider::new();
    let store = InMemoryVectorStore::new(distance);
    let memory = TestMemory::new(llm, embedding, store);

    let ids = memory.add(&[message(Role::User, "Alice is an engineer.")], scope(), true).expect("add should succeed");
    let id = ids.first().expect("expected at least one id");
    memory.delete(id).expect("delete should succeed");

    let snapshot = memory.history_snapshot();
    assert_eq!(snapshot.get(id).expect("expected an entry for this id").len(), 2);
}

#[test]
fn test_load_history_snapshot_replaces_existing_state_and_history_reads_it_back() {
    let llm = FakeLlmProvider::new();
    let embedding = FakeEmbeddingProvider::new();
    let store = InMemoryVectorStore::new(distance);
    let memory = TestMemory::new(llm, embedding, store);

    let mut snapshot = HashMap::new();
    snapshot.insert("restored-id".to_string(), vec![HistoryEntry { event: HistoryEvent::Added, content: "restored content".to_string() }]);
    memory.load_history_snapshot(snapshot);

    let entries = memory.history("restored-id", 0, usize::MAX).expect("history should succeed");
    assert_eq!(entries.len(), 1);
    assert_eq!(entries[0].content, "restored content");
}

#[test]
fn test_load_history_snapshot_round_trips_through_history_snapshot() {
    let llm = FakeLlmProvider::with_facts("Bob likes tea.");
    let embedding = FakeEmbeddingProvider::new();
    let store = InMemoryVectorStore::new(distance);
    let source = TestMemory::new(llm, embedding, store);
    source.add(&[message(Role::User, "Bob likes tea.")], scope(), true).expect("add should succeed");

    let llm2 = FakeLlmProvider::new();
    let embedding2 = FakeEmbeddingProvider::new();
    let store2 = InMemoryVectorStore::new(distance);
    let restored = TestMemory::new(llm2, embedding2, store2);
    restored.load_history_snapshot(source.history_snapshot());

    assert_eq!(restored.history_snapshot(), source.history_snapshot());
}

#[test]
fn test_list_entities_is_sorted_by_type_then_id() {
    let llm = FakeLlmProvider::new();
    let embedding = FakeEmbeddingProvider::new();
    let store = InMemoryVectorStore::new(distance);
    let memory = TestMemory::new(llm, embedding, store);

    memory
        .add(&[message(Role::User, "one")], HashMap::from([("user_id".to_string(), "zed".to_string())]), false)
        .expect("add should succeed");
    memory
        .add(&[message(Role::User, "two")], HashMap::from([("user_id".to_string(), "alice".to_string())]), false)
        .expect("add should succeed");

    let entities = memory.list_entities().expect("list_entities should succeed");
    assert_eq!(entities[0].entity_id, "alice");
    assert_eq!(entities[1].entity_id, "zed");
}

#[test]
fn test_history_returns_entry_after_add() {
    let llm = FakeLlmProvider::with_facts("Alice is an engineer.");
    let embedding = FakeEmbeddingProvider::new();
    let store = InMemoryVectorStore::new(distance);
    let memory = TestMemory::new(llm, embedding, store);

    let ids = memory.add(&[message(Role::User, "Alice is an engineer.")], scope(), true).expect("add should succeed");
    let id = ids.first().expect("expected at least one id");

    let entries = memory.history(id, 0, usize::MAX).expect("history should succeed");
    assert_eq!(entries.len(), 1, "expected exactly one history entry after a single add");
    assert_eq!(entries[0].event, HistoryEvent::Added);
    assert_eq!(entries[0].content, "Alice is an engineer.");
}

#[test]
fn test_history_for_unknown_id_returns_empty() {
    let llm = FakeLlmProvider::new();
    let embedding = FakeEmbeddingProvider::new();
    let store = InMemoryVectorStore::new(distance);
    let memory = TestMemory::new(llm, embedding, store);

    let entries = memory.history("never-added", 0, usize::MAX).expect("history should succeed");
    assert!(entries.is_empty(), "history for an id that was never added should be empty, not an error");
}

#[test]
fn test_history_retains_deleted_entry_after_delete() {
    let llm = FakeLlmProvider::with_facts("Alice is an engineer.");
    let embedding = FakeEmbeddingProvider::new();
    let store = InMemoryVectorStore::new(distance);
    let memory = TestMemory::new(llm, embedding, store);

    let ids = memory.add(&[message(Role::User, "Alice is an engineer.")], scope(), true).expect("add should succeed");
    let id = ids.first().expect("expected at least one id");

    memory.delete(id).expect("delete should succeed");

    let entries = memory.history(id, 0, usize::MAX).expect("history should succeed");
    assert_eq!(entries.len(), 2, "expected an Added entry followed by a Deleted entry");
    assert_eq!(entries[0].event, HistoryEvent::Added);
    assert_eq!(entries[1].event, HistoryEvent::Deleted);
    assert_eq!(entries[1].content, "Alice is an engineer.");
}

#[test]
fn test_deleting_nonexistent_id_adds_no_history_entry() {
    let llm = FakeLlmProvider::new();
    let embedding = FakeEmbeddingProvider::new();
    let store = InMemoryVectorStore::new(distance);
    let memory = TestMemory::new(llm, embedding, store);

    memory.delete("never-added").expect("delete should succeed");

    let entries = memory.history("never-added", 0, usize::MAX).expect("history should succeed");
    assert!(entries.is_empty(), "deleting an id that was never added should not create a history entry");
}

#[test]
fn test_history_pagination_respects_offset_and_limit() {
    let llm = FakeLlmProvider::with_facts("Alice is an engineer.");
    let embedding = FakeEmbeddingProvider::new();
    let store = InMemoryVectorStore::new(distance);
    let memory = TestMemory::new(llm, embedding, store);

    let ids = memory.add(&[message(Role::User, "Alice is an engineer.")], scope(), true).expect("add should succeed");
    let id = ids.first().expect("expected at least one id");
    memory.delete(id).expect("delete should succeed");

    let first_page = memory.history(id, 0, 1).expect("history should succeed");
    assert_eq!(first_page.len(), 1);
    assert_eq!(first_page[0].event, HistoryEvent::Added);

    let second_page = memory.history(id, 1, 1).expect("history should succeed");
    assert_eq!(second_page.len(), 1);
    assert_eq!(second_page[0].event, HistoryEvent::Deleted);

    let whole_log = memory.history(id, 0, 100).expect("history should succeed");
    assert_eq!(whole_log.len(), 2, "a limit larger than the log should return everything, not error");
}

#[test]
fn test_history_pagination_offset_beyond_log_returns_empty() {
    let llm = FakeLlmProvider::with_facts("Alice is an engineer.");
    let embedding = FakeEmbeddingProvider::new();
    let store = InMemoryVectorStore::new(distance);
    let memory = TestMemory::new(llm, embedding, store);

    let ids = memory.add(&[message(Role::User, "Alice is an engineer.")], scope(), true).expect("add should succeed");
    let id = ids.first().expect("expected at least one id");

    let page = memory.history(id, 10, 5).expect("history should succeed");
    assert!(page.is_empty(), "an offset past the end of the log should return empty, not error");
}

#[test]
fn memory_config_with_all_valid_sub_configs_passes_validation() {
    let config = MemoryConfig {
        llm: LlmConfig { model: "llama3".to_string(), base_url: None, api_key: None, temperature: None },
        embedding: EmbeddingConfig { model: "nomic-embed-text".to_string(), base_url: None, api_key: None, dimensions: None },
        vector_store: VectorStoreConfig { collection_name: "memories".to_string(), url: None, api_key: None, dimension: None },
    };
    assert!(config.validate().is_ok());
}

#[test]
fn memory_config_with_invalid_llm_sub_config_is_rejected() {
    let config = MemoryConfig {
        llm: LlmConfig { model: String::new(), base_url: None, api_key: None, temperature: None },
        embedding: EmbeddingConfig { model: "nomic-embed-text".to_string(), base_url: None, api_key: None, dimensions: None },
        vector_store: VectorStoreConfig { collection_name: "memories".to_string(), url: None, api_key: None, dimension: None },
    };
    assert!(matches!(config.validate(), Err(CoreError::Config(_))));
}

#[test]
fn memory_config_with_invalid_embedding_sub_config_is_rejected() {
    let config = MemoryConfig {
        llm: LlmConfig { model: "llama3".to_string(), base_url: None, api_key: None, temperature: None },
        embedding: EmbeddingConfig { model: String::new(), base_url: None, api_key: None, dimensions: None },
        vector_store: VectorStoreConfig { collection_name: "memories".to_string(), url: None, api_key: None, dimension: None },
    };
    assert!(matches!(config.validate(), Err(CoreError::Config(_))));
}

#[test]
fn memory_config_with_invalid_vector_store_sub_config_is_rejected() {
    let config = MemoryConfig {
        llm: LlmConfig { model: "llama3".to_string(), base_url: None, api_key: None, temperature: None },
        embedding: EmbeddingConfig { model: "nomic-embed-text".to_string(), base_url: None, api_key: None, dimensions: None },
        vector_store: VectorStoreConfig { collection_name: String::new(), url: None, api_key: None, dimension: None },
    };
    assert!(matches!(config.validate(), Err(CoreError::Config(_))));
}

#[test]
fn test_end_to_end_multi_user_isolation() {
    let llm = FakeLlmProvider::with_facts("I am an engineer.");
    let embedding = FakeEmbeddingProvider::new();
    let store = InMemoryVectorStore::new(distance);
    let memory = TestMemory::new(llm, embedding, store);

    let alice_scope = HashMap::from([("user_id".to_string(), "alice".to_string())]);
    let bob_scope = HashMap::from([("user_id".to_string(), "bob".to_string())]);

    memory.add(&[message(Role::User, "I am an engineer.")], alice_scope.clone(), true).expect("add should succeed");
    memory.add(&[message(Role::User, "I am an engineer.")], bob_scope.clone(), true).expect("add should succeed");

    let alice_results = memory.search("engineer", 10, &alice_scope, None, true, None, false, false).expect("search should succeed");
    let bob_results = memory.search("engineer", 10, &bob_scope, None, true, None, false, false).expect("search should succeed");

    assert_eq!(alice_results.len(), 1, "alice should see exactly her own memory, even though bob added identical content");
    assert_eq!(bob_results.len(), 1, "bob should see exactly his own memory, even though alice added identical content");
    assert_eq!(alice_results[0].payload.get("user_id"), Some(&"alice".to_string()));
    assert_eq!(bob_results[0].payload.get("user_id"), Some(&"bob".to_string()));
    assert_ne!(
        alice_results[0].id, bob_results[0].id,
        "alice and bob must end up with distinct records despite adding identical content"
    );
}

#[test]
fn test_end_to_end_multi_agent_isolation() {
    let llm = FakeLlmProvider::with_facts("I am an engineer.");
    let embedding = FakeEmbeddingProvider::new();
    let store = InMemoryVectorStore::new(distance);
    let memory = TestMemory::new(llm, embedding, store);

    let scheduler_scope = HashMap::from([("agent_id".to_string(), "scheduler-bot".to_string())]);
    let support_scope = HashMap::from([("agent_id".to_string(), "support-bot".to_string())]);

    memory.add(&[message(Role::User, "I am an engineer.")], scheduler_scope.clone(), true).expect("add should succeed");
    memory.add(&[message(Role::User, "I am an engineer.")], support_scope.clone(), true).expect("add should succeed");

    let scheduler_results = memory.search("engineer", 10, &scheduler_scope, None, true, None, false, false).expect("search should succeed");
    let support_results = memory.search("engineer", 10, &support_scope, None, true, None, false, false).expect("search should succeed");

    assert_eq!(scheduler_results.len(), 1, "scheduler-bot should see exactly its own memory");
    assert_eq!(support_results.len(), 1, "support-bot should see exactly its own memory");
    assert_eq!(scheduler_results[0].payload.get("agent_id"), Some(&"scheduler-bot".to_string()));
    assert_eq!(support_results[0].payload.get("agent_id"), Some(&"support-bot".to_string()));
    assert_ne!(
        scheduler_results[0].id, support_results[0].id,
        "agent scoping must isolate the same way user scoping does"
    );
}

#[test]
fn test_end_to_end_reset_then_search_returns_nothing() {
    let llm = FakeLlmProvider::with_facts("Alice is an engineer.");
    let embedding = FakeEmbeddingProvider::new();
    let store = InMemoryVectorStore::new(distance);
    let memory = TestMemory::new(llm, embedding, store);

    memory.add(&[message(Role::User, "Alice is an engineer.")], scope(), true).expect("add should succeed");
    let before = memory.search("engineer", 10, &scope(), None, true, None, false, false).expect("search should succeed");
    assert!(!before.is_empty(), "expected a result before reset for this test to be meaningful");

    memory.reset(&scope(), None).expect("reset should succeed");

    let after = memory.search("engineer", 10, &scope(), None, true, None, false, false).expect("search should succeed");
    assert!(after.is_empty(), "search after reset should return nothing");
}

#[test]
fn test_end_to_end_update_then_search_reflects_the_update() {
    let llm = FakeLlmProvider::with_facts("Alice is an engineer.");
    let embedding = FakeEmbeddingProvider::new();
    let store = InMemoryVectorStore::new(distance);
    let memory = TestMemory::new(llm, embedding, store);

    let ids = memory.add(&[message(Role::User, "Alice is an engineer.")], scope(), true).expect("add should succeed");
    let id = ids.first().expect("expected at least one id");

    memory.update(id, Some("Alice is a senior engineer."), None).expect("update should succeed");

    let results = memory.search("senior engineer", 10, &scope(), None, true, None, false, false).expect("search should succeed");
    assert!(
        results.iter().any(|r| r.payload.get("content") == Some(&"Alice is a senior engineer.".to_string())),
        "search after update should reflect the new content"
    );
    assert!(
        !results.iter().any(|r| r.payload.get("content") == Some(&"Alice is an engineer.".to_string())),
        "search should not return the pre-update content"
    );
}

#[test]
fn test_add_rejects_metadata_over_configured_size_limit() {
    let llm = FakeLlmProvider::with_facts("Alice is an engineer.");
    let embedding = FakeEmbeddingProvider::new();
    let store = InMemoryVectorStore::new(distance);
    let memory = TestMemory::new(llm, embedding, store).with_max_metadata_bytes(10);

    let messages = [message(Role::User, "Alice is an engineer.")];
    let result = memory.add(&messages, scope(), true);
    assert!(
        matches!(result, Err(CoreError::Validation(_))),
        "scope() alone (\"user_id\" + \"alice\") is well over 10 bytes and should be rejected"
    );
}

#[test]
fn test_add_accepts_metadata_within_configured_size_limit() {
    let llm = FakeLlmProvider::with_facts("Alice is an engineer.");
    let embedding = FakeEmbeddingProvider::new();
    let store = InMemoryVectorStore::new(distance);
    let memory = TestMemory::new(llm, embedding, store).with_max_metadata_bytes(1000);

    let messages = [message(Role::User, "Alice is an engineer.")];
    let result = memory.add(&messages, scope(), true);
    assert!(result.is_ok(), "scope() is well under 1000 bytes and should be accepted");
}

#[test]
fn test_add_with_no_configured_limit_accepts_any_size() {
    let llm = FakeLlmProvider::with_facts("Alice is an engineer.");
    let embedding = FakeEmbeddingProvider::new();
    let store = InMemoryVectorStore::new(distance);
    let memory = TestMemory::new(llm, embedding, store);

    let large_value = "x".repeat(10_000);
    let messages = [message(Role::User, "Alice is an engineer.")];
    let s = HashMap::from([("user_id".to_string(), "alice".to_string()), ("notes".to_string(), large_value)]);
    let result = memory.add(&messages, s, true);
    assert!(result.is_ok(), "with no configured limit, metadata size should never be rejected");
}

#[test]
fn test_add_wraps_dimension_mismatch_as_provider_error() {
    let llm = FakeLlmProvider::with_facts("Alice is an engineer.");
    let embedding = FakeEmbeddingProvider::new();
    let mut store = InMemoryVectorStore::new(distance);
    store
        .insert(VectorRecord::new("seed", [1.0_f32, 2.0, 3.0].map(f32::to_bits).to_vec(), Payload::new()))
        .expect("seed insert should succeed");
    let memory = TestMemory::new(llm, embedding, store);

    let messages = [message(Role::User, "Alice is an engineer.")];
    let result = memory.add(&messages, scope(), true);

    assert!(
        matches!(result, Err(CoreError::Provider { .. })),
        "a dimension mismatch from the vector store must surface through Memory::add as CoreError::Provider, not panic or a different variant"
    );
}

#[test]
fn test_add_with_zero_facts_extracted_succeeds_with_no_ids() {
    let llm = FakeLlmProvider::with_response("");
    let embedding = FakeEmbeddingProvider::new();
    let store = InMemoryVectorStore::new(distance);
    let memory = TestMemory::new(llm, embedding, store);

    let messages = [message(Role::User, "Just saying hello, nothing memorable.")];
    let ids = memory.add(&messages, scope(), true).expect("zero extracted facts should not be an error");
    assert!(ids.is_empty(), "no facts extracted should mean no records inserted, not an error");
}

#[test]
fn test_add_deduplicates_duplicate_facts_within_one_call() {
    let llm = FakeLlmProvider::with_facts("Alice is an engineer.\nAlice is an engineer.\nBob lives in Berlin.");
    let embedding = FakeEmbeddingProvider::new();
    let store = InMemoryVectorStore::new(distance);
    let memory = TestMemory::new(llm, embedding, store);

    let messages = [message(Role::User, "Alice is an engineer, and again, Alice is an engineer. Bob lives in Berlin.")];
    let ids = memory.add(&messages, scope(), true).expect("add should succeed");

    assert_eq!(
        ids.len(), 2,
        "the LLM returned the same fact twice within one call; only two distinct records should be created"
    );
}

#[test]
fn test_search_rejects_empty_scope() {
    let llm = FakeLlmProvider::new();
    let embedding = FakeEmbeddingProvider::new();
    let store = InMemoryVectorStore::new(distance);
    let memory = TestMemory::new(llm, embedding, store);

    let result = memory.search("anything", 10, &HashMap::new(), None, true, None, false, false);
    assert!(
        matches!(result, Err(CoreError::Validation(_))),
        "search with no scope-identifying key must be rejected, not silently return every scope's records"
    );
}

#[test]
fn test_search_rejects_scope_with_no_scope_id_key() {
    let llm = FakeLlmProvider::new();
    let embedding = FakeEmbeddingProvider::new();
    let store = InMemoryVectorStore::new(distance);
    let memory = TestMemory::new(llm, embedding, store);

    let non_scope_filter = HashMap::from([("source".to_string(), "chat_import".to_string())]);
    let result = memory.search("anything", 10, &non_scope_filter, None, true, None, false, false);
    assert!(matches!(result, Err(CoreError::Validation(_))));
}

#[test]
fn test_update_with_no_fields_provided_is_a_noop_not_an_error() {
    let llm = FakeLlmProvider::with_facts("Alice is an engineer.");
    let embedding = FakeEmbeddingProvider::new();
    let store = InMemoryVectorStore::new(distance);
    let memory = TestMemory::new(llm, embedding, store);

    let ids = memory.add(&[message(Role::User, "Alice is an engineer.")], scope(), true).expect("add should succeed");
    let id = ids.first().expect("expected at least one id");
    let before = memory.vector_store.get(id).expect("get should succeed").expect("record should exist");

    let result = memory.update(id, None, None);
    assert!(result.is_ok(), "update with no fields provided should be a no-op, not an error");

    let after = memory.vector_store.get(id).expect("get should succeed").expect("record should exist");
    assert_eq!(before, after, "update with nothing to change should leave the record byte-for-byte identical");
}

#[test]
fn test_delete_requires_exact_id_match_not_a_prefix_match() {
    let llm = FakeLlmProvider::with_facts("Alice is an engineer.\nBob lives in Berlin.");
    let embedding = FakeEmbeddingProvider::new();
    let store = InMemoryVectorStore::new(distance);
    let memory = TestMemory::new(llm, embedding, store);

    let ids = memory.add(&[message(Role::User, "Alice is an engineer and Bob lives in Berlin.")], scope(), true).expect("add should succeed");
    assert!(ids.len() >= 2, "expected at least two records for this test to be meaningful");
    let first_id = &ids[0];
    let common_prefix = &first_id[..first_id.len() - 1];

    memory.delete(common_prefix).expect("deleting a nonexistent id should be idempotent, not an error");

    for id in &ids {
        assert!(
            memory.vector_store.get(id).expect("get should succeed").is_some(),
            "deleting by a prefix of one id must not remove any record, including the one it's a prefix of"
        );
    }
}

#[test]
fn test_add_rejects_content_over_configured_length_limit() {
    let llm = FakeLlmProvider::new();
    let embedding = FakeEmbeddingProvider::new();
    let store = InMemoryVectorStore::new(distance);
    let memory = TestMemory::new(llm, embedding, store).with_max_content_length(10);

    let messages = [message(Role::User, "This message is way longer than ten characters.")];
    let result = memory.add(&messages, scope(), true);
    assert!(matches!(result, Err(CoreError::Validation(_))));
}

#[test]
fn test_add_accepts_content_within_configured_length_limit() {
    let llm = FakeLlmProvider::with_facts("Short fact.");
    let embedding = FakeEmbeddingProvider::new();
    let store = InMemoryVectorStore::new(distance);
    let memory = TestMemory::new(llm, embedding, store).with_max_content_length(1000);

    let messages = [message(Role::User, "Short.")];
    let result = memory.add(&messages, scope(), true);
    assert!(result.is_ok(), "content well under the configured limit should be accepted");
}

#[test]
fn test_add_with_no_configured_length_limit_accepts_any_length() {
    let llm = FakeLlmProvider::with_facts("A fact.");
    let embedding = FakeEmbeddingProvider::new();
    let store = InMemoryVectorStore::new(distance);
    let memory = TestMemory::new(llm, embedding, store);

    let long_message = "x".repeat(10_000);
    let messages = [message(Role::User, long_message)];
    let result = memory.add(&messages, scope(), true);
    assert!(result.is_ok(), "with no configured limit, message length should never be rejected");
}

#[test]
fn test_add_wraps_llm_backend_failure_as_provider_error() {
    let llm = FakeLlmProvider::failing();
    let embedding = FakeEmbeddingProvider::new();
    let store = InMemoryVectorStore::new(distance);
    let memory = TestMemory::new(llm, embedding, store);

    let messages = [message(Role::User, "Alice is an engineer.")];
    let result = memory.add(&messages, scope(), true);
    assert!(matches!(result, Err(CoreError::Provider { .. })));
}

#[test]
fn test_add_wraps_llm_timeout_as_provider_error() {
    let llm = FakeLlmProvider::timing_out();
    let embedding = FakeEmbeddingProvider::new();
    let store = InMemoryVectorStore::new(distance);
    let memory = TestMemory::new(llm, embedding, store);

    let messages = [message(Role::User, "Alice is an engineer.")];
    let result = memory.add(&messages, scope(), true);
    assert!(matches!(result, Err(CoreError::Provider { .. })));
}

#[test]
fn test_add_wraps_embedding_backend_failure_as_provider_error() {
    let llm = FakeLlmProvider::with_facts("Alice is an engineer.");
    let embedding = FakeEmbeddingProvider::failing();
    let store = InMemoryVectorStore::new(distance);
    let memory = TestMemory::new(llm, embedding, store);

    let messages = [message(Role::User, "Alice is an engineer.")];
    let result = memory.add(&messages, scope(), true);
    assert!(matches!(result, Err(CoreError::Provider { .. })));
}

#[test]
fn test_search_wraps_embedding_timeout_as_provider_error() {
    let llm = FakeLlmProvider::new();
    let embedding = FakeEmbeddingProvider::timing_out();
    let store = InMemoryVectorStore::new(distance);
    let memory = TestMemory::new(llm, embedding, store);

    let result = memory.search("anything", 10, &scope(), None, true, None, false, false);
    assert!(matches!(result, Err(CoreError::Provider { .. })));
}

#[test]
fn test_search_rejects_top_k_over_configured_ceiling() {
    let llm = FakeLlmProvider::new();
    let embedding = FakeEmbeddingProvider::new();
    let store = InMemoryVectorStore::new(distance);
    let memory = TestMemory::new(llm, embedding, store).with_max_top_k(50);

    let result = memory.search("anything", 51, &scope(), None, true, None, false, false);
    assert!(matches!(result, Err(CoreError::Validation(_))));
}

#[test]
fn test_search_accepts_top_k_at_configured_ceiling() {
    let llm = FakeLlmProvider::new();
    let embedding = FakeEmbeddingProvider::new();
    let store = InMemoryVectorStore::new(distance);
    let memory = TestMemory::new(llm, embedding, store).with_max_top_k(50);

    let result = memory.search("anything", 50, &scope(), None, true, None, false, false);
    assert!(result.is_ok(), "top_k exactly at the configured ceiling should be accepted");
}

#[test]
fn test_search_with_no_configured_ceiling_accepts_any_top_k() {
    let llm = FakeLlmProvider::new();
    let embedding = FakeEmbeddingProvider::new();
    let store = InMemoryVectorStore::new(distance);
    let memory = TestMemory::new(llm, embedding, store);

    let result = memory.search("anything", 1_000_000, &scope(), None, true, None, false, false);
    assert!(result.is_ok(), "with no configured ceiling, top_k should never be rejected for being too large");
}

#[test]
fn test_memory_works_unchanged_with_a_structurally_different_vector_store() {
    let llm = FakeLlmProvider::with_facts("Alice is an engineer.");
    let embedding = FakeEmbeddingProvider::new();
    let store = VecVectorStore::new();
    let memory = TestMemory::new(llm, embedding, store);

    let ids = memory.add(&[message(Role::User, "Alice is an engineer.")], scope(), true).expect("add should succeed");
    assert!(!ids.is_empty());

    let results = memory.search("engineer", 10, &scope(), None, true, None, false, false).expect("search should succeed");
    assert!(results.iter().any(|r| r.payload.get("content") == Some(&"Alice is an engineer.".to_string())));

    let id = ids.first().expect("expected at least one id");
    memory.update(id, Some("Alice is a senior engineer."), None).expect("update should succeed");
    memory.delete(id).expect("delete should succeed");
    assert_eq!(memory.vector_store.get(id).expect("get should succeed"), None);
}

#[test]
fn test_memory_works_unchanged_with_a_structurally_different_llm_provider() {
    let llm = EchoLlmProvider::new();
    let embedding = FakeEmbeddingProvider::new();
    let store = InMemoryVectorStore::new(distance);
    let memory = TestMemory::new(llm, embedding, store);

    let ids = memory.add(&[message(Role::User, "Alice is an engineer.")], scope(), true).expect("add should succeed");
    assert!(!ids.is_empty(), "EchoLlmProvider should still produce at least one fact (extract_facts wraps the conversation before echoing it)");

    let results = memory.search("Alice", 10, &scope(), None, true, None, false, false).expect("search should succeed");
    assert!(!results.is_empty(), "search should find something after adding via a different LLM provider");
}

#[test]
fn test_health_check_succeeds_with_healthy_providers() {
    let llm = FakeLlmProvider::new();
    let embedding = FakeEmbeddingProvider::new();
    let store = InMemoryVectorStore::new(distance);
    let memory = TestMemory::new(llm, embedding, store);

    assert!(memory.health_check().is_ok());
}

#[test]
fn test_health_check_reports_llm_failure() {
    let llm = FakeLlmProvider::failing();
    let embedding = FakeEmbeddingProvider::new();
    let store = InMemoryVectorStore::new(distance);
    let memory = TestMemory::new(llm, embedding, store);

    assert!(matches!(memory.health_check(), Err(CoreError::Provider { .. })));
}

#[test]
fn test_health_check_reports_embedding_failure() {
    let llm = FakeLlmProvider::new();
    let embedding = FakeEmbeddingProvider::failing();
    let store = InMemoryVectorStore::new(distance);
    let memory = TestMemory::new(llm, embedding, store);

    assert!(matches!(memory.health_check(), Err(CoreError::Provider { .. })));
}

#[test]
fn test_get_returns_the_record_after_add() {
    let llm = FakeLlmProvider::with_facts("Alice is an engineer.");
    let embedding = FakeEmbeddingProvider::new();
    let store = InMemoryVectorStore::new(distance);
    let memory = TestMemory::new(llm, embedding, store);

    let ids = memory.add(&[message(Role::User, "Alice is an engineer.")], scope(), true).expect("add should succeed");
    let id = ids.first().expect("expected at least one id");

    let record = memory.get(id).expect("get should succeed").expect("record should exist");
    assert_eq!(&record.id, id);
    assert_eq!(record.payload.get("content"), Some(&"Alice is an engineer.".to_string()));
}

#[test]
fn test_get_returns_none_for_unknown_id() {
    let llm = FakeLlmProvider::new();
    let embedding = FakeEmbeddingProvider::new();
    let store = InMemoryVectorStore::new(distance);
    let memory = TestMemory::new(llm, embedding, store);

    assert_eq!(memory.get("never-added").expect("get should succeed"), None);
}

#[test]
fn test_list_returns_all_ids_after_add() {
    let llm = FakeLlmProvider::with_facts("Fact one.\nFact two.");
    let embedding = FakeEmbeddingProvider::new();
    let store = InMemoryVectorStore::new(distance);
    let memory = TestMemory::new(llm, embedding, store);

    let ids = memory.add(&[message(Role::User, "Two facts.")], scope(), true).expect("add should succeed");

    let listed = memory.list(&scope(), 0, usize::MAX, true, None).expect("list should succeed");
    for id in &ids {
        assert!(listed.contains(id), "list should include every id add returned");
    }
}

#[test]
fn test_list_respects_offset_and_limit() {
    let llm = FakeLlmProvider::new();
    let embedding = FakeEmbeddingProvider::new();
    let store = InMemoryVectorStore::new(distance);
    let memory = TestMemory::new(llm, embedding, store);

    let listed = memory.list(&scope(), 0, 0, true, None).expect("list should succeed");
    assert!(listed.is_empty(), "a zero limit should return nothing, not error");
}

#[test]
fn test_list_without_a_scope_id_is_rejected() {
    let llm = FakeLlmProvider::new();
    let embedding = FakeEmbeddingProvider::new();
    let store = InMemoryVectorStore::new(distance);
    let memory = TestMemory::new(llm, embedding, store);

    let result = memory.list(&HashMap::new(), 0, usize::MAX, true, None);
    assert!(
        matches!(result, Err(CoreError::Validation(_))),
        "list with no user_id/agent_id/run_id must be rejected, not return every record unscoped"
    );
}

#[test]
fn test_list_only_returns_records_within_the_requested_scope() {
    let llm = FakeLlmProvider::with_facts("irrelevant");
    let embedding = FakeEmbeddingProvider::new();
    let store = InMemoryVectorStore::new(distance);
    let memory = TestMemory::new(llm, embedding, store);

    let alice_scope = HashMap::from([("user_id".to_string(), "alice".to_string())]);
    let bob_scope = HashMap::from([("user_id".to_string(), "bob".to_string())]);
    let alice_ids = memory.add(&[message(Role::User, "Alice's fact.")], alice_scope.clone(), false).expect("add should succeed");
    let bob_ids = memory.add(&[message(Role::User, "Bob's fact.")], bob_scope, false).expect("add should succeed");

    let listed = memory.list(&alice_scope, 0, usize::MAX, true, None).expect("list should succeed");
    assert!(listed.contains(alice_ids.first().expect("expected an id")));
    assert!(
        !listed.contains(bob_ids.first().expect("expected an id")),
        "listing alice's scope must not surface bob's record"
    );
}

#[test]
fn test_next_record_id_differs_across_a_counter_reset() {
    let before = next_record_id(Stamp { seconds: 1_700_000_000, subsec_nanos: 1, process_id: 7 }, 0);
    let after = next_record_id(Stamp { seconds: 1_700_000_000, subsec_nanos: 2, process_id: 7 }, 0);
    assert_ne!(
        before, after,
        "an id generated after the in-process counter resets to 0 (simulating a fresh process loading a persisted store) must not collide with one generated before the reset"
    );
    assert_eq!(before, "rec-1700000000000000001-7-0");
}

#[test]
fn a_threshold_that_is_no_number_lets_nothing_pass() {
    let memory = TestMemory::new(FakeLlmProvider::new(), FakeEmbeddingProvider::new(), InMemoryVectorStore::new(distance));
    memory.add(&[Message::new(Role::User, "Alice likes tea.")], scope(), false).expect("add should succeed");
    let all = memory.search("Alice likes tea.", 10, &scope(), Some(f32::INFINITY), false, None, false, false).expect("search should succeed");
    assert_eq!(all.len(), 1);
    let none = memory.search("Alice likes tea.", 10, &scope(), Some(f32::NAN), false, None, false, false).expect("search should succeed");
    assert!(none.is_empty());
}

/// Everything that a store holds, by id.
fn contents_of<V: VectorStore>(store: &Shared<V>) -> Vec<Record> {
    let mut ids = store.list(0, usize::MAX).expect("list should succeed");
    ids.sort();
    ids.iter().map(|id| store.get(id).expect("get should succeed").expect("a listed record should be there")).collect()
}

#[test]
fn adding_the_same_again_adds_nothing() {
    let llm = FakeLlmProvider::with_facts("Bob Smith likes tea.\nBob Smith likes tea.\nAnn Lee drinks \"green tea\".");
    let memory = TestMemory::new(llm, FakeEmbeddingProvider::new(), InMemoryVectorStore::new(distance));
    let said = [message(Role::User, "We talked about tea.")];
    let ids = memory.add(&said, scope(), true).expect("add should succeed");
    assert_eq!(ids.len(), 2, "a fact that comes twice is added once");
    assert_ne!(ids[0], ids[1]);
    let before = contents_of(&memory.vector_store);
    let linked: Vec<&Record> = before.iter().filter(|r| is_entity_record(&r.payload)).collect();
    assert_eq!(linked.len(), 3);
    for record in &linked {
        let links: Vec<&str> = record.payload[LINKED_MEMORY_IDS_KEY].split(',').collect();
        assert_eq!(links.len(), 1, "each entity links its memory once");
        assert!(ids.iter().any(|id| id == links[0]));
    }
    assert_eq!(memory.add(&said, scope(), true), Ok(Vec::new()));
    assert_eq!(contents_of(&memory.vector_store), before);
    assert_eq!(memory.history(&ids[0], 0, 10).expect("history should be read").len(), 1);
}

#[test]
fn an_explained_search_differs_in_its_details_alone() {
    let memory = TestMemory::new(FakeLlmProvider::new(), FakeEmbeddingProvider::new(), InMemoryVectorStore::new(distance));
    for content in ["Bob Smith likes tea.", "Ann Lee likes coffee.", "The kettle is blue."] {
        memory.add(&[message(Role::User, content)], scope(), false).expect("add should succeed");
    }
    let told = memory.search("What does Bob Smith drink?", 2, &scope(), None, false, None, false, true).expect("search should succeed");
    let untold = memory.search("What does Bob Smith drink?", 2, &scope(), None, false, None, false, false).expect("search should succeed");
    assert_eq!(told.len(), 2);
    for r in &told {
        assert_eq!(r.score_details.as_ref().expect("an explained result should have details").final_score, r.score);
    }
    let plain: Vec<Found> = told.into_iter().map(|r| Found { score_details: None, ..r }).collect();
    assert_eq!(plain, untold);
}

#[test]
fn a_page_is_cut_from_the_whole_list() {
    let memory = TestMemory::new(FakeLlmProvider::new(), FakeEmbeddingProvider::new(), InMemoryVectorStore::new(distance));
    let mut added = Vec::new();
    for content in ["Bob Smith likes tea.", "Ann Lee likes coffee.", "The kettle is blue."] {
        added.extend(memory.add(&[message(Role::User, content)], scope(), false).expect("add should succeed"));
    }
    let all = memory.list(&scope(), 0, usize::MAX, false, None).expect("list should succeed");
    let mut sorted = all.clone();
    sorted.sort();
    added.sort();
    assert_eq!(sorted, added, "the records of entities are not listed");
    for (offset, limit) in [(0, 1), (1, 5), (2, 1), (3, 1), (7, 7), (1, 0)] {
        let page = memory.list(&scope(), offset, limit, false, None).expect("list should succeed");
        let expected: Vec<String> = all.iter().skip(offset).take(limit).cloned().collect();
        assert_eq!(page, expected);
    }
    assert!(matches!(memory.list(&HashMap::new(), 0, 1, false, None), Err(CoreError::Validation(_))));
}

#[test]
fn all_memories_that_are_near_enough_are_found() {
    let memory = TestMemory::new(FakeLlmProvider::new(), FakeEmbeddingProvider::new(), InMemoryVectorStore::new(distance));
    for content in ["one cup", "two cups", "six hundred cups of tea"] {
        memory.add(&[message(Role::User, content)], scope(), false).expect("add should succeed");
    }
    let all = memory.search("one cup", 10, &scope(), None, false, None, false, false).expect("search should succeed");
    assert_eq!(all.len(), 3);
    assert!(all[0].score <= all[1].score && all[1].score <= all[2].score);
    let two = memory.search("one cup", 2, &scope(), None, false, None, false, false).expect("search should succeed");
    assert_eq!(two, all[..2].to_vec());
    let near = memory.search("one cup", 10, &scope(), Some(all[1].score), false, None, false, false).expect("search should succeed");
    assert_eq!(near, all[..2].to_vec());
}

#[test]
fn a_refused_memory_leaves_the_store_as_it_was() {
    let memory = TestMemory::new(FakeLlmProvider::new(), FakeEmbeddingProvider::new(), InMemoryVectorStore::new(distance));
    memory.vector_store.insert(Record::new("short".to_string(), vec![0], scope())).expect("insert should succeed");
    let before = contents_of(&memory.vector_store);
    let outcome = memory.add(&[message(Role::User, "Bob Smith likes tea.")], scope(), false);
    assert!(outcome.is_err());
    assert_eq!(contents_of(&memory.vector_store), before);
    assert!(memory.history_snapshot().is_empty());
    assert!(memory.update("gone", Some("new"), None).is_err());
    assert_eq!(contents_of(&memory.vector_store), before);
}

#[test]
fn adding_again_changes_nothing_where_an_entity_has_several_records() {
    let memory = TestMemory::new(FakeLlmProvider::new(), FakeEmbeddingProvider::new(), InMemoryVectorStore::new(distance));
    let mut narrow = scope();
    narrow.insert("run_id".to_string(), "r1".to_string());
    let mut other = scope();
    other.insert("run_id".to_string(), "r2".to_string());
    for inner in [&narrow, &other] {
        memory.add(&[message(Role::User, "Bob Smith likes tea.")], inner.clone(), false).expect("add should succeed");
    }
    let said = [message(Role::User, "Bob Smith met Ann Lee.")];
    let ids = memory.add(&said, scope(), false).expect("add should succeed");
    let before = contents_of(&memory.vector_store);
    let bobs: Vec<&Record> = before.iter().filter(|r| r.payload.get(ENTITY_TEXT_KEY).map(String::as_str) == Some("Bob Smith")).collect();
    assert_eq!(bobs.len(), 2, "one record in each inner scope, and no third");
    let listing = bobs.iter().filter(|r| r.payload[LINKED_MEMORY_IDS_KEY].split(',').filter(|id| *id == ids[0]).count() == 1).count();
    assert_eq!(listing, 1);
    assert_eq!(memory.add(&said, scope(), false), Ok(Vec::new()));
    assert_eq!(contents_of(&memory.vector_store), before);
}

#[test]
fn adding_again_adds_nothing_in_a_scope_with_links() {
    let memory = TestMemory::new(FakeLlmProvider::new(), FakeEmbeddingProvider::new(), InMemoryVectorStore::new(distance));
    let mut linked = scope();
    linked.insert(LINKED_MEMORY_IDS_KEY.to_string(), "x".to_string());
    let said = [message(Role::User, "Bob Smith likes tea.")];
    assert_eq!(memory.add(&said, linked.clone(), false).expect("add should succeed").len(), 1);
    let before = contents_of(&memory.vector_store);
    assert_eq!(memory.add(&said, linked, false), Ok(Vec::new()));
    assert_eq!(contents_of(&memory.vector_store), before);
}
