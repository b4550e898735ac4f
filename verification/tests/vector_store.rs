use memoria_core::number::{key_bits, order_key};
use memoria_core::payload::Payload;
use memoria_core::stores::milvus::milvus_filter_expression;
use memoria_core::vector_store::contract::VectorStoreContractTests;
use memoria_core::vector_store::{
    keep_first, keep_within, select_closest, InMemoryVectorStore, SearchResult, VectorRecord, VectorStore, VectorStoreConfig, VectorStoreError,
};
use memoria_core::CoreError;

/// The order key of a score.
fn key(score: f32) -> i64 {
    order_key(f64::from(score).to_bits())
}

/// The score that an order key stands for.
fn score_of(key: i64) -> f32 {
    f64::from_bits(key_bits(key)) as f32
}

/// The sum of the differences of two vectors' components.
fn distance(a: &[u32], b: &[u32]) -> i64 {
    let parts = a.iter().zip(b).map(|(x, y)| (f32::from_bits(*x) - f32::from_bits(*y)).abs());
    key(parts.fold(0.0_f32, |sum, d| sum + d))
}

/// A store that keeps its records in the order they came in.
struct VecVectorStore {
    records: Vec<VectorRecord>,
}

impl VecVectorStore {
    fn new() -> Self {
        Self { records: Vec::new() }
    }
}

impl VectorStore for VecVectorStore {
    fn insert(&mut self, record: VectorRecord) -> Result<(), VectorStoreError> {
        if let Some(existing) = self.records.first() {
            let expected = existing.vector.len();
            let actual = record.vector.len();
            if expected != actual {
                return Err(VectorStoreError::DimensionMismatch { expected, actual });
            }
        }
        self.records.push(record);
        Ok(())
    }

    fn search(&self, vector: &[u32], top_k: usize, filters: &Payload, threshold: Option<i64>) -> Result<Vec<SearchResult>, VectorStoreError> {
        let mut scored: Vec<SearchResult> = self
            .records
            .iter()
            .filter(|r| r.payload.matches(filters))
            .map(|r| SearchResult { id: r.id.clone(), score: distance(&r.vector, vector), payload: r.payload.clone(), score_details: None })
            .filter(|r| threshold.is_none_or(|t| r.score <= t))
            .collect();
        scored.sort_by_key(|r| r.score);
        scored.truncate(top_k);
        Ok(scored)
    }

    fn get(&self, id: &str) -> Result<Option<VectorRecord>, VectorStoreError> {
        Ok(self.records.iter().find(|r| r.id == id).cloned())
    }

    fn update(&mut self, record: VectorRecord) -> Result<(), VectorStoreError> {
        match self.records.iter_mut().find(|r| r.id == record.id) {
            Some(existing) => {
                *existing = record;
                Ok(())
            }
            None => Err(VectorStoreError::NotFound),
        }
    }

    fn delete(&mut self, id: &str) -> Result<(), VectorStoreError> {
        self.records.retain(|r| r.id != id);
        Ok(())
    }

    fn list(&self, offset: usize, limit: usize) -> Result<Vec<String>, VectorStoreError> {
        Ok(self.records.iter().map(|r| r.id.clone()).skip(offset).take(limit).collect())
    }

    fn reset(&mut self) -> Result<(), VectorStoreError> {
        self.records.clear();
        Ok(())
    }

    fn keyword_search(&self, _query: &str, _top_k: usize, _filters: &Payload) -> Result<Option<Vec<SearchResult>>, VectorStoreError> {
        Ok(None)
    }
}

#[test]
fn in_memory_store_passes_insert_then_get_contract() {
    assert!(InMemoryVectorStore::new(distance).contract_insert_then_get_round_trips());
}

#[test]
fn in_memory_store_keyword_search_is_not_supported_by_default() {
    let store = InMemoryVectorStore::new(distance);
    let result = store.keyword_search("anything", 10, &Payload::new()).expect("the default keyword_search must not error");
    assert!(result.is_none(), "InMemoryVectorStore has no native full-text engine");
}

#[test]
fn vec_store_passes_insert_then_get_contract() {
    assert!(VecVectorStore::new().contract_insert_then_get_round_trips());
}

#[test]
fn vec_store_passes_delete_then_get_contract() {
    assert!(VecVectorStore::new().contract_delete_then_get_returns_none());
}

#[test]
fn vec_store_passes_reset_contract() {
    assert!(VecVectorStore::new().contract_reset_clears_everything());
}

#[test]
fn vec_store_passes_search_respects_top_k_contract() {
    assert!(VecVectorStore::new().contract_search_respects_top_k());
}

#[test]
fn vec_store_passes_search_orders_by_score_contract() {
    assert!(VecVectorStore::new().contract_search_orders_by_score());
}

#[test]
fn vec_store_passes_search_respects_threshold_contract() {
    assert!(VecVectorStore::new().contract_search_respects_threshold());
}

#[test]
fn vec_store_passes_search_with_no_threshold_returns_everything_contract() {
    assert!(VecVectorStore::new().contract_search_with_no_threshold_returns_everything_up_to_top_k());
}

#[test]
fn vec_store_passes_search_filters_by_agent_id_contract() {
    assert!(VecVectorStore::new().contract_search_filters_by_agent_id());
}

#[test]
fn vec_store_passes_update_nonexistent_contract() {
    assert!(VecVectorStore::new().contract_update_nonexistent_returns_not_found());
}

#[test]
fn vec_store_passes_delete_nonexistent_is_idempotent_contract() {
    assert!(VecVectorStore::new().contract_delete_nonexistent_is_idempotent());
}

#[test]
fn vec_store_passes_insert_rejects_mismatched_dimension_contract() {
    assert!(VecVectorStore::new().contract_insert_rejects_mismatched_dimension());
}

#[test]
fn vec_store_passes_list_pagination_respects_offset_and_limit_contract() {
    assert!(VecVectorStore::new().contract_list_pagination_respects_offset_and_limit());
}

#[test]
fn in_memory_store_passes_delete_then_get_contract() {
    assert!(InMemoryVectorStore::new(distance).contract_delete_then_get_returns_none());
}

#[test]
fn in_memory_store_passes_reset_contract() {
    assert!(InMemoryVectorStore::new(distance).contract_reset_clears_everything());
}

#[test]
fn in_memory_store_passes_search_respects_top_k_contract() {
    assert!(InMemoryVectorStore::new(distance).contract_search_respects_top_k());
}

#[test]
fn in_memory_store_passes_search_orders_by_score_contract() {
    assert!(InMemoryVectorStore::new(distance).contract_search_orders_by_score());
}

#[test]
fn in_memory_store_passes_search_respects_threshold_contract() {
    assert!(InMemoryVectorStore::new(distance).contract_search_respects_threshold());
}

#[test]
fn in_memory_store_passes_search_with_no_threshold_returns_everything_contract() {
    assert!(InMemoryVectorStore::new(distance).contract_search_with_no_threshold_returns_everything_up_to_top_k());
}

#[test]
fn in_memory_store_passes_search_filters_by_metadata_key_contract() {
    assert!(InMemoryVectorStore::new(distance).contract_search_filters_by_metadata_key());
}

#[test]
fn in_memory_store_passes_search_filters_by_agent_id_contract() {
    assert!(InMemoryVectorStore::new(distance).contract_search_filters_by_agent_id());
}

#[test]
fn in_memory_store_passes_search_filters_by_run_id_contract() {
    assert!(InMemoryVectorStore::new(distance).contract_search_filters_by_run_id());
}

#[test]
fn in_memory_store_passes_update_then_get_contract() {
    assert!(InMemoryVectorStore::new(distance).contract_update_then_get_reflects_change());
}

#[test]
fn in_memory_store_passes_update_nonexistent_contract() {
    assert!(InMemoryVectorStore::new(distance).contract_update_nonexistent_returns_not_found());
}

#[test]
fn in_memory_store_passes_delete_nonexistent_is_idempotent_contract() {
    assert!(InMemoryVectorStore::new(distance).contract_delete_nonexistent_is_idempotent());
}

#[test]
fn in_memory_store_passes_list_returns_all_inserted_ids_contract() {
    assert!(InMemoryVectorStore::new(distance).contract_list_returns_all_inserted_ids());
}

#[test]
fn in_memory_store_passes_list_on_empty_store_returns_empty_contract() {
    assert!(InMemoryVectorStore::new(distance).contract_list_on_empty_store_returns_empty());
}

#[test]
fn in_memory_store_passes_insert_rejects_mismatched_dimension_contract() {
    assert!(InMemoryVectorStore::new(distance).contract_insert_rejects_mismatched_dimension());
}

#[test]
fn in_memory_store_passes_list_pagination_respects_offset_and_limit_contract() {
    assert!(InMemoryVectorStore::new(distance).contract_list_pagination_respects_offset_and_limit());
}

#[test]
fn config_with_valid_collection_name_passes_validation() {
    let config = VectorStoreConfig {
        collection_name: "memories".to_string(),
        url: None,
        api_key: None,
        dimension: None,
    };
    assert!(config.validate().is_ok());
}

#[test]
fn config_with_empty_collection_name_is_rejected() {
    let config = VectorStoreConfig {
        collection_name: String::new(),
        url: None,
        api_key: None,
        dimension: None,
    };
    assert!(matches!(config.validate(), Err(CoreError::Config(_))));
}

#[test]
fn config_with_whitespace_only_collection_name_is_rejected() {
    let config = VectorStoreConfig {
        collection_name: "   ".to_string(),
        url: None,
        api_key: None,
        dimension: None,
    };
    assert!(matches!(config.validate(), Err(CoreError::Config(_))));
}

#[test]
fn config_with_positive_dimension_passes_validation() {
    let config = VectorStoreConfig {
        collection_name: "memories".to_string(),
        url: None,
        api_key: None,
        dimension: Some(768),
    };
    assert!(config.validate().is_ok());
}

#[test]
fn config_with_zero_dimension_is_rejected() {
    let config = VectorStoreConfig {
        collection_name: "memories".to_string(),
        url: None,
        api_key: None,
        dimension: Some(0),
    };
    assert!(matches!(config.validate(), Err(CoreError::Config(_))));
}

#[test]
fn milvus_filter_expression_escapes_embedded_quotes_and_backslashes() {
    let filters = Payload::from_pairs(vec![("user_id".to_string(), "ali\"ce\\bob".to_string())]);
    let expr = milvus_filter_expression(&filters);
    assert_eq!(expr, "user_id == \"ali\\\"ce\\\\bob\"");
}

fn vector(components: &[f32]) -> Vec<u32> {
    components.iter().map(|c| c.to_bits()).collect()
}

fn record(id: &str, components: &[f32], user: &str) -> VectorRecord {
    let payload = Payload::from_pairs(vec![("user_id".to_string(), user.to_string())]);
    VectorRecord::new(id, vector(components), payload)
}

#[test]
fn the_closest_records_come_first_with_their_distances() {
    let mut store = InMemoryVectorStore::new(distance);
    for r in [record("far", &[10.0, 0.0], "a"), record("near", &[1.0, 0.5], "a"), record("other", &[0.0, 0.0], "b")] {
        store.insert(r).expect("insert should succeed");
    }
    let filters = Payload::from_pairs(vec![("user_id".to_string(), "a".to_string())]);
    let found = store.search(&vector(&[0.0, 0.0]), 10, &filters, None).expect("search should succeed");
    let scores: Vec<(&str, f32)> = found.iter().map(|r| (r.id.as_str(), score_of(r.score))).collect();
    assert_eq!(scores, vec![("near", 1.5), ("far", 10.0)]);
    let within = store.search(&vector(&[0.0, 0.0]), 10, &filters, Some(key(1.5))).expect("search should succeed");
    assert_eq!(within.len(), 1);
}

#[test]
fn a_record_of_another_dimension_is_refused_and_nothing_changes() {
    let mut store = InMemoryVectorStore::new(distance);
    store.insert(record("one", &[1.0], "a")).expect("insert should succeed");
    assert_eq!(
        store.insert(record("two", &[1.0, 2.0], "a")),
        Err(VectorStoreError::DimensionMismatch { expected: 1, actual: 2 })
    );
    assert_eq!(store.list(0, 10).expect("list should succeed"), vec!["one".to_string()]);
}

#[test]
fn selecting_keeps_the_order_of_equal_scores() {
    let results: Vec<SearchResult> = [("x", 2.0), ("y", 1.0), ("z", 2.0)]
        .iter()
        .map(|(id, s)| SearchResult { id: id.to_string(), score: key(*s), payload: Payload::new(), score_details: None })
        .collect();
    let ids: Vec<String> = select_closest(results.clone(), 10, None).into_iter().map(|r| r.id).collect();
    assert_eq!(ids, vec!["y".to_string(), "x".to_string(), "z".to_string()]);
    assert_eq!(keep_first(results, 2).len(), 2);
}

/// A store that keeps nothing.
struct Forgetful;

impl VectorStore for Forgetful {
    fn insert(&mut self, _record: VectorRecord) -> Result<(), VectorStoreError> {
        Ok(())
    }
    fn search(&self, _v: &[u32], _k: usize, _f: &Payload, _t: Option<i64>) -> Result<Vec<SearchResult>, VectorStoreError> {
        Ok(Vec::new())
    }
    fn get(&self, _id: &str) -> Result<Option<VectorRecord>, VectorStoreError> {
        Ok(None)
    }
    fn update(&mut self, _record: VectorRecord) -> Result<(), VectorStoreError> {
        Ok(())
    }
    fn delete(&mut self, _id: &str) -> Result<(), VectorStoreError> {
        Ok(())
    }
    fn list(&self, _offset: usize, _limit: usize) -> Result<Vec<String>, VectorStoreError> {
        Ok(Vec::new())
    }
    fn reset(&mut self) -> Result<(), VectorStoreError> {
        Ok(())
    }

    fn keyword_search(&self, _query: &str, _top_k: usize, _filters: &Payload) -> Result<Option<Vec<SearchResult>>, VectorStoreError> {
        Ok(None)
    }
}

#[test]
fn a_broken_store_contract_is_reported() {
    assert!(!Forgetful.contract_insert_then_get_round_trips());
    assert!(!Forgetful.contract_search_orders_by_score());
    assert!(!Forgetful.contract_update_nonexistent_returns_not_found());
    assert!(!Forgetful.contract_insert_rejects_mismatched_dimension());
    assert!(Forgetful.contract_list_on_empty_store_returns_empty());
}

#[test]
fn an_update_of_a_record_that_is_not_there_changes_nothing() {
    let mut store = InMemoryVectorStore::new(distance);
    store.insert(record("one", &[1.0], "a")).expect("insert should succeed");
    assert_eq!(store.update(record("two", &[2.0], "a")), Err(VectorStoreError::NotFound));
    assert_eq!(store.list(0, 10).expect("list should succeed"), vec!["one".to_string()]);
    assert_eq!(store.get("two").expect("get should succeed").is_none(), true);
}

#[test]
fn a_score_that_is_no_number_is_within_no_threshold() {
    let result = |id: &str, score: f32| SearchResult { id: id.to_string(), score: key(score), payload: Payload::new(), score_details: None };
    let results = vec![result("a", 1.0), result("b", f32::NAN), result("c", -f32::NAN), result("d", 3.0)];
    let ids = |kept: Vec<SearchResult>| kept.into_iter().map(|r| r.id).collect::<Vec<String>>();
    assert_eq!(ids(keep_within(results.clone(), Some(key(2.0)))), vec!["a".to_string()]);
    assert_eq!(ids(keep_within(results.clone(), Some(key(f32::INFINITY)))), vec!["a".to_string(), "d".to_string()]);
    assert!(keep_within(results.clone(), Some(key(f32::NAN))).is_empty());
    assert_eq!(keep_within(results, None).len(), 4);
}
