use memoria_core::cli::Ids;
use memoria_core::embedding::LocalHashEmbeddingProvider;
use memoria_core::history::HistoryEvent;
use memoria_core::llm::{Completion, LlmError, LlmProvider, LocalSentenceLlmProvider, Message, Role};
use memoria_core::memory::searching::Scorer;
use memoria_core::memory::{Memory, Stamp};
use memoria_core::number::{key_bits, order_key, Reading};
use memoria_core::payload::Payload;
use memoria_core::scoring::Blend;
use memoria_core::tools::{
    add_memory, check_delete_all, delete_all_memories, delete_memory, gather, get_memories, get_memory, list_entities, memory_history,
    persist_after_mutation, search_memories, tell_found, update_memory, Caller, Fetched, UNSCOPED_DELETE,
};
use memoria_core::vector_store::{InMemoryVectorStore, VectorRecord, VectorStore};

/// The order key of a score.
fn key(score: f32) -> i64 {
    order_key(f64::from(score).to_bits())
}

/// The score that an order key stands for.
fn score_of(key: i64) -> f32 {
    f64::from_bits(key_bits(key)) as f32
}

/// The sum of the differences of two vectors' components.
fn distance(a: &[u32], b: &[u32]) -> i64 {
    let parts = a.iter().zip(b).map(|(x, y)| (f32::from_bits(*x) - f32::from_bits(*y)).abs());
    key(parts.fold(0.0_f32, |sum, d| sum + d))
}

/// What a text says as a number.
fn read(s: &str) -> Reading {
    match s.parse::<f64>() {
        Ok(x) if x.is_nan() => Reading::Unordered,
        Ok(x) => Reading::Ordered(order_key(x.to_bits())),
        Err(_) => Reading::Words,
    }
}

/// A score, brought between zero and one by the least and the greatest.
fn normalize(score: f32, least: f32, greatest: f32) -> f32 {
    let range = greatest - least;
    if range > 0.0 {
        (score - least) / range
    } else {
        0.0
    }
}

/// The midpoint of the scores by meaning and by keywords.
fn combine(blend: Blend) -> i64 {
    let semantic = normalize(score_of(blend.score), score_of(blend.least), score_of(blend.greatest));
    let keyword = match blend.keyword {
        Some(k) => normalize(score_of(k.score), score_of(k.least), score_of(k.greatest)),
        None => 1.0,
    };
    key(f32::midpoint(semantic, keyword))
}

const FACTOR: f32 = 0.15;

/// A score that an entity of the query brings closer.
fn boost(score: i64) -> i64 {
    key(score_of(score) * (1.0 - FACTOR))
}

type TestScorer = Scorer<fn(&str) -> Reading, fn(Blend) -> i64, fn(i64) -> i64>;

fn scorer() -> TestScorer {
    Scorer { read, combine, boost, factor: key(1.0 - FACTOR) }
}

type TestMemory = Memory<Box<dyn LlmProvider>, LocalHashEmbeddingProvider, Box<dyn VectorStore>>;

const STAMP: Stamp = Stamp { seconds: 1_787_500_000, subsec_nanos: 3, process_id: 7 };

fn test_memory_with_llm(llm: Box<dyn LlmProvider>) -> TestMemory {
    Memory::new(llm, LocalHashEmbeddingProvider::new(), Box::new(InMemoryVectorStore::new(distance)))
}

fn test_memory() -> TestMemory {
    test_memory_with_llm(Box::new(LocalSentenceLlmProvider::new()))
}

fn user(id: &str) -> Ids {
    Ids { user_id: Some(id.to_string()), agent_id: None, run_id: None }
}

fn nobody() -> Ids {
    Ids { user_id: None, agent_id: None, run_id: None }
}

fn open<'a>() -> Caller<'a> {
    Caller { configured: None, provided: None }
}

fn locked<'a>() -> Caller<'a> {
    Caller { configured: Some("s3cret"), provided: None }
}

fn add_fact(memory: &mut TestMemory, content: &str, user_id: &str) -> String {
    let scope = Payload::from_pairs(vec![("user_id".to_string(), user_id.to_string())]);
    let ids = memory.add(&[Message::new(Role::User, content)], &scope, false, STAMP).expect("add should succeed");
    ids.into_iter().next().expect("expected at least one id")
}

/// A language model that sees the same picture everywhere.
struct DescribingLlmProvider;

impl LlmProvider for DescribingLlmProvider {
    fn complete(&self, _messages: &[Message]) -> Result<Completion, LlmError> {
        Ok(Completion { content: "A photo of a red bicycle.".to_string() })
    }
}

#[test]
fn search_memories_finds_a_real_stored_fact_within_scope() {
    let mut memory = test_memory();
    add_fact(&mut memory, "Alice is an engineer.", "alice");
    let results = search_memories(open(), &memory, &scorer(), "engineer", user("alice"), 10, None, false, false, STAMP)
        .expect("search should succeed");
    assert_eq!(results.len(), 1);
}

#[test]
fn search_memories_with_explain_true_returns_a_real_score_details_breakdown() {
    let mut memory = test_memory();
    add_fact(&mut memory, "Alice is an engineer.", "alice");
    let results = search_memories(open(), &memory, &scorer(), "engineer", user("alice"), 10, None, false, true, STAMP)
        .expect("search should succeed");
    let details = results[0].score_details.as_ref().expect("explain=true must return score_details");
    assert!(
        (score_of(details.final_score) - score_of(results[0].score)).abs() < 1e-6,
        "final_score must equal the real returned score"
    );
}

#[test]
fn search_memories_rejects_a_missing_secret_when_one_is_configured() {
    let memory = test_memory();
    let result = search_memories(locked(), &memory, &scorer(), "anything", user("alice"), 10, None, false, false, STAMP);
    assert!(result.is_err());
}

#[test]
fn get_memory_returns_a_real_stored_record_by_id() {
    let mut memory = test_memory();
    let id = add_fact(&mut memory, "Bob likes tea.", "bob");
    let record = get_memory(open(), &memory, &id).expect("get should succeed");
    assert_eq!(record.id, id);
}

#[test]
fn get_memory_returns_a_tool_error_for_an_unknown_id() {
    let memory = test_memory();
    assert!(get_memory(open(), &memory, "never-existed").is_err());
}

#[test]
fn get_memories_scopes_results_to_the_requested_user_only() {
    let mut memory = test_memory();
    add_fact(&mut memory, "Alice is an engineer.", "alice");
    add_fact(&mut memory, "Carol is a designer.", "carol");
    let memories = get_memories(open(), &memory, &read, user("alice"), 0, 50, false, STAMP).expect("list should succeed");
    assert_eq!(memories.len(), 1);
    assert_eq!(memories[0].payload.get("user_id"), Some(&"alice".to_string()));
}

#[test]
fn get_memories_without_a_scope_is_rejected() {
    let mut memory = test_memory();
    add_fact(&mut memory, "Alice is an engineer.", "alice");
    let result = get_memories(open(), &memory, &read, nobody(), 0, 50, false, STAMP);
    assert!(result.is_err(), "get_memories with no user_id/agent_id/run_id must be rejected, not return every record unscoped");
}

#[test]
fn memory_history_reports_real_add_and_delete_events_in_order() {
    let mut memory = test_memory();
    let id = add_fact(&mut memory, "Dana runs marathons.", "dana");
    memory.delete(&id).expect("delete should succeed");
    let entries = memory_history(open(), &memory, &id, 0, 100).expect("history should succeed");
    assert_eq!(entries.len(), 2);
    assert_eq!(entries[0].event, HistoryEvent::Added);
    assert_eq!(entries[1].event, HistoryEvent::Deleted);
}

#[test]
fn add_memory_stores_content_verbatim_when_infer_is_false() {
    let mut memory = test_memory();
    let change = add_memory(open(), &mut memory, "Erin runs a bakery.", Vec::new(), user("erin"), false, STAMP);
    assert!(change.save);
    let ids = change.answer.expect("add should succeed");
    assert_eq!(ids.len(), 1);
    let stored = memory.get(&ids[0]).expect("get should succeed").expect("expected a record");
    assert_eq!(stored.payload.get("content"), Some(&"Erin runs a bakery.".to_string()));
}

#[test]
fn add_memory_with_images_describes_it_before_storage() {
    let mut memory = test_memory_with_llm(Box::new(DescribingLlmProvider));
    let images = vec!["base64imagedata".to_string()];
    let change = add_memory(open(), &mut memory, "", images, user("erin"), false, STAMP);
    let ids = change.answer.expect("add should succeed");
    let stored = memory.get(&ids[0]).expect("get should succeed").expect("expected a record");
    assert_eq!(
        stored.payload.get("content"),
        Some(&"A photo of a red bicycle.".to_string()),
        "an image-bearing add must be described before storage"
    );
}

#[test]
fn add_memory_without_images_is_unaffected() {
    let mut memory = test_memory();
    let change = add_memory(open(), &mut memory, "Frank likes tea now.", Vec::new(), user("frank"), false, STAMP);
    let ids = change.answer.expect("add should succeed");
    let stored = memory.get(&ids[0]).expect("get should succeed").expect("expected a record");
    assert_eq!(stored.payload.get("content"), Some(&"Frank likes tea now.".to_string()));
}

#[test]
fn add_memory_rejects_a_missing_secret_when_one_is_configured() {
    let mut memory = test_memory();
    let change = add_memory(locked(), &mut memory, "anything", Vec::new(), user("erin"), false, STAMP);
    assert!(change.answer.is_err());
    assert!(!change.save);
}

#[test]
fn update_memory_changes_content_and_returns_the_updated_record() {
    let mut memory = test_memory();
    let id = add_fact(&mut memory, "Frank likes coffee.", "frank");
    let record = update_memory(open(), &mut memory, &id, Some("Frank likes tea now."), None).answer.expect("update should succeed");
    assert_eq!(record.payload.get("content"), Some(&"Frank likes tea now.".to_string()));
}

#[test]
fn update_memory_returns_a_tool_error_for_an_unknown_id() {
    let mut memory = test_memory();
    assert!(update_memory(open(), &mut memory, "never-existed", Some("x"), None).answer.is_err());
}

#[test]
fn delete_memory_removes_a_real_record() {
    let mut memory = test_memory();
    let id = add_fact(&mut memory, "Grace paints landscapes.", "grace");
    let change = delete_memory(open(), &mut memory, &id);
    assert!(change.answer.is_ok());
    assert!(change.save);
    assert!(memory.get(&id).expect("get should succeed").is_none());
}

#[test]
fn delete_all_memories_rejects_an_empty_scope() {
    let mut memory = test_memory();
    assert!(delete_all_memories(open(), &mut memory, &read, nobody()).answer.is_err());
}

#[test]
fn delete_all_memories_deletes_only_the_scoped_records() {
    let mut memory = test_memory();
    add_fact(&mut memory, "Henry codes in Rust.", "henry");
    add_fact(&mut memory, "Henry also bikes.", "henry");
    add_fact(&mut memory, "Iris paints.", "iris");
    let deleted = delete_all_memories(open(), &mut memory, &read, user("henry")).answer.expect("delete_all should succeed");
    assert_eq!(deleted, 2);
    let remaining = memory.list_all(0, usize::MAX, true, None, STAMP, &read).expect("list should succeed");
    assert_eq!(remaining.len(), 1);
}

#[test]
fn list_entities_groups_real_records_by_scope_field() {
    let mut memory = test_memory();
    add_fact(&mut memory, "Jack is an engineer.", "jack");
    add_fact(&mut memory, "Jack likes hiking.", "jack");
    let entities = list_entities(open(), &memory).expect("list_entities should succeed");
    assert_eq!(entities.len(), 1);
    assert_eq!(entities[0].entity_type, "user_id");
    assert_eq!(entities[0].entity_id, "jack");
    assert_eq!(entities[0].memory_count, 2);
}

#[test]
fn add_memory_persists_a_json_snapshot_when_configured() {
    assert_eq!(persist_after_mutation(true, true, true), (true, true));
    assert_eq!(persist_after_mutation(true, false, true), (false, true));
    assert_eq!(persist_after_mutation(true, true, false), (true, false));
    assert_eq!(persist_after_mutation(false, true, true), (false, false));
}

#[test]
fn add_memory_and_delete_memory_persist_history_when_configured() {
    let mut memory = test_memory();
    let change = add_memory(open(), &mut memory, "Liam manages infrastructure.", Vec::new(), user("liam"), false, STAMP);
    let id = change.answer.expect("add should succeed").remove(0);
    delete_memory(open(), &mut memory, &id).answer.expect("delete should succeed");
    let saved = memory.history_snapshot();
    assert_eq!(saved.entries(&id, 0, usize::MAX).len(), 2);
    let mut fresh_memory = test_memory();
    fresh_memory.load_history_snapshot(saved);
    let restored_entries = fresh_memory.history(&id, 0, usize::MAX).expect("history should succeed");
    assert_eq!(restored_entries.len(), 2);
}

#[test]
fn delete_all_memories_remote_rejects_an_empty_scope_without_ever_making_a_request() {
    let err = check_delete_all(&nobody()).expect_err("expected a validation error");
    assert!(err.contains("requires at least one of user_id, agent_id, or run_id"), "got: {err}");
    assert_eq!(err, UNSCOPED_DELETE);
    assert!(check_delete_all(&user("alice")).is_ok());
}

#[test]
fn get_memory_remote_returns_the_real_not_found_message_on_404() {
    let err = tell_found("rec-1", None).err().expect("expected an error");
    assert_eq!(err, "no memory found with id rec-1");
}

fn fetched(index: usize, outcome: Result<Option<&str>, &str>) -> Fetched {
    let outcome = match outcome {
        Ok(id) => Ok(id.map(|id| VectorRecord::new(id, Vec::new(), Payload::new()))),
        Err(err) => Err(err.to_string()),
    };
    Fetched { index, outcome }
}

#[test]
fn get_memories_remote_propagates_a_real_error_from_one_failed_record_fetch_instead_of_silently_shortening_the_list() {
    let pages = vec![fetched(1, Err("remote request failed: 500 boom")), fetched(0, Ok(Some("rec-1")))];
    let err = gather(pages).err().expect("a real fetch failure must surface as an error, not a shorter list");
    assert!(err.contains("500") && err.contains("boom"), "got: {err}");
}

#[test]
fn gathered_records_come_in_the_order_they_were_listed() {
    let pages = vec![fetched(2, Ok(Some("c"))), fetched(0, Ok(Some("a"))), fetched(1, Ok(None))];
    let ids: Vec<String> = gather(pages).expect("gathering should succeed").into_iter().map(|r| r.id).collect();
    assert_eq!(ids, vec!["a".to_string(), "c".to_string()]);
}

#[test]
fn no_tool_answers_a_caller_without_the_secret() {
    let mut memory = test_memory();
    let id = add_fact(&mut memory, "A fact.", "a");
    assert!(get_memory(locked(), &memory, &id).is_err());
    assert!(get_memories(locked(), &memory, &read, user("a"), 0, 10, false, STAMP).is_err());
    assert!(memory_history(locked(), &memory, &id, 0, 10).is_err());
    assert!(list_entities(locked(), &memory).is_err());
    assert!(update_memory(locked(), &mut memory, &id, Some("x"), None).answer.is_err());
    assert!(delete_memory(locked(), &mut memory, &id).answer.is_err());
    assert!(delete_all_memories(locked(), &mut memory, &read, user("a")).answer.is_err());
    let kept = memory.get(&id).expect("get should succeed").expect("the record should be kept");
    assert_eq!(kept.payload.get("content"), Some(&"A fact.".to_string()));
}
