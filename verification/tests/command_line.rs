use memoria_core::cli::{run, word_of, Command, Ids, Output, Report, WhoamiInfo};
use memoria_core::embedding::LocalHashEmbeddingProvider;
use memoria_core::filter::{FilterExpr, FilterOp, FilterValue};
use memoria_core::history::HistoryEvent;
use memoria_core::llm::{LlmProvider, LocalSentenceLlmProvider, Completion, LlmError, Message};
use memoria_core::memory::searching::Scorer;
use memoria_core::memory::{Memory, Stamp};
use memoria_core::number::{key_bits, order_key, Number, Reading};
use memoria_core::payload::Payload;
use memoria_core::scoring::Blend;
use memoria_core::snapshot::{load_store, read_records, records_to_save};
use memoria_core::vector_store::{InMemoryVectorStore, VectorRecord, VectorStore};

/// The order key of a score.
fn key(score: f32) -> i64 {
    order_key(f64::from(score).to_bits())
}

/// The score that an order key stands for.
fn score_of(key: i64) -> f32 {
    f64::from_bits(key_bits(key)) as f32
}

/// The sum of the differences of two vectors' components.
fn distance(a: &[u32], b: &[u32]) -> i64 {
    let parts = a.iter().zip(b).map(|(x, y)| (f32::from_bits(*x) - f32::from_bits(*y)).abs());
    key(parts.fold(0.0_f32, |sum, d| sum + d))
}

/// What a text says as a number.
fn read(s: &str) -> Reading {
    match s.parse::<f64>() {
        Ok(x) if x.is_nan() => Reading::Unordered,
        Ok(x) => Reading::Ordered(order_key(x.to_bits())),
        Err(_) => Reading::Words,
    }
}

/// A score, brought between zero and one by the least and the greatest.
fn normalize(score: f32, least: f32, greatest: f32) -> f32 {
    let range = greatest - least;
    if range > 0.0 {
        (score - least) / range
    } else {
        0.0
    }
}

/// The midpoint of the scores by meaning and by keywords.
fn combine(blend: Blend) -> i64 {
    let semantic = normalize(score_of(blend.score), score_of(blend.least), score_of(blend.greatest));
    let keyword = match blend.keyword {
        Some(k) => normalize(score_of(k.score), score_of(k.least), score_of(k.greatest)),
        None => 1.0,
    };
    key(f32::midpoint(semantic, keyword))
}

const FACTOR: f32 = 0.15;

/// A score that an entity of the query brings closer.
fn boost(score: i64) -> i64 {
    key(score_of(score) * (1.0 - FACTOR))
}

type TestScorer = Scorer<fn(&str) -> Reading, fn(Blend) -> i64, fn(i64) -> i64>;

fn scorer() -> TestScorer {
    Scorer { read, combine, boost, factor: key(1.0 - FACTOR) }
}

type TestMemory = Memory<Box<dyn LlmProvider>, LocalHashEmbeddingProvider, Box<dyn VectorStore>>;

const STAMP: Stamp = Stamp { seconds: 1_787_500_000, subsec_nanos: 3, process_id: 7 };

fn test_memory() -> TestMemory {
    Memory::new(
        Box::new(LocalSentenceLlmProvider::new()),
        LocalHashEmbeddingProvider::new(),
        Box::new(InMemoryVectorStore::new(distance)),
    )
}

fn info() -> WhoamiInfo {
    WhoamiInfo {
        store: "/home/alice/.memoria/store.json".to_string(),
        llm_provider: "a model".to_string(),
        embedding_provider: "an embedding".to_string(),
        reranker: None,
    }
}

fn alice() -> Ids {
    Ids { user_id: Some("alice".to_string()), agent_id: None, run_id: None }
}

fn go(memory: &mut TestMemory, command: Command) -> Report {
    run(command, memory, &scorer(), info(), false, STAMP)
}

fn add(memory: &mut TestMemory, content: &str) -> String {
    let report = go(memory, Command::Add { content: content.to_string(), ids: alice(), no_infer: true });
    assert_eq!(report.failure, None);
    assert!(report.save_store && report.save_history);
    match report.output {
        Output::Ids(mut ids) => ids.remove(0),
        other => panic!("expected ids, got {other:?}"),
    }
}

fn no_scores() -> Vec<String> {
    Vec::new()
}

#[test]
fn adding_says_the_ids_and_saves_everything() {
    let mut memory = test_memory();
    let report = go(&mut memory, Command::Add { content: "Alice sails. Alice sings.".to_string(), ids: alice(), no_infer: false });
    assert!(report.save_store && report.save_history);
    assert_eq!(report.output.lines(&no_scores()).len(), 2);
}

#[test]
fn adding_without_anyone_in_mind_fails_and_saves_nothing() {
    let mut memory = test_memory();
    let nobody = Ids { user_id: None, agent_id: None, run_id: None };
    let report = go(&mut memory, Command::Add { content: "x".to_string(), ids: nobody, no_infer: true });
    assert_eq!(report.failure, Some("error: validation error: scope must contain user_id, agent_id, or run_id".to_string()));
    assert!(!report.save_store && !report.save_history);
    assert!(report.output.lines(&no_scores()).is_empty());
}

#[test]
fn searching_says_ids_scores_and_contents() {
    let mut memory = test_memory();
    let id = add(&mut memory, "Alice sails.");
    let filter = FilterExpr::Field("content".to_string(), FilterOp::Contains("sails".to_string()));
    let search = Command::Search {
        query: "Alice sails.".to_string(),
        ids: alice(),
        top_k: 5,
        threshold: None,
        rerank: false,
        filter: Some(filter),
    };
    let report = go(&mut memory, search);
    assert!(!report.save_store && !report.save_history);
    match &report.output {
        Output::Results(results) => assert_eq!(score_of(results[0].score), 0.0),
        other => panic!("expected results, got {other:?}"),
    }
    assert_eq!(report.output.lines(&vec!["0".to_string()]), vec![format!("{id}\t0\tAlice sails.")]);
}

#[test]
fn a_negative_threshold_is_refused() {
    let mut memory = test_memory();
    let threshold = Some(Number { key: key(-1.0), text: "-1".to_string() });
    let search = Command::Search { query: "x".to_string(), ids: alice(), top_k: 5, threshold, rerank: false, filter: None };
    let failure = go(&mut memory, search).failure.expect("expected a failure");
    assert!(failure.starts_with("error: validation error: "), "got: {failure}");
}

#[test]
fn getting_says_the_record_or_that_there_is_none() {
    let mut memory = test_memory();
    let id = add(&mut memory, "Alice sails.");
    let report = go(&mut memory, Command::Get { id: id.clone() });
    assert!(matches!(&report.output, Output::Record(record) if record.id == id));
    assert_eq!(report.output.lines(&no_scores()), vec![format!("{id}\tAlice sails.")]);
    let missing = go(&mut memory, Command::Get { id: "nothing".to_string() });
    assert_eq!(missing.failure, Some("not found: nothing".to_string()));
}

#[test]
fn updating_saves_the_store_alone() {
    let mut memory = test_memory();
    let id = add(&mut memory, "Alice sails.");
    let set = vec![("mood".to_string(), "calm".to_string()), ("mood".to_string(), "gay".to_string())];
    let report = go(&mut memory, Command::Update { id: id.clone(), new_content: None, set });
    assert!(report.save_store && !report.save_history);
    let record = memory.get(&id).expect("get should succeed").expect("expected a record");
    assert_eq!(record.payload.get("mood"), Some(&"gay".to_string()));
}

#[test]
fn deleting_and_the_history_of_it() {
    let mut memory = test_memory();
    let id = add(&mut memory, "Alice sails.");
    let report = go(&mut memory, Command::Delete { id: id.clone() });
    assert!(report.save_store && report.save_history);
    let history = go(&mut memory, Command::History { id, offset: 0, limit: 10 });
    assert_eq!(
        history.output.lines(&no_scores()),
        vec!["added\tAlice sails.".to_string(), "deleted\tAlice sails.".to_string()]
    );
    assert_eq!(word_of(HistoryEvent::Deleted), "deleted");
}

#[test]
fn listing_says_the_ids_of_the_scope() {
    let mut memory = test_memory();
    let id = add(&mut memory, "Alice sails.");
    let report = go(&mut memory, Command::List { ids: alice(), offset: 0, limit: 10 });
    assert_eq!(report.output.lines(&no_scores()), vec![id]);
}

#[test]
fn the_remaining_commands_say_what_is_there() {
    let mut memory = test_memory();
    let init = go(&mut memory, Command::Init);
    assert!(init.save_store && !init.save_history);
    assert_eq!(
        init.output.lines(&no_scores()),
        vec!["initialized local store at /home/alice/.memoria/store.json".to_string()]
    );
    let whoami = go(&mut memory, Command::Whoami);
    assert_eq!(
        whoami.output.lines(&no_scores()),
        vec![
            "store: /home/alice/.memoria/store.json".to_string(),
            "llm provider: a model".to_string(),
            "embedding provider: an embedding".to_string(),
        ]
    );
    let status = go(&mut memory, Command::Status);
    assert_eq!(status.output.lines(&no_scores()), vec!["ok".to_string()]);
}

#[test]
fn a_quiet_command_says_nothing_and_does_the_same() {
    let mut memory = test_memory();
    let command = Command::Add { content: "Alice sails.".to_string(), ids: alice(), no_infer: true };
    let report = run(command, &mut memory, &scorer(), info(), true, STAMP);
    assert!(matches!(report.output, Output::Nothing));
    assert!(report.save_store && report.save_history);
    assert_eq!(memory.list_all(0, 10, true, None, STAMP, &read).expect("list should succeed").len(), 1);
}

/// A language model that is never there.
struct AbsentLlmProvider;

impl LlmProvider for AbsentLlmProvider {
    fn complete(&self, _messages: &[Message]) -> Result<Completion, LlmError> {
        Err(LlmError::Timeout)
    }
}

#[test]
fn a_memory_without_its_model_is_unhealthy() {
    let mut memory: TestMemory =
        Memory::new(Box::new(AbsentLlmProvider), LocalHashEmbeddingProvider::new(), Box::new(InMemoryVectorStore::new(distance)));
    let failure = go(&mut memory, Command::Status).failure.expect("expected a failure");
    assert_eq!(failure, "unhealthy: provider error: backend timed out before responding");
}

fn record(id: &str, content: &str) -> VectorRecord {
    let payload = Payload::from_pairs(vec![
        ("user_id".to_string(), "alice".to_string()),
        ("content".to_string(), content.to_string()),
    ]);
    VectorRecord::new(id, vec![1.0_f32.to_bits(), 2.0_f32.to_bits(), 3.0_f32.to_bits()], payload)
}

#[test]
fn save_then_load_round_trips_records() {
    let mut store = InMemoryVectorStore::new(distance);
    store.insert(record("rec-1", "Alice is an engineer.")).expect("insert should succeed");
    let memory = Memory::new(LocalSentenceLlmProvider::new(), LocalHashEmbeddingProvider::new(), store);
    let saved = records_to_save(&memory, STAMP, &read).expect("the records should be listed");
    let loaded = load_store(distance, saved);
    let record = loaded.get("rec-1").expect("get should succeed").expect("record should round-trip");
    assert_eq!(record.payload.get("content"), Some(&"Alice is an engineer.".to_string()));
}

#[test]
fn load_store_with_no_file_present_is_empty() {
    let loaded = load_store(distance, Vec::new());
    let ids = loaded.list(0, usize::MAX).expect("list should succeed");
    assert!(ids.is_empty());
}

#[test]
fn loading_leaves_out_records_of_another_length() {
    let short = VectorRecord::new("short", vec![0], Payload::new());
    let loaded = load_store(distance, vec![record("a", "x"), short, record("a", "y")]);
    assert_eq!(loaded.list(0, 10).expect("list should succeed"), vec!["a".to_string()]);
    let kept = loaded.get("a").expect("get should succeed").expect("expected a record");
    assert_eq!(kept.payload.get("content"), Some(&"y".to_string()));
}

#[test]
fn reading_records_skips_those_that_are_gone() {
    let mut store = InMemoryVectorStore::new(distance);
    store.insert(record("a", "x")).expect("insert should succeed");
    let memory = Memory::new(LocalSentenceLlmProvider::new(), LocalHashEmbeddingProvider::new(), store);
    let ids = vec!["gone".to_string(), "a".to_string()];
    let read_back: Vec<String> = read_records(&memory, &ids).into_iter().map(|r| r.id).collect();
    assert_eq!(read_back, vec!["a".to_string()]);
}

#[test]
fn a_filter_value_may_be_a_truth_value() {
    let mut memory = test_memory();
    add(&mut memory, "Alice sails.");
    let filter = FilterExpr::Field("user_id".to_string(), FilterOp::Eq(FilterValue::Bool(true)));
    let search = Command::Search { query: "Alice".to_string(), ids: alice(), top_k: 5, threshold: None, rerank: false, filter: Some(filter) };
    assert!(matches!(go(&mut memory, search).output, Output::Results(results) if results.is_empty()));
}
