use memoria_core::json::JsonTree;
use memoria_core::number::order_key;
use memoria_core::payload::Payload;
use memoria_core::stores::chroma::{
    chroma_metadata_to_payload, chroma_record, chroma_results, chroma_size, chroma_where_from_filters,
};
use memoria_core::stores::dispatch::{reply_outcome, startup_outcome, Action, Command, Dispatcher, Event};
use memoria_core::stores::milvus::{
    milvus_dimension, milvus_entity_row_to_record, milvus_escape_filter_value, milvus_filter_expression, milvus_limit, milvus_next_page,
    milvus_results, milvus_row, milvus_row_id, milvus_row_numbers, MilvusField, MilvusIds,
};
use memoria_core::stores::postgres::{self, check_table_name, filters_to_jsonb, tolerates, write_setup_statements, Statement};
use memoria_core::stores::qdrant::{
    qdrant_collect_ids, qdrant_decode_payload, qdrant_has_next_page, qdrant_point_id, qdrant_point_id_to_string, qdrant_point_payload,
    qdrant_record, qdrant_record_id, qdrant_results, PointId, ScoredPoint, QDRANT_MEMORIA_ID_KEY,
};
use memoria_core::stores::sqlite::{self, check_insert, decode_record, encode_payload, fts_match_expression, indexed_content, Matches};
use memoria_core::stores::{check_affected, check_dimension, clamp_size, page_of_ids, TextEntries};
use memoria_core::vector_store::{VectorRecord, VectorStoreError};

fn key(score: f64) -> i64 {
    order_key(score.to_bits())
}

fn payload(pairs: &[(&str, &str)]) -> Payload {
    Payload::from_pairs(pairs.iter().map(|(k, v)| (k.to_string(), v.to_string())).collect())
}

fn entries(pairs: &[(&str, Option<&str>)]) -> TextEntries {
    pairs.iter().map(|(k, v)| (k.to_string(), v.map(str::to_string))).collect()
}

#[test]
fn shared_rules_of_the_stores() {
    assert_eq!(check_dimension(2, 2), Ok(()));
    assert_eq!(check_dimension(2, 3), Err(VectorStoreError::DimensionMismatch { expected: 2, actual: 3 }));
    assert_eq!(check_affected(0), Err(VectorStoreError::NotFound));
    assert_eq!(check_affected(1), Ok(()));
    assert_eq!(clamp_size(7), 7);
    assert_eq!(clamp_size(usize::MAX), i64::MAX);
    let ids: Vec<String> = ["b", "c", "a"].iter().map(|id| id.to_string()).collect();
    assert_eq!(page_of_ids(ids, 1, 1), vec!["b".to_string()]);
}

#[test]
fn a_query_matches_any_of_its_words_and_nothing_else() {
    assert_eq!(fts_match_expression("rust AND  \"safe\""), r#""rust" OR "AND" OR """safe""""#);
    assert_eq!(fts_match_expression("  "), "");
}

#[test]
fn only_a_content_is_indexed() {
    assert_eq!(indexed_content(&payload(&[("content", "x")])), Some(&"x".to_string()));
    assert_eq!(indexed_content(&payload(&[("content", "")])), None);
    assert_eq!(indexed_content(&payload(&[])), None);
    assert_eq!(check_insert(None, 5), Ok(()));
    assert_eq!(check_insert(Some(4), 5), Err(VectorStoreError::DimensionMismatch { expected: 4, actual: 5 }));
}

#[test]
fn matches_are_taken_until_there_are_enough() {
    let matches = Matches::new(&payload(&[("user_id", "a")]), 2);
    let (matches, more) = matches.offer("other", key(-3.0), Some(payload(&[("user_id", "b")])));
    assert!(more);
    let (matches, more) = matches.offer("one", key(-2.0), Some(payload(&[("user_id", "a")])));
    assert!(more);
    let (matches, more) = matches.offer("gone", key(-1.5), None);
    assert!(more);
    let (matches, more) = matches.offer("two", key(-1.0), Some(payload(&[("user_id", "a")])));
    assert!(!more);
    let found: Vec<(String, i64)> = matches.finish().into_iter().map(|r| (r.id, r.score)).collect();
    assert_eq!(found, vec![("one".to_string(), key(-2.0)), ("two".to_string(), key(-1.0))]);
}

#[test]
fn a_table_is_named_by_letters_digits_and_underscores() {
    assert_eq!(check_table_name("memoria_vectors2"), Ok(()));
    for bad in ["", "a-b", "x; DROP TABLE y", "ä"] {
        assert_eq!(check_table_name(bad), Err(VectorStoreError::Backend(format!("invalid table name: {bad}"))));
    }
}

#[test]
fn a_table_is_made_once() {
    let statements = write_setup_statements("t", 3);
    assert_eq!(statements.len(), 6);
    assert_eq!(statements[1], "CREATE TABLE IF NOT EXISTS t (id TEXT PRIMARY KEY, vector VECTOR(3) NOT NULL, payload JSONB NOT NULL)");
    assert_eq!(statements[4], "CREATE INDEX IF NOT EXISTS t_vector_hnsw_idx ON t USING hnsw (vector vector_l2_ops)");
    assert!(tolerates(Some("23505")) && tolerates(Some("42P07")) && tolerates(Some("42701")));
    assert!(!tolerates(Some("42601")) && !tolerates(None));
}

#[test]
fn statements_name_their_table() {
    assert_eq!(Statement::Get.for_table("t"), "SELECT vector, payload FROM t WHERE id = $1");
    assert_eq!(Statement::Reset.for_table("t"), "DELETE FROM t");
    assert_eq!(Statement::List.for_table("t"), "SELECT id FROM t ORDER BY id LIMIT $1 OFFSET $2");
}

#[test]
fn a_point_id_is_made_of_the_record_id() {
    assert_eq!(
        qdrant_point_id("rec-1"),
        [254, 152, 241, 100, 48, 236, 92, 249, 141, 4, 165, 211, 81, 62, 107, 87]
    );
    assert_eq!(qdrant_point_id("é"), [157, 16, 26, 151, 60, 146, 89, 77, 181, 3, 54, 151, 146, 208, 217, 138]);
    assert_ne!(qdrant_point_id("rec-1"), qdrant_point_id("rec-2"));
}

#[test]
fn a_point_gives_its_record_back() {
    let kept = qdrant_point_payload("rec-1", &payload(&[("content", "x")]));
    assert_eq!(kept.get(QDRANT_MEMORIA_ID_KEY), Some(&"rec-1".to_string()));
    let read = entries(&[("content", Some("x")), (QDRANT_MEMORIA_ID_KEY, Some("rec-1")), ("n", None)]);
    assert_eq!(qdrant_record_id(&read, "other"), "rec-1");
    assert_eq!(qdrant_record_id(&entries(&[]), "other"), "other");
    assert!(qdrant_decode_payload(&read) == payload(&[("content", "x")]));
    let record = qdrant_record(&read, Some(vec![1]), "asked");
    assert_eq!((record.id.as_str(), record.vector), ("rec-1", vec![1]));
    assert_eq!(qdrant_point_id_to_string(&PointId::Num(7)), "7");
    assert_eq!(qdrant_point_id_to_string(&PointId::Uuid("u".to_string())), "u");
}

#[test]
fn points_are_read_page_by_page() {
    let mut ids = vec!["a".to_string()];
    let page = vec![
        (PointId::Num(1), entries(&[(QDRANT_MEMORIA_ID_KEY, Some("b"))])),
        (PointId::Uuid("c".to_string()), entries(&[])),
    ];
    qdrant_collect_ids(&mut ids, &page);
    assert_eq!(ids, vec!["a".to_string(), "b".to_string(), "c".to_string()]);
    assert!(qdrant_has_next_page(2, true));
    assert!(!qdrant_has_next_page(2, false));
    assert!(!qdrant_has_next_page(0, true));
}

#[test]
fn points_within_a_threshold_are_results() {
    let points = vec![
        ScoredPoint { id: PointId::Num(1), score: key(0.5), payload: entries(&[(QDRANT_MEMORIA_ID_KEY, Some("near"))]) },
        ScoredPoint { id: PointId::Num(2), score: key(2.0), payload: entries(&[]) },
    ];
    let ids: Vec<String> = qdrant_results(&points, Some(key(1.0))).into_iter().map(|r| r.id).collect();
    assert_eq!(ids, vec!["near".to_string()]);
    assert_eq!(qdrant_results(&points, None).len(), 2);
}

#[test]
fn chroma_keeps_texts_as_metadata() {
    let metadata = Some(entries(&[("content", Some("x")), ("n", None)]));
    assert!(chroma_metadata_to_payload(&metadata) == payload(&[("content", "x")]));
    assert!(chroma_metadata_to_payload(&None).is_empty());
    assert_eq!(chroma_where_from_filters(&payload(&[])), None);
    assert_eq!(
        chroma_where_from_filters(&payload(&[("user_id", "a")])),
        Some(vec![("user_id".to_string(), "a".to_string())])
    );
    assert_eq!(chroma_size(5), 5);
    assert_eq!(chroma_size(usize::MAX), u32::MAX);
    let record = chroma_record("id".to_string(), None, &metadata);
    assert!(record.vector.is_empty());
}

#[test]
fn chroma_results_line_up_with_their_distances() {
    let ids = vec!["a".to_string(), "b".to_string()];
    let distances = vec![Some(key(0.5)), None];
    let metadatas = vec![Some(entries(&[("content", Some("x"))])), None];
    let all = chroma_results(&ids, &distances, &metadatas, None);
    assert_eq!(all.len(), 2);
    assert_eq!(all[0].payload.get("content"), Some(&"x".to_string()));
    let near: Vec<String> = chroma_results(&ids, &distances, &metadatas, Some(key(1.0))).into_iter().map(|r| r.id).collect();
    assert_eq!(near, vec!["a".to_string()]);
}

fn tree(json: &str) -> JsonTree {
    JsonTree::parse(json).expect("test JSON must be valid")
}

#[test]
fn milvus_values_are_escaped() {
    assert_eq!(milvus_escape_filter_value("a\\b\"c"), "a\\\\b\\\"c");
    let expression = milvus_filter_expression(&payload(&[("a", "1"), ("b", "2")]));
    assert!(expression == "a == \"1\" and b == \"2\"" || expression == "b == \"2\" and a == \"1\"", "got: {expression}");
    assert_eq!(milvus_filter_expression(&payload(&[])), "");
}

#[test]
fn milvus_rows_give_their_records_back() {
    let record = VectorRecord::new("rec-1", vec![1, 2], payload(&[("content", "x")]));
    let row = milvus_row(2, record.clone()).expect("the row should fit");
    assert!(matches!(row.get("id"), Some(MilvusField::Text(id)) if id == "rec-1"));
    assert!(matches!(row.get("vector"), Some(MilvusField::Vector(v)) if *v == vec![1, 2]));
    assert!(matches!(row.get("content"), Some(MilvusField::Text(content)) if content == "x"));
    assert!(matches!(milvus_row(3, record), Err(VectorStoreError::DimensionMismatch { expected: 3, actual: 2 })));
    let read = tree(r#"{"id": "rec-1", "vector": [0.5, 2], "content": "x", "n": 3}"#);
    assert_eq!(milvus_row_numbers(&read), vec!["0.5".to_string(), "2".to_string()]);
    let back = milvus_entity_row_to_record(&read, vec![1, 2], "asked");
    assert_eq!(back.id, "rec-1");
    assert!(back.payload == payload(&[("content", "x")]));
    assert_eq!(milvus_row_id(&read), Some(&"rec-1".to_string()));
    assert_eq!(milvus_row_id(&tree("{}")), None);
}

#[test]
fn milvus_limits_are_kept() {
    assert_eq!(milvus_limit(10), 10);
    assert_eq!(milvus_limit(usize::MAX), 16384);
    assert_eq!(milvus_dimension(384), Ok(384));
    assert!(milvus_dimension(usize::MAX).is_err());
    assert_eq!(milvus_next_page(0, 1000), Some(1000));
    assert_eq!(milvus_next_page(0, 999), None);
}

#[test]
fn milvus_results_take_their_ids_from_the_answer() {
    let rows = vec![tree(r#"{"content": "x"}"#), tree(r#"{"content": "y"}"#)];
    let ids = MilvusIds::Texts(vec!["a".to_string(), "b".to_string()]);
    let results = milvus_results(&rows, &ids, &vec![key(0.5), key(3.0)], Some(key(1.0)));
    let found: Vec<&str> = results.iter().map(|r| r.id.as_str()).collect();
    assert_eq!(found, vec!["a"]);
    let numbered = milvus_results(&rows, &MilvusIds::Numbers(vec![4, 5]), &vec![key(0.5), key(3.0)], None);
    assert_eq!(numbered[1].id, "5");
}

#[test]
fn a_dispatcher_starts_serves_and_stops() {
    let (mut dispatcher, action) = Dispatcher::start();
    assert!(matches!(action, Action::BuildRuntime));
    assert!(matches!(dispatcher.step(Event::Made), Action::BuildClient));
    assert!(matches!(dispatcher.step(Event::Made), Action::EnsureCollection));
    assert!(matches!(dispatcher.step(Event::Made), Action::Announce(Ok(()))));
    assert!(matches!(dispatcher.step(Event::Announced(true)), Action::Receive));
    let handle = dispatcher.step(Event::Received(Some(Command::Get("a".to_string()))));
    assert!(matches!(handle, Action::Handle(Command::Get(id)) if id == "a"));
    assert!(matches!(dispatcher.step(Event::Handled(true)), Action::Reply { .. }));
    assert!(matches!(dispatcher.step(Event::Replied(true)), Action::Receive));
    assert!(matches!(dispatcher.step(Event::Received(None)), Action::Stop));
}

#[test]
fn a_failure_to_start_is_announced_before_stopping() {
    let (mut dispatcher, _) = Dispatcher::start();
    let failure = VectorStoreError::Backend("no runtime".to_string());
    let action = dispatcher.step(Event::Failed(failure.clone()));
    assert!(matches!(action, Action::Announce(Err(err)) if err == failure));
    assert!(matches!(dispatcher.step(Event::Announced(true)), Action::Stop));
}

#[test]
fn callers_learn_what_became_of_the_dispatcher() {
    assert_eq!(startup_outcome("qdrant", Some(Ok(()))), Ok(()));
    let died = startup_outcome("qdrant", None).expect_err("expected an error");
    assert!(died.to_string().contains("qdrant"), "got: {}", died.to_string());
    assert_eq!(reply_outcome("qdrant", true, Some(Ok(5))), Ok(5));
    assert_eq!(reply_outcome::<u8>("qdrant", true, Some(Err(VectorStoreError::NotFound))), Err(VectorStoreError::NotFound));
    assert!(reply_outcome::<u8>("qdrant", false, None).is_err());
    assert!(reply_outcome::<u8>("qdrant", true, None).is_err());
}

#[test]
fn a_payload_comes_back_out_of_the_database_as_json() {
    let kept = payload(&[("user_id", "alice"), ("note", "a \"quoted\" word\n")]);
    let value = filters_to_jsonb(&kept);
    assert_eq!(value.get("user_id").and_then(serde_json::Value::as_str), Some("alice"));
    assert_eq!(value.as_object().map(|object| object.len()), Some(2));
    assert_eq!(postgres::decode_payload(value), Ok(kept));
    assert_eq!(filters_to_jsonb(&Payload::new()).to_string(), "{}");
}

#[test]
fn a_value_that_is_no_payload_is_reported() {
    let number: serde_json::Value = serde_json::from_str("{\"a\": 1}").expect("valid JSON");
    let told = "invalid type: integer `1`, expected a string".to_string();
    assert_eq!(postgres::decode_payload(number), Err(VectorStoreError::Backend(told)));
    let told = "invalid type: sequence, expected a map".to_string();
    assert_eq!(postgres::decode_payload(serde_json::Value::Array(Vec::new())), Err(VectorStoreError::Backend(told)));
}

#[test]
fn a_row_gives_back_its_record() {
    let kept = payload(&[("content", "likes \\ and \"tea\""), ("user_id", "bob")]);
    let json = encode_payload(&kept).expect("a payload can be written");
    assert_eq!(sqlite::decode_payload(&json), Ok(kept.clone()));
    let record = decode_record("r".to_string(), Ok(vec![1, 2]), &json).expect("the row is whole");
    assert_eq!(record.id, "r");
    assert_eq!(record.vector, vec![1, 2]);
    assert_eq!(record.payload, kept);
    assert_eq!(encode_payload(&payload(&[("a", "b")])), Ok("{\"a\":\"b\"}".to_string()));
}

#[test]
fn a_row_that_cannot_be_read_is_reported_by_its_vector_first() {
    let told = decode_record("r".to_string(), Err("bad vector".to_string()), "bad payload").err();
    assert_eq!(told, Some(VectorStoreError::Backend("bad vector".to_string())));
    let told = decode_record("r".to_string(), Ok(Vec::new()), "{\"a\":1}").err();
    let reason = "invalid type: integer `1`, expected a string at line 1 column 6".to_string();
    assert_eq!(told, Some(VectorStoreError::Backend(reason)));
    assert!(sqlite::decode_payload("[]").is_err());
}

#[test]
fn a_search_for_no_matches_takes_none() {
    let matches = Matches::new(&payload(&[("user_id", "a")]), 0);
    let (matches, more) = matches.offer("one", key(-2.0), Some(payload(&[("user_id", "a")])));
    assert!(!more);
    assert!(matches.finish().is_empty());
}
