use memoria_core::embedding::{EmbeddingConfig, EmbeddingError};
use memoria_core::json::JsonTree;
use memoria_core::llm::{LlmConfig, LlmError, Message, Role};
use memoria_core::ollama::{
    build_batch_embeddings_request, build_chat_request, build_embeddings_request, chat_failure, check_batch_status, check_chat_status,
    check_embedding_status, embedding_failure, parse_batch_embeddings_response, parse_chat_response, parse_embeddings_response,
    read_chat_body, Batch, BatchStep, OllamaEmbeddingProvider, OllamaLlmProvider,
};
use memoria_core::CoreError;

fn tree(json: &str) -> JsonTree {
    let value: serde_json::Value = serde_json::from_str(json).expect("test JSON must be valid");
    JsonTree::of(&value)
}

fn llm_config(model: &str) -> LlmConfig {
    LlmConfig { model: model.to_string(), base_url: Some("http://127.0.0.1:1".to_string()), api_key: None, temperature: None }
}

fn embedding_config(model: &str) -> EmbeddingConfig {
    EmbeddingConfig { model: model.to_string(), base_url: Some("http://127.0.0.1:1".to_string()), api_key: None, dimensions: None }
}

#[test]
fn build_chat_request_has_the_expected_shape() {
    let messages = [Message::new(Role::System, "be terse"), Message::new(Role::User, "hello")];
    let request = build_chat_request("qwen2.5:0.5b", &messages);
    assert_eq!(request["model"], "qwen2.5:0.5b");
    assert_eq!(request["stream"], false);
    assert_eq!(request["messages"][0]["role"], "system");
    assert_eq!(request["messages"][0]["content"], "be terse");
    assert_eq!(request["messages"][1]["role"], "user");
    assert_eq!(request["messages"][1]["content"], "hello");
}

#[test]
fn parse_chat_response_extracts_message_content() {
    let json = tree(r#"{"message": {"role": "assistant", "content": "hi there"}}"#);
    let completion = parse_chat_response(&json).expect("expected a completion");
    assert_eq!(completion.content, "hi there");
}

#[test]
fn parse_chat_response_rejects_a_missing_content_field() {
    let json = tree(r#"{"message": {"role": "assistant"}}"#);
    assert!(matches!(parse_chat_response(&json), Err(LlmError::Malformed(_))));
}

#[test]
fn llm_from_config_rejects_an_invalid_config_before_building_the_client() {
    let config = LlmConfig { model: String::new(), base_url: None, api_key: None, temperature: None };
    assert!(matches!(OllamaLlmProvider::from_config(config), Err(CoreError::Config(_))));
}

#[test]
fn llm_contract_rejects_backend_error_against_an_unreachable_host() {
    let provider = OllamaLlmProvider::from_config(llm_config("qwen2.5:0.5b")).expect("valid config should construct");
    assert_eq!(provider.url(), "http://127.0.0.1:1/api/chat");
    assert!(matches!(chat_failure(false, "connection refused".to_string()), LlmError::Backend(_)));
}

#[test]
fn rejects_empty_messages_without_a_network_call() {
    let provider = OllamaLlmProvider::from_config(llm_config("qwen2.5:0.5b")).expect("valid config should construct");
    assert!(matches!(provider.request(&[]), Err(LlmError::EmptyMessages)));
}

#[test]
fn embed_batch_posts_one_request_to_the_batch_endpoint() {
    let provider = OllamaEmbeddingProvider::from_config(embedding_config("nomic-embed-text")).expect("provider should build");
    let Ok(Batch::Send(request)) = provider.batch_request(&["first", "second"]) else { panic!("expected one request") };
    assert_eq!(provider.batch_url(), "http://127.0.0.1:1/api/embed");
    let body = request.to_string();
    assert!(body.contains(r#""input":["first","second"]"#), "both texts must go in one request: {body}");
    assert_eq!(check_batch_status(200, "200 OK"), Ok(BatchStep::ReadBody));
    let answer = tree(r#"{"embeddings":[[1.0,2.0],[3.0,4.0]]}"#);
    let embeddings = parse_batch_embeddings_response(&answer, 2).expect("batch embedding should succeed");
    let numbers: Vec<Vec<f32>> = embeddings.iter().map(|v| v.iter().map(|n| n.parse().expect("a number")).collect()).collect();
    assert_eq!(numbers, vec![vec![1.0, 2.0], vec![3.0, 4.0]]);
}

#[test]
fn embed_batch_falls_back_to_the_legacy_endpoint_when_batch_is_not_found() {
    assert_eq!(check_batch_status(404, "404 Not Found"), Ok(BatchStep::OneByOne));
    let failed = check_batch_status(500, "500 Internal Server Error");
    assert!(matches!(failed, Err(EmbeddingError::Backend(_))), "got {failed:?}");
    let provider = OllamaEmbeddingProvider::from_config(embedding_config("nomic-embed-text")).expect("provider should build");
    assert_eq!(provider.url(), "http://127.0.0.1:1/api/embeddings");
}

#[test]
fn embed_batch_rejects_an_empty_text_without_calling_the_backend() {
    let provider = OllamaEmbeddingProvider::from_config(embedding_config("nomic-embed-text")).expect("provider should build");
    assert!(matches!(provider.batch_request(&["fine", ""]), Err(EmbeddingError::EmptyInput)));
}

#[test]
fn embed_batch_of_nothing_is_an_empty_result_without_a_request() {
    let provider = OllamaEmbeddingProvider::from_config(embedding_config("nomic-embed-text")).expect("provider should build");
    assert!(matches!(provider.batch_request(&[]), Ok(Batch::Nothing)));
}

#[test]
fn build_embeddings_request_has_the_expected_shape() {
    let request = build_embeddings_request("nomic-embed-text", "hello world");
    assert_eq!(request["model"], "nomic-embed-text");
    assert_eq!(request["prompt"], "hello world");
}

#[test]
fn parse_embeddings_response_extracts_the_vector() {
    let json = tree(r#"{"embedding": [0.1, 0.2, 0.3]}"#);
    let vector = parse_embeddings_response(&json).expect("expected a vector");
    assert_eq!(vector.len(), 3);
}

#[test]
fn parse_embeddings_response_rejects_a_missing_embedding_field() {
    let json = tree(r#"{"not_embedding": []}"#);
    assert!(matches!(parse_embeddings_response(&json), Err(EmbeddingError::Backend(_))));
}

#[test]
fn embedding_from_config_rejects_an_invalid_config_before_building_the_client() {
    let config = EmbeddingConfig { model: String::new(), base_url: None, api_key: None, dimensions: None };
    assert!(matches!(OllamaEmbeddingProvider::from_config(config), Err(CoreError::Config(_))));
}

#[test]
fn embedding_contract_rejects_backend_error_against_an_unreachable_host() {
    let provider = OllamaEmbeddingProvider::from_config(embedding_config("nomic-embed-text")).expect("valid config should construct");
    assert!(provider.request("hello").is_ok());
    assert!(matches!(embedding_failure(false, "connection refused".to_string()), EmbeddingError::Backend(_)));
}

#[test]
fn rejects_empty_input_without_a_network_call() {
    let provider = OllamaEmbeddingProvider::from_config(embedding_config("nomic-embed-text")).expect("valid config should construct");
    assert!(matches!(provider.request(""), Err(EmbeddingError::EmptyInput)));
}

#[test]
fn a_host_that_is_not_named_is_the_local_one() {
    let config = LlmConfig { model: "m".to_string(), base_url: None, api_key: None, temperature: None };
    assert_eq!(OllamaLlmProvider::from_config(config).expect("valid config should construct").url(), "http://localhost:11434/api/chat");
}

#[test]
fn each_failure_of_a_chat_is_told_apart() {
    assert_eq!(chat_failure(true, "late".to_string()), LlmError::Timeout);
    assert_eq!(chat_failure(false, "down".to_string()), LlmError::Backend("down".to_string()));
    assert_eq!(check_chat_status(401, "401 Unauthorized"), Err(LlmError::AuthFailure));
    assert!(matches!(check_chat_status(503, "503 Service Unavailable"), Err(LlmError::Backend(reason)) if reason.contains("503")));
    assert_eq!(check_chat_status(200, "200 OK"), Ok(()));
    assert_eq!(read_chat_body(Err("eof".to_string())), Err(LlmError::Malformed("eof".to_string())));
}

#[test]
fn each_failure_of_an_embedding_is_told_apart() {
    assert_eq!(embedding_failure(true, "late".to_string()), EmbeddingError::Timeout);
    assert!(matches!(check_embedding_status(500, "500 oh"), Err(EmbeddingError::Backend(reason)) if reason.contains("500 oh")));
    assert_eq!(check_embedding_status(204, "204 No Content"), Ok(()));
}

#[test]
fn a_batch_answer_of_the_wrong_size_is_refused() {
    let answer = tree(r#"{"embeddings":[[1.0,2.0]]}"#);
    assert!(matches!(parse_batch_embeddings_response(&answer, 2), Err(EmbeddingError::Backend(_))));
    let words = tree(r#"{"embeddings":["x"]}"#);
    assert!(matches!(parse_batch_embeddings_response(&words, 1), Err(EmbeddingError::Backend(_))));
    let mixed = tree(r#"{"embeddings":[["x", 1.5]]}"#);
    assert_eq!(parse_batch_embeddings_response(&mixed, 1), Ok(vec![vec!["1.5".to_string()]]));
}

#[test]
fn a_batch_request_holds_its_texts_in_order() {
    let request = build_batch_embeddings_request("m", &["a", "b"]);
    assert_eq!(request["model"], "m");
    assert_eq!(request["input"][0], "a");
    assert_eq!(request["input"][1], "b");
}
