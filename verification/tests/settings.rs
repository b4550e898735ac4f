use memoria_core::paths::{
    config_file_path, resolve_history_path, resolve_server_store_path, resolve_sqlite_path, resolve_store_path,
};
use memoria_core::secret::{check_secret, constant_time_eq};
use memoria_core::settings::{
    build_scope, default_history_limit, default_infer, default_list_limit, default_top_k, nonempty, parse_key_value,
    resolve_embedding_provider, resolve_llm_provider, resolve_reranker, resolve_vector_store, scope_from_optional, Build,
    EmbeddingChoice, LlmChoice, Networked, NetworkedStore, NetworkedStoreEnv, RerankerChoice, StoreChoice,
};

/// A build with none of the optional parts.
fn plain() -> Build {
    Build {
        name: "memoria".to_string(),
        ollama: false,
        candle: false,
        fastembed: false,
        sqlite: false,
        postgres: false,
        qdrant: false,
        chroma: false,
        milvus: false,
    }
}

/// A build with all of the optional parts.
fn full() -> Build {
    Build {
        name: "memoria".to_string(),
        ollama: true,
        candle: true,
        fastembed: true,
        sqlite: true,
        postgres: true,
        qdrant: true,
        chroma: true,
        milvus: true,
    }
}

fn unset<'a>() -> NetworkedStoreEnv<'a> {
    NetworkedStoreEnv { url: None, dimension: None, name: None }
}

#[test]
fn resolve_llm_provider_defaults_to_local() {
    let (_, label) = resolve_llm_provider(&plain(), None, None, None, None).expect("expected a provider");
    assert!(label.contains("LocalSentenceLlmProvider"), "got: {label}");
}

#[test]
fn resolve_llm_provider_rejects_an_unknown_choice() {
    let result = resolve_llm_provider(&plain(), Some("bogus"), None, None, None);
    assert!(result.is_err());
}

#[test]
fn resolve_embedding_provider_defaults_to_local() {
    let (_, label) = resolve_embedding_provider(&plain(), None, None, None, None).expect("expected a provider");
    assert!(label.contains("LocalHashEmbeddingProvider"), "got: {label}");
}

#[test]
fn resolve_embedding_provider_rejects_an_unknown_choice() {
    let result = resolve_embedding_provider(&plain(), Some("bogus"), None, None, None);
    assert!(result.is_err());
}

#[test]
fn resolve_reranker_with_nothing_set_resolves_to_none() {
    let resolved = resolve_reranker(&plain(), None, None, None, None, None, None).expect("expected a resolution");
    assert!(resolved.is_none(), "no MEMORIA_RERANKER should mean no reranker is configured, not a default one");
}

#[test]
fn resolve_reranker_local_choice_resolves_to_a_real_reranker() {
    let (_, label) = resolve_reranker(&plain(), Some("local"), None, None, None, None, None).expect("expected a resolution").expect("expected a reranker");
    assert!(label.contains("LocalOverlapReranker"), "got: {label}");
}

#[test]
fn resolve_reranker_llm_choice_resolves_to_a_real_reranker() {
    let (_, label) = resolve_reranker(&plain(), Some("llm"), None, None, None, None, None).expect("expected a resolution").expect("expected a reranker");
    assert!(label.contains("LlmReranker"), "got: {label}");
}

#[test]
fn resolve_reranker_llm_choice_honors_the_underlying_llm_provider_choice() {
    let (_, label) = resolve_reranker(&full(), Some("llm"), Some("ollama"), None, None, None, None).expect("expected a resolution").expect("expected a reranker");
    assert!(label.contains("OllamaLlmProvider"), "got: {label}");
}

#[test]
fn resolve_reranker_rejects_an_unknown_choice() {
    assert!(resolve_reranker(&plain(), Some("bogus"), None, None, None, None, None).is_err());
}

#[test]
fn resolve_reranker_fastembed_choice_fails_clearly_without_the_feature() {
    assert!(resolve_reranker(&plain(), Some("fastembed"), None, None, None, None, None).is_err());
}

#[test]
fn resolve_llm_provider_ollama_choice_builds_with_defaults() {
    let (_, label) = resolve_llm_provider(&full(), Some("ollama"), None, None, None).expect("expected a provider");
    assert!(label.contains("qwen2.5:0.5b"), "got: {label}");
}

#[test]
fn resolve_llm_provider_ollama_choice_honors_a_custom_model() {
    let (_, label) = resolve_llm_provider(&full(), Some("ollama"), Some("custom-model".to_string()), None, None).expect("expected a provider");
    assert!(label.contains("custom-model"), "got: {label}");
}

#[test]
fn resolve_embedding_provider_ollama_choice_builds_with_defaults() {
    let (_, label) = resolve_embedding_provider(&full(), Some("ollama"), None, None, None).expect("expected a provider");
    assert!(label.contains("nomic-embed-text"), "got: {label}");
}

#[test]
fn resolve_embedding_provider_fastembed_choice_fails_clearly_without_the_feature() {
    assert!(resolve_embedding_provider(&plain(), Some("fastembed"), None, None, None).is_err());
}

#[test]
fn resolve_llm_provider_ollama_choice_fails_clearly_without_the_feature() {
    let result = resolve_llm_provider(&plain(), Some("ollama"), None, None, None);
    assert!(result.is_err());
}

#[test]
fn resolve_llm_provider_candle_choice_fails_clearly_without_the_feature() {
    assert!(resolve_llm_provider(&plain(), Some("candle"), None, None, None).is_err());
}

#[test]
fn build_scope_includes_only_provided_keys() {
    let scope = build_scope(Some("alice".to_string()), None, None);
    assert_eq!(scope.len(), 1);
    assert_eq!(scope.get("user_id"), Some(&"alice".to_string()));
}

#[test]
fn build_scope_with_nothing_provided_is_empty() {
    let scope = build_scope(None, None, None);
    assert!(scope.is_empty());
}

#[test]
fn resolve_history_path_is_a_sibling_of_the_store_path() {
    let path = resolve_history_path("/home/alice/.memoria/store.json");
    assert_eq!(path, "/home/alice/.memoria/history.json");
}

#[test]
fn parse_key_value_splits_on_first_equals() {
    assert_eq!(parse_key_value("source=chat"), Ok(("source".to_string(), "chat".to_string())));
}

#[test]
fn parse_key_value_rejects_missing_equals() {
    assert!(parse_key_value("no-equals-here").is_err());
}

#[test]
fn parse_key_value_keeps_everything_after_first_equals() {
    assert_eq!(parse_key_value("url=http://x=y"), Ok(("url".to_string(), "http://x=y".to_string())));
}

#[test]
fn resolve_store_path_cli_flag_wins_over_everything() {
    let path = resolve_store_path(Some("/from/cli"), Some("/from/env"), Some("/from/config"), "/home");
    assert_eq!(path, "/from/cli");
}

#[test]
fn resolve_store_path_env_wins_over_config_file() {
    let path = resolve_store_path(None, Some("/from/env"), Some("/from/config"), "/home");
    assert_eq!(path, "/from/env");
}

#[test]
fn resolve_store_path_config_file_wins_over_default() {
    let path = resolve_store_path(None, None, Some("/from/config"), "/home");
    assert_eq!(path, "/from/config");
}

#[test]
fn resolve_store_path_falls_back_to_default() {
    let path = resolve_store_path(None, None, None, "/home");
    assert_eq!(path, "/home/.memoria/store.json");
}

#[test]
fn resolve_store_path_falls_back_to_default_when_config_file_has_no_store_path() {
    let path = resolve_store_path(None, None, None, "/home");
    assert_eq!(path, "/home/.memoria/store.json");
}

#[test]
fn scope_from_optional_builds_only_the_provided_keys() {
    let scope = scope_from_optional(Some("alice".to_string()), None, None);
    assert_eq!(scope.len(), 1);
    assert_eq!(scope.get("user_id"), Some(&"alice".to_string()));
}

#[test]
fn check_secret_passes_when_none_is_configured() {
    assert!(check_secret(None, None).is_ok());
}

#[test]
fn check_secret_rejects_a_missing_value_when_one_is_configured() {
    assert!(check_secret(Some("s3cret"), None).is_err());
}

#[test]
fn check_secret_rejects_a_wrong_value() {
    assert!(check_secret(Some("s3cret"), Some("wrong")).is_err());
}

#[test]
fn check_secret_accepts_the_matching_value() {
    assert!(check_secret(Some("s3cret"), Some("s3cret")).is_ok());
}

#[test]
fn main_resolve_history_path_is_a_sibling_of_the_store_path() {
    let path = resolve_history_path("/home/alice/.memoria/mcp-store.json");
    assert_eq!(path, "/home/alice/.memoria/history.json");
}

#[test]
fn resolve_store_path_defaults_to_an_mcp_specific_file() {
    let path = resolve_server_store_path(None, "/home/alice");
    assert_eq!(path, "/home/alice/.memoria/mcp-store.json");
}

#[test]
fn resolve_sqlite_path_defaults_to_an_mcp_specific_file() {
    let path = resolve_sqlite_path(None, "/home/alice");
    assert_eq!(path, "/home/alice/.memoria/mcp-store.db");
}

#[test]
fn resolve_vector_store_defaults_to_sqlite() {
    let (_, persist_json_snapshot, label) =
        resolve_vector_store(&full(), None, "unused.json", "default.db", unset(), unset(), unset(), unset()).expect("expected a store");
    assert!(!persist_json_snapshot, "the sqlite default persists itself; it must not also write a JSON snapshot");
    assert!(label.contains("SqliteVectorStore"));
}

#[test]
fn resolve_vector_store_unknown_choice_is_a_clear_error() {
    let result = resolve_vector_store(&plain(), Some("bogus"), "unused.json", "unused.db", unset(), unset(), unset(), unset());
    assert!(result.is_err());
}

#[test]
fn resolve_vector_store_postgres_choice_fails_clearly_without_the_feature() {
    let postgres = NetworkedStoreEnv { url: Some("postgres://x"), dimension: Some("2"), name: None };
    let result = resolve_vector_store(&plain(), Some("postgres"), "unused.json", "unused.db", postgres, unset(), unset(), unset());
    assert!(result.is_err());
}

#[test]
fn resolve_vector_store_postgres_choice_requires_url() {
    let postgres = NetworkedStoreEnv { url: None, dimension: Some("2"), name: None };
    let err = resolve_vector_store(&full(), Some("postgres"), "unused.json", "unused.db", postgres, unset(), unset(), unset()).err().expect("expected an error");
    assert!(err.contains("MEMORIA_POSTGRES_URL"), "got: {err}");
}

#[test]
fn resolve_vector_store_postgres_choice_requires_dimension() {
    let postgres = NetworkedStoreEnv { url: Some("postgres://x"), dimension: None, name: None };
    let err = resolve_vector_store(&full(), Some("postgres"), "unused.json", "unused.db", postgres, unset(), unset(), unset()).err().expect("expected an error");
    assert!(err.contains("MEMORIA_POSTGRES_DIMENSION"), "got: {err}");
}

#[test]
fn resolve_vector_store_qdrant_choice_fails_clearly_without_the_feature() {
    let qdrant = NetworkedStoreEnv { url: Some("http://x"), dimension: Some("2"), name: None };
    let result = resolve_vector_store(&plain(), Some("qdrant"), "unused.json", "unused.db", unset(), qdrant, unset(), unset());
    assert!(result.is_err());
}

#[test]
fn resolve_vector_store_qdrant_choice_requires_url() {
    let qdrant = NetworkedStoreEnv { url: None, dimension: Some("2"), name: None };
    let err = resolve_vector_store(&full(), Some("qdrant"), "unused.json", "unused.db", unset(), qdrant, unset(), unset()).err().expect("expected an error");
    assert!(err.contains("MEMORIA_QDRANT_URL"), "got: {err}");
}

#[test]
fn resolve_vector_store_qdrant_choice_requires_dimension() {
    let qdrant = NetworkedStoreEnv { url: Some("http://x"), dimension: None, name: None };
    let err = resolve_vector_store(&full(), Some("qdrant"), "unused.json", "unused.db", unset(), qdrant, unset(), unset()).err().expect("expected an error");
    assert!(err.contains("MEMORIA_QDRANT_DIMENSION"), "got: {err}");
}

#[test]
fn resolve_vector_store_chroma_choice_fails_clearly_without_the_feature() {
    let chroma = NetworkedStoreEnv { url: Some("http://x"), dimension: Some("2"), name: None };
    let result = resolve_vector_store(&plain(), Some("chroma"), "unused.json", "unused.db", unset(), unset(), chroma, unset());
    assert!(result.is_err());
}

#[test]
fn resolve_vector_store_chroma_choice_requires_url() {
    let chroma = NetworkedStoreEnv { url: None, dimension: Some("2"), name: None };
    let err =
        resolve_vector_store(&full(), Some("chroma"), "unused.json", "unused.db", unset(), unset(), chroma, unset()).err().expect("expected an error");
    assert!(err.contains("MEMORIA_CHROMA_URL"), "got: {err}");
}

#[test]
fn resolve_vector_store_chroma_choice_requires_dimension() {
    let chroma = NetworkedStoreEnv { url: Some("http://x"), dimension: None, name: None };
    let err =
        resolve_vector_store(&full(), Some("chroma"), "unused.json", "unused.db", unset(), unset(), chroma, unset()).err().expect("expected an error");
    assert!(err.contains("MEMORIA_CHROMA_DIMENSION"), "got: {err}");
}

#[test]
fn resolve_vector_store_milvus_choice_fails_clearly_without_the_feature() {
    let milvus = NetworkedStoreEnv { url: Some("http://x"), dimension: Some("2"), name: None };
    let result = resolve_vector_store(&plain(), Some("milvus"), "unused.json", "unused.db", unset(), unset(), unset(), milvus);
    assert!(result.is_err());
}

#[test]
fn resolve_vector_store_milvus_choice_requires_url() {
    let milvus = NetworkedStoreEnv { url: None, dimension: Some("2"), name: None };
    let err = resolve_vector_store(&full(), Some("milvus"), "unused.json", "unused.db", unset(), unset(), unset(), milvus)
        .err()
        .expect("expected an error");
    assert!(err.contains("MEMORIA_MILVUS_URL"), "got: {err}");
}

#[test]
fn resolve_vector_store_milvus_choice_requires_dimension() {
    let milvus = NetworkedStoreEnv { url: Some("http://x"), dimension: None, name: None };
    let err = resolve_vector_store(&full(), Some("milvus"), "unused.json", "unused.db", unset(), unset(), unset(), milvus)
        .err()
        .expect("expected an error");
    assert!(err.contains("MEMORIA_MILVUS_DIMENSION"), "got: {err}");
}

#[test]
fn resolve_llm_provider_unknown_choice_is_a_clear_error() {
    assert!(resolve_llm_provider(&plain(), Some("bogus"), None, None, None).is_err());
}

#[test]
fn main_resolve_llm_provider_candle_choice_fails_clearly_without_the_feature() {
    assert!(resolve_llm_provider(&plain(), Some("candle"), None, None, None).is_err());
}

#[test]
fn resolve_embedding_provider_unknown_choice_is_a_clear_error() {
    assert!(resolve_embedding_provider(&plain(), Some("bogus"), None, None, None).is_err());
}

#[test]
fn every_provider_label_names_what_was_chosen() {
    let (choice, label) = resolve_llm_provider(&full(), Some("ollama"), None, None, None).expect("expected a provider");
    assert_eq!(choice, LlmChoice::Ollama { model: "qwen2.5:0.5b".to_string(), base_url: None });
    assert_eq!(label, "OllamaLlmProvider (model=qwen2.5:0.5b, base_url=http://localhost:11434; see ADR-25)");
    let (choice, _) = resolve_embedding_provider(&full(), Some("ollama"), Some("m".to_string()), Some("http://h".to_string()), None)
        .expect("expected a provider");
    assert_eq!(choice, EmbeddingChoice::Ollama { model: "m".to_string(), base_url: Some("http://h".to_string()) });
    let (choice, label) = resolve_reranker(&plain(), Some("llm"), None, None, None, None, None)
        .expect("expected a resolution")
        .expect("expected a reranker");
    assert_eq!(choice, RerankerChoice::Llm(LlmChoice::Local));
    assert!(label.contains("LocalSentenceLlmProvider"), "got: {label}");
}

#[test]
fn a_networked_store_is_resolved_from_its_settings() {
    let env = NetworkedStoreEnv { url: Some("http://db"), dimension: Some("384"), name: None };
    let (choice, snapshot, label) =
        resolve_vector_store(&full(), Some("qdrant"), "s.json", "s.db", unset(), env, unset(), unset()).expect("expected a store");
    assert_eq!(
        choice,
        StoreChoice::Networked(Networked {
            kind: NetworkedStore::Qdrant,
            url: "http://db".to_string(),
            dimension: 384,
            name: "memoria_vectors".to_string(),
        })
    );
    assert!(!snapshot);
    assert!(label.contains("memoria_vectors"), "got: {label}");
    let bad = NetworkedStoreEnv { url: Some("http://db"), dimension: Some("many"), name: None };
    let err = resolve_vector_store(&full(), Some("qdrant"), "s.json", "s.db", unset(), bad, unset(), unset()).err().expect("expected an error");
    assert!(err.contains("MEMORIA_QDRANT_DIMENSION"), "got: {err}");
}

#[test]
fn the_local_store_keeps_a_snapshot() {
    let (choice, snapshot, _) =
        resolve_vector_store(&plain(), Some("local"), "s.json", "s.db", unset(), unset(), unset(), unset()).expect("expected a store");
    assert_eq!(choice, StoreChoice::Local { path: "s.json".to_string() });
    assert!(snapshot);
    assert!(resolve_vector_store(&plain(), None, "s.json", "s.db", unset(), unset(), unset(), unset()).is_err());
}

#[test]
fn scopes_hold_every_id_that_is_given() {
    let scope = build_scope(Some("u".to_string()), Some("a".to_string()), Some("r".to_string()));
    assert_eq!(scope.len(), 3);
    assert_eq!(scope.get("agent_id"), Some(&"a".to_string()));
    assert!(scope == scope_from_optional(Some("u".to_string()), Some("a".to_string()), Some("r".to_string())));
}

#[test]
fn an_empty_setting_is_no_setting() {
    assert_eq!(nonempty(Some(String::new())), None);
    assert_eq!(nonempty(Some(" ".to_string())), Some(" ".to_string()));
    assert_eq!(nonempty(None), None);
}

#[test]
fn requests_have_their_defaults() {
    assert_eq!((default_top_k(), default_list_limit(), default_history_limit()), (10, 50, 100));
    assert!(default_infer());
}

#[test]
fn a_pair_without_an_equals_sign_is_named() {
    let err = parse_key_value("no-equals-here").err().expect("expected an error");
    assert!(err.contains("no-equals-here"), "got: {err}");
}

#[test]
fn the_configuration_lies_in_the_home_directory() {
    assert_eq!(config_file_path("/home/alice"), "/home/alice/.memoria/config.json");
    assert_eq!(config_file_path("/home/alice/"), "/home/alice/.memoria/config.json");
    assert_eq!(resolve_history_path("store.json"), "history.json");
}

#[test]
fn secrets_are_equal_only_byte_for_byte() {
    assert!(constant_time_eq(&[1, 2, 3], &[1, 2, 3]));
    assert!(!constant_time_eq(&[1, 2, 3], &[1, 2, 4]));
    assert!(!constant_time_eq(&[1, 2], &[1, 2, 3]));
    assert!(constant_time_eq(&[], &[]));
}
