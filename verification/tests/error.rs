use memoria_core::embedding::EmbeddingError;
use memoria_core::error::ProviderError;
use memoria_core::llm::LlmError;
use memoria_core::reranker::RerankError;
use memoria_core::vector_store::VectorStoreError;
use memoria_core::CoreError;

#[test]
fn not_found_display_is_sensible() {
    let err = CoreError::NotFound("memory 42".to_string());
    assert_eq!(err.to_string(), "not found: memory 42");
}

#[test]
fn validation_display_is_sensible() {
    let err = CoreError::Validation("empty content".to_string());
    assert_eq!(err.to_string(), "validation error: empty content");
}

#[test]
fn config_display_is_sensible() {
    let err = CoreError::Config("missing api key".to_string());
    assert_eq!(err.to_string(), "config error: missing api key");
}

#[test]
fn provider_display_is_sensible() {
    let src = ProviderError::Other("boom".to_string());
    let err = CoreError::Provider {
        message: "llm failed".to_string(),
        source: src,
    };
    assert_eq!(err.to_string(), "provider error: llm failed");
}

#[test]
fn provider_source_returns_wrapped_error() {
    let src = ProviderError::Other("boom".to_string());
    let err = CoreError::Provider {
        message: "llm failed".to_string(),
        source: src,
    };
    let source = err.source().expect("Provider must expose a source");
    assert_eq!(source.to_string(), "boom");
}

#[test]
fn non_provider_variants_have_no_source() {
    assert!(CoreError::NotFound("x".to_string()).source().is_none());
    assert!(CoreError::Validation("x".to_string()).source().is_none());
    assert!(CoreError::Config("x".to_string()).source().is_none());
}

#[test]
fn llm_timeout_routes_to_provider() {
    let err: CoreError = LlmError::Timeout.into();
    match err {
        CoreError::Provider { .. } => {}
        other => panic!("expected Provider, got {other:?}"),
    }
}

#[test]
fn embedding_timeout_routes_to_provider() {
    let err: CoreError = EmbeddingError::Timeout.into();
    match err {
        CoreError::Provider { .. } => {}
        other => panic!("expected Provider, got {other:?}"),
    }
}

#[test]
fn llm_malformed_routes_to_provider() {
    let err: CoreError = LlmError::Malformed("bad shape".to_string()).into();
    match err {
        CoreError::Provider { message, .. } => {
            assert_eq!(message, "malformed backend response: bad shape");
        }
        other => panic!("expected Provider, got {other:?}"),
    }
}

#[test]
fn llm_auth_failure_routes_to_provider() {
    let err: CoreError = LlmError::AuthFailure.into();
    match err {
        CoreError::Provider { message, .. } => {
            assert_eq!(message, "backend rejected credentials");
        }
        other => panic!("expected Provider, got {other:?}"),
    }
}

#[test]
fn rerank_backend_error_routes_to_provider() {
    let err: CoreError = RerankError::Backend("boom".to_string()).into();
    match err {
        CoreError::Provider { message, .. } => {
            assert_eq!(message, "backend error: boom");
        }
        other => panic!("expected Provider, got {other:?}"),
    }
}

#[test]
fn vector_store_dimension_mismatch_routes_to_provider() {
    let err: CoreError = VectorStoreError::DimensionMismatch { expected: 8, actual: 3 }.into();
    match err {
        CoreError::Provider { message, .. } => {
            assert!(message.contains('8'));
            assert!(message.contains('3'));
        }
        other => panic!("expected Provider, got {other:?}"),
    }
}

#[test]
fn every_store_error_says_what_happened() {
    assert_eq!(VectorStoreError::NotFound.to_string(), "record not found");
    assert_eq!(
        VectorStoreError::DimensionMismatch { expected: 8, actual: 3 }.to_string(),
        "vector dimension mismatch: expected 8, got 3"
    );
    assert_eq!(VectorStoreError::Backend("down".to_string()).to_string(), "backend error: down");
}

#[test]
fn a_store_error_is_the_source_of_the_error_it_becomes() {
    let err: CoreError = VectorStoreError::Backend("down".to_string()).into();
    let source = err.source().expect("a provider error has a source");
    assert_eq!(*source, ProviderError::VectorStore(VectorStoreError::Backend("down".to_string())));
    assert_eq!(err.to_string(), "provider error: backend error: down");
}
