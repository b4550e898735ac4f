#![allow(dead_code)]

use memoria_core::embedding::{
    check_fastembed_model, check_input, check_inputs, EmbeddingConfig, EmbeddingContractTests, EmbeddingError, EmbeddingProvider, FASTEMBED_MODEL_NAME, LocalHashEmbeddingProvider,
};
use memoria_core::CoreError;

/// An embedding provider with a fixed behaviour.
struct FakeEmbeddingProvider {
    failure: Option<EmbeddingError>,
}

impl FakeEmbeddingProvider {
    fn new() -> Self {
        Self { failure: None }
    }

    fn failing() -> Self {
        Self { failure: Some(EmbeddingError::Backend("fake backend failure".to_string())) }
    }

    fn timing_out() -> Self {
        Self { failure: Some(EmbeddingError::Timeout) }
    }
}

impl EmbeddingProvider for FakeEmbeddingProvider {
    fn embed(&self, input: &str) -> Result<Vec<u32>, EmbeddingError> {
        if let Some(failure) = &self.failure {
            return Err(failure.clone());
        }
        if input.is_empty() {
            return Err(EmbeddingError::EmptyInput);
        }
        let mut vector = Vec::new();
        for d in 0..8_u16 {
            let mut acc = f32::from(d);
            for (i, b) in input.bytes().enumerate() {
                let weight = ((i + usize::from(d)) % 8) as f32 + 1.0;
                acc = f32::from(b).mul_add(weight, acc);
            }
            vector.push(acc.to_bits());
        }
        Ok(vector)
    }
}

#[test]
fn empty_input_display_is_sensible() {
    let err = EmbeddingError::EmptyInput;
    assert_eq!(err.to_string(), "no text provided");
}

#[test]
fn embedding_backend_display_is_sensible() {
    let err = EmbeddingError::Backend("boom".to_string());
    assert_eq!(err.to_string(), "backend error: boom");
}

#[test]
fn embedding_timeout_display_is_sensible() {
    let err = EmbeddingError::Timeout;
    assert_eq!(err.to_string(), "backend timed out before responding");
}

#[test]
fn embedding_fake_provider_passes_happy_path_contract() {
    assert!(FakeEmbeddingProvider::new().contract_happy_path());
}

#[test]
fn embedding_fake_provider_passes_error_contract() {
    assert!(FakeEmbeddingProvider::new().contract_rejects_empty_string());
}

#[test]
fn local_hash_provider_passes_happy_path_contract() {
    assert!(LocalHashEmbeddingProvider::new().contract_happy_path());
}

#[test]
fn local_hash_provider_passes_error_contract() {
    assert!(LocalHashEmbeddingProvider::new().contract_rejects_empty_string());
}

#[test]
fn local_hash_provider_passes_deterministic_contract() {
    assert!(LocalHashEmbeddingProvider::new().contract_embed_is_deterministic());
}

#[test]
fn local_hash_provider_passes_batch_matches_individual_contract() {
    assert!(LocalHashEmbeddingProvider::new().contract_embed_batch_matches_individual_calls());
}

#[test]
fn local_hash_provider_never_produces_non_finite_components() {
    let provider = LocalHashEmbeddingProvider::new();
    for text in ["Alice is an engineer.", "Bob lives in Berlin.", "a", &"x".repeat(500)] {
        let vector = provider.embed(text).expect("embed should succeed");
        assert!(
            vector.iter().all(|component| f32::from_bits(*component).is_finite()),
            "embedding for {text:?} contained a non-finite component: {vector:?}"
        );
    }
}

#[test]
fn embedding_fake_provider_passes_backend_error_contract() {
    assert!(FakeEmbeddingProvider::failing().contract_rejects_backend_error());
}

#[test]
fn fake_provider_passes_timeout_contract() {
    assert!(FakeEmbeddingProvider::timing_out().contract_rejects_timeout());
}

#[test]
fn fake_provider_passes_deterministic_contract() {
    assert!(FakeEmbeddingProvider::new().contract_embed_is_deterministic());
}

#[test]
fn fake_provider_passes_batch_matches_individual_contract() {
    assert!(FakeEmbeddingProvider::new().contract_embed_batch_matches_individual_calls());
}

#[test]
fn fake_provider_passes_batch_empty_contract() {
    assert!(FakeEmbeddingProvider::new().contract_embed_batch_empty_list_returns_empty());
}

#[test]
fn embedding_config_with_valid_model_passes_validation() {
    let config = EmbeddingConfig {
        model: "nomic-embed-text".to_string(),
        base_url: None,
        api_key: None,
        dimensions: None,
    };
    assert!(config.validate().is_ok());
}

#[test]
fn embedding_config_with_empty_model_is_rejected() {
    let config = EmbeddingConfig {
        model: String::new(),
        base_url: None,
        api_key: None,
        dimensions: None,
    };
    assert!(matches!(config.validate(), Err(CoreError::Config(_))));
}

#[test]
fn embedding_config_with_whitespace_only_model_is_rejected() {
    let config = EmbeddingConfig {
        model: "   ".to_string(),
        base_url: None,
        api_key: None,
        dimensions: None,
    };
    assert!(matches!(config.validate(), Err(CoreError::Config(_))));
}

#[test]
fn config_with_positive_dimensions_passes_validation() {
    let config = EmbeddingConfig {
        model: "nomic-embed-text".to_string(),
        base_url: None,
        api_key: None,
        dimensions: Some(768),
    };
    assert!(config.validate().is_ok());
}

#[test]
fn config_with_zero_dimensions_is_rejected() {
    let config = EmbeddingConfig {
        model: "nomic-embed-text".to_string(),
        base_url: None,
        api_key: None,
        dimensions: Some(0),
    };
    assert!(matches!(config.validate(), Err(CoreError::Config(_))));
}

#[test]
fn from_config_rejects_an_invalid_config_before_touching_the_model() {
    let config = EmbeddingConfig { model: String::new(), base_url: None, api_key: None, dimensions: None };
    assert!(matches!(check_fastembed_model(&config), Err(CoreError::Config(_))));
}

#[test]
fn from_config_rejects_an_unsupported_model_name_before_touching_the_model() {
    let config = EmbeddingConfig { model: "some-other-model".to_string(), base_url: None, api_key: None, dimensions: None };
    assert!(matches!(check_fastembed_model(&config), Err(CoreError::Config(_))));
}

#[test]
fn the_supported_model_is_accepted() {
    let config = EmbeddingConfig { model: FASTEMBED_MODEL_NAME.to_string(), base_url: None, api_key: None, dimensions: None };
    assert!(check_fastembed_model(&config).is_ok());
}

/// The components of the local embedding of a text, reckoned over again.
fn expected_components(input: &str) -> Vec<f32> {
    let mut components = Vec::new();
    for d in 0..8_u32 {
        let mut acc = d;
        for (i, b) in input.bytes().enumerate() {
            let weight = (i % 8) as u32 + 1;
            acc = (acc * (u32::from(b) + 1) + weight) % 1_000_003;
        }
        components.push(acc as f32);
    }
    components
}

#[test]
fn the_local_embedding_has_the_expected_components() {
    for input in ["a", "engineer", "Zürich", "a longer text with some words"] {
        let vector = LocalHashEmbeddingProvider::new().embed(input).expect("embed should succeed");
        let components: Vec<f32> = vector.iter().map(|bits| f32::from_bits(*bits)).collect();
        assert_eq!(components, expected_components(input), "embedding of {input}");
    }
}

#[test]
fn a_broken_embedding_contract_is_reported() {
    assert!(!FakeEmbeddingProvider::failing().contract_happy_path());
    assert!(!FakeEmbeddingProvider::new().contract_rejects_backend_error());
    assert!(!FakeEmbeddingProvider::new().contract_rejects_timeout());
    assert!(!FakeEmbeddingProvider::timing_out().contract_embed_is_deterministic());
}

#[test]
fn a_batch_fails_with_its_first_failing_input() {
    let provider = LocalHashEmbeddingProvider::new();
    assert_eq!(provider.embed_batch(&["a", "", "b"]), Err(EmbeddingError::EmptyInput));
}

#[test]
fn a_boxed_embedding_provider_answers_as_the_one_inside() {
    let boxed: Box<dyn EmbeddingProvider> = Box::new(LocalHashEmbeddingProvider::new());
    assert_eq!(boxed.embed("a"), LocalHashEmbeddingProvider::new().embed("a"));
    assert_eq!(boxed.embed_batch(&["a"]), LocalHashEmbeddingProvider::new().embed_batch(&["a"]));
}

#[test]
fn an_empty_text_is_refused_alone_and_among_others() {
    assert_eq!(check_input("a"), Ok(()));
    assert_eq!(check_input(""), Err(EmbeddingError::EmptyInput));
    assert_eq!(check_inputs(&["a", "b"]), Ok(true));
    assert_eq!(check_inputs(&[]), Ok(false));
    assert_eq!(check_inputs(&["a", ""]), Err(EmbeddingError::EmptyInput));
}

/// An embedding provider that fails on two texts, on each in its own way.
struct PickyEmbeddingProvider;

impl EmbeddingProvider for PickyEmbeddingProvider {
    fn embed(&self, input: &str) -> Result<Vec<u32>, EmbeddingError> {
        match input {
            "x" => Err(EmbeddingError::Backend("x".to_string())),
            "y" => Err(EmbeddingError::Timeout),
            _ => Ok(vec![1]),
        }
    }
}

#[test]
fn a_batch_error_is_that_of_the_first_text_that_fails() {
    let provider = PickyEmbeddingProvider;
    assert_eq!(provider.embed_batch(&["a", "x", "y"]), Err(EmbeddingError::Backend("x".to_string())));
    assert_eq!(provider.embed_batch(&["y", "a", "x"]), Err(EmbeddingError::Timeout));
    assert_eq!(provider.embed_batch(&["a", "b"]), Ok(vec![vec![1], vec![1]]));
}
