#![allow(dead_code)]

use memoria_core::llm::{
    describe_image, extract_facts, parse_facts, summarize_procedure, Completion, LlmConfig, LlmContractTests, LlmError, LlmProvider,
    LocalSentenceLlmProvider, Message, Role, EXTRACTION_PROMPT, IMAGE_PROMPT, PROCEDURE_PROMPT,
};
use memoria_core::number::{order_key, Number};
use memoria_core::CoreError;

/// A language model with a fixed behaviour.
struct FakeLlmProvider {
    failure: Option<LlmError>,
    raw_response: Option<String>,
}

impl FakeLlmProvider {
    fn new() -> Self {
        Self { failure: None, raw_response: None }
    }

    fn failing() -> Self {
        Self { failure: Some(LlmError::Backend("fake backend failure".to_string())), raw_response: None }
    }

    fn timing_out() -> Self {
        Self { failure: Some(LlmError::Timeout), raw_response: None }
    }

    fn returning_malformed(reason: &str) -> Self {
        Self { failure: Some(LlmError::Malformed(reason.to_string())), raw_response: None }
    }

    fn unauthorized() -> Self {
        Self { failure: Some(LlmError::AuthFailure), raw_response: None }
    }

    fn with_response(content: &str) -> Self {
        Self { failure: None, raw_response: Some(content.to_string()) }
    }

    fn with_facts(content: &str) -> Self {
        Self::with_response(content)
    }
}

impl LlmProvider for FakeLlmProvider {
    fn complete(&self, messages: &[Message]) -> Result<Completion, LlmError> {
        if let Some(failure) = &self.failure {
            return Err(failure.clone());
        }
        if messages.is_empty() {
            return Err(LlmError::EmptyMessages);
        }
        let said: Vec<&str> = messages.iter().map(|m| m.content.as_str()).collect();
        let content = self.raw_response.clone().unwrap_or_else(|| said.join(" "));
        Ok(Completion::new(&content))
    }
}

/// A language model that repeats the last message.
struct EchoLlmProvider;

impl EchoLlmProvider {
    fn new() -> Self {
        Self
    }
}

impl LlmProvider for EchoLlmProvider {
    fn complete(&self, messages: &[Message]) -> Result<Completion, LlmError> {
        let last = messages.last().ok_or(LlmError::EmptyMessages)?;
        Ok(Completion::new(&last.content))
    }
}

/// A number that filters and limits compare with.
fn number(x: f64) -> Number {
    Number { key: order_key(x.to_bits()), text: x.to_string() }
}

#[test]
fn empty_messages_display_is_sensible() {
    let err = LlmError::EmptyMessages;
    assert_eq!(err.to_string(), "no messages provided");
}

#[test]
fn llm_backend_display_is_sensible() {
    let err = LlmError::Backend("boom".to_string());
    assert_eq!(err.to_string(), "backend error: boom");
}

#[test]
fn llm_timeout_display_is_sensible() {
    let err = LlmError::Timeout;
    assert_eq!(err.to_string(), "backend timed out before responding");
}

#[test]
fn malformed_display_is_sensible() {
    let err = LlmError::Malformed("unexpected json shape".to_string());
    assert_eq!(
        err.to_string(),
        "malformed backend response: unexpected json shape"
    );
}

#[test]
fn auth_failure_display_is_sensible() {
    let err = LlmError::AuthFailure;
    assert_eq!(err.to_string(), "backend rejected credentials");
}

#[test]
fn llm_fake_provider_passes_happy_path_contract() {
    assert!(FakeLlmProvider::new().contract_happy_path());
}

#[test]
fn echo_provider_passes_happy_path_contract() {
    assert!(EchoLlmProvider::new().contract_happy_path());
}

#[test]
fn echo_provider_passes_rejects_empty_messages_contract() {
    assert!(EchoLlmProvider::new().contract_rejects_empty_messages());
}

#[test]
fn llm_fake_provider_passes_error_contract() {
    assert!(FakeLlmProvider::new().contract_rejects_empty_messages());
}

#[test]
fn llm_fake_provider_passes_backend_error_contract() {
    assert!(FakeLlmProvider::failing().contract_rejects_backend_error());
}

#[test]
fn fake_provider_returns_timeout() {
    let messages = [Message::new(Role::User, "hello")];
    let result = FakeLlmProvider::timing_out().complete(&messages);
    assert!(
        matches!(result, Err(LlmError::Timeout)),
        "expected a timeout error"
    );
}

#[test]
fn fake_provider_returns_malformed() {
    let messages = [Message::new(Role::User, "hello")];
    let result = FakeLlmProvider::returning_malformed("unexpected json shape").complete(&messages);
    assert!(
        matches!(result, Err(LlmError::Malformed(_))),
        "expected a malformed error"
    );
}

#[test]
fn fake_provider_returns_auth_failure() {
    let messages = [Message::new(Role::User, "hello")];
    let result = FakeLlmProvider::unauthorized().complete(&messages);
    assert!(
        matches!(result, Err(LlmError::AuthFailure)),
        "expected an auth failure error"
    );
}

#[test]
fn contract_complete_is_unmodified_passthrough() {
    let raw = "the sky is blue\nwater is wet";
    let result = FakeLlmProvider::with_response(raw)
        .complete(&[Message::new(Role::User, "ignored")]);
    let completion = result.expect("expected a completion");
    assert_eq!(
        completion.content, raw,
        "raw response must be returned unchanged without wrapping or reformatting"
    );
}

#[test]
fn extract_facts_happy_path() {
    let response = "Alice is an engineer.\nBob lives in Berlin.\nThe project started in 2021.";
    let provider = FakeLlmProvider::with_response(response);
    let conversation = [Message::new(
        Role::User,
        "Alice is an engineer and Bob lives in Berlin. The project started in 2021.",
    )];
    let facts = extract_facts(&provider, &conversation).expect("expected facts");
    assert_eq!(facts.len(), 3);
    assert_eq!(facts[0], "Alice is an engineer.");
    assert_eq!(facts[1], "Bob lives in Berlin.");
    assert_eq!(facts[2], "The project started in 2021.");
}

#[test]
fn extract_facts_empty_response() {
    let provider = FakeLlmProvider::with_response("");
    let conversation = [Message::new(Role::User, "anything")];
    let facts = extract_facts(&provider, &conversation)
        .expect("empty response should not be an error");
    assert!(facts.is_empty());
}

#[test]
fn extract_facts_malformed_response_skips_blanks() {
    let response = "\n  \nFact one.\n\n   \nFact two.\n";
    let provider = FakeLlmProvider::with_response(response);
    let conversation = [Message::new(Role::User, "anything")];
    let facts = extract_facts(&provider, &conversation).expect("expected facts");
    assert_eq!(facts, vec!["Fact one.".to_string(), "Fact two.".to_string()]);
}

#[test]
fn llm_config_with_valid_model_passes_validation() {
    let config = LlmConfig {
        model: "llama3".to_string(),
        base_url: None,
        api_key: None,
        temperature: None,
    };
    assert!(config.validate().is_ok());
}

#[test]
fn llm_config_with_empty_model_is_rejected() {
    let config = LlmConfig {
        model: String::new(),
        base_url: None,
        api_key: None,
        temperature: None,
    };
    assert!(matches!(config.validate(), Err(CoreError::Config(_))));
}

#[test]
fn llm_config_with_whitespace_only_model_is_rejected() {
    let config = LlmConfig {
        model: "   ".to_string(),
        base_url: None,
        api_key: None,
        temperature: None,
    };
    assert!(matches!(config.validate(), Err(CoreError::Config(_))));
}

#[test]
fn config_with_temperature_in_range_passes_validation() {
    let config = LlmConfig {
        model: "llama3".to_string(),
        base_url: None,
        api_key: None,
        temperature: Some(number(0.7)),
    };
    assert!(config.validate().is_ok());
}

#[test]
fn config_with_temperature_out_of_range_is_rejected() {
    let config = LlmConfig {
        model: "llama3".to_string(),
        base_url: None,
        api_key: None,
        temperature: Some(number(2.5)),
    };
    assert!(matches!(config.validate(), Err(CoreError::Config(_))));
}

#[test]
fn config_with_negative_temperature_is_rejected() {
    let config = LlmConfig {
        model: "llama3".to_string(),
        base_url: None,
        api_key: None,
        temperature: Some(number(-0.1)),
    };
    assert!(matches!(config.validate(), Err(CoreError::Config(_))));
}

#[test]
fn local_sentence_provider_splits_conversation_into_one_fact_per_sentence() {
    let provider = LocalSentenceLlmProvider::new();
    let wrapped = [
        Message::new(Role::System, "Extract discrete factual statements from the conversation."),
        Message::new(Role::User, "Conversation:\nUser: Alice is an engineer. Bob lives in Berlin."),
    ];
    let completion = provider.complete(&wrapped).expect("expected a successful completion");
    let facts: Vec<&str> = completion.content.lines().collect();
    assert_eq!(facts, vec!["Alice is an engineer.", "Bob lives in Berlin."]);
}

#[test]
fn local_sentence_provider_rejects_empty_messages() {
    let provider = LocalSentenceLlmProvider::new();
    let result = provider.complete(&[]);
    assert!(matches!(result, Err(LlmError::EmptyMessages)));
}

#[test]
fn local_sentence_provider_passes_happy_path_contract() {
    assert!(LocalSentenceLlmProvider::new().contract_happy_path());
}

#[test]
fn local_sentence_provider_passes_rejects_empty_messages_contract() {
    assert!(LocalSentenceLlmProvider::new().contract_rejects_empty_messages());
}

#[test]
fn local_sentence_provider_end_to_end_through_extract_facts() {
    let provider = LocalSentenceLlmProvider::new();
    let conversation = [Message::new(Role::User, "Alice is an engineer. Bob lives in Berlin.")];
    let facts = extract_facts(&provider, &conversation).expect("expected facts");
    assert_eq!(facts, vec!["Alice is an engineer.".to_string(), "Bob lives in Berlin.".to_string()]);
}

/// A language model that answers with everything it was asked.
struct RecitingLlmProvider;

impl LlmProvider for RecitingLlmProvider {
    fn complete(&self, messages: &[Message]) -> Result<Completion, LlmError> {
        let said: Vec<String> = messages.iter().map(|m| format!("[{}] {} {}", m.role.as_str(), m.content, m.images.join("+"))).collect();
        Ok(Completion::new(&said.join(" / ")))
    }
}

#[test]
fn facts_are_the_trimmed_lines_that_say_something() {
    let facts = parse_facts("  one \r\n\n\ttwo\u{a0}\n");
    assert_eq!(facts, vec!["one".to_string(), "two".to_string()]);
    assert!(parse_facts(" \n \n").is_empty());
}

#[test]
fn facts_are_asked_for_with_the_labelled_conversation() {
    let conversation = [Message::new(Role::System, "a"), Message::new(Role::Assistant, "b")];
    let facts = extract_facts(&RecitingLlmProvider, &conversation).expect("expected facts");
    assert_eq!(facts[0], format!("[system] {EXTRACTION_PROMPT}  / [user] Conversation:"));
    assert_eq!(facts[1], "System: a");
    assert_eq!(facts[2], "Assistant: b");
}

#[test]
fn a_procedure_is_summarized_with_its_own_instructions() {
    let summary = summarize_procedure(&RecitingLlmProvider, &[Message::new(Role::User, "step")]).expect("expected a summary");
    assert!(summary.contains(PROCEDURE_PROMPT), "got: {summary}");
    assert!(summary.contains("User: step"), "got: {summary}");
}

#[test]
fn an_image_is_described_from_the_image_alone() {
    let said = describe_image(&RecitingLlmProvider, vec!["data".to_string()]).expect("expected a description");
    assert!(said.contains(IMAGE_PROMPT), "got: {said}");
    assert!(said.contains("data"), "got: {said}");
}

#[test]
fn the_temperature_limits_are_within_range() {
    for (temperature, fine) in [(0.0, true), (2.0, true), (2.000_001, false), (-0.0, true)] {
        let config = LlmConfig { model: "m".to_string(), base_url: None, api_key: None, temperature: Some(number(temperature)) };
        assert_eq!(config.validate().is_ok(), fine, "temperature {temperature}");
    }
}

#[test]
fn a_boxed_provider_answers_as_the_one_inside() {
    let boxed: Box<dyn LlmProvider> = Box::new(FakeLlmProvider::with_response("hi"));
    assert_eq!(boxed.complete(&[Message::new(Role::User, "x")]).expect("expected a completion").content, "hi");
}

#[test]
fn a_contract_that_is_broken_is_reported() {
    assert!(!FakeLlmProvider::failing().contract_happy_path());
    assert!(!FakeLlmProvider::failing().contract_rejects_empty_messages());
    assert!(!FakeLlmProvider::new().contract_rejects_backend_error());
}

#[test]
fn the_local_provider_keeps_one_sentence_a_line() {
    let provider = LocalSentenceLlmProvider::new();
    let completion = provider.complete(&[Message::new(Role::User, "First one. Second?  Third! fourth")]).expect("expected a completion");
    assert_eq!(completion.content, "First one.\nSecond.\nThird.\nfourth.");
}

#[test]
fn a_list_of_facts_reads_back() {
    let facts = parse_facts("  one \r\n\n\ttwo words\u{a0}\r\n \r\nthree");
    assert_eq!(facts, vec!["one".to_string(), "two words".to_string(), "three".to_string()]);
    assert_eq!(parse_facts(&facts.join("\n")), facts);
    assert!(parse_facts(&Vec::<String>::new().join("\n")).is_empty());
}

#[test]
fn an_answer_of_the_local_model_has_one_sentence_on_each_line() {
    let provider = LocalSentenceLlmProvider::new();
    let said = "ignored\nuser: I like tea!  Do you? \r\nassistant: Yes. \u{a0}Very... much\n";
    let answer = provider.complete(&[Message::new(Role::User, "first"), Message::new(Role::Assistant, said)]).expect("it should answer");
    let lines: Vec<&str> = answer.content.lines().collect();
    assert_eq!(lines, vec!["I like tea.", "Do you.", "Yes.", "Very.", "much."]);
    let alone = provider.complete(&[Message::new(Role::System, said)]).expect("it should answer");
    assert_eq!(alone.content, answer.content);
    assert!(matches!(provider.complete(&[]), Err(LlmError::EmptyMessages)));
}
