//! The errors of the library as a whole.

pub mod laws;

use crate::embedding::EmbeddingError;
use crate::llm::LlmError;
use crate::reranker::RerankError;
use crate::text;
use crate::vector_store::VectorStoreError;
use vstd::prelude::*;

verus! {

/// What stands behind a provider error.
#[derive(Clone, Debug, PartialEq, Eq)]
pub enum ProviderError {
    VectorStore(VectorStoreError),
    Llm(LlmError),
    Embedding(EmbeddingError),
    Rerank(RerankError),
    /// Any other error, by what it says.
    Other(String),
}

impl ProviderError {
    /// What the error says.
    pub open spec fn shown(self) -> Seq<char> {
        match self {
            ProviderError::VectorStore(err) => err.shown(),
            ProviderError::Llm(err) => err.shown(),
            ProviderError::Embedding(err) => err.shown(),
            ProviderError::Rerank(err) => err.shown(),
            ProviderError::Other(message) => message@,
        }
    }

    /// What the error says.
    pub fn to_string(&self) -> (r: String)
        ensures
            r@ == self.shown(),
    {
        match self {
            ProviderError::VectorStore(err) => err.to_string(),
            ProviderError::Llm(err) => err.to_string(),
            ProviderError::Embedding(err) => err.to_string(),
            ProviderError::Rerank(err) => err.to_string(),
            ProviderError::Other(message) => message.clone(),
        }
    }
}

/// An error of the library.
#[derive(Clone, Debug, PartialEq, Eq)]
pub enum CoreError {
    NotFound(String),
    Validation(String),
    Config(String),
    Provider { message: String, source: ProviderError },
}

impl CoreError {
    /// What the error says.
    pub open spec fn shown(self) -> Seq<char> {
        match self {
            CoreError::NotFound(message) => "not found: "@ + message@,
            CoreError::Validation(message) => "validation error: "@ + message@,
            CoreError::Config(message) => "config error: "@ + message@,
            CoreError::Provider { message, .. } => "provider error: "@ + message@,
        }
    }

    /// Whether the error is a provider error that hands on another one, with
    /// what that one says.
    pub open spec fn hands_on(self, cause: ProviderError) -> bool {
        &&& self matches CoreError::Provider { message, source }
        &&& source == cause
        &&& message@ == cause.shown()
    }

    /// Whether the error reports one of a vector store.
    pub open spec fn reports_store(self, err: VectorStoreError) -> bool {
        match err {
            VectorStoreError::NotFound => self matches CoreError::NotFound(message) && message@
                == "vector store record"@,
            _ => self.hands_on(ProviderError::VectorStore(err)),
        }
    }

    pub open spec fn is_validation(self, text: Seq<char>) -> bool {
        self matches CoreError::Validation(message) && message@ == text
    }

    pub open spec fn is_config(self, text: Seq<char>) -> bool {
        self matches CoreError::Config(message) && message@ == text
    }

    pub open spec fn is_not_found(self, text: Seq<char>) -> bool {
        self matches CoreError::NotFound(message) && message@ == text
    }

    /// What the error says.
    pub fn to_string(&self) -> (r: String)
        ensures
            r@ == self.shown(),
    {
        match self {
            CoreError::NotFound(message) => text::concat("not found: ", message.as_str()),
            CoreError::Validation(message) => text::concat("validation error: ", message.as_str()),
            CoreError::Config(message) => text::concat("config error: ", message.as_str()),
            CoreError::Provider { message, .. } => text::concat("provider error: ", message.as_str()),
        }
    }

    /// The error behind a provider error.
    pub fn source(&self) -> (r: Option<&ProviderError>)
        ensures
            match *self {
                CoreError::Provider { source, .. } => r == Some(&source),
                _ => r is None,
            },
    {
        match self {
            CoreError::Provider { source, .. } => Some(source),
            _ => None,
        }
    }
}

impl vstd::std_specs::convert::FromSpecImpl<VectorStoreError> for CoreError {
    open spec fn obeys_from_spec() -> bool {
        false
    }

    open spec fn from_spec(err: VectorStoreError) -> Self {
        arbitrary()
    }
}

impl From<VectorStoreError> for CoreError {
    fn from(err: VectorStoreError) -> (r: Self)
        ensures
            r.reports_store(err),
    {
        let message = err.to_string();
        match err {
            VectorStoreError::NotFound => CoreError::NotFound("vector store record".to_owned()),
            other => CoreError::Provider { message, source: ProviderError::VectorStore(other) },
        }
    }
}

impl vstd::std_specs::convert::FromSpecImpl<LlmError> for CoreError {
    open spec fn obeys_from_spec() -> bool {
        false
    }

    open spec fn from_spec(err: LlmError) -> Self {
        arbitrary()
    }
}

impl From<LlmError> for CoreError {
    fn from(err: LlmError) -> (r: Self)
        ensures
            r.hands_on(ProviderError::Llm(err)),
    {
        let message = err.to_string();
        CoreError::Provider { message, source: ProviderError::Llm(err) }
    }
}

impl vstd::std_specs::convert::FromSpecImpl<EmbeddingError> for CoreError {
    open spec fn obeys_from_spec() -> bool {
        false
    }

    open spec fn from_spec(err: EmbeddingError) -> Self {
        arbitrary()
    }
}

impl From<EmbeddingError> for CoreError {
    fn from(err: EmbeddingError) -> (r: Self)
        ensures
            r.hands_on(ProviderError::Embedding(err)),
    {
        let message = err.to_string();
        CoreError::Provider { message, source: ProviderError::Embedding(err) }
    }
}

impl vstd::std_specs::convert::FromSpecImpl<RerankError> for CoreError {
    open spec fn obeys_from_spec() -> bool {
        false
    }

    open spec fn from_spec(err: RerankError) -> Self {
        arbitrary()
    }
}

impl From<RerankError> for CoreError {
    fn from(err: RerankError) -> (r: Self)
        ensures
            r.hands_on(ProviderError::Rerank(err)),
    {
        let message = err.to_string();
        CoreError::Provider { message, source: ProviderError::Rerank(err) }
    }
}

} // verus!
