//! What errors say.

use super::{CoreError, ProviderError};
use crate::embedding::EmbeddingError;
use crate::llm::LlmError;
use crate::reranker::RerankError;
use crate::vector_store::VectorStoreError;
use vstd::prelude::*;

verus! {

/// What an error of each kind says.
pub proof fn law_errors(message: String, source: ProviderError)
    ensures
        CoreError::NotFound(message).shown() == "not found: "@ + message@,
        CoreError::Validation(message).shown() == "validation error: "@ + message@,
        CoreError::Config(message).shown() == "config error: "@ + message@,
        (CoreError::Provider { message, source }).shown() == "provider error: "@ + message@,
{
}

/// What an error of a provider says is what the provider's own error says.
pub proof fn law_provider_errors(
    store: VectorStoreError,
    model: LlmError,
    embedding: EmbeddingError,
    rerank: RerankError,
    other: String,
)
    ensures
        ProviderError::VectorStore(store).shown() == store.shown(),
        ProviderError::Llm(model).shown() == model.shown(),
        ProviderError::Embedding(embedding).shown() == embedding.shown(),
        ProviderError::Rerank(rerank).shown() == rerank.shown(),
        ProviderError::Other(other).shown() == other@,
{
}

/// What it is to be an error of a kind with a message.
pub proof fn law_kinds(err: CoreError, text: Seq<char>)
    ensures
        err.is_validation(text) <==> err is Validation && err->Validation_0@ == text,
        err.is_config(text) <==> err is Config && err->Config_0@ == text,
        err.is_not_found(text) <==> err is NotFound && err->NotFound_0@ == text,
        err.is_validation(text) ==> err.shown() == "validation error: "@ + text,
        err.is_config(text) ==> err.shown() == "config error: "@ + text,
        err.is_not_found(text) ==> err.shown() == "not found: "@ + text,
{
}

/// An error that hands on another one carries it, and says what it says; that a
/// record is not there is said as such.
pub proof fn law_handed_on(err: CoreError, cause: ProviderError, store: VectorStoreError)
    ensures
        err.hands_on(cause) ==> err is Provider && err->source == cause && err->message@
            == cause.shown() && err.shown() == "provider error: "@ + cause.shown(),
        err.reports_store(VectorStoreError::NotFound) ==> err.shown()
            == "not found: "@ + "vector store record"@,
        err.reports_store(store) && !(store is NotFound) ==> err is Provider && err->source
            == ProviderError::VectorStore(store) && err->message@ == store.shown(),
{
}

} // verus!
