//! What embeddings are made of.

use super::{EmbeddingConfig, EmbeddingError, EmbeddingProvider, LocalHashEmbeddingProvider};
use crate::embedding;
use crate::number;
use crate::text;
use crate::text::CharClass;
use vstd::prelude::*;

verus! {

/// The hash of some bytes: it starts with the seed, and each byte, with its place,
/// takes it on by one step.
pub proof fn law_local_hash(bytes: Seq<u8>, byte: u8, seed: nat)
    ensures
        embedding::local_hash(Seq::empty(), seed) == seed,
        embedding::local_hash(bytes.push(byte), seed) == (embedding::local_hash(bytes, seed) * (
        byte as nat + 1) + (bytes.len() % 8 + 1)) % 1_000_003,
{
    assert(bytes.push(byte).drop_last() =~= bytes);
}

/// The local embedding refuses an empty text and nothing else. The vector of a
/// text has eight components, and the component with a number is the hash of the
/// text's bytes from that number.
pub proof fn law_local_embedding(
    provider: LocalHashEmbeddingProvider,
    input: Seq<char>,
    outcome: Result<Seq<u32>, EmbeddingError>,
    d: int,
)
    requires
        provider.may_embed(input, outcome),
    ensures
        outcome is Err <==> input.len() == 0,
        outcome is Err ==> outcome->Err_0 is EmptyInput,
        outcome is Ok ==> outcome->Ok_0.len() == 8,
        outcome is Ok && 0 <= d < 8 ==> number::denotes(
            outcome->Ok_0[d],
            embedding::local_hash(vstd::utf8::encode_utf8(input), d as nat),
        ),
{
}

/// A configuration is refused where the model has no name but white space, and
/// where no dimension is asked for.
pub proof fn law_config(config: EmbeddingConfig)
    ensures
        text::trimmed(config.model@, CharClass::Space).len() == 0 ==> config.problem() == Some(
            "model must not be empty"@,
        ),
        text::trimmed(config.model@, CharClass::Space).len() > 0 ==> {
            &&& config.dimensions == Some(0usize) ==> config.problem() == Some(
                "dimensions must be greater than zero"@,
            )
            &&& config.dimensions != Some(0usize) ==> config.problem() is None
        },
{
}

/// The embedding in this process serves one model and no other.
pub proof fn law_model_in_process(model: Seq<char>, dimensions: Option<usize>)
    ensures
        embedding::fastembed_problem(model, dimensions) is None ==> model == "all-MiniLM-L6-v2"@
            && dimensions != Some(0usize),
        model == "all-MiniLM-L6-v2"@ && text::trimmed(model, CharClass::Space).len() > 0
            && dimensions != Some(0usize) ==> embedding::fastembed_problem(model, dimensions)
            is None,
        text::trimmed(model, CharClass::Space).len() > 0 && dimensions == Some(0usize)
            ==> embedding::fastembed_problem(model, dimensions) == Some(
            "dimensions must be greater than zero"@,
        ),
        text::trimmed(model, CharClass::Space).len() == 0 ==> embedding::fastembed_problem(
            model,
            dimensions,
        ) == Some("model must not be empty"@),
{
}

/// What the errors of an embedding say.
pub proof fn law_errors(reason: String)
    ensures
        EmbeddingError::EmptyInput.shown() == "no text provided"@,
        EmbeddingError::Backend(reason).shown() == "backend error: "@ + reason@,
        EmbeddingError::Timeout.shown() == "backend timed out before responding"@,
{
}

/// Embedding texts one after the other gives each its own vector, or stops at the
/// first that fails, with its error.
pub proof fn law_in_turn<P: EmbeddingProvider>(
    provider: P,
    inputs: Seq<Seq<char>>,
    outcome: Result<Seq<Seq<u32>>, EmbeddingError>,
)
    requires
        embedding::may_embed_in_turn(&provider, inputs, outcome),
    ensures
        outcome is Ok ==> outcome->Ok_0.len() == inputs.len() && forall|i: int|
            0 <= i < inputs.len() ==> provider.may_embed(
                #[trigger] inputs[i],
                Ok(outcome->Ok_0[i]),
            ),
        outcome is Err ==> exists|k: int|
            {
                &&& 0 <= k < inputs.len()
                &&& provider.may_embed(#[trigger] inputs[k], Err(outcome->Err_0))
                &&& forall|i: int| 0 <= i < k ==> can_embed(provider, #[trigger] inputs[i])
            },
{
    if outcome is Err {
        let err = outcome->Err_0;
        let (k, before) = choose|k: int, before: Seq<Seq<u32>>| #[trigger]
            embedding::may_stop_at(&provider, inputs, k, before, err);
        assert forall|i: int| 0 <= i < k implies can_embed(provider, #[trigger] inputs[i]) by {
            assert(inputs.take(k)[i] == inputs[i]);
            assert(provider.may_embed(inputs.take(k)[i], Ok(before[i])));
        }
        assert(provider.may_embed(inputs[k], Err(err)));
    }
}

/// Texts have an empty one among them unless each has a character, and embedding
/// them in this process then fails for no other reason than such a text.
pub proof fn law_empty_texts(
    provider: LocalHashEmbeddingProvider,
    texts: Seq<Seq<char>>,
    last: Seq<char>,
    err: EmbeddingError,
)
    ensures
        !embedding::has_empty(Seq::empty()),
        last.len() == 0 ==> embedding::has_empty(texts.push(last)),
        last.len() > 0 ==> embedding::has_empty(texts.push(last)) == embedding::has_empty(texts),
        !provider.may_fail_together(texts, err),
        provider.may_embed(last, Err(err)) <==> last.len() == 0 && err == EmbeddingError::EmptyInput,
{
    let more = texts.push(last);
    if last.len() == 0 {
        assert(more[texts.len() as int].len() == 0);
    } else if embedding::has_empty(texts) {
        let i = choose|i: int| 0 <= i < texts.len() && (#[trigger] texts[i]).len() == 0;
        assert(more[i].len() == 0);
    } else if embedding::has_empty(more) {
        let i = choose|i: int| 0 <= i < more.len() && (#[trigger] more[i]).len() == 0;
        assert(texts[i].len() == 0);
    }
}

/// Whether a provider may give a text a vector.
pub open spec fn can_embed<P: EmbeddingProvider>(provider: P, input: Seq<char>) -> bool {
    exists|vector: Seq<u32>| #[trigger] provider.may_embed(input, Ok(vector))
}

} // verus!
