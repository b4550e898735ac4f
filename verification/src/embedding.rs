//! Embeddings: texts as vectors.

pub mod laws;

use crate::error::CoreError;
use crate::number;
use crate::text;
use crate::text::CharClass;
use vstd::prelude::*;
use vstd::string::StringSliceAdditionalSpecFns;

verus! {

/// Why a text could not be embedded.
#[derive(Clone, Debug, PartialEq, Eq)]
pub enum EmbeddingError {
    EmptyInput,
    Backend(String),
    Timeout,
}

impl EmbeddingError {
    /// What the error says.
    pub open spec fn shown(self) -> Seq<char> {
        match self {
            EmbeddingError::EmptyInput => "no text provided"@,
            EmbeddingError::Backend(reason) => "backend error: "@ + reason@,
            EmbeddingError::Timeout => "backend timed out before responding"@,
        }
    }

    /// What the error says.
    pub fn to_string(&self) -> (r: String)
        ensures
            r@ == self.shown(),
    {
        match self {
            EmbeddingError::EmptyInput => "no text provided".to_owned(),
            EmbeddingError::Backend(reason) => text::concat("backend error: ", reason.as_str()),
            EmbeddingError::Timeout => "backend timed out before responding".to_owned(),
        }
    }
}

/// The outcome of an embedding as a value.
pub open spec fn vector_in(r: Result<Vec<u32>, EmbeddingError>) -> Result<Seq<u32>, EmbeddingError> {
    match r {
        Ok(vector) => Ok(vector@),
        Err(err) => Err(err),
    }
}

/// Turns texts into vectors.
pub trait EmbeddingProvider {
    /// Whether embedding a text may have an outcome; unless the provider says
    /// more, any.
    open spec fn may_embed(
        &self,
        input: Seq<char>,
        outcome: Result<Seq<u32>, EmbeddingError>,
    ) -> bool {
        true
    }

    /// Whether embedding some texts at once may fail though none of them alone
    /// does; unless the provider says more, it may.
    open spec fn may_fail_together(&self, inputs: Seq<Seq<char>>, err: EmbeddingError) -> bool {
        true
    }

    /// The vector of a text.
    fn embed(&self, input: &str) -> (r: Result<Vec<u32>, EmbeddingError>)
        ensures
            self.may_embed(input@, vector_in(r)),
    ;

    /// The vectors of some texts, one for each of them. Unless a provider does it
    /// in another way, the texts are embedded one after the other, and the first
    /// that fails ends it with its error.
    fn embed_batch(&self, inputs: &[&str]) -> (r: Result<Vec<Vec<u32>>, EmbeddingError>)
        ensures
            r matches Ok(vectors) ==> {
                &&& vectors@.len() == inputs@.len()
                &&& forall|i: int|
                    0 <= i < inputs@.len() ==> self.may_embed(
                        (#[trigger] inputs@[i])@,
                        Ok(vectors@[i]@),
                    )
            },
            r matches Err(err) ==> {
                ||| exists|i: int|
                    0 <= i < inputs@.len() && self.may_embed((#[trigger] inputs@[i])@, Err(err))
                ||| self.may_fail_together(text_views(inputs@), err)
            },
        default_ensures
            r matches Err(err) ==> exists|k: int, before: Seq<Seq<u32>>|
                {
                    &&& 0 <= k < inputs@.len()
                    &&& #[trigger] before.len() == k
                    &&& forall|j: int|
                        0 <= j < k ==> self.may_embed((#[trigger] inputs@[j])@, Ok(before[j]))
                    &&& self.may_embed((#[trigger] inputs@[k])@, Err(err))
                },
    {
        let mut vectors: Vec<Vec<u32>> = Vec::new();
        let mut i: usize = 0;
        while i < inputs.len()
            invariant
                i <= inputs.len(),
                vectors@.len() == i,
                forall|j: int|
                    0 <= j < i ==> self.may_embed((#[trigger] inputs@[j])@, Ok(vectors@[j]@)),
            decreases inputs.len() - i,
        {
            let outcome = self.embed(inputs[i]);
            match outcome {
                Ok(vector) => {
                    let ghost before = vectors@;
                    vectors.push(vector);
                    proof {
                        assert forall|j: int| 0 <= j < i + 1 implies self.may_embed(
                            (#[trigger] inputs@[j])@,
                            Ok(vectors@[j]@),
                        ) by {
                            if j < i {
                                assert(vectors@[j] == before[j]);
                            }
                        }
                    }
                },
                Err(err) => {
                    proof {
                        let before = vectors@.map_values(|v: Vec<u32>| v@);
                        assert(before.len() == i);
                        assert(self.may_embed(inputs@[i as int]@, Err(err)));
                    }
                    return Err(err);
                },
            }
            i = i + 1;
        }
        Ok(vectors)
    }
}

/// Texts as values.
pub open spec fn text_views(texts: Seq<&str>) -> Seq<Seq<char>> {
    texts.map_values(|s: &str| s@)
}

/// Whether some text is empty.
pub open spec fn has_empty(texts: Seq<Seq<char>>) -> bool {
    exists|i: int| 0 <= i < texts.len() && (#[trigger] texts[i]).len() == 0
}

/// Refuses an empty text.
pub fn check_input(input: &str) -> (r: Result<(), EmbeddingError>)
    ensures
        r == if input@.len() == 0 {
            Err::<(), EmbeddingError>(EmbeddingError::EmptyInput)
        } else {
            Ok(())
        },
{
    if input.is_empty() {
        Err(EmbeddingError::EmptyInput)
    } else {
        Ok(())
    }
}

/// Refuses texts among which one is empty; of others, says whether there are
/// any.
pub fn check_inputs(inputs: &[&str]) -> (r: Result<bool, EmbeddingError>)
    ensures
        r == if has_empty(text_views(inputs@)) {
            Err::<bool, EmbeddingError>(EmbeddingError::EmptyInput)
        } else {
            Ok(inputs@.len() > 0)
        },
{
    let mut i: usize = 0;
    while i < inputs.len()
        invariant
            i <= inputs.len(),
            forall|j: int| 0 <= j < i ==> (#[trigger] text_views(inputs@)[j]).len() > 0,
        decreases inputs.len() - i,
    {
        if inputs[i].is_empty() {
            proof {
                assert(text_views(inputs@)[i as int].len() == 0);
            }
            return Err(EmbeddingError::EmptyInput);
        }
        i = i + 1;
    }
    Ok(inputs.len() > 0)
}

impl<T: EmbeddingProvider + ?Sized> EmbeddingProvider for Box<T> {
    open spec fn may_embed(&self, input: Seq<char>, outcome: Result<Seq<u32>, EmbeddingError>) -> bool {
        (**self).may_embed(input, outcome)
    }

    open spec fn may_fail_together(&self, inputs: Seq<Seq<char>>, err: EmbeddingError) -> bool {
        (**self).may_fail_together(inputs, err)
    }

    fn embed(&self, input: &str) -> (r: Result<Vec<u32>, EmbeddingError>) {
        (**self).embed(input)
    }

    fn embed_batch(&self, inputs: &[&str]) -> (r: Result<Vec<Vec<u32>>, EmbeddingError>) {
        (**self).embed_batch(inputs)
    }
}

/// The number of components of a local embedding.
pub const LOCAL_DIMENSION: usize = 8;

/// The modulus of a local embedding's components.
pub const LOCAL_MODULUS: u32 = 1_000_003;

/// The hash of some bytes from a seed: each byte multiplies what came before
/// it, and adds its place modulo eight.
pub open spec fn local_hash(bytes: Seq<u8>, seed: nat) -> nat
    decreases bytes.len(),
{
    if bytes.len() == 0 {
        seed
    } else {
        let n = (bytes.len() - 1) as nat;
        (local_hash(bytes.drop_last(), seed) * (bytes.last() as nat + 1) + (n % 8 + 1))
            % LOCAL_MODULUS as nat
    }
}

/// Whether a vector is the local embedding of some bytes: its components are
/// the hashes from the seeds zero to seven.
pub open spec fn is_local_vector(bytes: Seq<u8>, vector: Seq<u32>) -> bool {
    &&& vector.len() == LOCAL_DIMENSION
    &&& forall|d: int|
        0 <= d < vector.len() ==> number::denotes(#[trigger] vector[d], local_hash(bytes, d as nat))
}

/// The hash of some bytes is below the modulus.
proof fn lemma_local_hash_bound(bytes: Seq<u8>, seed: nat)
    requires
        seed < LOCAL_DIMENSION,
    ensures
        local_hash(bytes, seed) < LOCAL_MODULUS,
{
}

/// An embedding made of hashes of the text's bytes.
pub struct LocalHashEmbeddingProvider;

impl LocalHashEmbeddingProvider {
    pub fn new() -> (r: Self)
        ensures
            r == LocalHashEmbeddingProvider,
    {
        LocalHashEmbeddingProvider
    }
}

impl Default for LocalHashEmbeddingProvider {
    fn default() -> (r: Self)
        ensures
            r == LocalHashEmbeddingProvider,
    {
        Self::new()
    }
}

/// The hash of some bytes from a seed.
fn hash_bytes(bytes: &[u8], seed: u32) -> (r: u32)
    requires
        seed < LOCAL_DIMENSION,
    ensures
        r == local_hash(bytes@, seed as nat),
        r < LOCAL_MODULUS,
{
    let mut acc: u32 = seed;
    let mut place: u8 = 0;
    let mut i: usize = 0;
    proof {
        assert(bytes@.take(0) =~= Seq::<u8>::empty());
    }
    while i < bytes.len()
        invariant
            i <= bytes.len(),
            acc < LOCAL_MODULUS,
            acc == local_hash(bytes@.take(i as int), seed as nat),
            place as int % 8 == i as int % 8,
        decreases bytes.len() - i,
    {
        let weight: u32 = (place % 8) as u32 + 1;
        let factor: u32 = bytes[i] as u32 + 1;
        proof {
            assert(bytes@.take(i + 1).drop_last() =~= bytes@.take(i as int));
            assert(acc * factor <= 1_000_002 * 256) by (nonlinear_arith)
                requires
                    acc <= 1_000_002,
                    factor <= 256,
            ;
        }
        acc = (acc * factor + weight) % LOCAL_MODULUS;
        place = place.wrapping_add(1);
        i = i + 1;
    }
    proof {
        assert(bytes@.take(i as int) =~= bytes@);
    }
    acc
}

impl EmbeddingProvider for LocalHashEmbeddingProvider {
    /// An empty text is refused; any other has its local embedding.
    open spec fn may_embed(&self, input: Seq<char>, outcome: Result<Seq<u32>, EmbeddingError>) -> bool {
        if input.len() == 0 {
            outcome == Err::<Seq<u32>, EmbeddingError>(EmbeddingError::EmptyInput)
        } else {
            outcome matches Ok(vector) && is_local_vector(vstd::utf8::encode_utf8(input), vector)
        }
    }

    open spec fn may_fail_together(&self, inputs: Seq<Seq<char>>, err: EmbeddingError) -> bool {
        false
    }

    fn embed(&self, input: &str) -> (r: Result<Vec<u32>, EmbeddingError>) {
        match check_input(input) {
            Ok(()) => {},
            Err(err) => {
                return Err(err);
            },
        }
        let bytes = input.as_bytes();
        let mut vector: Vec<u32> = Vec::new();
        let mut d: u32 = 0;
        while d < 8
            invariant
                d <= 8,
                vector@.len() == d,
                bytes@ == vstd::utf8::encode_utf8(input@),
                forall|j: int|
                    0 <= j < d ==> number::denotes(
                        #[trigger] vector@[j],
                        local_hash(bytes@, j as nat),
                    ),
            decreases 8 - d,
        {
            let component = hash_bytes(bytes, d);
            vector.push(number::single_bits(component));
            d = d + 1;
        }
        Ok(vector)
    }
}

/// The local embedding of a text is the same each time.
pub proof fn law_local_embedding_is_deterministic(
    provider: LocalHashEmbeddingProvider,
    input: Seq<char>,
    one: Result<Seq<u32>, EmbeddingError>,
    other: Result<Seq<u32>, EmbeddingError>,
)
    requires
        provider.may_embed(input, one),
        provider.may_embed(input, other),
    ensures
        one == other,
{
    if input.len() > 0 {
        let bytes = vstd::utf8::encode_utf8(input);
        let a = one->Ok_0;
        let b = other->Ok_0;
        assert forall|d: int| 0 <= d < a.len() implies a[d] == b[d] by {
            number::law_denotes_once(a[d], b[d], local_hash(bytes, d as nat));
        }
        assert(a =~= b);
    }
}

/// Every component of a local embedding is a natural number below the modulus,
/// hence finite.
pub proof fn law_local_components_are_finite(
    provider: LocalHashEmbeddingProvider,
    input: Seq<char>,
    vector: Seq<u32>,
    d: int,
)
    requires
        provider.may_embed(input, Ok(vector)),
        0 <= d < vector.len(),
    ensures
        vector[d] < 0x7f80_0000,
        exists|n: nat| n < LOCAL_MODULUS && #[trigger] number::denotes(vector[d], n),
{
    let bytes = vstd::utf8::encode_utf8(input);
    lemma_local_hash_bound(bytes, d as nat);
    assert(number::denotes(vector[d], local_hash(bytes, d as nat)));
}

/// The model that embeddings come from, and where it is.
#[derive(Clone, Debug, PartialEq, Eq)]
pub struct EmbeddingConfig {
    pub model: String,
    pub base_url: Option<String>,
    pub api_key: Option<String>,
    pub dimensions: Option<usize>,
}

impl EmbeddingConfig {
    /// What is wrong with the configuration, if anything is.
    pub open spec fn problem(self) -> Option<Seq<char>> {
        if text::trimmed(self.model@, CharClass::Space).len() == 0 {
            Some("model must not be empty"@)
        } else if self.dimensions == Some(0usize) {
            Some("dimensions must be greater than zero"@)
        } else {
            None
        }
    }

    /// Accepts a configuration whose model has a name and whose number of
    /// dimensions, if it is set, is not zero.
    pub fn validate(&self) -> (r: Result<(), CoreError>)
        ensures
            match self.problem() {
                None => r is Ok,
                Some(message) => r matches Err(err) && err.is_config(message),
            },
    {
        if text::trim(self.model.as_str(), CharClass::Space).as_str().is_empty() {
            return Err(CoreError::Config("model must not be empty".to_owned()));
        }
        match self.dimensions {
            Some(n) => {
                if n == 0 {
                    return Err(CoreError::Config("dimensions must be greater than zero".to_owned()));
                }
            },
            None => {},
        }
        Ok(())
    }
}

/// The one model that the embedding in this process has.
pub const FASTEMBED_MODEL_NAME: &'static str = "all-MiniLM-L6-v2";

/// What is wrong with a configuration of the embedding in this process, if
/// anything is.
pub open spec fn fastembed_problem(model: Seq<char>, dimensions: Option<usize>) -> Option<
    Seq<char>,
> {
    if text::trimmed(model, CharClass::Space).len() == 0 {
        Some("model must not be empty"@)
    } else if dimensions == Some(0usize) {
        Some("dimensions must be greater than zero"@)
    } else if model != FASTEMBED_MODEL_NAME@ {
        Some(
            "unsupported fastembed model "@ + text::debug_form(model) + ": only "@
                + text::debug_form(FASTEMBED_MODEL_NAME@) + " is supported"@,
        )
    } else {
        None
    }
}

/// Accepts a configuration that the embedding in this process can serve.
pub fn check_fastembed_model(config: &EmbeddingConfig) -> (r: Result<(), CoreError>)
    ensures
        match fastembed_problem(config.model@, config.dimensions) {
            None => r is Ok,
            Some(message) => r matches Err(err) && err.is_config(message),
        },
{
    match config.validate() {
        Ok(()) => {},
        Err(err) => {
            return Err(err);
        },
    }
    if !text::same(config.model.as_str(), FASTEMBED_MODEL_NAME) {
        let mut message = text::concat3(
            "unsupported fastembed model ",
            text::to_debug(config.model.as_str()).as_str(),
            ": only ",
        );
        message.append(text::to_debug(FASTEMBED_MODEL_NAME).as_str());
        message.append(" is supported");
        return Err(CoreError::Config(message));
    }
    Ok(())
}

/// Whether two vectors are equal.
pub fn same_vector(a: &Vec<u32>, b: &Vec<u32>) -> (r: bool)
    ensures
        r == (a@ == b@),
{
    if a.len() != b.len() {
        return false;
    }
    let mut i: usize = 0;
    while i < a.len()
        invariant
            i <= a.len(),
            a.len() == b.len(),
            forall|j: int| 0 <= j < i ==> a@[j] == b@[j],
        decreases a.len() - i,
    {
        if a[i] != b[i] {
            return false;
        }
        i = i + 1;
    }
    proof {
        assert(a@ =~= b@);
    }
    true
}

/// The texts that the contract checks of a provider embed together.
pub open spec fn sample_texts() -> Seq<Seq<char>> {
    seq!["alpha"@, "beta"@, "gamma"@]
}

/// Whether a provider may give these vectors to these texts.
pub open spec fn may_embed_each<P: EmbeddingProvider + ?Sized>(
    provider: &P,
    inputs: Seq<Seq<char>>,
    vectors: Seq<Seq<u32>>,
) -> bool {
    &&& vectors.len() == inputs.len()
    &&& forall|i: int|
        0 <= i < inputs.len() ==> provider.may_embed(#[trigger] inputs[i], Ok(vectors[i]))
}

/// Whether a provider gives the same text the same outcome each time.
pub open spec fn embeds_once<P: EmbeddingProvider + ?Sized>(provider: &P) -> bool {
    forall|
        input: Seq<char>,
        a: Result<Seq<u32>, EmbeddingError>,
        b: Result<Seq<u32>, EmbeddingError>,
    | #[trigger]
        provider.may_embed(input, a) && #[trigger] provider.may_embed(input, b) ==> a == b
}

/// Some vectors as values.
pub open spec fn vector_models(vectors: Seq<Vec<u32>>) -> Seq<Seq<u32>> {
    vectors.map_values(|v: Vec<u32>| v@)
}

/// Whether embedding texts one after the other may stop: those before one of
/// them have these vectors, and that one fails with an error.
pub open spec fn may_stop_at<P: EmbeddingProvider + ?Sized>(
    provider: &P,
    inputs: Seq<Seq<char>>,
    k: int,
    vectors: Seq<Seq<u32>>,
    err: EmbeddingError,
) -> bool {
    &&& 0 <= k < inputs.len()
    &&& may_embed_each(provider, inputs.take(k), vectors)
    &&& provider.may_embed(inputs[k], Err(err))
}

/// Whether embedding texts one after the other may have an outcome: their
/// vectors, or the error of the first that fails.
pub open spec fn may_embed_in_turn<P: EmbeddingProvider + ?Sized>(
    provider: &P,
    inputs: Seq<Seq<char>>,
    outcome: Result<Seq<Seq<u32>>, EmbeddingError>,
) -> bool {
    match outcome {
        Ok(vectors) => may_embed_each(provider, inputs, vectors),
        Err(err) => exists|k: int, before: Seq<Seq<u32>>| #[trigger]
            may_stop_at(provider, inputs, k, before, err),
    }
}

/// The outcome of embedding texts together as a value.
pub open spec fn batch_in(r: Result<Vec<Vec<u32>>, EmbeddingError>) -> Result<
    Seq<Seq<u32>>,
    EmbeddingError,
> {
    match r {
        Ok(vectors) => Ok(vector_models(vectors@)),
        Err(err) => Err(err),
    }
}

/// What `embed_batch` does unless a provider does it in another way is to embed
/// the texts one after the other.
pub proof fn law_batch_is_in_turn<P: EmbeddingProvider + ?Sized>(
    provider: &P,
    inputs: Seq<&str>,
    r: Result<Vec<Vec<u32>>, EmbeddingError>,
)
    requires
        match r {
            Ok(vectors) => {
                &&& vectors@.len() == inputs.len()
                &&& forall|i: int|
                    0 <= i < inputs.len() ==> provider.may_embed(
                        (#[trigger] inputs[i])@,
                        Ok(vectors@[i]@),
                    )
            },
            Err(err) => exists|k: int, before: Seq<Seq<u32>>|
                {
                    &&& 0 <= k < inputs.len()
                    &&& #[trigger] before.len() == k
                    &&& forall|j: int|
                        0 <= j < k ==> provider.may_embed((#[trigger] inputs[j])@, Ok(before[j]))
                    &&& provider.may_embed((#[trigger] inputs[k])@, Err(err))
                },
        },
    ensures
        may_embed_in_turn(provider, text_views(inputs), batch_in(r)),
{
    let texts = text_views(inputs);
    match r {
        Ok(vectors) => {
            assert forall|i: int| 0 <= i < texts.len() implies provider.may_embed(
                #[trigger] texts[i],
                Ok(vector_models(vectors@)[i]),
            ) by {
                assert(inputs[i]@ == texts[i]);
            }
        },
        Err(err) => {
            let (k, before) = choose|k: int, before: Seq<Seq<u32>>|
                {
                    &&& 0 <= k < inputs.len()
                    &&& #[trigger] before.len() == k
                    &&& forall|j: int|
                        0 <= j < k ==> provider.may_embed((#[trigger] inputs[j])@, Ok(before[j]))
                    &&& provider.may_embed((#[trigger] inputs[k])@, Err(err))
                };
            let first = texts.take(k);
            assert forall|j: int| 0 <= j < first.len() implies provider.may_embed(
                #[trigger] first[j],
                Ok(before[j]),
            ) by {
                assert(inputs[j]@ == first[j]);
            }
            assert(may_stop_at(provider, texts, k, before, err));
        },
    }
}

/// Texts that are embedded one after the other, by a provider that gives the same
/// text the same outcome each time, come to their vectors, as many and in their
/// order, if each has one; else to the error of the first that fails. No texts
/// come to no vectors.
pub proof fn law_embedding_in_turn<P: EmbeddingProvider + ?Sized>(
    provider: &P,
    inputs: Seq<Seq<char>>,
    outcome: Result<Seq<Seq<u32>>, EmbeddingError>,
    vectors: Seq<Seq<u32>>,
    k: int,
    err: EmbeddingError,
)
    requires
        embeds_once(provider),
        may_embed_in_turn(provider, inputs, outcome),
    ensures
        may_embed_each(provider, inputs, vectors) ==> outcome == Ok::<
            Seq<Seq<u32>>,
            EmbeddingError,
        >(vectors),
        may_stop_at(provider, inputs, k, vectors, err) ==> outcome == Err::<
            Seq<Seq<u32>>,
            EmbeddingError,
        >(err),
        inputs.len() == 0 ==> outcome == Ok::<Seq<Seq<u32>>, EmbeddingError>(Seq::empty()),
{
    match outcome {
        Ok(given) => {
            if may_embed_each(provider, inputs, vectors) {
                assert forall|i: int| 0 <= i < inputs.len() implies given[i] == vectors[i] by {
                    assert(provider.may_embed(inputs[i], Ok(given[i])));
                    assert(provider.may_embed(inputs[i], Ok(vectors[i])));
                    assert(Ok::<Seq<u32>, EmbeddingError>(given[i]) == Ok::<
                        Seq<u32>,
                        EmbeddingError,
                    >(vectors[i]));
                }
                assert(given =~= vectors);
            }
            if may_stop_at(provider, inputs, k, vectors, err) {
                assert(provider.may_embed(inputs[k], Ok(given[k])));
            }
            if inputs.len() == 0 {
                assert(given =~= Seq::empty());
            }
        },
        Err(cause) => {
            let (at, before) = choose|at: int, before: Seq<Seq<u32>>| #[trigger]
                may_stop_at(provider, inputs, at, before, cause);
            if may_embed_each(provider, inputs, vectors) {
                assert(provider.may_embed(inputs[at], Ok(vectors[at])));
            }
            if may_stop_at(provider, inputs, k, vectors, err) {
                if at < k {
                    assert(inputs.take(k)[at] == inputs[at]);
                    assert(provider.may_embed(inputs[at], Ok(vectors[at])));
                } else if k < at {
                    assert(inputs.take(at)[k] == inputs[k]);
                    assert(provider.may_embed(inputs[k], Ok(before[k])));
                }
                assert(at == k);
                assert(Err::<Seq<u32>, EmbeddingError>(cause) == Err::<
                    Seq<u32>,
                    EmbeddingError,
                >(err));
            }
        },
    }
}

/// Whether embedding texts one after the other may come to this: their vectors,
/// or nothing where one of them fails.
pub open spec fn is_one_by_one<P: EmbeddingProvider + ?Sized>(
    provider: &P,
    inputs: Seq<Seq<char>>,
    vectors: Option<Seq<Seq<u32>>>,
) -> bool {
    match vectors {
        Some(vectors) => may_embed_each(provider, inputs, vectors),
        None => exists|k: int, before: Seq<Seq<u32>>, err: EmbeddingError| #[trigger]
            may_stop_at(provider, inputs, k, before, err),
    }
}

/// Whether embedding texts together may fail with an error: one of them fails
/// alone, or all of them do together.
pub open spec fn may_fail_batch<P: EmbeddingProvider + ?Sized>(
    provider: &P,
    inputs: Seq<Seq<char>>,
    err: EmbeddingError,
) -> bool {
    ||| exists|i: int|
        0 <= i < inputs.len() && provider.may_embed(#[trigger] inputs[i], Err(err))
    ||| provider.may_fail_together(inputs, err)
}

/// Whether embedding texts together may come to this: their vectors, or nothing
/// where that fails.
pub open spec fn is_batch<P: EmbeddingProvider + ?Sized>(
    provider: &P,
    inputs: Seq<Seq<char>>,
    vectors: Option<Seq<Seq<u32>>>,
) -> bool {
    match vectors {
        Some(vectors) => may_embed_each(provider, inputs, vectors),
        None => exists|err: EmbeddingError| #[trigger] may_fail_batch(provider, inputs, err),
    }
}

proof fn lemma_batch_fails<P: EmbeddingProvider + ?Sized>(
    provider: &P,
    inputs: Seq<&str>,
    err: EmbeddingError,
)
    requires
        (exists|i: int| 0 <= i < inputs.len() && provider.may_embed((#[trigger] inputs[i])@, Err(err)))
            || provider.may_fail_together(text_views(inputs), err),
    ensures
        may_fail_batch(provider, text_views(inputs), err),
{
    if !provider.may_fail_together(text_views(inputs), err) {
        let i = choose|i: int|
            0 <= i < inputs.len() && provider.may_embed((#[trigger] inputs[i])@, Err(err));
        assert(provider.may_embed(text_views(inputs)[i], Err(err)));
    }
}

/// Some vectors, if there are any, as values.
pub open spec fn batch_model(vectors: Option<Vec<Vec<u32>>>) -> Option<Seq<Seq<u32>>> {
    match vectors {
        Some(vectors) => Some(vector_models(vectors@)),
        None => None,
    }
}

fn embed_one_by_one<P: EmbeddingProvider + ?Sized>(provider: &P, inputs: &[&str]) -> (r: Option<
    Vec<Vec<u32>>,
>)
    ensures
        is_one_by_one(provider, text_views(inputs@), batch_model(r)),
{
    let mut vectors: Vec<Vec<u32>> = Vec::new();
    let mut i: usize = 0;
    while i < inputs.len()
        invariant
            i <= inputs.len(),
            vectors@.len() == i,
            forall|j: int|
                0 <= j < i ==> provider.may_embed((#[trigger] inputs@[j])@, Ok(vectors@[j]@)),
        decreases inputs.len() - i,
    {
        match provider.embed(inputs[i]) {
            Ok(vector) => {
                let ghost before = vectors@;
                vectors.push(vector);
                proof {
                    assert forall|j: int| 0 <= j < i + 1 implies provider.may_embed(
                        (#[trigger] inputs@[j])@,
                        Ok(vectors@[j]@),
                    ) by {
                        if j < i {
                            assert(vectors@[j] == before[j]);
                        }
                    }
                }
            },
            Err(err) => {
                proof {
                    let texts = text_views(inputs@);
                    let before = texts.take(i as int);
                    assert forall|j: int| 0 <= j < before.len() implies provider.may_embed(
                        #[trigger] before[j],
                        Ok(vector_models(vectors@)[j]),
                    ) by {
                        assert(inputs@[j]@ == before[j]);
                    }
                    assert(may_stop_at(provider, texts, i as int, vector_models(vectors@), err));
                }
                return None;
            },
        }
        i = i + 1;
    }
    proof {
        let texts = text_views(inputs@);
        assert forall|j: int| 0 <= j < texts.len() implies provider.may_embed(
            #[trigger] texts[j],
            Ok(vector_models(vectors@)[j]),
        ) by {
            assert(inputs@[j]@ == texts[j]);
        }
    }
    Some(vectors)
}

fn same_vectors(a: &Vec<Vec<u32>>, b: &Vec<Vec<u32>>) -> (r: bool)
    ensures
        r == (vector_models(a@) == vector_models(b@)),
{
    if a.len() != b.len() {
        proof {
            assert(vector_models(a@).len() != vector_models(b@).len());
        }
        return false;
    }
    let mut i: usize = 0;
    while i < a.len()
        invariant
            i <= a.len(),
            a.len() == b.len(),
            forall|j: int| 0 <= j < i ==> (#[trigger] a@[j])@ == b@[j]@,
        decreases a.len() - i,
    {
        if !same_vector(&a[i], &b[i]) {
            proof {
                assert(vector_models(a@)[i as int] != vector_models(b@)[i as int]);
            }
            return false;
        }
        i = i + 1;
    }
    proof {
        assert(vector_models(a@) =~= vector_models(b@));
    }
    true
}

/// Checks that hold of every embedding of its kind.
pub trait EmbeddingContractTests: EmbeddingProvider {
    /// Whether a text is embedded.
    fn contract_happy_path(&self) -> (r: bool)
        ensures
            exists|outcome: Result<Seq<u32>, EmbeddingError>| #[trigger]
                self.may_embed("hello"@, outcome) && r == (outcome is Ok),
    {
        let outcome = self.embed("hello");
        proof {
            assert(self.may_embed("hello"@, vector_in(outcome)));
        }
        outcome.is_ok()
    }

    /// Whether the empty text is refused.
    fn contract_rejects_empty_string(&self) -> (r: bool)
        ensures
            exists|outcome: Result<Seq<u32>, EmbeddingError>| #[trigger]
                self.may_embed(Seq::empty(), outcome) && r == (outcome == Err::<
                    Seq<u32>,
                    EmbeddingError,
                >(EmbeddingError::EmptyInput)),
    {
        let outcome = self.embed("");
        proof {
            reveal_strlit("");
            assert(""@ =~= Seq::empty());
            assert(self.may_embed(Seq::empty(), vector_in(outcome)));
        }
        match outcome {
            Err(EmbeddingError::EmptyInput) => true,
            _ => false,
        }
    }

    /// Whether a text fails in the backend.
    fn contract_rejects_backend_error(&self) -> (r: bool)
        ensures
            exists|outcome: Result<Seq<u32>, EmbeddingError>| #[trigger]
                self.may_embed("hello"@, outcome) && r == (outcome matches Err(
                    EmbeddingError::Backend(_),
                )),
    {
        let outcome = self.embed("hello");
        proof {
            assert(self.may_embed("hello"@, vector_in(outcome)));
        }
        match outcome {
            Err(EmbeddingError::Backend(_)) => true,
            _ => false,
        }
    }

    /// Whether a text is not embedded in time.
    fn contract_rejects_timeout(&self) -> (r: bool)
        ensures
            exists|outcome: Result<Seq<u32>, EmbeddingError>| #[trigger]
                self.may_embed("hello"@, outcome) && r == (outcome == Err::<
                    Seq<u32>,
                    EmbeddingError,
                >(EmbeddingError::Timeout)),
    {
        let outcome = self.embed("hello");
        proof {
            assert(self.may_embed("hello"@, vector_in(outcome)));
        }
        match outcome {
            Err(EmbeddingError::Timeout) => true,
            _ => false,
        }
    }

    /// Whether a text has the same vector twice.
    fn contract_embed_is_deterministic(&self) -> (r: bool)
        ensures
            exists|
                one: Result<Seq<u32>, EmbeddingError>,
                other: Result<Seq<u32>, EmbeddingError>,
            |
                {
                    &&& #[trigger] self.may_embed("hello"@, one)
                    &&& #[trigger] self.may_embed("hello"@, other)
                    &&& r == (one is Ok && one == other)
                },
    {
        let one = self.embed("hello");
        let other = self.embed("hello");
        proof {
            assert(self.may_embed("hello"@, vector_in(one)));
            assert(self.may_embed("hello"@, vector_in(other)));
        }
        match (one, other) {
            (Ok(a), Ok(b)) => same_vector(&a, &b),
            _ => false,
        }
    }

    /// Whether texts that are embedded together have the vectors that they have
    /// alone.
    fn contract_embed_batch_matches_individual_calls(&self) -> (r: bool)
        ensures
            exists|together: Option<Seq<Seq<u32>>>, alone: Option<Seq<Seq<u32>>>|
                {
                    &&& #[trigger] is_batch(self, sample_texts(), together)
                    &&& #[trigger] is_one_by_one(self, sample_texts(), alone)
                    &&& r == (together is Some && together == alone)
                },
    {
        let inputs: [&str; 3] = ["alpha", "beta", "gamma"];
        proof {
            assert(text_views(inputs@) =~= sample_texts());
        }
        let together = match self.embed_batch(&inputs) {
            Ok(vectors) => Some(vectors),
            Err(err) => {
                proof {
                    lemma_batch_fails(self, inputs@, err);
                }
                None
            },
        };
        let alone = embed_one_by_one(self, &inputs);
        proof {
            let one = batch_model(together);
            let other = batch_model(alone);
            if together is Some {
                let texts = sample_texts();
                assert forall|j: int| 0 <= j < texts.len() implies self.may_embed(
                    #[trigger] texts[j],
                    Ok(one->0[j]),
                ) by {
                    assert(inputs@[j]@ == texts[j]);
                }
            }
            assert(is_batch(self, sample_texts(), one));
            assert(is_one_by_one(self, sample_texts(), other));
        }
        match (together, alone) {
            (Some(a), Some(b)) => same_vectors(&a, &b),
            _ => false,
        }
    }

    /// Whether no vectors come of no texts.
    fn contract_embed_batch_empty_list_returns_empty(&self) -> (r: bool)
        ensures
            exists|vectors: Option<Seq<Seq<u32>>>| #[trigger]
                is_batch(self, Seq::empty(), vectors) && r == (vectors is Some),
    {
        let inputs: Vec<&str> = Vec::new();
        match self.embed_batch(inputs.as_slice()) {
            Ok(vectors) => {
                proof {
                    assert(is_batch(self, Seq::empty(), Some(vector_models(vectors@))));
                }
                vectors.len() == 0
            },
            Err(err) => {
                proof {
                    lemma_batch_fails(self, inputs@, err);
                    assert(text_views(inputs@) =~= Seq::empty());
                    assert(is_batch(self, Seq::empty(), None));
                }
                false
            },
        }
    }
}

impl<T: EmbeddingProvider + ?Sized> EmbeddingContractTests for T {

}

} // verus!
