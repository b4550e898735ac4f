//! What the settings of a program ask for: its providers, its store, and the
//! scope of its requests.

pub mod laws;

use crate::embedding;
use crate::embedding::EmbeddingConfig;
use crate::error::CoreError;
use crate::llm::LlmConfig;
use crate::memory;
use crate::payload::Payload;
use crate::text;
use crate::text::CharClass;
use vstd::prelude::*;

verus! {

/// What a program is called and was built with.
#[derive(Clone, Debug, PartialEq, Eq)]
pub struct Build {
    pub name: String,
    pub ollama: bool,
    pub candle: bool,
    pub fastembed: bool,
    pub sqlite: bool,
    pub postgres: bool,
    pub qdrant: bool,
    pub chroma: bool,
    pub milvus: bool,
}

pub const OLLAMA_BASE_URL: &'static str = "http://localhost:11434";

pub const OLLAMA_LLM_MODEL: &'static str = "qwen2.5:0.5b";

pub const CANDLE_LLM_MODEL: &'static str = "qwen2.5-0.5b-instruct-q4_0";

pub const OLLAMA_EMBEDDING_MODEL: &'static str = "nomic-embed-text";

pub const FASTEMBED_CACHE: &'static str = ".fastembed_cache (default)";

pub const LOCAL_LLM_LABEL: &'static str = "LocalSentenceLlmProvider (local, non-AI; see ADR-12)";

pub const LOCAL_EMBEDDING_LABEL: &'static str = "LocalHashEmbeddingProvider (local, non-AI; see ADR-12)";

pub const LOCAL_RERANKER_LABEL: &'static str = "LocalOverlapReranker (local, non-AI; see ADR-36)";

pub const LOCAL_STORE_LABEL: &'static str = "InMemoryVectorStore + JSON snapshot (ADR-11)";

pub const NO_SQLITE: &'static str = "the mcp binary must be built with --features sqlite to use the default MEMORIA_VECTOR_STORE=sqlite (see ADR-38); pass MEMORIA_VECTOR_STORE=local to fall back to JSON-snapshot persistence";

pub const DEFAULT_STORE_NAME: &'static str = "memoria_vectors";

/// The language model that is asked for.
#[derive(Clone, Debug, PartialEq, Eq)]
pub enum LlmChoice {
    Local,
    Ollama { model: String, base_url: Option<String> },
    Candle { model: String, base_url: Option<String>, cache_dir: Option<String> },
}

/// The language model that is asked for, as a value.
pub enum LlmPlan {
    Local,
    Ollama { model: Seq<char>, base_url: Option<Seq<char>> },
    Candle { model: Seq<char>, base_url: Option<Seq<char>>, cache_dir: Option<Seq<char>> },
}

impl View for LlmChoice {
    type V = LlmPlan;

    open spec fn view(&self) -> LlmPlan {
        match *self {
            LlmChoice::Local => LlmPlan::Local,
            LlmChoice::Ollama { model, base_url } => LlmPlan::Ollama {
                model: model@,
                base_url: text::model(base_url),
            },
            LlmChoice::Candle { model, base_url, cache_dir } => LlmPlan::Candle {
                model: model@,
                base_url: text::model(base_url),
                cache_dir: text::model(cache_dir),
            },
        }
    }
}

/// What is said of a program that was not built with what a setting asks for.
pub open spec fn lacks_feature(build: Build, setting: Seq<char>, feature: Seq<char>) -> Seq<char> {
    setting + "="@ + feature + " requires the "@ + build.name@
        + " binary to be built with --features "@ + feature
}

fn say_lacks_feature(build: &Build, setting: &str, feature: &str) -> (r: String)
    ensures
        r@ == lacks_feature(*build, setting@, feature@),
{
    let mut r = text::concat3(setting, "=", feature);
    r.append(" requires the ");
    r.append(build.name.as_str());
    r.append(" binary to be built with --features ");
    r.append(feature);
    r
}

/// Whether a model has no name.
pub open spec fn is_blank(model: Seq<char>) -> bool {
    text::trimmed(model, CharClass::Space).len() == 0
}

/// What is said of a model without a name.
pub open spec fn blank_model() -> Seq<char> {
    "config error: "@ + "model must not be empty"@
}

/// A choice that is not there is that of the local provider.
pub open spec fn choice_in(choice: Option<&str>) -> Seq<char> {
    match choice {
        Some(name) => name@,
        None => "local"@,
    }
}

/// The language model that settings ask for, with its label, or what is wrong
/// with them.
pub open spec fn llm_plan(
    build: Build,
    choice: Seq<char>,
    model: Option<Seq<char>>,
    base_url: Option<Seq<char>>,
    cache_dir: Option<Seq<char>>,
) -> Result<(LlmPlan, Seq<char>), Seq<char>> {
    if choice == "local"@ {
        Ok((LlmPlan::Local, LOCAL_LLM_LABEL@))
    } else if choice == "ollama"@ {
        let model = text::or(model, OLLAMA_LLM_MODEL@);
        if !build.ollama {
            Err(lacks_feature(build, "MEMORIA_LLM_PROVIDER"@, "ollama"@))
        } else if is_blank(model) {
            Err(blank_model())
        } else {
            Ok(
                (
                    LlmPlan::Ollama { model, base_url },
                    "OllamaLlmProvider (model="@ + model + ", base_url="@ + text::or(
                        base_url,
                        OLLAMA_BASE_URL@,
                    ) + "; see ADR-25)"@,
                ),
            )
        }
    } else if choice == "candle"@ {
        let model = text::or(model, CANDLE_LLM_MODEL@);
        if !build.candle {
            Err(lacks_feature(build, "MEMORIA_LLM_PROVIDER"@, "candle"@))
        } else if is_blank(model) {
            Err(blank_model())
        } else {
            Ok(
                (
                    LlmPlan::Candle { model, base_url, cache_dir },
                    "CandleLlmProvider (model="@ + model + "; see ADR-40)"@,
                ),
            )
        }
    } else {
        Err(
            "unknown MEMORIA_LLM_PROVIDER value "@ + text::debug_form(choice)
                + " (expected \"local\", \"ollama\", or \"candle\")"@,
        )
    }
}

/// The outcome of a resolution as a value.
pub open spec fn llm_outcome(r: Result<(LlmChoice, String), String>) -> Result<
    (LlmPlan, Seq<char>),
    Seq<char>,
> {
    match r {
        Ok((choice, label)) => Ok((choice@, label@)),
        Err(message) => Err(message@),
    }
}

/// Refuses a model without a name.
fn check_model(model: &str) -> (r: Result<(), String>)
    ensures
        is_blank(model@) ==> (r matches Err(message) && message@ == blank_model()),
        !is_blank(model@) ==> r is Ok,
{
    let config = LlmConfig {
        model: model.to_owned(),
        base_url: None,
        api_key: None,
        temperature: None,
    };
    match config.validate() {
        Ok(()) => Ok(()),
        Err(err) => Err(err.to_string()),
    }
}

/// The language model that settings ask for, with its label.
pub fn resolve_llm_provider(
    build: &Build,
    provider_choice: Option<&str>,
    model: Option<String>,
    base_url: Option<String>,
    candle_cache_dir: Option<String>,
) -> (r: Result<(LlmChoice, String), String>)
    ensures
        llm_outcome(r) == llm_plan(
            *build,
            choice_in(provider_choice),
            text::model(model),
            text::model(base_url),
            text::model(candle_cache_dir),
        ),
{
    let choice = match provider_choice {
        Some(name) => name,
        None => "local",
    };
    if text::same(choice, "local") {
        Ok((LlmChoice::Local, LOCAL_LLM_LABEL.to_owned()))
    } else if text::same(choice, "ollama") {
        if !build.ollama {
            return Err(say_lacks_feature(build, "MEMORIA_LLM_PROVIDER", "ollama"));
        }
        let model = text::text_or(&model, OLLAMA_LLM_MODEL);
        match check_model(model.as_str()) {
            Ok(()) => {},
            Err(message) => {
                return Err(message);
            },
        }
        let mut label = text::concat3("OllamaLlmProvider (model=", model.as_str(), ", base_url=");
        label.append(text::text_or(&base_url, OLLAMA_BASE_URL).as_str());
        label.append("; see ADR-25)");
        Ok((LlmChoice::Ollama { model, base_url }, label))
    } else if text::same(choice, "candle") {
        if !build.candle {
            return Err(say_lacks_feature(build, "MEMORIA_LLM_PROVIDER", "candle"));
        }
        let model = text::text_or(&model, CANDLE_LLM_MODEL);
        match check_model(model.as_str()) {
            Ok(()) => {},
            Err(message) => {
                return Err(message);
            },
        }
        let label = text::concat3("CandleLlmProvider (model=", model.as_str(), "; see ADR-40)");
        Ok((LlmChoice::Candle { model, base_url, cache_dir: candle_cache_dir }, label))
    } else {
        Err(
            text::concat3(
                "unknown MEMORIA_LLM_PROVIDER value ",
                text::to_debug(choice).as_str(),
                " (expected \"local\", \"ollama\", or \"candle\")",
            ),
        )
    }
}

/// The embedding that is asked for.
#[derive(Clone, Debug, PartialEq, Eq)]
pub enum EmbeddingChoice {
    Local,
    Ollama { model: String, base_url: Option<String> },
    Fastembed { model: String, cache_dir: Option<String> },
}

/// The embedding that is asked for, as a value.
pub enum EmbeddingPlan {
    Local,
    Ollama { model: Seq<char>, base_url: Option<Seq<char>> },
    Fastembed { model: Seq<char>, cache_dir: Option<Seq<char>> },
}

impl View for EmbeddingChoice {
    type V = EmbeddingPlan;

    open spec fn view(&self) -> EmbeddingPlan {
        match *self {
            EmbeddingChoice::Local => EmbeddingPlan::Local,
            EmbeddingChoice::Ollama { model, base_url } => EmbeddingPlan::Ollama {
                model: model@,
                base_url: text::model(base_url),
            },
            EmbeddingChoice::Fastembed { model, cache_dir } => EmbeddingPlan::Fastembed {
                model: model@,
                cache_dir: text::model(cache_dir),
            },
        }
    }
}

/// The embedding that settings ask for, with its label, or what is wrong with
/// them.
pub open spec fn embedding_plan(
    build: Build,
    choice: Seq<char>,
    model: Option<Seq<char>>,
    base_url: Option<Seq<char>>,
    cache_dir: Option<Seq<char>>,
) -> Result<(EmbeddingPlan, Seq<char>), Seq<char>> {
    if choice == "local"@ {
        Ok((EmbeddingPlan::Local, LOCAL_EMBEDDING_LABEL@))
    } else if choice == "ollama"@ {
        let model = text::or(model, OLLAMA_EMBEDDING_MODEL@);
        if !build.ollama {
            Err(lacks_feature(build, "MEMORIA_EMBEDDING_PROVIDER"@, "ollama"@))
        } else if is_blank(model) {
            Err(blank_model())
        } else {
            Ok(
                (
                    EmbeddingPlan::Ollama { model, base_url },
                    "OllamaEmbeddingProvider (model="@ + model + ", base_url="@ + text::or(
                        base_url,
                        OLLAMA_BASE_URL@,
                    ) + "; see ADR-24)"@,
                ),
            )
        }
    } else if choice == "fastembed"@ {
        let model = text::or(model, embedding::FASTEMBED_MODEL_NAME@);
        if !build.fastembed {
            Err(lacks_feature(build, "MEMORIA_EMBEDDING_PROVIDER"@, "fastembed"@))
        } else {
            match embedding::fastembed_problem(model, None) {
                Some(problem) => Err("config error: "@ + problem),
                None => Ok(
                    (
                        EmbeddingPlan::Fastembed { model, cache_dir },
                        "FastEmbedEmbeddingProvider (model="@ + model + ", cache_dir="@ + text::or(
                            cache_dir,
                            FASTEMBED_CACHE@,
                        ) + "; see ADR-32)"@,
                    ),
                ),
            }
        }
    } else {
        Err(
            "unknown MEMORIA_EMBEDDING_PROVIDER value "@ + text::debug_form(choice)
                + " (expected \"local\", \"ollama\", or \"fastembed\")"@,
        )
    }
}

/// The outcome of a resolution as a value.
pub open spec fn embedding_outcome(r: Result<(EmbeddingChoice, String), String>) -> Result<
    (EmbeddingPlan, Seq<char>),
    Seq<char>,
> {
    match r {
        Ok((choice, label)) => Ok((choice@, label@)),
        Err(message) => Err(message@),
    }
}

/// The embedding that settings ask for, with its label.
pub fn resolve_embedding_provider(
    build: &Build,
    provider_choice: Option<&str>,
    model: Option<String>,
    base_url: Option<String>,
    fastembed_cache_dir: Option<String>,
) -> (r: Result<(EmbeddingChoice, String), String>)
    ensures
        embedding_outcome(r) == embedding_plan(
            *build,
            choice_in(provider_choice),
            text::model(model),
            text::model(base_url),
            text::model(fastembed_cache_dir),
        ),
{
    let choice = match provider_choice {
        Some(name) => name,
        None => "local",
    };
    if text::same(choice, "local") {
        Ok((EmbeddingChoice::Local, LOCAL_EMBEDDING_LABEL.to_owned()))
    } else if text::same(choice, "ollama") {
        if !build.ollama {
            return Err(say_lacks_feature(build, "MEMORIA_EMBEDDING_PROVIDER", "ollama"));
        }
        let model = text::text_or(&model, OLLAMA_EMBEDDING_MODEL);
        match check_model(model.as_str()) {
            Ok(()) => {},
            Err(message) => {
                return Err(message);
            },
        }
        let mut label = text::concat3(
            "OllamaEmbeddingProvider (model=",
            model.as_str(),
            ", base_url=",
        );
        label.append(text::text_or(&base_url, OLLAMA_BASE_URL).as_str());
        label.append("; see ADR-24)");
        Ok((EmbeddingChoice::Ollama { model, base_url }, label))
    } else if text::same(choice, "fastembed") {
        if !build.fastembed {
            return Err(say_lacks_feature(build, "MEMORIA_EMBEDDING_PROVIDER", "fastembed"));
        }
        let model = text::text_or(&model, embedding::FASTEMBED_MODEL_NAME);
        let config = EmbeddingConfig {
            model: model.clone(),
            base_url: None,
            api_key: None,
            dimensions: None,
        };
        match embedding::check_fastembed_model(&config) {
            Ok(()) => {},
            Err(err) => {
                return Err(err.to_string());
            },
        }
        let mut label = text::concat3(
            "FastEmbedEmbeddingProvider (model=",
            model.as_str(),
            ", cache_dir=",
        );
        label.append(text::text_or(&fastembed_cache_dir, FASTEMBED_CACHE).as_str());
        label.append("; see ADR-32)");
        Ok((EmbeddingChoice::Fastembed { model, cache_dir: fastembed_cache_dir }, label))
    } else {
        Err(
            text::concat3(
                "unknown MEMORIA_EMBEDDING_PROVIDER value ",
                text::to_debug(choice).as_str(),
                " (expected \"local\", \"ollama\", or \"fastembed\")",
            ),
        )
    }
}

/// The reranker that is asked for.
#[derive(Clone, Debug, PartialEq, Eq)]
pub enum RerankerChoice {
    Local,
    Llm(LlmChoice),
    Fastembed { cache_dir: Option<String> },
}

/// The reranker that is asked for, as a value.
pub enum RerankerPlan {
    Local,
    Llm(LlmPlan),
    Fastembed { cache_dir: Option<Seq<char>> },
}

impl View for RerankerChoice {
    type V = RerankerPlan;

    open spec fn view(&self) -> RerankerPlan {
        match *self {
            RerankerChoice::Local => RerankerPlan::Local,
            RerankerChoice::Llm(choice) => RerankerPlan::Llm(choice@),
            RerankerChoice::Fastembed { cache_dir } => RerankerPlan::Fastembed {
                cache_dir: text::model(cache_dir),
            },
        }
    }
}

/// The reranker that settings ask for, with its label, or what is wrong with
/// them. Where none is asked for there is none.
pub open spec fn reranker_plan(
    build: Build,
    choice: Option<&str>,
    llm: Result<(LlmPlan, Seq<char>), Seq<char>>,
    cache_dir: Option<Seq<char>>,
) -> Result<Option<(RerankerPlan, Seq<char>)>, Seq<char>> {
    match choice {
        None => Ok(None),
        Some(name) => if name@ == "local"@ {
            Ok(Some((RerankerPlan::Local, LOCAL_RERANKER_LABEL@)))
        } else if name@ == "llm"@ {
            match llm {
                Ok((plan, label)) => Ok(
                    Some(
                        (
                            RerankerPlan::Llm(plan),
                            "LlmReranker (llm="@ + label + "; see ADR-36)"@,
                        ),
                    ),
                ),
                Err(message) => Err(message),
            }
        } else if name@ == "fastembed"@ {
            if !build.fastembed {
                Err(lacks_feature(build, "MEMORIA_RERANKER"@, "fastembed"@))
            } else {
                Ok(
                    Some(
                        (
                            RerankerPlan::Fastembed { cache_dir },
                            "FastEmbedReranker (model=BAAI/bge-reranker-base, cache_dir="@
                                + text::or(cache_dir, FASTEMBED_CACHE@) + "; see ADR-50)"@,
                        ),
                    ),
                )
            }
        } else {
            Err(
                "unknown MEMORIA_RERANKER value "@ + text::debug_form(name@)
                    + " (expected \"local\", \"llm\", or \"fastembed\")"@,
            )
        },
    }
}

/// The outcome of a resolution as a value.
pub open spec fn reranker_outcome(
    r: Result<Option<(RerankerChoice, String)>, String>,
) -> Result<Option<(RerankerPlan, Seq<char>)>, Seq<char>> {
    match r {
        Ok(Some((choice, label))) => Ok(Some((choice@, label@))),
        Ok(None) => Ok(None),
        Err(message) => Err(message@),
    }
}

/// The reranker that settings ask for, with its label.
pub fn resolve_reranker(
    build: &Build,
    choice: Option<&str>,
    llm_choice: Option<&str>,
    llm_model: Option<String>,
    llm_base_url: Option<String>,
    llm_candle_cache_dir: Option<String>,
    fastembed_cache_dir: Option<String>,
) -> (r: Result<Option<(RerankerChoice, String)>, String>)
    ensures
        reranker_outcome(r) == reranker_plan(
            *build,
            choice,
            llm_plan(
                *build,
                choice_in(llm_choice),
                text::model(llm_model),
                text::model(llm_base_url),
                text::model(llm_candle_cache_dir),
            ),
            text::model(fastembed_cache_dir),
        ),
{
    let name = match choice {
        None => {
            return Ok(None);
        },
        Some(name) => name,
    };
    if text::same(name, "local") {
        Ok(Some((RerankerChoice::Local, LOCAL_RERANKER_LABEL.to_owned())))
    } else if text::same(name, "llm") {
        match resolve_llm_provider(
            build,
            llm_choice,
            llm_model,
            llm_base_url,
            llm_candle_cache_dir,
        ) {
            Ok((llm, llm_label)) => {
                let label = text::concat3("LlmReranker (llm=", llm_label.as_str(), "; see ADR-36)");
                Ok(Some((RerankerChoice::Llm(llm), label)))
            },
            Err(message) => Err(message),
        }
    } else if text::same(name, "fastembed") {
        if !build.fastembed {
            return Err(say_lacks_feature(build, "MEMORIA_RERANKER", "fastembed"));
        }
        let label = text::concat3(
            "FastEmbedReranker (model=BAAI/bge-reranker-base, cache_dir=",
            text::text_or(&fastembed_cache_dir, FASTEMBED_CACHE).as_str(),
            "; see ADR-50)",
        );
        Ok(Some((RerankerChoice::Fastembed { cache_dir: fastembed_cache_dir }, label)))
    } else {
        Err(
            text::concat3(
                "unknown MEMORIA_RERANKER value ",
                text::to_debug(name).as_str(),
                " (expected \"local\", \"llm\", or \"fastembed\")",
            ),
        )
    }
}

/// Where a store on the network is, as the settings say.
#[derive(Clone, Copy, Debug, PartialEq, Eq)]
pub struct NetworkedStoreEnv<'a> {
    pub url: Option<&'a str>,
    pub dimension: Option<&'a str>,
    pub name: Option<&'a str>,
}

/// A kind of store on the network.
#[derive(Clone, Copy, Debug, PartialEq, Eq, Structural)]
pub enum NetworkedStore {
    Postgres,
    Qdrant,
    Chroma,
    Milvus,
}

/// A store on the network: where it is, how long its vectors are, and what its
/// table or collection is called.
#[derive(Clone, Debug, PartialEq, Eq)]
pub struct Networked {
    pub kind: NetworkedStore,
    pub url: String,
    pub dimension: usize,
    pub name: String,
}

/// The store that is asked for.
#[derive(Clone, Debug, PartialEq, Eq)]
pub enum StoreChoice {
    Sqlite { path: String },
    Local { path: String },
    Networked(Networked),
}

/// The store that is asked for, as a value.
pub enum StorePlan {
    Sqlite { path: Seq<char> },
    Local { path: Seq<char> },
    Networked { kind: NetworkedStore, url: Seq<char>, dimension: usize, name: Seq<char> },
}

impl View for StoreChoice {
    type V = StorePlan;

    open spec fn view(&self) -> StorePlan {
        match *self {
            StoreChoice::Sqlite { path } => StorePlan::Sqlite { path: path@ },
            StoreChoice::Local { path } => StorePlan::Local { path: path@ },
            StoreChoice::Networked(store) => StorePlan::Networked {
                kind: store.kind,
                url: store.url@,
                dimension: store.dimension,
                name: store.name@,
            },
        }
    }
}

impl NetworkedStore {
    /// Whether a program was built with the store.
    pub open spec fn is_built(self, build: Build) -> bool {
        match self {
            NetworkedStore::Postgres => build.postgres,
            NetworkedStore::Qdrant => build.qdrant,
            NetworkedStore::Chroma => build.chroma,
            NetworkedStore::Milvus => build.milvus,
        }
    }

    /// What is said where the program was not built with the store.
    pub open spec fn needs_build(self) -> Seq<char> {
        match self {
            NetworkedStore::Postgres => "the mcp binary must be built with --features postgres to use MEMORIA_VECTOR_STORE=postgres (see ADR-46)"@,
            NetworkedStore::Qdrant => "the mcp binary must be built with --features qdrant to use MEMORIA_VECTOR_STORE=qdrant (see ADR-47)"@,
            NetworkedStore::Chroma => "the mcp binary must be built with --features chroma to use MEMORIA_VECTOR_STORE=chroma (see ADR-48)"@,
            NetworkedStore::Milvus => "the mcp binary must be built with --features milvus to use MEMORIA_VECTOR_STORE=milvus (see ADR-49)"@,
        }
    }

    /// What is said where the settings do not say where the store is.
    pub open spec fn needs_url(self) -> Seq<char> {
        match self {
            NetworkedStore::Postgres => "MEMORIA_VECTOR_STORE=postgres requires MEMORIA_POSTGRES_URL to be set"@,
            NetworkedStore::Qdrant => "MEMORIA_VECTOR_STORE=qdrant requires MEMORIA_QDRANT_URL to be set"@,
            NetworkedStore::Chroma => "MEMORIA_VECTOR_STORE=chroma requires MEMORIA_CHROMA_URL to be set"@,
            NetworkedStore::Milvus => "MEMORIA_VECTOR_STORE=milvus requires MEMORIA_MILVUS_URL to be set"@,
        }
    }

    /// What is said where the settings do not say how long vectors are.
    pub open spec fn needs_dimension(self) -> Seq<char> {
        match self {
            NetworkedStore::Postgres => "MEMORIA_VECTOR_STORE=postgres requires MEMORIA_POSTGRES_DIMENSION to be set (Postgres's native VECTOR(N) column needs a fixed dimension; see ADR-46)"@,
            NetworkedStore::Qdrant => "MEMORIA_VECTOR_STORE=qdrant requires MEMORIA_QDRANT_DIMENSION to be set (Qdrant's own collection schema needs a fixed dimension; see ADR-47)"@,
            NetworkedStore::Chroma => "MEMORIA_VECTOR_STORE=chroma requires MEMORIA_CHROMA_DIMENSION to be set (memoria validates every vector's dimension client-side; see ADR-48)"@,
            NetworkedStore::Milvus => "MEMORIA_VECTOR_STORE=milvus requires MEMORIA_MILVUS_DIMENSION to be set (Milvus's own collection schema needs a fixed dimension; see ADR-49)"@,
        }
    }

    /// What is said where the length of vectors is no number.
    pub open spec fn bad_dimension(self) -> Seq<char> {
        match self {
            NetworkedStore::Postgres => "MEMORIA_POSTGRES_DIMENSION must be a positive integer"@,
            NetworkedStore::Qdrant => "MEMORIA_QDRANT_DIMENSION must be a positive integer"@,
            NetworkedStore::Chroma => "MEMORIA_CHROMA_DIMENSION must be a positive integer"@,
            NetworkedStore::Milvus => "MEMORIA_MILVUS_DIMENSION must be a positive integer"@,
        }
    }

    /// How the label of the store starts.
    pub open spec fn label_start(self) -> Seq<char> {
        match self {
            NetworkedStore::Postgres => "PgVectorStore (table "@,
            NetworkedStore::Qdrant => "QdrantVectorStore (collection "@,
            NetworkedStore::Chroma => "ChromaVectorStore (collection "@,
            NetworkedStore::Milvus => "MilvusVectorStore (collection "@,
        }
    }

    /// How the label of the store ends.
    pub open spec fn label_end(self) -> Seq<char> {
        match self {
            NetworkedStore::Postgres => "; see ADR-46)"@,
            NetworkedStore::Qdrant => "; see ADR-47)"@,
            NetworkedStore::Chroma => "; see ADR-48)"@,
            NetworkedStore::Milvus => "; see ADR-49)"@,
        }
    }

    fn say_needs_build(self) -> (r: &'static str)
        ensures
            r@ == self.needs_build(),
    {
        match self {
            NetworkedStore::Postgres => "the mcp binary must be built with --features postgres to use MEMORIA_VECTOR_STORE=postgres (see ADR-46)",
            NetworkedStore::Qdrant => "the mcp binary must be built with --features qdrant to use MEMORIA_VECTOR_STORE=qdrant (see ADR-47)",
            NetworkedStore::Chroma => "the mcp binary must be built with --features chroma to use MEMORIA_VECTOR_STORE=chroma (see ADR-48)",
            NetworkedStore::Milvus => "the mcp binary must be built with --features milvus to use MEMORIA_VECTOR_STORE=milvus (see ADR-49)",
        }
    }

    fn say_needs_url(self) -> (r: &'static str)
        ensures
            r@ == self.needs_url(),
    {
        match self {
            NetworkedStore::Postgres => "MEMORIA_VECTOR_STORE=postgres requires MEMORIA_POSTGRES_URL to be set",
            NetworkedStore::Qdrant => "MEMORIA_VECTOR_STORE=qdrant requires MEMORIA_QDRANT_URL to be set",
            NetworkedStore::Chroma => "MEMORIA_VECTOR_STORE=chroma requires MEMORIA_CHROMA_URL to be set",
            NetworkedStore::Milvus => "MEMORIA_VECTOR_STORE=milvus requires MEMORIA_MILVUS_URL to be set",
        }
    }

    fn say_needs_dimension(self) -> (r: &'static str)
        ensures
            r@ == self.needs_dimension(),
    {
        match self {
            NetworkedStore::Postgres => "MEMORIA_VECTOR_STORE=postgres requires MEMORIA_POSTGRES_DIMENSION to be set (Postgres's native VECTOR(N) column needs a fixed dimension; see ADR-46)",
            NetworkedStore::Qdrant => "MEMORIA_VECTOR_STORE=qdrant requires MEMORIA_QDRANT_DIMENSION to be set (Qdrant's own collection schema needs a fixed dimension; see ADR-47)",
            NetworkedStore::Chroma => "MEMORIA_VECTOR_STORE=chroma requires MEMORIA_CHROMA_DIMENSION to be set (memoria validates every vector's dimension client-side; see ADR-48)",
            NetworkedStore::Milvus => "MEMORIA_VECTOR_STORE=milvus requires MEMORIA_MILVUS_DIMENSION to be set (Milvus's own collection schema needs a fixed dimension; see ADR-49)",
        }
    }

    fn say_bad_dimension(self) -> (r: &'static str)
        ensures
            r@ == self.bad_dimension(),
    {
        match self {
            NetworkedStore::Postgres => "MEMORIA_POSTGRES_DIMENSION must be a positive integer",
            NetworkedStore::Qdrant => "MEMORIA_QDRANT_DIMENSION must be a positive integer",
            NetworkedStore::Chroma => "MEMORIA_CHROMA_DIMENSION must be a positive integer",
            NetworkedStore::Milvus => "MEMORIA_MILVUS_DIMENSION must be a positive integer",
        }
    }

    fn say_label_start(self) -> (r: &'static str)
        ensures
            r@ == self.label_start(),
    {
        match self {
            NetworkedStore::Postgres => "PgVectorStore (table ",
            NetworkedStore::Qdrant => "QdrantVectorStore (collection ",
            NetworkedStore::Chroma => "ChromaVectorStore (collection ",
            NetworkedStore::Milvus => "MilvusVectorStore (collection ",
        }
    }

    fn say_label_end(self) -> (r: &'static str)
        ensures
            r@ == self.label_end(),
    {
        match self {
            NetworkedStore::Postgres => "; see ADR-46)",
            NetworkedStore::Qdrant => "; see ADR-47)",
            NetworkedStore::Chroma => "; see ADR-48)",
            NetworkedStore::Milvus => "; see ADR-49)",
        }
    }

    /// The store that settings ask for, with its label, or what is wrong with
    /// them.
    pub open spec fn plan(self, build: Build, env: NetworkedStoreEnv<'_>) -> Result<
        (StorePlan, bool, Seq<char>),
        Seq<char>,
    > {
        if !self.is_built(build) {
            Err(self.needs_build())
        } else if env.url is None {
            Err(self.needs_url())
        } else if env.dimension is None {
            Err(self.needs_dimension())
        } else if text::size_in(env.dimension->0@) is None {
            Err(self.bad_dimension())
        } else {
            let url = env.url->0@;
            let dimension = text::size_in(env.dimension->0@)->0;
            let name = match env.name {
                Some(name) => name@,
                None => DEFAULT_STORE_NAME@,
            };
            Ok(
                (
                    StorePlan::Networked { kind: self, url, dimension, name },
                    false,
                    self.label_start() + name + ", dimension "@ + text::decimal(dimension as nat)
                        + self.label_end(),
                ),
            )
        }
    }

    fn resolve(self, build: &Build, env: NetworkedStoreEnv<'_>) -> (r: Result<
        (StoreChoice, bool, String),
        String,
    >)
        ensures
            store_outcome(r) == self.plan(*build, env),
    {
        let built = match self {
            NetworkedStore::Postgres => build.postgres,
            NetworkedStore::Qdrant => build.qdrant,
            NetworkedStore::Chroma => build.chroma,
            NetworkedStore::Milvus => build.milvus,
        };
        if !built {
            return Err(self.say_needs_build().to_owned());
        }
        let url = match env.url {
            Some(url) => url,
            None => {
                return Err(self.say_needs_url().to_owned());
            },
        };
        let digits = match env.dimension {
            Some(digits) => digits,
            None => {
                return Err(self.say_needs_dimension().to_owned());
            },
        };
        let dimension: usize = match text::parse_size(digits) {
            Some(dimension) => dimension,
            None => {
                return Err(self.say_bad_dimension().to_owned());
            },
        };
        let name = match env.name {
            Some(name) => name,
            None => DEFAULT_STORE_NAME,
        };
        let mut label = text::concat3(self.say_label_start(), name, ", dimension ");
        label.append(text::to_decimal(dimension as u128).as_str());
        label.append(self.say_label_end());
        let store = Networked { kind: self, url: url.to_owned(), dimension, name: name.to_owned() };
        Ok((StoreChoice::Networked(store), false, label))
    }
}

/// The outcome of a resolution as a value.
pub open spec fn store_outcome(r: Result<(StoreChoice, bool, String), String>) -> Result<
    (StorePlan, bool, Seq<char>),
    Seq<char>,
> {
    match r {
        Ok((choice, snapshot, label)) => Ok((choice@, snapshot, label@)),
        Err(message) => Err(message@),
    }
}

/// The store that settings ask for, whether its records are also written to a
/// file, and its label; or what is wrong with the settings.
pub open spec fn store_plan(
    build: Build,
    choice: Seq<char>,
    json_snapshot_path: Seq<char>,
    sqlite_path: Seq<char>,
    postgres: NetworkedStoreEnv<'_>,
    qdrant: NetworkedStoreEnv<'_>,
    chroma: NetworkedStoreEnv<'_>,
    milvus: NetworkedStoreEnv<'_>,
) -> Result<(StorePlan, bool, Seq<char>), Seq<char>> {
    if choice == "sqlite"@ {
        if !build.sqlite {
            Err(NO_SQLITE@)
        } else {
            Ok(
                (
                    StorePlan::Sqlite { path: sqlite_path },
                    false,
                    "SqliteVectorStore ("@ + sqlite_path + "; see ADR-33)"@,
                ),
            )
        }
    } else if choice == "local"@ {
        Ok((StorePlan::Local { path: json_snapshot_path }, true, LOCAL_STORE_LABEL@))
    } else if choice == "postgres"@ {
        NetworkedStore::Postgres.plan(build, postgres)
    } else if choice == "qdrant"@ {
        NetworkedStore::Qdrant.plan(build, qdrant)
    } else if choice == "chroma"@ {
        NetworkedStore::Chroma.plan(build, chroma)
    } else if choice == "milvus"@ {
        NetworkedStore::Milvus.plan(build, milvus)
    } else {
        Err(
            "unknown MEMORIA_VECTOR_STORE value "@ + text::debug_form(choice)
                + " (expected \"sqlite\", \"local\", \"postgres\", \"qdrant\", \"chroma\", or \"milvus\")"@,
        )
    }
}

/// The store that settings ask for, whether its records are also written to a
/// file, and its label.
pub fn resolve_vector_store(
    build: &Build,
    choice: Option<&str>,
    json_snapshot_path: &str,
    sqlite_path: &str,
    postgres: NetworkedStoreEnv<'_>,
    qdrant: NetworkedStoreEnv<'_>,
    chroma: NetworkedStoreEnv<'_>,
    milvus: NetworkedStoreEnv<'_>,
) -> (r: Result<(StoreChoice, bool, String), String>)
    ensures
        store_outcome(r) == store_plan(
            *build,
            match choice {
                Some(name) => name@,
                None => "sqlite"@,
            },
            json_snapshot_path@,
            sqlite_path@,
            postgres,
            qdrant,
            chroma,
            milvus,
        ),
{
    let name = match choice {
        Some(name) => name,
        None => "sqlite",
    };
    if text::same(name, "sqlite") {
        if !build.sqlite {
            return Err(NO_SQLITE.to_owned());
        }
        let label = text::concat3("SqliteVectorStore (", sqlite_path, "; see ADR-33)");
        Ok((StoreChoice::Sqlite { path: sqlite_path.to_owned() }, false, label))
    } else if text::same(name, "local") {
        Ok(
            (
                StoreChoice::Local { path: json_snapshot_path.to_owned() },
                true,
                LOCAL_STORE_LABEL.to_owned(),
            ),
        )
    } else if text::same(name, "postgres") {
        NetworkedStore::Postgres.resolve(build, postgres)
    } else if text::same(name, "qdrant") {
        NetworkedStore::Qdrant.resolve(build, qdrant)
    } else if text::same(name, "chroma") {
        NetworkedStore::Chroma.resolve(build, chroma)
    } else if text::same(name, "milvus") {
        NetworkedStore::Milvus.resolve(build, milvus)
    } else {
        Err(
            text::concat3(
                "unknown MEMORIA_VECTOR_STORE value ",
                text::to_debug(name).as_str(),
                " (expected \"sqlite\", \"local\", \"postgres\", \"qdrant\", \"chroma\", or \"milvus\")",
            ),
        )
    }
}

/// A setting of the form key, equals sign, value; the first equals sign counts.
pub open spec fn is_key_value(s: Seq<char>, key: Seq<char>, value: Seq<char>) -> bool {
    s == key + "="@ + value && !key.contains('=')
}

/// Splits a setting of the form key, equals sign, value.
pub fn parse_key_value(s: &str) -> (r: Result<(String, String), String>)
    ensures
        match r {
            Ok((key, value)) => is_key_value(s@, key@, value@),
            Err(message) => {
                &&& !s@.contains('=')
                &&& message@ == "expected KEY=VALUE, got "@ + text::debug_form(s@)
            },
        },
{
    proof {
        reveal_strlit("=");
        assert("="@ =~= seq!['=']);
    }
    match text::split_once(s, "=") {
        Some((key, value)) => {
            proof {
                if key@.contains('=') {
                    let i = choose|i: int| 0 <= i < key@.len() && key@[i] == '=';
                    assert(s@.subrange(i, i + 1) =~= "="@) by {
                        assert(s@[i] == key@[i]);
                    }
                    assert(text::occurs_at(s@, "="@, i));
                }
            }
            Ok((key, value))
        },
        None => {
            proof {
                if s@.contains('=') {
                    let i = choose|i: int| 0 <= i < s@.len() && s@[i] == '=';
                    assert(s@.subrange(i, i + 1) =~= "="@);
                    assert(text::occurs_at(s@, "="@, i));
                }
            }
            Err(text::concat("expected KEY=VALUE, got ", text::to_debug(s).as_str()))
        },
    }
}

/// A text is a setting of the form key, equals sign, value in one way at most.
pub proof fn law_one_key_value(
    s: Seq<char>,
    key: Seq<char>,
    value: Seq<char>,
    other_key: Seq<char>,
    other_value: Seq<char>,
)
    requires
        is_key_value(s, key, value),
        is_key_value(s, other_key, other_value),
    ensures
        key == other_key,
        value == other_value,
{
    reveal_strlit("=");
    assert(s[key.len() as int] == '=');
    assert(s[other_key.len() as int] == '=');
    if key.len() < other_key.len() {
        assert(other_key[key.len() as int] == '=');
    }
    if other_key.len() < key.len() {
        assert(key[other_key.len() as int] == '=');
    }
    assert(key =~= s.take(key.len() as int));
    assert(other_key =~= s.take(other_key.len() as int));
    assert(value =~= s.skip(key.len() as int + 1));
    assert(other_value =~= s.skip(other_key.len() as int + 1));
}

/// A map with one more entry, if there is a value for it.
pub open spec fn with_field(
    scope: Map<Seq<char>, Seq<char>>,
    key: Seq<char>,
    value: Option<Seq<char>>,
) -> Map<Seq<char>, Seq<char>> {
    match value {
        Some(value) => scope.insert(key, value),
        None => scope,
    }
}

/// The scope of a request.
pub open spec fn scope_of(
    user_id: Option<Seq<char>>,
    agent_id: Option<Seq<char>>,
    run_id: Option<Seq<char>>,
) -> Map<Seq<char>, Seq<char>> {
    with_field(
        with_field(with_field(Map::empty(), "user_id"@, user_id), "agent_id"@, agent_id),
        "run_id"@,
        run_id,
    )
}

/// The scope of a request: only what was given is in it.
pub fn build_scope(
    user_id: Option<String>,
    agent_id: Option<String>,
    run_id: Option<String>,
) -> (r: Payload)
    ensures
        r@ == scope_of(text::model(user_id), text::model(agent_id), text::model(run_id)),
{
    let mut scope = Payload::new();
    match user_id {
        Some(id) => {
            scope.insert("user_id".to_owned(), id);
        },
        None => {},
    }
    match agent_id {
        Some(id) => {
            scope.insert("agent_id".to_owned(), id);
        },
        None => {},
    }
    match run_id {
        Some(id) => {
            scope.insert("run_id".to_owned(), id);
        },
        None => {},
    }
    scope
}

/// The scope of a request: only what was given is in it.
pub fn scope_from_optional(
    user_id: Option<String>,
    agent_id: Option<String>,
    run_id: Option<String>,
) -> (r: Payload)
    ensures
        r@ == scope_of(text::model(user_id), text::model(agent_id), text::model(run_id)),
{
    build_scope(user_id, agent_id, run_id)
}

/// The scope of a request names someone exactly if the request does.
pub proof fn law_scope_names_whom_the_request_names(
    user_id: Option<Seq<char>>,
    agent_id: Option<Seq<char>>,
    run_id: Option<Seq<char>>,
)
    ensures
        memory::names_someone(scope_of(user_id, agent_id, run_id)) <==> user_id is Some
            || agent_id is Some || run_id is Some,
{
}

/// How many results a search hands out unless it is told otherwise.
pub fn default_top_k() -> (r: usize)
    ensures
        r == 10,
{
    10
}

/// How many memories are listed at a time unless it is told otherwise.
pub fn default_list_limit() -> (r: usize)
    ensures
        r == 50,
{
    50
}

/// How many entries of a history are handed out unless it is told otherwise.
pub fn default_history_limit() -> (r: usize)
    ensures
        r == 100,
{
    100
}

/// Whether facts are extracted unless it is told otherwise.
pub fn default_infer() -> (r: bool)
    ensures
        r,
{
    true
}

/// A setting that counts: an empty one is none.
pub fn nonempty(setting: Option<String>) -> (r: Option<String>)
    ensures
        r == if setting matches Some(s) && s@.len() > 0 {
            setting
        } else {
            None
        },
{
    match setting {
        Some(s) => if s.as_str().is_empty() {
            None
        } else {
            Some(s)
        },
        None => None,
    }
}

} // verus!
