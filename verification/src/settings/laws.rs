//! What settings ask for.

use super::{Build, EmbeddingPlan, LlmPlan, NetworkedStore, NetworkedStoreEnv, RerankerPlan, StorePlan};
use crate::embedding;
use crate::settings;
use crate::text;
use crate::text::CharClass;
use vstd::prelude::*;

verus! {

/// A model that is named counts, and one that is not is the one to fall back on;
/// one without a name but white space is refused.
pub proof fn law_models(model: Seq<char>, otherwise: Seq<char>)
    ensures
        text::or(Some(model), otherwise) == model,
        text::or(None, otherwise) == otherwise,
        settings::is_blank(model) <==> text::trimmed(model, CharClass::Space).len() == 0,
        settings::blank_model() == "config error: model must not be empty"@,
{
    reveal_strlit("config error: ");
    reveal_strlit("model must not be empty");
    reveal_strlit("config error: model must not be empty");
    assert(settings::blank_model() =~= "config error: model must not be empty"@);
}

/// A program says what it was not built with.
pub proof fn law_missing_features(build: Build, setting: Seq<char>, feature: Seq<char>)
    ensures
        settings::lacks_feature(build, setting, feature) == setting + "="@ + feature
            + " requires the "@ + build.name@ + " binary to be built with --features "@ + feature,
{
}

proof fn lemma_provider_names()
    ensures
        "local"@ != "ollama"@,
        "local"@ != "candle"@,
        "local"@ != "fastembed"@,
        "local"@ != "llm"@,
        "local"@ != "sqlite"@,
        "ollama"@ != "candle"@,
        "ollama"@ != "fastembed"@,
        "fastembed"@ != "llm"@,
{
    reveal_strlit("local");
    reveal_strlit("ollama");
    reveal_strlit("candle");
    reveal_strlit("fastembed");
    reveal_strlit("llm");
    reveal_strlit("sqlite");
    assert("local"@.len() == 5);
    assert("ollama"@.len() == 6);
    assert("candle"@.len() == 6);
    assert("fastembed"@.len() == 9);
    assert("llm"@.len() == 3);
    assert("sqlite"@.len() == 6);
    assert("ollama"@[0] == 'o');
    assert("candle"@[0] == 'c');
}

/// The language model that settings ask for: the local one, or one of two others
/// if the program was built with it and the model has a name. Any other name is
/// refused.
pub proof fn law_language_models(
    build: Build,
    choice: Seq<char>,
    model: Option<Seq<char>>,
    base_url: Option<Seq<char>>,
    cache_dir: Option<Seq<char>>,
)
    ensures
        settings::llm_plan(build, "local"@, model, base_url, cache_dir) == Ok::<
            (LlmPlan, Seq<char>),
            Seq<char>,
        >((LlmPlan::Local, "LocalSentenceLlmProvider (local, non-AI; see ADR-12)"@)),
        ({
            let plan = settings::llm_plan(build, "ollama"@, model, base_url, cache_dir);
            let name = if model is Some { model->0 } else { "qwen2.5:0.5b"@ };
            let url = if base_url is Some { base_url->0 } else { "http://localhost:11434"@ };
            &&& !build.ollama ==> plan == Err::<(LlmPlan, Seq<char>), Seq<char>>(
                settings::lacks_feature(build, "MEMORIA_LLM_PROVIDER"@, "ollama"@),
            )
            &&& build.ollama && settings::is_blank(name) ==> plan == Err::<
                (LlmPlan, Seq<char>),
                Seq<char>,
            >(settings::blank_model())
            &&& build.ollama && !settings::is_blank(name) ==> plan == Ok::<
                (LlmPlan, Seq<char>),
                Seq<char>,
            >(
                (
                    LlmPlan::Ollama { model: name, base_url },
                    "OllamaLlmProvider (model="@ + name + ", base_url="@ + url + "; see ADR-25)"@,
                ),
            )
        }),
        ({
            let plan = settings::llm_plan(build, "candle"@, model, base_url, cache_dir);
            let name = if model is Some { model->0 } else { "qwen2.5-0.5b-instruct-q4_0"@ };
            &&& !build.candle ==> plan == Err::<(LlmPlan, Seq<char>), Seq<char>>(
                settings::lacks_feature(build, "MEMORIA_LLM_PROVIDER"@, "candle"@),
            )
            &&& build.candle && settings::is_blank(name) ==> plan == Err::<
                (LlmPlan, Seq<char>),
                Seq<char>,
            >(settings::blank_model())
            &&& build.candle && !settings::is_blank(name) ==> plan == Ok::<
                (LlmPlan, Seq<char>),
                Seq<char>,
            >(
                (
                    LlmPlan::Candle { model: name, base_url, cache_dir },
                    "CandleLlmProvider (model="@ + name + "; see ADR-40)"@,
                ),
            )
        }),
        choice != "local"@ && choice != "ollama"@ && choice != "candle"@ ==> settings::llm_plan(
            build,
            choice,
            model,
            base_url,
            cache_dir,
        ) == Err::<(LlmPlan, Seq<char>), Seq<char>>(
            "unknown MEMORIA_LLM_PROVIDER value "@ + text::debug_form(choice)
                + " (expected \"local\", \"ollama\", or \"candle\")"@,
        ),
        settings::choice_in(None) == "local"@,
{
    lemma_provider_names();
}

/// A setting that names a provider is that name.
pub proof fn law_choices(name: &str)
    ensures
        settings::choice_in(Some(name)) == name@,
{
}

/// The embedding that settings ask for: the local one, or one of two others if the
/// program was built with it and serves the model. Any other name is refused.
pub proof fn law_embeddings(
    build: Build,
    choice: Seq<char>,
    model: Option<Seq<char>>,
    base_url: Option<Seq<char>>,
    cache_dir: Option<Seq<char>>,
)
    ensures
        settings::embedding_plan(build, "local"@, model, base_url, cache_dir) == Ok::<
            (EmbeddingPlan, Seq<char>),
            Seq<char>,
        >((EmbeddingPlan::Local, "LocalHashEmbeddingProvider (local, non-AI; see ADR-12)"@)),
        ({
            let plan = settings::embedding_plan(build, "ollama"@, model, base_url, cache_dir);
            let name = if model is Some { model->0 } else { "nomic-embed-text"@ };
            let url = if base_url is Some { base_url->0 } else { "http://localhost:11434"@ };
            &&& !build.ollama ==> plan == Err::<(EmbeddingPlan, Seq<char>), Seq<char>>(
                settings::lacks_feature(build, "MEMORIA_EMBEDDING_PROVIDER"@, "ollama"@),
            )
            &&& build.ollama && settings::is_blank(name) ==> plan == Err::<
                (EmbeddingPlan, Seq<char>),
                Seq<char>,
            >(settings::blank_model())
            &&& build.ollama && !settings::is_blank(name) ==> plan == Ok::<
                (EmbeddingPlan, Seq<char>),
                Seq<char>,
            >(
                (
                    EmbeddingPlan::Ollama { model: name, base_url },
                    "OllamaEmbeddingProvider (model="@ + name + ", base_url="@ + url
                        + "; see ADR-24)"@,
                ),
            )
        }),
        ({
            let plan = settings::embedding_plan(build, "fastembed"@, model, base_url, cache_dir);
            let name = if model is Some { model->0 } else { "all-MiniLM-L6-v2"@ };
            let cache = if cache_dir is Some { cache_dir->0 } else {
                ".fastembed_cache (default)"@
            };
            let problem = embedding::fastembed_problem(name, None);
            &&& !build.fastembed ==> plan == Err::<(EmbeddingPlan, Seq<char>), Seq<char>>(
                settings::lacks_feature(build, "MEMORIA_EMBEDDING_PROVIDER"@, "fastembed"@),
            )
            &&& build.fastembed && problem is Some ==> plan == Err::<
                (EmbeddingPlan, Seq<char>),
                Seq<char>,
            >("config error: "@ + problem->0)
            &&& build.fastembed && problem is None ==> plan == Ok::<
                (EmbeddingPlan, Seq<char>),
                Seq<char>,
            >(
                (
                    EmbeddingPlan::Fastembed { model: name, cache_dir },
                    "FastEmbedEmbeddingProvider (model="@ + name + ", cache_dir="@ + cache
                        + "; see ADR-32)"@,
                ),
            )
        }),
        choice != "local"@ && choice != "ollama"@ && choice != "fastembed"@
            ==> settings::embedding_plan(build, choice, model, base_url, cache_dir) == Err::<
            (EmbeddingPlan, Seq<char>),
            Seq<char>,
        >(
            "unknown MEMORIA_EMBEDDING_PROVIDER value "@ + text::debug_form(choice)
                + " (expected \"local\", \"ollama\", or \"fastembed\")"@,
        ),
{
    lemma_provider_names();
}

/// The reranker that settings ask for: none where none is named; the local one; one
/// that asks the language model of the settings, if there is one; or one in this
/// process, if the program was built with it. Any other name is refused.
pub proof fn law_rerankers(
    build: Build,
    name: &str,
    llm: Result<(LlmPlan, Seq<char>), Seq<char>>,
    cache_dir: Option<Seq<char>>,
)
    ensures
        settings::reranker_plan(build, None, llm, cache_dir) == Ok::<
            Option<(RerankerPlan, Seq<char>)>,
            Seq<char>,
        >(None),
        ({
            let plan = settings::reranker_plan(build, Some(name), llm, cache_dir);
            let cache = if cache_dir is Some { cache_dir->0 } else {
                ".fastembed_cache (default)"@
            };
            &&& name@ == "local"@ ==> plan == Ok::<
                Option<(RerankerPlan, Seq<char>)>,
                Seq<char>,
            >(
                Some(
                    (
                        RerankerPlan::Local,
                        "LocalOverlapReranker (local, non-AI; see ADR-36)"@,
                    ),
                ),
            )
            &&& name@ == "llm"@ && llm is Ok ==> plan == Ok::<
                Option<(RerankerPlan, Seq<char>)>,
                Seq<char>,
            >(
                Some(
                    (
                        RerankerPlan::Llm(llm->Ok_0.0),
                        "LlmReranker (llm="@ + llm->Ok_0.1 + "; see ADR-36)"@,
                    ),
                ),
            )
            &&& name@ == "llm"@ && llm is Err ==> plan == Err::<
                Option<(RerankerPlan, Seq<char>)>,
                Seq<char>,
            >(llm->Err_0)
            &&& name@ == "fastembed"@ && !build.fastembed ==> plan == Err::<
                Option<(RerankerPlan, Seq<char>)>,
                Seq<char>,
            >(settings::lacks_feature(build, "MEMORIA_RERANKER"@, "fastembed"@))
            &&& name@ == "fastembed"@ && build.fastembed ==> plan == Ok::<
                Option<(RerankerPlan, Seq<char>)>,
                Seq<char>,
            >(
                Some(
                    (
                        RerankerPlan::Fastembed { cache_dir },
                        "FastEmbedReranker (model=BAAI/bge-reranker-base, cache_dir="@ + cache
                            + "; see ADR-50)"@,
                    ),
                ),
            )
            &&& name@ != "local"@ && name@ != "llm"@ && name@ != "fastembed"@ ==> plan == Err::<
                Option<(RerankerPlan, Seq<char>)>,
                Seq<char>,
            >(
                "unknown MEMORIA_RERANKER value "@ + text::debug_form(name@)
                    + " (expected \"local\", \"llm\", or \"fastembed\")"@,
            )
        }),
{
    lemma_provider_names();
}

proof fn lemma_store_names()
    ensures
        "sqlite"@ != "local"@,
        "postgres"@ != "sqlite"@,
        "postgres"@ != "local"@,
        "qdrant"@ != "sqlite"@,
        "qdrant"@ != "local"@,
        "qdrant"@ != "postgres"@,
        "chroma"@ != "sqlite"@,
        "chroma"@ != "local"@,
        "chroma"@ != "postgres"@,
        "chroma"@ != "qdrant"@,
        "milvus"@ != "sqlite"@,
        "milvus"@ != "local"@,
        "milvus"@ != "postgres"@,
        "milvus"@ != "qdrant"@,
        "milvus"@ != "chroma"@,
{
    reveal_strlit("sqlite");
    reveal_strlit("local");
    reveal_strlit("postgres");
    reveal_strlit("qdrant");
    reveal_strlit("chroma");
    reveal_strlit("milvus");
    assert("sqlite"@[0] == 's');
    assert("local"@[0] == 'l');
    assert("postgres"@[0] == 'p');
    assert("qdrant"@[0] == 'q');
    assert("chroma"@[0] == 'c');
    assert("milvus"@[0] == 'm');
}

/// The store that settings ask for. One in a file is where its file is; what the
/// local one holds is written to a file besides, and it alone needs that. Stores
/// elsewhere are those that they are called. Any other name is refused.
pub proof fn law_stores(
    build: Build,
    choice: Seq<char>,
    json_path: Seq<char>,
    sqlite_path: Seq<char>,
    postgres: NetworkedStoreEnv<'_>,
    qdrant: NetworkedStoreEnv<'_>,
    chroma: NetworkedStoreEnv<'_>,
    milvus: NetworkedStoreEnv<'_>,
)
    ensures
        ({
            let plan = settings::store_plan(
                build,
                choice,
                json_path,
                sqlite_path,
                postgres,
                qdrant,
                chroma,
                milvus,
            );
            &&& choice == "sqlite"@ && build.sqlite ==> plan == Ok::<
                (StorePlan, bool, Seq<char>),
                Seq<char>,
            >(
                (
                    StorePlan::Sqlite { path: sqlite_path },
                    false,
                    "SqliteVectorStore ("@ + sqlite_path + "; see ADR-33)"@,
                ),
            )
            &&& choice == "sqlite"@ && !build.sqlite ==> plan == Err::<
                (StorePlan, bool, Seq<char>),
                Seq<char>,
            >(
                "the mcp binary must be built with --features sqlite to use the default MEMORIA_VECTOR_STORE=sqlite (see ADR-38); pass MEMORIA_VECTOR_STORE=local to fall back to JSON-snapshot persistence"@,
            )
            &&& choice == "local"@ ==> plan == Ok::<(StorePlan, bool, Seq<char>), Seq<char>>(
                (
                    StorePlan::Local { path: json_path },
                    true,
                    "InMemoryVectorStore + JSON snapshot (ADR-11)"@,
                ),
            )
            &&& choice == "postgres"@ ==> plan == NetworkedStore::Postgres.plan(build, postgres)
            &&& choice == "qdrant"@ ==> plan == NetworkedStore::Qdrant.plan(build, qdrant)
            &&& choice == "chroma"@ ==> plan == NetworkedStore::Chroma.plan(build, chroma)
            &&& choice == "milvus"@ ==> plan == NetworkedStore::Milvus.plan(build, milvus)
            &&& choice != "sqlite"@ && choice != "local"@ && choice != "postgres"@ && choice
                != "qdrant"@ && choice != "chroma"@ && choice != "milvus"@ ==> plan == Err::<
                (StorePlan, bool, Seq<char>),
                Seq<char>,
            >(
                "unknown MEMORIA_VECTOR_STORE value "@ + text::debug_form(choice)
                    + " (expected \"sqlite\", \"local\", \"postgres\", \"qdrant\", \"chroma\", or \"milvus\")"@,
            )
        }),
{
    lemma_store_names();
}

/// A store elsewhere: the program must be built with it, and the settings must say
/// where it is and how long vectors are, as a number; the first of these that fails
/// says why it is refused. It has the name of the settings, or a name to fall back
/// on, and nothing is written to a file.
pub proof fn law_networked_stores(
    store: NetworkedStore,
    build: Build,
    env: NetworkedStoreEnv<'_>,
)
    ensures
        ({
            let plan = store.plan(build, env);
            let built = match store {
                NetworkedStore::Postgres => build.postgres,
                NetworkedStore::Qdrant => build.qdrant,
                NetworkedStore::Chroma => build.chroma,
                NetworkedStore::Milvus => build.milvus,
            };
            let name = if env.name is Some { env.name->0@ } else { "memoria_vectors"@ };
            &&& !built ==> plan == Err::<(StorePlan, bool, Seq<char>), Seq<char>>(
                store.needs_build(),
            )
            &&& built && env.url is None ==> plan == Err::<
                (StorePlan, bool, Seq<char>),
                Seq<char>,
            >(store.needs_url())
            &&& built && env.url is Some && env.dimension is None ==> plan == Err::<
                (StorePlan, bool, Seq<char>),
                Seq<char>,
            >(store.needs_dimension())
            &&& built && env.url is Some && env.dimension is Some && text::size_in(
                env.dimension->0@,
            ) is None ==> plan == Err::<(StorePlan, bool, Seq<char>), Seq<char>>(
                store.bad_dimension(),
            )
            &&& built && env.url is Some && env.dimension is Some && text::size_in(
                env.dimension->0@,
            ) is Some ==> {
                &&& plan is Ok
                &&& plan->Ok_0.0 == StorePlan::Networked {
                    kind: store,
                    url: env.url->0@,
                    dimension: text::size_in(env.dimension->0@)->0,
                    name,
                }
                &&& !plan->Ok_0.1
                &&& plan->Ok_0.2 == store.label_start() + name + ", dimension "@ + text::decimal(
                    text::size_in(env.dimension->0@)->0 as nat,
                ) + store.label_end()
            }
        }),
{
}

/// What is said of each store elsewhere.
pub proof fn law_words_on_stores()
    ensures
        NetworkedStore::Postgres.needs_build()
            == "the mcp binary must be built with --features postgres to use MEMORIA_VECTOR_STORE=postgres (see ADR-46)"@,
        NetworkedStore::Qdrant.needs_build()
            == "the mcp binary must be built with --features qdrant to use MEMORIA_VECTOR_STORE=qdrant (see ADR-47)"@,
        NetworkedStore::Chroma.needs_build()
            == "the mcp binary must be built with --features chroma to use MEMORIA_VECTOR_STORE=chroma (see ADR-48)"@,
        NetworkedStore::Milvus.needs_build()
            == "the mcp binary must be built with --features milvus to use MEMORIA_VECTOR_STORE=milvus (see ADR-49)"@,
        NetworkedStore::Postgres.needs_url()
            == "MEMORIA_VECTOR_STORE=postgres requires MEMORIA_POSTGRES_URL to be set"@,
        NetworkedStore::Qdrant.needs_url()
            == "MEMORIA_VECTOR_STORE=qdrant requires MEMORIA_QDRANT_URL to be set"@,
        NetworkedStore::Chroma.needs_url()
            == "MEMORIA_VECTOR_STORE=chroma requires MEMORIA_CHROMA_URL to be set"@,
        NetworkedStore::Milvus.needs_url()
            == "MEMORIA_VECTOR_STORE=milvus requires MEMORIA_MILVUS_URL to be set"@,
        NetworkedStore::Postgres.needs_dimension()
            == "MEMORIA_VECTOR_STORE=postgres requires MEMORIA_POSTGRES_DIMENSION to be set (Postgres's native VECTOR(N) column needs a fixed dimension; see ADR-46)"@,
        NetworkedStore::Qdrant.needs_dimension()
            == "MEMORIA_VECTOR_STORE=qdrant requires MEMORIA_QDRANT_DIMENSION to be set (Qdrant's own collection schema needs a fixed dimension; see ADR-47)"@,
        NetworkedStore::Chroma.needs_dimension()
            == "MEMORIA_VECTOR_STORE=chroma requires MEMORIA_CHROMA_DIMENSION to be set (memoria validates every vector's dimension client-side; see ADR-48)"@,
        NetworkedStore::Milvus.needs_dimension()
            == "MEMORIA_VECTOR_STORE=milvus requires MEMORIA_MILVUS_DIMENSION to be set (Milvus's own collection schema needs a fixed dimension; see ADR-49)"@,
        NetworkedStore::Postgres.bad_dimension()
            == "MEMORIA_POSTGRES_DIMENSION must be a positive integer"@,
        NetworkedStore::Qdrant.bad_dimension()
            == "MEMORIA_QDRANT_DIMENSION must be a positive integer"@,
        NetworkedStore::Chroma.bad_dimension()
            == "MEMORIA_CHROMA_DIMENSION must be a positive integer"@,
        NetworkedStore::Milvus.bad_dimension()
            == "MEMORIA_MILVUS_DIMENSION must be a positive integer"@,
        NetworkedStore::Postgres.label_start() == "PgVectorStore (table "@,
        NetworkedStore::Qdrant.label_start() == "QdrantVectorStore (collection "@,
        NetworkedStore::Chroma.label_start() == "ChromaVectorStore (collection "@,
        NetworkedStore::Milvus.label_start() == "MilvusVectorStore (collection "@,
        NetworkedStore::Postgres.label_end() == "; see ADR-46)"@,
        NetworkedStore::Qdrant.label_end() == "; see ADR-47)"@,
        NetworkedStore::Chroma.label_end() == "; see ADR-48)"@,
        NetworkedStore::Milvus.label_end() == "; see ADR-49)"@,
{
}

/// A setting with an equals sign is the key before the first one and the value
/// after it, and nothing else.
pub proof fn law_key_values(
    s: Seq<char>,
    key: Seq<char>,
    value: Seq<char>,
    other_key: Seq<char>,
    other_value: Seq<char>,
)
    requires
        settings::is_key_value(s, key, value),
    ensures
        s == key.push('=') + value,
        forall|i: int| 0 <= i < key.len() ==> #[trigger] key[i] != '=',
        settings::is_key_value(s, other_key, other_value) ==> other_key == key && other_value
            == value,
{
    reveal_strlit("=");
    assert("="@ =~= seq!['=']);
    assert(s =~= key.push('=') + value);
    assert forall|i: int| 0 <= i < key.len() implies #[trigger] key[i] != '=' by {
        assert(key.contains(key[i]));
    }
    if settings::is_key_value(s, other_key, other_value) {
        assert(s =~= other_key.push('=') + other_value);
        assert(s[key.len() as int] == '=');
        assert(s[other_key.len() as int] == '=');
        if key.len() < other_key.len() {
            assert(other_key[key.len() as int] == s[key.len() as int]);
            assert(other_key.contains('='));
        }
        if other_key.len() < key.len() {
            assert(key[other_key.len() as int] == s[other_key.len() as int]);
            assert(key.contains('='));
        }
        assert(key =~= s.take(key.len() as int));
        assert(other_key =~= s.take(key.len() as int));
        assert(value =~= s.skip(key.len() as int + 1));
        assert(other_value =~= s.skip(key.len() as int + 1));
    }
}

/// The scope of a request has the three ids under their keys, those that are given,
/// and nothing else.
pub proof fn law_scopes(
    user_id: Option<Seq<char>>,
    agent_id: Option<Seq<char>>,
    run_id: Option<Seq<char>>,
    key: Seq<char>,
)
    ensures
        ({
            let scope = settings::scope_of(user_id, agent_id, run_id);
            &&& scope.contains_key("user_id"@) == (user_id is Some)
            &&& user_id is Some ==> scope["user_id"@] == user_id->0
            &&& scope.contains_key("agent_id"@) == (agent_id is Some)
            &&& agent_id is Some ==> scope["agent_id"@] == agent_id->0
            &&& scope.contains_key("run_id"@) == (run_id is Some)
            &&& run_id is Some ==> scope["run_id"@] == run_id->0
            &&& key != "user_id"@ && key != "agent_id"@ && key != "run_id"@
                ==> !scope.contains_key(key)
        }),
{
    reveal_strlit("user_id");
    reveal_strlit("agent_id");
    reveal_strlit("run_id");
    assert("user_id"@[0] == 'u');
    assert("agent_id"@[0] == 'a');
    assert("run_id"@[0] == 'r');
}

} // verus!
