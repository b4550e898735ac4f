//! The memory: facts in a vector store, with scopes, filters, expiration and a
//! history.

pub mod adding;
pub mod finding;
pub mod laws;
pub mod listing;
pub mod repeating;
pub mod searching;

use self::adding::State;
use crate::calendar;
use crate::embedding::{EmbeddingConfig, EmbeddingError, EmbeddingProvider};
use crate::error::{CoreError, ProviderError};
use crate::filter;
use crate::filter::{ExprModel, FilterExpr};
use crate::history;
use crate::history::{EntryModel, History, HistoryEntry, HistoryEvent};
use crate::llm;
use crate::llm::{LlmConfig, LlmError, LlmProvider, Message, Role};
use crate::number::Reading;
use crate::payload;
use crate::payload::Payload;
use crate::rank;
use crate::reranker::Reranker;
use crate::text;
use crate::text::CharClass;
use crate::vector_store;
use crate::vector_store::{
    RecordModel, StoreRequest, VectorRecord, VectorStore, VectorStoreConfig, VectorStoreError,
};
use vstd::prelude::*;

verus! {

/// The key that tells the records of entities from memories.
pub const ENTITY_RECORD_KIND_KEY: &'static str = "__memoria_record_kind";

pub const ENTITY_RECORD_KIND_VALUE: &'static str = "entity";

pub const ENTITY_TYPE_KEY: &'static str = "entity_type";

pub const ENTITY_TEXT_KEY: &'static str = "entity_text";

pub const LINKED_MEMORY_IDS_KEY: &'static str = "linked_memory_ids";

/// How many records of an entity a search looks at.
pub const ENTITY_MATCHES_PER_QUERY_ENTITY: usize = 5;

pub const SCOPE_REQUIRED: &'static str = "scope must contain user_id, agent_id, or run_id";

pub const SCOPE_IS_FIXED: &'static str = "metadata update must not change scope fields (user_id, agent_id, run_id)";

/// Whether a payload is that of an entity's record.
pub open spec fn is_entity(payload: Map<Seq<char>, Seq<char>>) -> bool {
    payload.contains_key(ENTITY_RECORD_KIND_KEY@) && payload[ENTITY_RECORD_KIND_KEY@]
        == ENTITY_RECORD_KIND_VALUE@
}

/// Whether a key names whom a memory belongs to.
pub open spec fn is_scope_key(key: Seq<char>) -> bool {
    key == "user_id"@ || key == "agent_id"@ || key == "run_id"@
}

/// Whether a scope says whom a memory belongs to.
pub open spec fn names_someone(scope: Map<Seq<char>, Seq<char>>) -> bool {
    scope.contains_key("user_id"@) || scope.contains_key("agent_id"@) || scope.contains_key(
        "run_id"@,
    )
}

/// Whether a payload is that of an entity's record.
pub fn is_entity_record(payload: &Payload) -> (r: bool)
    ensures
        r == is_entity(payload@),
{
    payload.has(ENTITY_RECORD_KIND_KEY, ENTITY_RECORD_KIND_VALUE)
}

/// Whether a scope says whom a memory belongs to.
pub fn has_scope_id(scope: &Payload) -> (r: bool)
    ensures
        r == names_someone(scope@),
{
    scope.contains_key("user_id") || scope.contains_key("agent_id") || scope.contains_key("run_id")
}

/// When and in which process something is done.
#[derive(Clone, Copy, Debug, PartialEq, Eq, Structural)]
pub struct Stamp {
    /// The seconds since the start of 1970.
    pub seconds: u64,
    /// The nanoseconds since the second began.
    pub subsec_nanos: u32,
    pub process_id: u32,
}

impl Stamp {
    /// The nanoseconds since the start of 1970.
    pub open spec fn nanos(self) -> nat {
        self.seconds as nat * 1_000_000_000 + self.subsec_nanos as nat
    }

    /// Whether a text is that of the day.
    pub open spec fn is_today(self, s: Seq<char>) -> bool {
        calendar::is_text_of_day(s, self.seconds as int / 86_400)
    }
}

/// An id: a prefix, the time, the process and a number.
pub open spec fn id_text(prefix: Seq<char>, stamp: Stamp, number: u64) -> Seq<char> {
    prefix + text::decimal(stamp.nanos()) + "-"@ + text::decimal(stamp.process_id as nat) + "-"@
        + text::decimal(number as nat)
}

/// The id of a memory.
pub open spec fn record_id(stamp: Stamp, number: u64) -> Seq<char> {
    id_text("rec-"@, stamp, number)
}

/// The id of an entity's record.
pub open spec fn entity_id(stamp: Stamp, number: u64) -> Seq<char> {
    id_text("entity-"@, stamp, number)
}

fn write_id(prefix: &str, stamp: Stamp, number: u64) -> (r: String)
    ensures
        r@ == id_text(prefix@, stamp, number),
{
    let nanos: u128 = stamp.seconds as u128 * 1_000_000_000 + stamp.subsec_nanos as u128;
    let mut r = text::concat(prefix, text::to_decimal(nanos).as_str());
    r.append("-");
    r.append(text::to_decimal(stamp.process_id as u128).as_str());
    r.append("-");
    r.append(text::to_decimal(number as u128).as_str());
    r
}

/// The id of a memory that is made now.
pub fn next_record_id(stamp: Stamp, number: u64) -> (r: String)
    ensures
        r@ == record_id(stamp, number),
{
    write_id("rec-", stamp, number)
}

/// The id of an entity's record that is made now.
pub fn next_entity_record_id(stamp: Stamp, number: u64) -> (r: String)
    ensures
        r@ == entity_id(stamp, number),
{
    write_id("entity-", stamp, number)
}

/// Two ids of memories that are made at one time differ if their numbers do.
pub proof fn law_record_ids_differ(stamp: Stamp, a: u64, b: u64)
    requires
        record_id(stamp, a) == record_id(stamp, b),
    ensures
        a == b,
{
    let start = "rec-"@ + text::decimal(stamp.nanos()) + "-"@ + text::decimal(
        stamp.process_id as nat,
    ) + "-"@;
    assert(record_id(stamp, a).skip(start.len() as int) =~= text::decimal(a as nat));
    assert(record_id(stamp, b).skip(start.len() as int) =~= text::decimal(b as nat));
    text::law_decimals_differ(a as nat, b as nat);
}

/// Two ids of entities' records that are made at one time differ if their
/// numbers do.
pub proof fn law_entity_ids_differ(stamp: Stamp, a: u64, b: u64)
    requires
        entity_id(stamp, a) == entity_id(stamp, b),
    ensures
        a == b,
{
    let start = "entity-"@ + text::decimal(stamp.nanos()) + "-"@ + text::decimal(
        stamp.process_id as nat,
    ) + "-"@;
    assert(entity_id(stamp, a).skip(start.len() as int) =~= text::decimal(a as nat));
    assert(entity_id(stamp, b).skip(start.len() as int) =~= text::decimal(b as nat));
    text::law_decimals_differ(a as nat, b as nat);
}

/// No id of a memory is that of an entity's record.
pub proof fn law_record_ids_are_no_entity_ids(one: Stamp, a: u64, other: Stamp, b: u64)
    ensures
        record_id(one, a) != entity_id(other, b),
{
    reveal_strlit("rec-");
    reveal_strlit("entity-");
    assert(record_id(one, a)[0] == 'r');
    assert(entity_id(other, b)[0] == 'e');
}

/// No comma stands in the id of a memory.
pub proof fn law_record_ids_have_no_comma(stamp: Stamp, number: u64)
    ensures
        text::lacks(record_id(stamp, number), CharClass::Only(',')),
{
    reveal_strlit("rec-");
    reveal_strlit("-");
    text::lemma_decimal_digits(stamp.nanos());
    text::lemma_decimal_digits(stamp.process_id as nat);
    text::lemma_decimal_digits(number as nat);
}

/// A filter, if there is one, as a value.
pub open spec fn filter_model(filter: Option<&FilterExpr>) -> Option<ExprModel> {
    match filter {
        Some(expr) => Some(expr@),
        None => None,
    }
}

/// A scope, if there is one, as a value.
pub open spec fn scope_model(scope: Option<&Payload>) -> Option<Map<Seq<char>, Seq<char>>> {
    match scope {
        Some(scope) => Some(scope@),
        None => None,
    }
}

/// Whether a memory is shown: it is no entity's record, it is in the scope, it
/// has not expired unless that does not matter, and it passes the filter.
pub open spec fn visible<N: Fn(&str) -> Reading>(
    read: N,
    payload: Map<Seq<char>, Seq<char>>,
    scope: Option<Map<Seq<char>, Seq<char>>>,
    show_expired: bool,
    today: Seq<char>,
    filter: Option<ExprModel>,
) -> bool {
    &&& !is_entity(payload)
    &&& scope matches Some(scope) ==> payload::covers(payload, scope)
    &&& show_expired || !calendar::expired(payload, today)
    &&& filter matches Some(expr) ==> filter::passes(read, expr, payload)
}

/// Whether a memory is shown.
pub fn is_visible<N: Fn(&str) -> Reading>(
    payload: &Payload,
    scope: Option<&Payload>,
    show_expired: bool,
    today: &str,
    filter: Option<&FilterExpr>,
    read: &N,
) -> (r: bool)
    requires
        filter::reads(*read),
    ensures
        r == visible(
            *read,
            payload@,
            scope_model(scope),
            show_expired,
            today@,
            filter_model(filter),
        ),
{
    let in_scope = match scope {
        Some(scope) => payload.matches(scope),
        None => true,
    };
    !is_entity_record(payload) && in_scope && (show_expired || !calendar::is_expired(payload, today))
        && match filter {
        Some(expr) => filter::evaluate(expr, payload, read),
        None => true,
    }
}

/// What the memory works with: its providers and its limits.
pub struct Setup<L, E> {
    pub llm: L,
    pub embedding: E,
    pub reranker: Option<Box<dyn Reranker>>,
    pub max_metadata_bytes: Option<usize>,
    pub max_content_length: Option<usize>,
    pub max_top_k: Option<usize>,
}

/// The memory.
///
/// Each memory counts the ids that it gives from zero on. Memories that share a
/// store are kept apart by the time and the process in their ids.
pub struct Memory<L: LlmProvider, E: EmbeddingProvider, V: VectorStore> {
    setup: Setup<L, E>,
    vector_store: V,
    history: History,
    next_id: u64,
}

/// The providers of a memory, before any is made.
pub struct MemoryConfig {
    pub llm: LlmConfig,
    pub embedding: EmbeddingConfig,
    pub vector_store: VectorStoreConfig,
}

/// Whether an error reports that a store refuses a request.
pub open spec fn reports_refusal<V: VectorStore>(
    store: V,
    request: StoreRequest,
    err: CoreError,
) -> bool {
    exists|cause: VectorStoreError| #[trigger]
        store.may_refuse(request, cause) && err.reports_store(cause)
}

/// Whether an error reports that a store refused to change something, and these
/// are the records that it was left with.
pub open spec fn refuses_change<V: VectorStore>(
    store: V,
    request: StoreRequest,
    err: CoreError,
    records: Map<Seq<char>, RecordModel>,
) -> bool {
    exists|cause: VectorStoreError|
        {
            &&& #[trigger] store.may_refuse(request, cause)
            &&& store.may_leave(request, cause, records)
            &&& err.reports_store(cause)
        }
}

/// Whether reading a record may have an outcome.
pub open spec fn may_get<V: VectorStore>(
    store: V,
    id: Seq<char>,
    r: Result<Option<VectorRecord>, CoreError>,
) -> bool {
    match r {
        Ok(Some(record)) => store.records().contains_key(id) && store.records()[id] == record@
            && record.id@ == id,
        Ok(None) => !store.records().contains_key(id),
        Err(err) => reports_refusal(store, StoreRequest::Get(id), err),
    }
}

impl<L: LlmProvider, E: EmbeddingProvider, V: VectorStore> Memory<L, E, V> {
    /// What the memory works with.
    pub closed spec fn setup(&self) -> Setup<L, E> {
        self.setup
    }

    /// The store that holds the memories.
    pub closed spec fn store(&self) -> V {
        self.vector_store
    }

    /// The history of each memory.
    pub closed spec fn log(&self) -> Map<Seq<char>, Seq<EntryModel>> {
        self.history@
    }

    /// The number that the next id ends in.
    pub closed spec fn counter(&self) -> u64 {
        self.next_id
    }

    /// A memory without a reranker and without limits.
    pub fn new(llm: L, embedding: E, vector_store: V) -> (r: Self)
        ensures
            r.setup() == (Setup::<L, E> {
                llm,
                embedding,
                reranker: None,
                max_metadata_bytes: None,
                max_content_length: None,
                max_top_k: None,
            }),
            r.store() == vector_store,
            r.log() == Map::<Seq<char>, Seq<EntryModel>>::empty(),
            r.counter() == 0,
    {
        Memory {
            setup: Setup {
                llm,
                embedding,
                reranker: None,
                max_metadata_bytes: None,
                max_content_length: None,
                max_top_k: None,
            },
            vector_store,
            history: History::new(),
            next_id: 0,
        }
    }

    pub fn with_reranker(self, reranker: Box<dyn Reranker>) -> (r: Self)
        ensures
            r.setup() == (Setup { reranker: Some(reranker), ..self.setup() }),
            r.store() == self.store(),
            r.log() == self.log(),
            r.counter() == self.counter(),
    {
        let mut r = self;
        r.setup.reranker = Some(reranker);
        r
    }

    pub fn with_max_top_k(self, limit: usize) -> (r: Self)
        ensures
            r.setup() == (Setup { max_top_k: Some(limit), ..self.setup() }),
            r.store() == self.store(),
            r.log() == self.log(),
            r.counter() == self.counter(),
    {
        let mut r = self;
        r.setup.max_top_k = Some(limit);
        r
    }

    pub fn with_max_content_length(self, limit: usize) -> (r: Self)
        ensures
            r.setup() == (Setup { max_content_length: Some(limit), ..self.setup() }),
            r.store() == self.store(),
            r.log() == self.log(),
            r.counter() == self.counter(),
    {
        let mut r = self;
        r.setup.max_content_length = Some(limit);
        r
    }

    pub fn with_max_metadata_bytes(self, limit: usize) -> (r: Self)
        ensures
            r.setup() == (Setup { max_metadata_bytes: Some(limit), ..self.setup() }),
            r.store() == self.store(),
            r.log() == self.log(),
            r.counter() == self.counter(),
    {
        let mut r = self;
        r.setup.max_metadata_bytes = Some(limit);
        r
    }

    /// The store that holds the memories.
    pub fn vector_store(&self) -> (r: &V)
        ensures
            *r == self.store(),
    {
        &self.vector_store
    }

    /// The record with an id.
    pub fn get(&self, id: &str) -> (r: Result<Option<VectorRecord>, CoreError>)
        ensures
            may_get(self.store(), id@, r),
    {
        match self.vector_store.get(id) {
            Ok(found) => Ok(found),
            Err(err) => {
                let report = CoreError::from(err);
                proof {
                    assert(report.reports_store(err));
                }
                Err(report)
            },
        }
    }
}

impl MemoryConfig {
    /// What is wrong with the configuration: with the language model's, else
    /// with the embedding's, else with the store's.
    pub open spec fn problem(self) -> Option<Seq<char>> {
        if self.llm.problem() is Some {
            self.llm.problem()
        } else if self.embedding.problem() is Some {
            self.embedding.problem()
        } else {
            self.vector_store.problem()
        }
    }

    /// Accepts a configuration with which nothing is wrong.
    pub fn validate(&self) -> (r: Result<(), CoreError>)
        ensures
            match self.problem() {
                None => r is Ok,
                Some(message) => r matches Err(err) && err.is_config(message),
            },
    {
        match self.llm.validate() {
            Ok(()) => {},
            Err(err) => {
                return Err(err);
            },
        }
        match self.embedding.validate() {
            Ok(()) => {},
            Err(err) => {
                return Err(err);
            },
        }
        self.vector_store.validate()
    }
}

/// The content that a record has, if it has any.
pub open spec fn content_of(records: Map<Seq<char>, RecordModel>, id: Seq<char>) -> Option<
    Seq<char>,
> {
    if records.contains_key(id) && records[id].payload.contains_key("content"@) {
        Some(records[id].payload["content"@])
    } else {
        None
    }
}

/// The histories after a record is deleted: its own has one more entry if the
/// record was there with a content.
pub open spec fn log_after_delete(
    log: Map<Seq<char>, Seq<EntryModel>>,
    records: Map<Seq<char>, RecordModel>,
    id: Seq<char>,
) -> Map<Seq<char>, Seq<EntryModel>> {
    match content_of(records, id) {
        Some(content) => history::with_entry(log, id, HistoryEvent::Deleted, content),
        None => log,
    }
}

/// Whether a change of metadata would change whom a memory belongs to.
pub open spec fn changes_scope(metadata: Option<Payload>) -> bool {
    metadata matches Some(m) && names_someone(m@)
}

/// A payload after an update: first the content is set, then the metadata.
pub open spec fn updated_payload(
    payload: Map<Seq<char>, Seq<char>>,
    content: Option<Seq<char>>,
    metadata: Option<Payload>,
) -> Map<Seq<char>, Seq<char>> {
    let with_content = match content {
        Some(c) => payload.insert("content"@, c),
        None => payload,
    };
    match metadata {
        Some(m) => with_content.union_prefer_right(m@),
        None => with_content,
    }
}

/// Whether records are others with one of them updated.
pub open spec fn is_update(
    before: Map<Seq<char>, RecordModel>,
    after: Map<Seq<char>, RecordModel>,
    id: Seq<char>,
    vector: Seq<u32>,
    content: Option<Seq<char>>,
    metadata: Option<Payload>,
) -> bool {
    &&& before.contains_key(id)
    &&& after == before.insert(
        id,
        RecordModel { id, vector, payload: updated_payload(before[id].payload, content, metadata) },
    )
}

/// Whether deleting a memory may turn one state into another, with an outcome.
pub open spec fn may_delete<V: VectorStore>(
    before: State<V>,
    after: State<V>,
    id: Seq<char>,
    r: Result<(), CoreError>,
) -> bool {
    &&& after.counter == before.counter
    &&& match r {
        Ok(()) => {
            &&& after.store.records() == before.store.records().remove(id)
            &&& after.log == log_after_delete(before.log, before.store.records(), id)
        },
        Err(err) => {
            &&& after.log == before.log
            &&& {
                ||| reports_refusal(before.store, StoreRequest::Get(id), err) && after.store
                    == before.store
                ||| refuses_change(
                    before.store,
                    StoreRequest::Delete(id),
                    err,
                    after.store.records(),
                )
            }
        },
    }
}

/// Whether a memory may have a vector after an update: that of the new content,
/// or the one it has.
pub open spec fn may_be_vector<E: EmbeddingProvider>(
    embedding: E,
    record: RecordModel,
    content: Option<Seq<char>>,
    vector: Seq<u32>,
) -> bool {
    match content {
        Some(c) => embedding.may_embed(c, Ok(vector)),
        None => vector == record.vector,
    }
}

/// Whether an update may be stored.
pub open spec fn may_be_updated<E: EmbeddingProvider>(
    embedding: E,
    before: Map<Seq<char>, RecordModel>,
    after: Map<Seq<char>, RecordModel>,
    id: Seq<char>,
    content: Option<Seq<char>>,
    metadata: Option<Payload>,
) -> bool {
    exists|vector: Seq<u32>| #[trigger]
        is_update(before, after, id, vector, content, metadata) && may_be_vector(
            embedding,
            before[id],
            content,
            vector,
        )
}

/// Whether an error reports that an update could not be stored, and these are
/// the records that the store was left with.
pub open spec fn reports_update<E: EmbeddingProvider, V: VectorStore>(
    embedding: E,
    store: V,
    id: Seq<char>,
    content: Option<Seq<char>>,
    metadata: Option<Payload>,
    err: CoreError,
    records: Map<Seq<char>, RecordModel>,
) -> bool {
    exists|vector: Seq<u32>| #[trigger]
        may_be_vector(embedding, store.records()[id], content, vector) && refuses_change(
            store,
            StoreRequest::Update(
                RecordModel {
                    id,
                    vector,
                    payload: updated_payload(store.records()[id].payload, content, metadata),
                },
            ),
            err,
            records,
        )
}

/// Whether updating a memory may turn one state into another, with an outcome.
/// An update that is refused before the store is asked to make it, or whose
/// content cannot be embedded, changes nothing.
pub open spec fn may_update<E: EmbeddingProvider, V: VectorStore>(
    embedding: E,
    before: State<V>,
    after: State<V>,
    id: Seq<char>,
    content: Option<Seq<char>>,
    metadata: Option<Payload>,
    r: Result<(), CoreError>,
) -> bool {
    let records = before.store.records();
    &&& after.log == before.log
    &&& after.counter == before.counter
    &&& match r {
        Ok(()) => !changes_scope(metadata) && may_be_updated(
            embedding,
            records,
            after.store.records(),
            id,
            content,
            metadata,
        ),
        Err(err) => if changes_scope(metadata) {
            after == before && err.is_validation(SCOPE_IS_FIXED@)
        } else {
            ||| after == before && reports_refusal(before.store, StoreRequest::Get(id), err)
            ||| after == before && !records.contains_key(id) && err.is_not_found(
                "record "@ + id + " not found"@,
            )
            ||| after == before && records.contains_key(id) && (content matches Some(c)
                && reports_embedding(embedding, c, err))
            ||| records.contains_key(id) && reports_update(
                embedding,
                before.store,
                id,
                content,
                metadata,
                err,
                after.store.records(),
            )
        },
    }
}

/// Whether an error reports that a text could not be embedded.
pub open spec fn reports_embedding<E: EmbeddingProvider>(
    embedding: E,
    input: Seq<char>,
    err: CoreError,
) -> bool {
    exists|cause: EmbeddingError| #[trigger]
        embedding.may_embed(input, Err(cause)) && err.hands_on(ProviderError::Embedding(cause))
}

/// Whether an error reports that a language model did not answer.
pub open spec fn reports_llm<L: LlmProvider>(
    model: L,
    messages: Seq<llm::MessageModel>,
    err: CoreError,
) -> bool {
    exists|cause: LlmError| #[trigger]
        model.may_answer(messages, Err(cause)) && err.hands_on(ProviderError::Llm(cause))
}

impl<L: LlmProvider, E: EmbeddingProvider, V: VectorStore> Memory<L, E, V> {
    /// Deletes a memory; one that is not there is no error. The history of a
    /// memory with a content says so.
    pub fn delete(&mut self, id: &str) -> (r: Result<(), CoreError>)
        ensures
            final(self).setup() == old(self).setup(),
            final(self).store().measure() == old(self).store().measure(),
            may_delete(old(self).state(), final(self).state(), id@, r),
    {
        let content: Option<String> = match self.vector_store.get(id) {
            Ok(Some(record)) => match record.payload.get("content") {
                Some(content) => Some(content.clone()),
                None => None,
            },
            Ok(None) => None,
            Err(err) => {
                let report = CoreError::from(err);
                proof {
                    assert(report.reports_store(err));
                }
                return Err(report);
            },
        };
        match self.vector_store.delete(id) {
            Ok(()) => {},
            Err(err) => {
                let report = CoreError::from(err);
                proof {
                    assert(report.reports_store(err));
                }
                return Err(report);
            },
        }
        match content {
            Some(content) => {
                self.history.record(id, HistoryEvent::Deleted, content.as_str());
            },
            None => {},
        }
        Ok(())
    }

    /// Changes the content or the metadata of a memory, but not whom it belongs
    /// to.
    pub fn update(&mut self, id: &str, content: Option<&str>, metadata: Option<Payload>) -> (r: Result<
        (),
        CoreError,
    >)
        ensures
            final(self).setup() == old(self).setup(),
            final(self).store().measure() == old(self).store().measure(),
            may_update(
                old(self).setup().embedding,
                old(self).state(),
                final(self).state(),
                id@,
                text::lent(content),
                metadata,
                r,
            ),
    {
        match &metadata {
            Some(m) => {
                if has_scope_id(m) {
                    return Err(
                        CoreError::Validation(SCOPE_IS_FIXED.to_owned()),
                    );
                }
            },
            None => {},
        }
        let mut record = match self.vector_store.get(id) {
            Ok(Some(record)) => record,
            Ok(None) => {
                return Err(CoreError::NotFound(text::concat3("record ", id, " not found")));
            },
            Err(err) => {
                let report = CoreError::from(err);
                proof {
                    assert(report.reports_store(err));
                }
                return Err(report);
            },
        };
        let ghost before = record@;
        match content {
            Some(content) => {
                match self.setup.embedding.embed(content) {
                    Ok(vector) => {
                        record.vector = vector;
                    },
                    Err(err) => {
                        let report = CoreError::from(err);
                        proof {
                            assert(self.setup.embedding.may_embed(content@, Err(err)));
                        }
                        return Err(report);
                    },
                }
                record.payload.insert("content".to_owned(), content.to_owned());
            },
            None => {},
        }
        match &metadata {
            Some(m) => {
                record.payload.overlay(m);
            },
            None => {},
        }
        let ghost wanted = record@;
        let ghost old_records = self.vector_store.records();
        match self.vector_store.update(record) {
            Ok(()) => {
                proof {
                    let vector = wanted.vector;
                    assert(wanted =~= RecordModel {
                        id: id@,
                        vector,
                        payload: updated_payload(before.payload, text::lent(content), metadata),
                    });
                    assert(may_be_vector(
                        old(self).setup().embedding,
                        old(self).store().records()[id@],
                        text::lent(content),
                        vector,
                    ));
                    assert(is_update(
                        old(self).store().records(),
                        self.store().records(),
                        id@,
                        vector,
                        text::lent(content),
                        metadata,
                    ));
                }
                Ok(())
            },
            Err(err) => {
                let report = CoreError::from(err);
                proof {
                    assert(report.reports_store(err));
                    assert(old(self).store().may_refuse(StoreRequest::Update(wanted), err));
                    assert(refuses_change(
                        old(self).store(),
                        StoreRequest::Update(wanted),
                        report,
                        self.store().records(),
                    ));
                    assert(wanted =~= RecordModel {
                        id: id@,
                        vector: wanted.vector,
                        payload: updated_payload(before.payload, text::lent(content), metadata),
                    });
                    assert(may_be_vector(
                        old(self).setup().embedding,
                        old(self).store().records()[id@],
                        text::lent(content),
                        wanted.vector,
                    ));
                }
                Err(report)
            },
        }
    }

    /// A page of the history of a memory.
    pub fn history(&self, id: &str, offset: usize, limit: usize) -> (r: Result<
        Vec<HistoryEntry>,
        CoreError,
    >)
        ensures
            hands_out(self.log(), id@, offset, limit, r),
    {
        Ok(self.history.entries(id, offset, limit))
    }

    /// The histories of all memories.
    pub fn history_snapshot(&self) -> (r: History)
        ensures
            r@ == self.log(),
    {
        self.history.clone()
    }

    /// Puts histories in the place of those that are there.
    pub fn load_history_snapshot(&mut self, snapshot: History)
        ensures
            final(self).log() == snapshot@,
            final(self).setup() == old(self).setup(),
            final(self).store() == old(self).store(),
            final(self).counter() == old(self).counter(),
    {
        self.history = snapshot;
    }

    /// Whether every provider answers: the language model first, then the
    /// embedding, then the store.
    pub fn health_check(&self) -> (r: Result<(), CoreError>)
        ensures
            may_be_healthy(self.setup(), self.store(), r),
    {
        let mut question: Vec<Message> = Vec::new();
        question.push(Message::new(Role::User, "health check"));
        proof {
            assert(llm::message_models(question@) =~= health_question());
        }
        match self.setup.llm.complete(question.as_slice()) {
            Ok(_) => {},
            Err(err) => {
                let report = CoreError::from(err);
                proof {
                    assert(self.setup.llm.may_answer(health_question(), Err(err)));
                }
                return Err(report);
            },
        }
        match self.setup.embedding.embed("health check") {
            Ok(vector) => {
                proof {
                    assert(self.setup.embedding.may_embed("health check"@, Ok(vector@)));
                }
            },
            Err(err) => {
                let report = CoreError::from(err);
                proof {
                    assert(self.setup.embedding.may_embed("health check"@, Err(err)));
                }
                return Err(report);
            },
        }
        match self.vector_store.list(0, 0) {
            Ok(_) => Ok(()),
            Err(err) => {
                let report = CoreError::from(err);
                proof {
                    assert(report.reports_store(err));
                }
                Err(report)
            },
        }
    }
}

/// Whether an outcome is a page of the history of a memory.
pub open spec fn hands_out(
    log: Map<Seq<char>, Seq<EntryModel>>,
    id: Seq<char>,
    offset: usize,
    limit: usize,
    r: Result<Vec<HistoryEntry>, CoreError>,
) -> bool {
    r matches Ok(entries) && rank::views(entries@) == rank::page(
        history::log_at(log, id),
        offset as nat,
        limit as nat,
    )
}

/// Whether asking every provider may have an outcome. The first that does not
/// answer is reported; a store that answers lists its records.
pub open spec fn may_be_healthy<L: LlmProvider, E: EmbeddingProvider, V: VectorStore>(
    setup: Setup<L, E>,
    store: V,
    r: Result<(), CoreError>,
) -> bool {
    match r {
        Ok(()) => {
            &&& model_answers(setup.llm)
            &&& embedding_answers(setup.embedding)
            &&& vector_store::orders_records(store)
        },
        Err(err) => {
            ||| reports_llm(setup.llm, health_question(), err)
            ||| model_answers(setup.llm) && reports_embedding(
                setup.embedding,
                "health check"@,
                err,
            )
            ||| model_answers(setup.llm) && embedding_answers(setup.embedding) && reports_refusal(
                store,
                StoreRequest::List,
                err,
            )
        },
    }
}

/// Whether a language model may answer the question that tells whether it does.
pub open spec fn model_answers<L: LlmProvider>(model: L) -> bool {
    exists|answer: Seq<char>| #[trigger] model.may_answer(health_question(), Ok(answer))
}

/// Whether an embedding may answer the text that tells whether it does.
pub open spec fn embedding_answers<E: EmbeddingProvider>(embedding: E) -> bool {
    exists|vector: Seq<u32>| #[trigger] embedding.may_embed("health check"@, Ok(vector))
}

/// The question that tells whether a language model answers.
pub open spec fn health_question() -> Seq<llm::MessageModel> {
    seq![llm::plain(Role::User, "health check"@)]
}

/// A memory that is deleted cannot be read; the others can, as before.
pub proof fn law_deleted_memory_is_gone(
    records: Map<Seq<char>, RecordModel>,
    id: Seq<char>,
    other: Seq<char>,
)
    ensures
        !records.remove(id).contains_key(id),
        other != id ==> records.remove(id).contains_key(other) == records.contains_key(other),
        other != id && records.contains_key(other) ==> records.remove(id)[other] == records[other],
{
}

/// The history of a memory with a content ends in its deletion, after what was
/// there; the history of every other memory stays.
pub proof fn law_deletion_ends_a_history(
    log: Map<Seq<char>, Seq<EntryModel>>,
    records: Map<Seq<char>, RecordModel>,
    id: Seq<char>,
    other: Seq<char>,
)
    requires
        content_of(records, id) is Some,
    ensures
        history::log_at(log_after_delete(log, records, id), id) == history::log_at(log, id).push(
            EntryModel { event: HistoryEvent::Deleted, content: content_of(records, id)->0 },
        ),
        other != id ==> history::log_at(log_after_delete(log, records, id), other)
            == history::log_at(log, other),
{
}

/// An update changes no one to whom a memory belongs, and nothing but the
/// content and the fields of the metadata.
pub proof fn law_update_keeps_the_rest(
    payload: Map<Seq<char>, Seq<char>>,
    content: Option<Seq<char>>,
    metadata: Option<Payload>,
    key: Seq<char>,
)
    requires
        !changes_scope(metadata),
    ensures
        is_scope_key(key) ==> same_entry(payload, updated_payload(payload, content, metadata), key),
        (content is None || key != "content"@) && (metadata matches Some(m) ==> !m@.contains_key(
            key,
        )) ==> same_entry(payload, updated_payload(payload, content, metadata), key),
{
    reveal_strlit("content");
    reveal_strlit("user_id");
    reveal_strlit("agent_id");
    reveal_strlit("run_id");
    assert("content"@[0] == 'c');
    assert("user_id"@[0] == 'u');
    assert("agent_id"@[0] == 'a');
    assert("run_id"@[0] == 'r');
}

/// Whether two payloads say the same under a key.
pub open spec fn same_entry(
    one: Map<Seq<char>, Seq<char>>,
    other: Map<Seq<char>, Seq<char>>,
    key: Seq<char>,
) -> bool {
    &&& one.contains_key(key) == other.contains_key(key)
    &&& one.contains_key(key) ==> one[key] == other[key]
}

} // verus!
