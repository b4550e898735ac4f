//! What the operations on memories do.

use super::adding::State;
use super::listing;
use super::listing::{EntitySummary, SummaryModel};
use super::{MemoryConfig, Setup, Stamp};
use crate::calendar;
use crate::embedding::{EmbeddingError, EmbeddingProvider};
use crate::error::{CoreError, ProviderError};
use crate::filter;
use crate::filter::ExprModel;
use crate::history;
use crate::history::{EntryModel, HistoryEntry, HistoryEvent};
use crate::llm::{LlmError, LlmProvider, MessageModel, Role};
use crate::memory;
use crate::number::Reading;
use crate::payload;
use crate::payload::Payload;
use crate::rank;
use crate::rank::Ranked;
use crate::text;
use crate::vector_store;
use crate::vector_store::{
    InMemoryVectorStore, RecordModel, StoreRequest, VectorRecord, VectorStore, VectorStoreError,
};
use vstd::prelude::*;

verus! {

/// Whether a payload is that of a memory and not of an entity.
pub open spec fn is_memory(payload: Map<Seq<char>, Seq<char>>) -> bool {
    !(payload.contains_key("__memoria_record_kind"@) && payload["__memoria_record_kind"@]
        == "entity"@)
}

/// A memory is shown unless something speaks against it: that it is the record of
/// an entity, that an entry of the scope is not its own, that its date of
/// expiration came before the day and this matters, or that it fails the filter.
pub proof fn law_shown<N: Fn(&str) -> Reading>(
    read: N,
    payload: Map<Seq<char>, Seq<char>>,
    scope: Option<Map<Seq<char>, Seq<char>>>,
    show_expired: bool,
    today: Seq<char>,
    filter: Option<ExprModel>,
    key: Seq<char>,
)
    ensures
        !is_memory(payload) ==> !memory::visible(read, payload, scope, show_expired, today, filter),
        scope is Some && scope->0.contains_key(key) && !(payload.contains_key(key) && payload[key]
            == scope->0[key]) ==> !memory::visible(
            read,
            payload,
            scope,
            show_expired,
            today,
            filter,
        ),
        !show_expired && payload.contains_key("expiration_date"@) && text::precedes(
            payload["expiration_date"@],
            today,
        ) ==> !memory::visible(read, payload, scope, show_expired, today, filter),
        filter is Some && !filter::passes(read, filter->0, payload) ==> !memory::visible(
            read,
            payload,
            scope,
            show_expired,
            today,
            filter,
        ),
        ({
            &&& is_memory(payload)
            &&& scope is Some ==> forall|k: Seq<char>| #[trigger]
                scope->0.contains_key(k) ==> payload.contains_key(k) && payload[k] == scope->0[k]
            &&& show_expired || !payload.contains_key("expiration_date"@) || !text::precedes(
                payload["expiration_date"@],
                today,
            )
            &&& filter is Some ==> filter::passes(read, filter->0, payload)
        }) ==> memory::visible(read, payload, scope, show_expired, today, filter),
{
}

/// A scope names someone exactly where it has one of the three keys.
pub proof fn law_scopes(scope: Map<Seq<char>, Seq<char>>)
    ensures
        memory::names_someone(scope) <==> exists|key: Seq<char>| #[trigger]
            scope.contains_key(key) && (key == "user_id"@ || key == "agent_id"@ || key == "run_id"@),
{
    if memory::names_someone(scope) {
        if scope.contains_key("user_id"@) {
        } else if scope.contains_key("agent_id"@) {
        }
    }
}

/// An update that succeeds leaves every key of the metadata with the metadata's
/// value, and the content that was given unless the metadata has one; all other
/// entries stay. The vector is that of the content that was given, or stays. No
/// other memory changes, and no history does.
pub proof fn law_update<E: EmbeddingProvider, V: VectorStore>(
    embedding: E,
    before: State<V>,
    after: State<V>,
    id: Seq<char>,
    content: Option<Seq<char>>,
    metadata: Option<Payload>,
    key: Seq<char>,
    other: Seq<char>,
)
    requires
        memory::may_update(embedding, before, after, id, content, metadata, Ok(())),
    ensures
        ({
            let was = before.store.records()[id];
            let is = after.store.records()[id];
            let given = metadata is Some && metadata->0@.contains_key(key);
            &&& before.store.records().contains_key(id)
            &&& after.store.records().contains_key(id)
            &&& is.id == id
            &&& given ==> is.payload.contains_key(key) && is.payload[key] == metadata->0@[key]
            &&& !given && content is Some && key == "content"@ ==> is.payload.contains_key(key)
                && is.payload[key] == content->0
            &&& !given && (content is None || key != "content"@) ==> {
                &&& is.payload.contains_key(key) == was.payload.contains_key(key)
                &&& was.payload.contains_key(key) ==> is.payload[key] == was.payload[key]
            }
            &&& content is Some ==> embedding.may_embed(content->0, Ok(is.vector))
            &&& content is None ==> is.vector == was.vector
        }),
        key == "user_id"@ || key == "agent_id"@ || key == "run_id"@ ==> !(metadata is Some
            && metadata->0@.contains_key(key)),
        other != id ==> {
            &&& after.store.records().contains_key(other) == before.store.records().contains_key(
                other,
            )
            &&& before.store.records().contains_key(other) ==> after.store.records()[other]
                == before.store.records()[other]
        },
        after.log == before.log,
        after.counter == before.counter,
{
    let records = before.store.records();
    let vector = choose|vector: Seq<u32>| #[trigger]
        memory::is_update(records, after.store.records(), id, vector, content, metadata)
            && memory::may_be_vector(embedding, records[id], content, vector);
    assert(memory::is_update(records, after.store.records(), id, vector, content, metadata));
}

/// An update that would change whom a memory belongs to is refused as such, and
/// changes nothing. On a store in memory no refused update changes a record, and
/// one is refused for nothing else but that the memory is not there or that its
/// content cannot be embedded.
pub proof fn law_refused_update<E: EmbeddingProvider, D: Fn(&[u32], &[u32]) -> i64>(
    embedding: E,
    before: State<InMemoryVectorStore<D>>,
    after: State<InMemoryVectorStore<D>>,
    id: Seq<char>,
    content: Option<Seq<char>>,
    metadata: Option<Payload>,
    r: Result<(), CoreError>,
)
    requires
        memory::may_update(embedding, before, after, id, content, metadata, r),
        metadata is Some && (metadata->0@.contains_key("user_id"@) || metadata->0@.contains_key(
            "agent_id"@,
        ) || metadata->0@.contains_key("run_id"@)) || !before.store.records().contains_key(id)
            || r is Err,
    ensures
        after.store.records() == before.store.records(),
        after.log == before.log,
        r is Err,
        metadata is Some && (metadata->0@.contains_key("user_id"@) || metadata->0@.contains_key(
            "agent_id"@,
        ) || metadata->0@.contains_key("run_id"@)) ==> after == before && r->Err_0 is Validation
            && r->Err_0->Validation_0@
            == "metadata update must not change scope fields (user_id, agent_id, run_id)"@,
        !(r->Err_0 is Validation) ==> !before.store.records().contains_key(id)
            || content is Some && memory::reports_embedding(embedding, content->0, r->Err_0),
        !(r->Err_0 is Validation) && !before.store.records().contains_key(id)
            ==> r->Err_0 is NotFound && r->Err_0->NotFound_0@ == "record "@ + id + " not found"@,
{
    if r is Ok {
        law_update(embedding, before, after, id, content, metadata, "user_id"@, id);
        law_update(embedding, before, after, id, content, metadata, "agent_id"@, id);
        law_update(embedding, before, after, id, content, metadata, "run_id"@, id);
    } else if !memory::changes_scope(metadata) {
        let err = r->Err_0;
        if memory::reports_refusal(before.store, StoreRequest::Get(id), err) {
            let cause = choose|cause: VectorStoreError| #[trigger]
                before.store.may_refuse(StoreRequest::Get(id), cause) && err.reports_store(cause);
            assert(before.store.may_refuse(StoreRequest::Get(id), cause));
        }
        let records = before.store.records();
        if records.contains_key(id) && memory::reports_update(
            embedding,
            before.store,
            id,
            content,
            metadata,
            err,
            after.store.records(),
        ) {
            let vector = choose|vector: Seq<u32>| #[trigger]
                memory::may_be_vector(embedding, records[id], content, vector)
                    && memory::refuses_change(
                    before.store,
                    StoreRequest::Update(
                        RecordModel {
                            id,
                            vector,
                            payload: memory::updated_payload(records[id].payload, content, metadata),
                        },
                    ),
                    err,
                    after.store.records(),
                );
            let request = StoreRequest::Update(
                RecordModel {
                    id,
                    vector,
                    payload: memory::updated_payload(records[id].payload, content, metadata),
                },
            );
            let cause = choose|cause: VectorStoreError|
                {
                    &&& #[trigger] before.store.may_refuse(request, cause)
                    &&& before.store.may_leave(request, cause, after.store.records())
                    &&& err.reports_store(cause)
                };
            assert(before.store.may_refuse(request, cause));
        }
    }
}

/// A memory that is deleted is gone, and no other is. If it had a content, its
/// history ends in the deletion of that content; nothing else is recorded.
pub proof fn law_delete<V: VectorStore>(
    before: State<V>,
    after: State<V>,
    id: Seq<char>,
    other: Seq<char>,
)
    requires
        memory::may_delete(before, after, id, Ok(())),
    ensures
        !after.store.records().contains_key(id),
        other != id ==> {
            &&& after.store.records().contains_key(other) == before.store.records().contains_key(
                other,
            )
            &&& before.store.records().contains_key(other) ==> after.store.records()[other]
                == before.store.records()[other]
            &&& after.log.contains_key(other) == before.log.contains_key(other)
            &&& before.log.contains_key(other) ==> after.log[other] == before.log[other]
        },
        before.store.records().contains_key(id)
            && before.store.records()[id].payload.contains_key("content"@) ==> {
            let deleted = EntryModel {
                event: HistoryEvent::Deleted,
                content: before.store.records()[id].payload["content"@],
            };
            &&& after.log.contains_key(id)
            &&& before.log.contains_key(id) ==> after.log[id] == before.log[id].push(deleted)
            &&& !before.log.contains_key(id) ==> after.log[id] == seq![deleted]
        },
        !(before.store.records().contains_key(id)
            && before.store.records()[id].payload.contains_key("content"@)) ==> after.log
            == before.log,
        after.counter == before.counter,
{
    assert(Seq::<EntryModel>::empty().push(
        EntryModel {
            event: HistoryEvent::Deleted,
            content: before.store.records()[id].payload["content"@],
        },
    ) =~= seq![
        EntryModel {
            event: HistoryEvent::Deleted,
            content: before.store.records()[id].payload["content"@],
        },
    ]);
}

/// On a store in memory a deletion always succeeds.
pub proof fn law_deletion_succeeds<D: Fn(&[u32], &[u32]) -> i64>(
    before: State<InMemoryVectorStore<D>>,
    after: State<InMemoryVectorStore<D>>,
    id: Seq<char>,
    r: Result<(), CoreError>,
)
    requires
        memory::may_delete(before, after, id, r),
    ensures
        r is Ok,
{
    if r is Err {
        let err = r->Err_0;
        if memory::reports_refusal(before.store, StoreRequest::Get(id), err) {
            let cause = choose|cause: VectorStoreError| #[trigger]
                before.store.may_refuse(StoreRequest::Get(id), cause) && err.reports_store(cause);
            assert(before.store.may_refuse(StoreRequest::Get(id), cause));
        } else {
            let cause = choose|cause: VectorStoreError|
                {
                    &&& #[trigger] before.store.may_refuse(StoreRequest::Delete(id), cause)
                    &&& before.store.may_leave(
                        StoreRequest::Delete(id),
                        cause,
                        after.store.records(),
                    )
                    &&& err.reports_store(cause)
                };
            assert(before.store.may_refuse(StoreRequest::Delete(id), cause));
        }
    }
}

/// What is read is what is stored under the id, and nothing where nothing is.
pub proof fn law_get<D: Fn(&[u32], &[u32]) -> i64>(
    store: InMemoryVectorStore<D>,
    id: Seq<char>,
    r: Result<Option<VectorRecord>, CoreError>,
)
    requires
        memory::may_get(store, id, r),
    ensures
        r is Ok,
        r->Ok_0 is Some <==> store.records().contains_key(id),
        r->Ok_0 is Some ==> r->Ok_0->0@ == store.records()[id],
{
    if r is Err {
        let cause = choose|cause: VectorStoreError| #[trigger]
            store.may_refuse(StoreRequest::Get(id), cause) && r->Err_0.reports_store(cause);
        assert(store.may_refuse(StoreRequest::Get(id), cause));
    }
}

/// A page of a history has the entries from the offset on, as many as the limit
/// allows, in the order in which they were recorded.
pub proof fn law_history(
    log: Map<Seq<char>, Seq<EntryModel>>,
    id: Seq<char>,
    offset: usize,
    limit: usize,
    r: Result<Vec<HistoryEntry>, CoreError>,
    i: int,
)
    requires
        memory::hands_out(log, id, offset, limit, r),
    ensures
        r is Ok,
        !log.contains_key(id) ==> r->Ok_0@.len() == 0,
        log.contains_key(id) ==> r->Ok_0@.len() <= limit && r->Ok_0@.len() == if offset
            >= log[id].len() {
            0
        } else if log[id].len() - offset <= limit {
            log[id].len() - offset
        } else {
            limit as int
        },
        0 <= i < r->Ok_0@.len() ==> r->Ok_0@[i]@ == log[id][offset + i],
{
    let entries = r->Ok_0@;
    assert(rank::views(entries).len() == entries.len());
    if 0 <= i < entries.len() {
        assert(rank::views(entries)[i] == entries[i]@);
    }
}

/// The providers of a memory are healthy where the language model answers a short
/// message of the user, the embedding embeds the same words, and the store lists
/// its records. The first of them that fails is reported.
pub proof fn law_health<L: LlmProvider, E: EmbeddingProvider, V: VectorStore>(
    setup: Setup<L, E>,
    store: V,
    r: Result<(), CoreError>,
)
    requires
        memory::may_be_healthy(setup, store, r),
    ensures
        memory::health_question() == seq![
            MessageModel { role: Role::User, content: "health check"@, images: Seq::empty() },
        ],
        r is Ok ==> {
            &&& exists|answer: Seq<char>| #[trigger]
                setup.llm.may_answer(memory::health_question(), Ok(answer))
            &&& exists|vector: Seq<u32>| #[trigger]
                setup.embedding.may_embed("health check"@, Ok(vector))
            &&& forall|id: Seq<char>|
                store.order().contains(id) <==> #[trigger] store.records().contains_key(id)
        },
        r is Err ==> {
            ||| memory::reports_llm(setup.llm, memory::health_question(), r->Err_0)
            ||| memory::reports_embedding(setup.embedding, "health check"@, r->Err_0) && exists|
                answer: Seq<char>,
            | #[trigger] setup.llm.may_answer(memory::health_question(), Ok(answer))
            ||| memory::reports_refusal(store, StoreRequest::List, r->Err_0) && (exists|
                answer: Seq<char>,
            | #[trigger] setup.llm.may_answer(memory::health_question(), Ok(answer))) && exists|
                vector: Seq<u32>,
            | #[trigger] setup.embedding.may_embed("health check"@, Ok(vector))
        },
{
}

/// What an error reports of a provider: it carries an error that the provider may
/// have given for what was asked, and says what that says.
pub proof fn law_reports<L: LlmProvider, E: EmbeddingProvider>(
    model: L,
    embedding: E,
    messages: Seq<MessageModel>,
    input: Seq<char>,
    err: CoreError,
)
    ensures
        memory::reports_llm(model, messages, err) ==> err is Provider && err->source is Llm
            && model.may_answer(messages, Err(err->source->Llm_0)) && err->message@
            == err->source->Llm_0.shown(),
        memory::reports_embedding(embedding, input, err) ==> err is Provider && err->source
            is Embedding && embedding.may_embed(input, Err(err->source->Embedding_0))
            && err->message@ == err->source->Embedding_0.shown(),
{
    if memory::reports_llm(model, messages, err) {
        let cause = choose|cause: LlmError| #[trigger]
            model.may_answer(messages, Err(cause)) && err.hands_on(ProviderError::Llm(cause));
        assert(model.may_answer(messages, Err(cause)));
    }
    if memory::reports_embedding(embedding, input, err) {
        let cause = choose|cause: EmbeddingError| #[trigger]
            embedding.may_embed(input, Err(cause)) && err.hands_on(
                ProviderError::Embedding(cause),
            );
        assert(embedding.may_embed(input, Err(cause)));
    }
}

/// A configuration has a problem where one of its three parts has one, and the
/// first of these says what it is: the language model's, the embedding's, or the
/// store's.
pub proof fn law_config(config: MemoryConfig)
    ensures
        config.llm.problem() is Some ==> config.problem() == config.llm.problem(),
        config.llm.problem() is None && config.embedding.problem() is Some ==> config.problem()
            == config.embedding.problem(),
        config.llm.problem() is None && config.embedding.problem() is None ==> config.problem()
            == config.vector_store.problem(),
{
}

/// The ids of the records that have every entry of a scope and pass a filter.
pub open spec fn in_scope<N: Fn(&str) -> Reading>(
    read: N,
    records: Map<Seq<char>, RecordModel>,
    scope: Map<Seq<char>, Seq<char>>,
    filter: Option<ExprModel>,
) -> Set<Seq<char>> {
    records.dom().filter(
        |id: Seq<char>|
            {
                &&& forall|key: Seq<char>| #[trigger]
                    scope.contains_key(key) ==> records[id].payload.contains_key(key)
                        && records[id].payload[key] == scope[key]
                &&& filter is Some ==> filter::passes(read, filter->0, records[id].payload)
            },
    )
}

proof fn lemma_deleted_logs(
    log: Map<Seq<char>, Seq<EntryModel>>,
    records: Map<Seq<char>, RecordModel>,
    ids: Seq<Seq<char>>,
    id: Seq<char>,
)
    requires
        ids.no_duplicates(),
    ensures
        history::log_at(listing::log_after_deletes(log, records, ids), id) == if ids.contains(id)
            && records.contains_key(id) && records[id].payload.contains_key("content"@) {
            history::log_at(log, id).push(
                EntryModel {
                    event: HistoryEvent::Deleted,
                    content: records[id].payload["content"@],
                },
            )
        } else {
            history::log_at(log, id)
        },
    decreases ids.len(),
{
    if ids.len() > 0 {
        let rest = ids.drop_last();
        lemma_deleted_logs(log, records, rest, id);
        assert(ids[ids.len() - 1] == ids.last());
        if rest.contains(id) {
            let k = choose|k: int| 0 <= k < rest.len() && rest[k] == id;
            assert(ids[k] == id);
        }
        if ids.contains(id) && ids.last() != id {
            let k = choose|k: int| 0 <= k < ids.len() && ids[k] == id;
            assert(rest[k] == id);
        }
    }
}

/// Deleting the records in a scope deletes those that have every entry of the scope
/// and pass the filter, and no others, and says how many there were. The history
/// of each that had a content ends in its deletion; no other history changes. A
/// store with more records than a list can hold is left out.
pub proof fn law_reset<N: Fn(&str) -> Reading, V: VectorStore>(
    read: N,
    before: State<V>,
    after: State<V>,
    scope: Map<Seq<char>, Seq<char>>,
    filter: Option<ExprModel>,
    n: usize,
    id: Seq<char>,
)
    requires
        listing::may_reset(read, before, after, scope, filter, Ok(n)),
        before.store.order().len() <= usize::MAX,
    ensures
        ({
            let records = before.store.records();
            let gone = in_scope(read, records, scope, filter);
            &&& n == gone.len()
            &&& after.store.records().contains_key(id) <==> records.contains_key(id)
                && !gone.contains(id)
            &&& after.store.records().contains_key(id) ==> after.store.records()[id] == records[id]
            &&& gone.contains(id) && records[id].payload.contains_key("content"@)
                ==> history::log_at(after.log, id) == history::log_at(before.log, id).push(
                EntryModel {
                    event: HistoryEvent::Deleted,
                    content: records[id].payload["content"@],
                },
            )
            &&& !(gone.contains(id) && records[id].payload.contains_key("content"@))
                ==> history::log_at(after.log, id) == history::log_at(before.log, id)
        }),
        after.counter == before.counter,
{
    let records = before.store.records();
    let order = vector_store::all_ids(before.store);
    let keep = |x: Seq<char>| listing::is_doomed(read, records[x].payload, scope, filter);
    let ids = order.filter(keep);
    let gone = in_scope(read, records, scope, filter);
    vector_store::lemma_all_ids(before.store);
    rank::laws::lemma_filtered(order, keep);
    listing::lemma_without(records, ids, id);
    lemma_deleted_logs(before.log, records, ids, id);
    ids.unique_seq_to_set();
    assert forall|x: Seq<char>| #[trigger] ids.contains(x) <==> gone.contains(x) by {
        assert(order.contains(x) <==> records.contains_key(x));
        assert(ids.contains(x) <==> order.contains(x) && keep(x));
    }
    assert(ids.to_set() =~= gone) by {
        assert forall|x: Seq<char>| #[trigger] ids.to_set().contains(x) <==> gone.contains(x) by {
            assert(ids.to_set().contains(x) <==> ids.contains(x));
        }
    }
    assert(ids == listing::doomed(read, records, order, scope, filter));
}

/// The ids of the memories that have a value under a key.
pub open spec fn owned_by(
    records: Map<Seq<char>, RecordModel>,
    key: Seq<char>,
    value: Seq<char>,
) -> Set<Seq<char>> {
    records.dom().filter(
        |id: Seq<char>|
            is_memory(records[id].payload) && records[id].payload.contains_key(key)
                && records[id].payload[key] == value,
    )
}

/// Whether a key is one of the three that say whom a memory belongs to.
pub open spec fn is_owner_key(key: Seq<char>) -> bool {
    key == "user_id"@ || key == "agent_id"@ || key == "run_id"@
}

proof fn lemma_tally_parts(
    a: Seq<(Seq<char>, Seq<char>)>,
    b: Seq<(Seq<char>, Seq<char>)>,
    key: Seq<char>,
    value: Seq<char>,
)
    ensures
        listing::tally(a + b, key, value) == listing::tally(a, key, value) + listing::tally(
            b,
            key,
            value,
        ),
    decreases b.len(),
{
    if b.len() == 0 {
        assert(a + b =~= a);
    } else {
        lemma_tally_parts(a, b.drop_last(), key, value);
        assert((a + b).drop_last() =~= a + b.drop_last());
        assert((a + b).last() == b.last());
    }
}

proof fn lemma_tally_one(
    payload: Map<Seq<char>, Seq<char>>,
    field: Seq<char>,
    key: Seq<char>,
    value: Seq<char>,
)
    ensures
        listing::tally(listing::owner(payload, field), key, value) == if field == key
            && payload.contains_key(key) && payload[key] == value {
            1nat
        } else {
            0nat
        },
{
    let pairs = listing::owner(payload, field);
    if payload.contains_key(field) {
        assert(pairs.drop_last() =~= Seq::empty());
        assert(listing::tally(pairs.drop_last(), key, value) == 0);
        assert(pairs.last() == (field, payload[field]));
    } else {
        assert(pairs.len() == 0);
    }
}

proof fn lemma_tally_payload(
    payload: Map<Seq<char>, Seq<char>>,
    key: Seq<char>,
    value: Seq<char>,
)
    ensures
        listing::tally(listing::owners(payload), key, value) == if is_owner_key(key)
            && payload.contains_key(key) && payload[key] == value {
            1nat
        } else {
            0nat
        },
{
    reveal_strlit("user_id");
    reveal_strlit("agent_id");
    reveal_strlit("run_id");
    assert("user_id"@[0] == 'u');
    assert("agent_id"@[0] == 'a');
    assert("run_id"@[0] == 'r');
    let first = listing::owner(payload, "user_id"@);
    let second = listing::owner(payload, "agent_id"@);
    let third = listing::owner(payload, "run_id"@);
    lemma_tally_parts(first + second, third, key, value);
    lemma_tally_parts(first, second, key, value);
    lemma_tally_one(payload, "user_id"@, key, value);
    lemma_tally_one(payload, "agent_id"@, key, value);
    lemma_tally_one(payload, "run_id"@, key, value);
}

proof fn lemma_tally_all(
    records: Map<Seq<char>, RecordModel>,
    ids: Seq<Seq<char>>,
    key: Seq<char>,
    value: Seq<char>,
)
    requires
        forall|i: int| 0 <= i < ids.len() ==> records.contains_key(#[trigger] ids[i]),
    ensures
        !is_owner_key(key) ==> listing::tally(listing::all_owners(records, ids), key, value) == 0,
        is_owner_key(key) ==> listing::tally(listing::all_owners(records, ids), key, value)
            == ids.filter(
            |id: Seq<char>|
                records[id].payload.contains_key(key) && records[id].payload[key] == value,
        ).len(),
    decreases ids.len(),
{
    reveal(Seq::filter);
    if ids.len() > 0 {
        let rest = ids.drop_last();
        assert forall|i: int| 0 <= i < rest.len() implies records.contains_key(
            #[trigger] rest[i],
        ) by {
            assert(rest[i] == ids[i]);
        }
        lemma_tally_all(records, rest, key, value);
        assert(ids[ids.len() - 1] == ids.last());
        lemma_tally_parts(
            listing::all_owners(records, rest),
            listing::owners_at(records, ids.last()),
            key,
            value,
        );
        lemma_tally_payload(records[ids.last()].payload, key, value);
    }
}

proof fn lemma_owned<V: VectorStore>(
    store: V,
    unread: Set<Seq<char>>,
    key: Seq<char>,
    value: Seq<char>,
)
    requires
        vector_store::orders_records(store),
        store.order().len() <= usize::MAX,
        forall|id: Seq<char>| !#[trigger] unread.contains(id),
    ensures
        ({
            let pairs = listing::all_owners(store.records(), listing::memories_of(store, unread));
            &&& !is_owner_key(key) ==> listing::tally(pairs, key, value) == 0
            &&& is_owner_key(key) ==> listing::tally(pairs, key, value) == owned_by(
                store.records(),
                key,
                value,
            ).len()
        }),
        owned_by(store.records(), key, value).finite(),
{
    let records = store.records();
    let order = vector_store::all_ids(store);
    vector_store::lemma_all_ids(store);
    let keep = |id: Seq<char>| unread.contains(id) || !memory::is_entity(records[id].payload);
    let has = |id: Seq<char>|
        records[id].payload.contains_key(key) && records[id].payload[key] == value;
    let ids = order.filter(keep);
    let owned = ids.filter(has);
    rank::laws::lemma_filtered(order, keep);
    rank::laws::lemma_filtered(ids, has);
    assert forall|i: int| 0 <= i < ids.len() implies records.contains_key(#[trigger] ids[i]) by {
        assert(ids.contains(ids[i]));
    }
    lemma_tally_all(records, ids, key, value);
    owned.unique_seq_to_set();
    let wanted = owned_by(records, key, value);
    assert(owned.to_set() =~= wanted) by {
        assert forall|id: Seq<char>| #[trigger]
            owned.to_set().contains(id) <==> wanted.contains(id) by {
            assert(owned.to_set().contains(id) <==> owned.contains(id));
            assert(owned.contains(id) <==> ids.contains(id) && has(id));
            assert(ids.contains(id) <==> order.contains(id) && keep(id));
            assert(order.contains(id) <==> records.contains_key(id));
        }
    }
}

/// Counting whom the memories belong to gives one row for each value that some
/// memory has under one of the three keys, with the number of memories that have
/// it there, and no other rows; the rows are in the order of the keys and of the
/// values. The records of entities count for nothing. A store is left out with
/// more records than a list can hold, or with records that may fail to be read.
pub proof fn law_owners_are_counted<V: VectorStore>(
    store: V,
    table: Vec<EntitySummary>,
    key: Seq<char>,
    value: Seq<char>,
)
    requires
        listing::may_list_entities(store, Ok(table)),
        store.order().len() <= usize::MAX,
        forall|id: Seq<char>, err: VectorStoreError|
            !#[trigger] store.may_refuse(StoreRequest::Get(id), err),
    ensures
        (exists|i: int|
            0 <= i < table@.len() && (#[trigger] table@[i]).entity_type@ == key
                && table@[i].entity_id@ == value) <==> (key == "user_id"@ || key == "agent_id"@
            || key == "run_id"@) && exists|id: Seq<char>| #[trigger]
            store.records().contains_key(id) && is_memory(store.records()[id].payload)
                && store.records()[id].payload.contains_key(key)
                && store.records()[id].payload[key] == value,
        forall|i: int|
            0 <= i < table@.len() && (#[trigger] table@[i]).entity_type@ == key
                && table@[i].entity_id@ == value ==> table@[i].memory_count == owned_by(
                store.records(),
                key,
                value,
            ).len(),
        forall|i: int, j: int|
            0 <= i < j < table@.len() ==> {
                let a = #[trigger] table@[i];
                let b = #[trigger] table@[j];
                text::precedes(a.entity_type@, b.entity_type@) || a.entity_type@ == b.entity_type@
                    && text::precedes(a.entity_id@, b.entity_id@)
            },
{
    let records = store.records();
    let rows = rank::views(table@);
    let unread = choose|unread: Set<Seq<char>>|
        #[trigger] listing::unreadable(store, unread) && listing::summarizes(
            rows,
            records,
            listing::memories_of(store, unread),
        );
    assert forall|id: Seq<char>| !#[trigger] unread.contains(id) by {}
    let pairs = listing::all_owners(records, listing::memories_of(store, unread));
    lemma_owned(store, unread, key, value);
    assert forall|i: int| 0 <= i < table@.len() implies #[trigger] rows[i] == table@[i]@ by {}
    let wanted = owned_by(records, key, value);
    if exists|i: int|
        0 <= i < table@.len() && (#[trigger] table@[i]).entity_type@ == key && table@[i].entity_id@
            == value {
        let i = choose|i: int|
            0 <= i < table@.len() && (#[trigger] table@[i]).entity_type@ == key
                && table@[i].entity_id@ == value;
        assert(rows[i].memory_count == listing::tally(pairs, key, value));
        assert(wanted.len() > 0);
        let id = wanted.choose();
        assert(wanted.contains(id)) by {
            if forall|x: Seq<char>| !wanted.contains(x) {
                assert(wanted =~= Set::empty());
            }
        }
        assert(records.contains_key(id));
    }
    if is_owner_key(key) && exists|id: Seq<char>| #[trigger]
        records.contains_key(id) && is_memory(records[id].payload)
            && records[id].payload.contains_key(key) && records[id].payload[key] == value {
        let id = choose|id: Seq<char>| #[trigger]
            records.contains_key(id) && is_memory(records[id].payload)
                && records[id].payload.contains_key(key) && records[id].payload[key] == value;
        assert(wanted.contains(id));
        if wanted.len() == 0 {
            assert(wanted =~= Set::empty());
        }
        assert(listing::tally(pairs, key, value) > 0);
        let i = choose|i: int|
            0 <= i < rows.len() && (#[trigger] rows[i]).entity_type == key && rows[i].entity_id
                == value;
        assert(table@[i].entity_type@ == key);
    }
    assert forall|i: int|
        0 <= i < table@.len() && (#[trigger] table@[i]).entity_type@ == key && table@[i].entity_id@
            == value implies table@[i].memory_count == wanted.len() by {
        assert(rows[i].memory_count == listing::tally(pairs, key, value));
        assert(rows[i].memory_count > 0);
    }
    assert forall|i: int, j: int| 0 <= i < j < table@.len() implies {
        let a = #[trigger] table@[i];
        let b = #[trigger] table@[j];
        text::precedes(a.entity_type@, b.entity_type@) || a.entity_type@ == b.entity_type@
            && text::precedes(a.entity_id@, b.entity_id@)
    } by {
        let a = rows[i];
        let b = rows[j];
        assert(EntitySummary::may_precede(a, b));
        text::lemma_precedes_total(a.entity_id, b.entity_id);
    }
}

} // verus!
