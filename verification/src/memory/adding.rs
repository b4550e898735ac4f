//! Adding memories, and linking the entities that they name.

pub mod laws;

use super::searching;
use super::{
    has_scope_id, is_entity_record, next_entity_record_id, next_record_id, Memory, Setup, Stamp,
    ENTITY_RECORD_KIND_KEY, ENTITY_RECORD_KIND_VALUE, ENTITY_TEXT_KEY, ENTITY_TYPE_KEY,
    LINKED_MEMORY_IDS_KEY, SCOPE_REQUIRED,
};
use crate::embedding;
use crate::embedding::{EmbeddingError, EmbeddingProvider};
use crate::entity;
use crate::entity::EntityType;
use crate::error::{CoreError, ProviderError};
use crate::history;
use crate::history::{EntryModel, HistoryEvent};
use crate::llm;
use crate::llm::{LlmProvider, Message, MessageModel, Role};
use crate::payload;
use crate::payload::Payload;
use crate::rank;
use crate::text;
use crate::text::CharClass;
use crate::vector_store;
use crate::vector_store::{
    InMemoryVectorStore, RecordModel, ResultModel, SearchResult, StoreRequest, VectorRecord, VectorStore,
};
use vstd::prelude::*;

verus! {

/// How many records are looked at for a duplicate.
pub const DUPLICATE_CANDIDATES: usize = 100;

pub const PROCEDURE_WITHOUT_SUMMARY: &'static str = "the LLM returned no content for the procedural memory summary -- the model may have declined the request or returned an empty response";

/// What a memory keeps: its store, its histories, and the number that the next
/// id ends in.
pub struct State<V> {
    pub store: V,
    pub log: Map<Seq<char>, Seq<EntryModel>>,
    pub counter: u64,
}

/// The number after another; after the greatest one comes zero.
pub open spec fn next(counter: u64) -> u64 {
    if counter == u64::MAX {
        0
    } else {
        (counter + 1) as u64
    }
}

impl<L: LlmProvider, E: EmbeddingProvider, V: VectorStore> Memory<L, E, V> {
    /// What the memory keeps.
    pub open spec fn state(&self) -> State<V> {
        State { store: self.store(), log: self.log(), counter: self.counter() }
    }
}

/// Whether a state is another with one record put in, which the ids may then be
/// listed with.
pub open spec fn puts<V: VectorStore>(
    before: State<V>,
    after: State<V>,
    record: RecordModel,
) -> bool {
    &&& after.store.records() == before.store.records().insert(record.id, record)
    &&& before.store.may_order(record.id, after.store.order())
}

/// Whether a payload is that of the record of an entity in a scope.
pub open spec fn describes(
    payload: Map<Seq<char>, Seq<char>>,
    scope: Map<Seq<char>, Seq<char>>,
    kind: EntityType,
    name: Seq<char>,
) -> bool {
    &&& super::is_entity(payload)
    &&& payload::covers(payload, scope)
    &&& payload.contains_key(ENTITY_TYPE_KEY@) && payload[ENTITY_TYPE_KEY@] == kind.keyword()
    &&& payload.contains_key(ENTITY_TEXT_KEY@) && payload[ENTITY_TEXT_KEY@] == name
}

/// The first of some ids whose record is that of an entity in a scope.
pub open spec fn first_record(
    records: Map<Seq<char>, RecordModel>,
    ids: Seq<Seq<char>>,
    scope: Map<Seq<char>, Seq<char>>,
    kind: EntityType,
    name: Seq<char>,
) -> Option<Seq<char>>
    decreases ids.len(),
{
    if ids.len() == 0 {
        None
    } else if describes(records[ids[0]].payload, scope, kind, name) {
        Some(ids[0])
    } else {
        first_record(records, ids.skip(1), scope, kind, name)
    }
}

/// The payload of the record of an entity that is new in a scope.
pub open spec fn entity_payload(
    scope: Map<Seq<char>, Seq<char>>,
    kind: EntityType,
    name: Seq<char>,
    memory_id: Seq<char>,
) -> Map<Seq<char>, Seq<char>> {
    scope.insert(ENTITY_RECORD_KIND_KEY@, ENTITY_RECORD_KIND_VALUE@).insert(
        ENTITY_TYPE_KEY@,
        kind.keyword(),
    ).insert(ENTITY_TEXT_KEY@, name).insert(LINKED_MEMORY_IDS_KEY@, memory_id)
}

/// The record of an entity with one more link.
pub open spec fn with_link(
    id: Seq<char>,
    record: RecordModel,
    memory_id: Seq<char>,
) -> RecordModel {
    RecordModel {
        id,
        vector: record.vector,
        payload: record.payload.insert(
            LINKED_MEMORY_IDS_KEY@,
            text::joined(searching::links(record.payload).push(memory_id), ","@),
        ),
    }
}

/// Whether linking a memory to an entity may turn one state into another: the
/// entity's record gets a link that it lacks, and an entity without a record
/// gets one.
pub open spec fn may_link<E: EmbeddingProvider, V: VectorStore>(
    embedding: E,
    scope: Map<Seq<char>, Seq<char>>,
    stamp: Stamp,
    memory_id: Seq<char>,
    entity: (EntityType, Seq<char>),
    before: State<V>,
    after: State<V>,
) -> bool {
    let records = before.store.records();
    &&& vector_store::orders_records(before.store)
    &&& after.log == before.log
    &&& match first_record(
        records,
        vector_store::all_ids(before.store),
        scope,
        entity.0,
        entity.1,
    ) {
        Some(id) => {
            &&& records.contains_key(id)
            &&& after.counter == before.counter
            &&& if searching::links(records[id].payload).contains(memory_id) {
                after.store == before.store
            } else {
                puts(before, after, with_link(id, records[id], memory_id))
            }
        },
        None => {
            &&& after.counter == next(before.counter)
            &&& may_put_entity(embedding, scope, stamp, memory_id, entity, before, after)
        },
    }
}

/// Whether a state may be another with a new record of an entity.
pub open spec fn may_put_entity<E: EmbeddingProvider, V: VectorStore>(
    embedding: E,
    scope: Map<Seq<char>, Seq<char>>,
    stamp: Stamp,
    memory_id: Seq<char>,
    entity: (EntityType, Seq<char>),
    before: State<V>,
    after: State<V>,
) -> bool {
    exists|vector: Seq<u32>| #[trigger]
        embedding.may_embed(entity.1, Ok(vector)) && puts(
            before,
            after,
            RecordModel {
                id: super::entity_id(stamp, before.counter),
                vector,
                payload: entity_payload(scope, entity.0, entity.1, memory_id),
            },
        )
}

/// Whether linking a memory to some entities may go through these states.
pub open spec fn links_through<E: EmbeddingProvider, V: VectorStore>(
    embedding: E,
    scope: Map<Seq<char>, Seq<char>>,
    stamp: Stamp,
    memory_id: Seq<char>,
    entities: Seq<(EntityType, Seq<char>)>,
    states: Seq<State<V>>,
) -> bool {
    &&& states.len() == entities.len() + 1
    &&& forall|i: int|
        0 <= i < entities.len() ==> may_link(
            embedding,
            scope,
            stamp,
            memory_id,
            #[trigger] entities[i],
            states[i],
            states[i + 1],
        )
}

/// Whether linking a memory to some entities may turn one state into another.
pub open spec fn may_link_all<E: EmbeddingProvider, V: VectorStore>(
    embedding: E,
    scope: Map<Seq<char>, Seq<char>>,
    stamp: Stamp,
    memory_id: Seq<char>,
    entities: Seq<(EntityType, Seq<char>)>,
    before: State<V>,
    after: State<V>,
) -> bool {
    exists|states: Seq<State<V>>|
        {
            &&& #[trigger] links_through(embedding, scope, stamp, memory_id, entities, states)
            &&& states[0] == before
            &&& states.last() == after
        }
}

/// Whether looking through the records of a store may fail with an error.
pub open spec fn may_fail_to_look<V: VectorStore>(store: V, err: CoreError) -> bool {
    ||| super::reports_refusal(store, StoreRequest::List, err)
    ||| exists|id: Seq<char>|
        vector_store::all_ids(store).contains(id) && #[trigger] super::reports_refusal(
            store,
            StoreRequest::Get(id),
            err,
        )
}

/// Whether putting in the record of a new entity may fail with an error, and
/// leave a state.
pub open spec fn may_fail_to_put_entity<E: EmbeddingProvider, V: VectorStore>(
    embedding: E,
    scope: Map<Seq<char>, Seq<char>>,
    stamp: Stamp,
    memory_id: Seq<char>,
    entity: (EntityType, Seq<char>),
    before: State<V>,
    after: State<V>,
    err: CoreError,
) -> bool {
    after.counter == next(before.counter) && exists|vector: Seq<u32>| #[trigger]
        embedding.may_embed(entity.1, Ok(vector)) && super::refuses_change(
            before.store,
            StoreRequest::Insert(
                RecordModel {
                    id: super::entity_id(stamp, before.counter),
                    vector,
                    payload: entity_payload(scope, entity.0, entity.1, memory_id),
                },
            ),
            err,
            after.store.records(),
        )
}

/// Whether linking a memory to an entity may fail with an error, and leave a
/// state: the records cannot be looked through, the new link cannot be stored,
/// or the new entity cannot be embedded or stored.
pub open spec fn may_fail_at_entity<E: EmbeddingProvider, V: VectorStore>(
    embedding: E,
    scope: Map<Seq<char>, Seq<char>>,
    stamp: Stamp,
    memory_id: Seq<char>,
    entity: (EntityType, Seq<char>),
    before: State<V>,
    after: State<V>,
    err: CoreError,
) -> bool {
    let records = before.store.records();
    ||| after == before && may_fail_to_look(before.store, err)
    ||| after.log == before.log && vector_store::orders_records(before.store)
        && match first_record(
        records,
        vector_store::all_ids(before.store),
        scope,
        entity.0,
        entity.1,
    ) {
        Some(id) => {
            &&& !searching::links(records[id].payload).contains(memory_id)
            &&& after.counter == before.counter
            &&& super::refuses_change(
                before.store,
                StoreRequest::Update(with_link(id, records[id], memory_id)),
                err,
                after.store.records(),
            )
        },
        None => {
            ||| after == before && super::reports_embedding(embedding, entity.1, err)
            ||| may_fail_to_put_entity(
                embedding,
                scope,
                stamp,
                memory_id,
                entity,
                before,
                after,
                err,
            )
        },
    }
}

/// Whether linking a memory to some entities may fail with an error after some
/// of them were linked, and leave a state.
pub open spec fn may_fail_to_link<E: EmbeddingProvider, V: VectorStore>(
    embedding: E,
    scope: Map<Seq<char>, Seq<char>>,
    stamp: Stamp,
    memory_id: Seq<char>,
    entities: Seq<(EntityType, Seq<char>)>,
    before: State<V>,
    after: State<V>,
    err: CoreError,
) -> bool {
    exists|k: int, states: Seq<State<V>>|
        {
            &&& 0 <= k < entities.len()
            &&& #[trigger] links_through(
                embedding,
                scope,
                stamp,
                memory_id,
                entities.take(k),
                states,
            )
            &&& states[0] == before
            &&& may_fail_at_entity(
                embedding,
                scope,
                stamp,
                memory_id,
                entities[k],
                states.last(),
                after,
                err,
            )
        }
}

impl<L: LlmProvider, E: EmbeddingProvider, V: VectorStore> Memory<L, E, V> {
    /// The number that the next id ends in; the one after it is next.
    fn take_number(&mut self) -> (r: u64)
        ensures
            r == old(self).counter(),
            final(self).counter() == next(old(self).counter()),
            final(self).setup() == old(self).setup(),
            final(self).store() == old(self).store(),
            final(self).log() == old(self).log(),
    {
        let number = self.next_id;
        self.next_id = if number == u64::MAX {
            0
        } else {
            number + 1
        };
        number
    }

    /// The record of an entity in a scope.
    fn find_existing_entity_record(&self, scope: &Payload, kind: EntityType, name: &str) -> (r: Result<
        Option<VectorRecord>,
        CoreError,
    >)
        ensures
            match r {
                Ok(Some(record)) => {
                    &&& first_record(
                        self.store().records(),
                        vector_store::all_ids(self.store()),
                        scope@,
                        kind,
                        name@,
                    ) == Some(record.id@)
                    &&& self.store().records().contains_key(record.id@)
                    &&& record@ == self.store().records()[record.id@]
                },
                Ok(None) => first_record(
                    self.store().records(),
                    vector_store::all_ids(self.store()),
                    scope@,
                    kind,
                    name@,
                ) is None,
                Err(err) => may_fail_to_look(self.store(), err),
            },
            r is Ok ==> vector_store::orders_records(self.store()),
    {
        let ids = match self.vector_store.list(0, usize::MAX) {
            Ok(ids) => ids,
            Err(err) => {
                let report = CoreError::from(err);
                proof {
                    assert(report.reports_store(err));
                    assert(super::reports_refusal(self.vector_store, StoreRequest::List, report));
                }
                return Err(report);
            },
        };
        let ghost order = vector_store::all_ids(self.vector_store);
        let ghost records = self.vector_store.records();
        proof {
            vector_store::lemma_all_ids(self.vector_store);
            assert(order.skip(0) =~= order);
        }
        let mut i: usize = 0;
        while i < ids.len()
            invariant
                i <= ids.len(),
                text::texts(ids@) == order,
                order == vector_store::all_ids(self.vector_store),
                records == self.vector_store.records(),
                vector_store::orders_records(self.vector_store),
                vector_store::ids_of_records(order, records),
                first_record(records, order, scope@, kind, name@) == first_record(
                    records,
                    order.skip(i as int),
                    scope@,
                    kind,
                    name@,
                ),
            decreases ids.len() - i,
        {
            let ghost id = ids@[i as int]@;
            proof {
                assert(order[i as int] == id);
                assert(order.contains(id));
                assert(order.skip(i as int)[0] == id);
                assert(order.skip(i as int).skip(1) =~= order.skip(i + 1));
            }
            match self.vector_store.get(ids[i].as_str()) {
                Ok(Some(record)) => {
                    if is_entity_record(&record.payload) && record.payload.matches(scope)
                        && record.payload.has(ENTITY_TYPE_KEY, kind.as_str()) && record.payload.has(
                        ENTITY_TEXT_KEY,
                        name,
                    ) {
                        return Ok(Some(record));
                    }
                },
                Ok(None) => {},
                Err(err) => {
                    let report = CoreError::from(err);
                    proof {
                        assert(report.reports_store(err));
                        assert(super::reports_refusal(
                            self.vector_store,
                            StoreRequest::Get(id),
                            report,
                        ));
                    }
                    return Err(report);
                },
            }
            i = i + 1;
        }
        Ok(None)
    }

    /// Links a memory to an entity.
    fn link_entity(
        &mut self,
        scope: &Payload,
        memory_id: &str,
        kind: EntityType,
        name: &str,
        stamp: Stamp,
    ) -> (r: Result<(), CoreError>)
        ensures
            final(self).setup() == old(self).setup(),
            final(self).store().measure() == old(self).store().measure(),
            match r {
                Ok(()) => may_link(
                    old(self).setup().embedding,
                    scope@,
                    stamp,
                    memory_id@,
                    (kind, name@),
                    old(self).state(),
                    final(self).state(),
                ),
                Err(err) => may_fail_at_entity(
                    old(self).setup().embedding,
                    scope@,
                    stamp,
                    memory_id@,
                    (kind, name@),
                    old(self).state(),
                    final(self).state(),
                    err,
                ),
            },
    {
        let ghost before = self.state();
        match self.find_existing_entity_record(scope, kind, name) {
            Err(err) => Err(err),
            Ok(Some(record)) => {
                let mut linked: Vec<String> = Vec::new();
                proof {
                    assert(text::texts(linked@) =~= Seq::empty());
                }
                searching::push_links(&mut linked, &record.payload);
                proof {
                    assert(text::texts(linked@) =~= searching::links(record.payload@));
                }
                if text::is_among(memory_id, &linked) {
                    return Ok(());
                }
                let ghost links = text::texts(linked@);
                let ghost model = record@;
                linked.push(memory_id.to_owned());
                proof {
                    assert(text::texts(linked@) =~= links.push(memory_id@));
                }
                let mut record = record;
                record.payload.insert(LINKED_MEMORY_IDS_KEY.to_owned(), text::join(&linked, ","));
                let ghost wanted = record@;
                proof {
                    assert(wanted =~= with_link(model.id, model, memory_id@));
                }
                match self.vector_store.update(record) {
                    Ok(()) => Ok(()),
                    Err(err) => {
                        let report = CoreError::from(err);
                        proof {
                            assert(report.reports_store(err));
                            assert(before.store.may_refuse(StoreRequest::Update(wanted), err));
                            assert(super::refuses_change(
                                before.store,
                                StoreRequest::Update(wanted),
                                report,
                                self.store().records(),
                            ));
                        }
                        Err(report)
                    },
                }
            },
            Ok(None) => {
                let vector = match self.setup.embedding.embed(name) {
                    Ok(vector) => vector,
                    Err(err) => {
                        let report = CoreError::from(err);
                        proof {
                            assert(self.setup.embedding.may_embed(name@, Err(err)));
                        }
                        return Err(report);
                    },
                };
                let mut payload = scope.clone();
                payload.insert(
                    ENTITY_RECORD_KIND_KEY.to_owned(),
                    ENTITY_RECORD_KIND_VALUE.to_owned(),
                );
                payload.insert(ENTITY_TYPE_KEY.to_owned(), kind.as_str().to_owned());
                payload.insert(ENTITY_TEXT_KEY.to_owned(), name.to_owned());
                payload.insert(LINKED_MEMORY_IDS_KEY.to_owned(), memory_id.to_owned());
                let number = self.take_number();
                let id = next_entity_record_id(stamp, number);
                let ghost known = vector@;
                let record = VectorRecord::new(id.as_str(), vector, payload);
                let ghost wanted = record@;
                proof {
                    assert(wanted.payload =~= entity_payload(scope@, kind, name@, memory_id@));
                }
                match self.vector_store.insert(record) {
                    Ok(()) => {
                        proof {
                            assert(before.store.records().insert(wanted.id, wanted)
                                == self.store().records());
                            assert(old(self).setup().embedding.may_embed(name@, Ok(known)));
                            assert(may_put_entity(
                                old(self).setup().embedding,
                                scope@,
                                stamp,
                                memory_id@,
                                (kind, name@),
                                before,
                                self.state(),
                            ));
                        }
                        Ok(())
                    },
                    Err(err) => {
                        let report = CoreError::from(err);
                        proof {
                            assert(report.reports_store(err));
                            assert(before.store.may_refuse(StoreRequest::Insert(wanted), err));
                            assert(super::refuses_change(
                                before.store,
                                StoreRequest::Insert(wanted),
                                report,
                                self.store().records(),
                            ));
                            assert(old(self).setup().embedding.may_embed(name@, Ok(known)));
                            assert(wanted =~= RecordModel {
                                id: super::entity_id(stamp, before.counter),
                                vector: known,
                                payload: entity_payload(scope@, kind, name@, memory_id@),
                            });
                            assert(may_fail_to_put_entity(
                                old(self).setup().embedding,
                                scope@,
                                stamp,
                                memory_id@,
                                (kind, name@),
                                before,
                                self.state(),
                                report,
                            ));
                        }
                        Err(report)
                    },
                }
            },
        }
    }

    /// Links a memory to the entities that its content names.
    fn link_entities(&mut self, scope: &Payload, memory_id: &str, content: &str, stamp: Stamp) -> (r:
        Result<(), CoreError>)
        ensures
            final(self).setup() == old(self).setup(),
            final(self).store().measure() == old(self).store().measure(),
            match r {
                Ok(()) => may_link_all(
                    old(self).setup().embedding,
                    scope@,
                    stamp,
                    memory_id@,
                    entity::entities_in(content@),
                    old(self).state(),
                    final(self).state(),
                ),
                Err(err) => may_fail_to_link(
                    old(self).setup().embedding,
                    scope@,
                    stamp,
                    memory_id@,
                    entity::entities_in(content@),
                    old(self).state(),
                    final(self).state(),
                    err,
                ),
            },
    {
        let entities = entity::extract_entities(content);
        let ghost models = entity::entities_in(content@);
        let ghost mut states: Seq<State<V>> = seq![self.state()];
        let mut i: usize = 0;
        while i < entities.len()
            invariant
                i <= entities.len(),
                models == entity::entity_models(entities@),
                models == entity::entities_in(content@),
                models.len() == entities@.len(),
                self.setup() == old(self).setup(),
                self.store().measure() == old(self).store().measure(),
                states.len() == i + 1,
                states[0] == old(self).state(),
                states.last() == self.state(),
                forall|j: int|
                    0 <= j < i ==> may_link(
                        old(self).setup().embedding,
                        scope@,
                        stamp,
                        memory_id@,
                        #[trigger] models[j],
                        states[j],
                        states[j + 1],
                    ),
            decreases entities.len() - i,
        {
            let ghost earlier = states;
            let ghost before = self.state();
            proof {
                assert(models[i as int] == (entities@[i as int].0, entities@[i as int].1@));
            }
            match self.link_entity(
                scope,
                memory_id,
                entities[i].0,
                entities[i].1.as_str(),
                stamp,
            ) {
                Ok(()) => {},
                Err(err) => {
                    proof {
                        let done = models.take(i as int);
                        assert forall|j: int| 0 <= j < done.len() implies may_link(
                            old(self).setup().embedding,
                            scope@,
                            stamp,
                            memory_id@,
                            #[trigger] done[j],
                            states[j],
                            states[j + 1],
                        ) by {
                            assert(done[j] == models[j]);
                        }
                        assert(links_through(
                            old(self).setup().embedding,
                            scope@,
                            stamp,
                            memory_id@,
                            models.take(i as int),
                            states,
                        ));
                    }
                    return Err(err);
                },
            }
            proof {
                states = states.push(self.state());
                assert forall|j: int| 0 <= j < i + 1 implies may_link(
                    old(self).setup().embedding,
                    scope@,
                    stamp,
                    memory_id@,
                    #[trigger] models[j],
                    states[j],
                    states[j + 1],
                ) by {
                    assert(states[j] == earlier[j]);
                    if j < i {
                        assert(states[j + 1] == earlier[j + 1]);
                    }
                }
            }
            i = i + 1;
        }
        proof {
            assert(models.len() == entities@.len());
            assert(links_through(
                old(self).setup().embedding,
                scope@,
                stamp,
                memory_id@,
                models,
                states,
            ));
        }
        Ok(())
    }
}

/// Whether some result has a content.
pub open spec fn has_content(found: Seq<ResultModel>, content: Seq<char>) -> bool {
    exists|i: int|
        0 <= i < found.len() && (#[trigger] found[i]).payload.contains_key("content"@)
            && found[i].payload["content"@] == content
}

/// The payload of a memory: its scope; its content, unless the scope has one;
/// and the role of who said it, if it was said.
pub open spec fn memory_payload(
    scope: Map<Seq<char>, Seq<char>>,
    content: Seq<char>,
    role: Option<Role>,
) -> Map<Seq<char>, Seq<char>> {
    let with_content = if scope.contains_key("content"@) {
        scope
    } else {
        scope.insert("content"@, content)
    };
    match role {
        Some(role) => with_content.insert("role"@, role.keyword()),
        None => with_content,
    }
}

/// Whether a state is another with a memory stored and its history begun.
pub open spec fn stores<V: VectorStore>(
    before: State<V>,
    after: State<V>,
    stamp: Stamp,
    vector: Seq<u32>,
    payload: Map<Seq<char>, Seq<char>>,
    content: Seq<char>,
) -> bool {
    let id = super::record_id(stamp, before.counter);
    &&& puts(before, after, RecordModel { id, vector, payload })
    &&& after.log == history::with_entry(before.log, id, HistoryEvent::Added, content)
    &&& after.counter == next(before.counter)
}

/// What is remembered: a content, and the role of who said it if it was said.
#[verifier::ext_equal]
pub struct Item {
    pub content: Seq<char>,
    pub role: Option<Role>,
}

/// Whether adding an item may turn one state into another: an item that is
/// there already is left out; any other is stored and linked, under an id.
pub open spec fn may_add_item<E: EmbeddingProvider, V: VectorStore>(
    embedding: E,
    scope: Map<Seq<char>, Seq<char>>,
    stamp: Stamp,
    item: Item,
    vector: Seq<u32>,
    before: State<V>,
    after: State<V>,
    id: Option<Seq<char>>,
) -> bool {
    ||| id is None && after == before && may_be_known(before.store, scope, item.content, vector)
    ||| {
        &&& id == Some(super::record_id(stamp, before.counter))
        &&& may_be_new(before.store, scope, item.content, vector)
        &&& may_store_and_link(embedding, scope, stamp, item, vector, before, after)
    }
}

/// Whether storing an item and linking it may turn one state into another.
pub open spec fn may_store_and_link<E: EmbeddingProvider, V: VectorStore>(
    embedding: E,
    scope: Map<Seq<char>, Seq<char>>,
    stamp: Stamp,
    item: Item,
    vector: Seq<u32>,
    before: State<V>,
    after: State<V>,
) -> bool {
    exists|stored: State<V>|
        {
            &&& #[trigger] stores(
                before,
                stored,
                stamp,
                vector,
                memory_payload(scope, item.content, item.role),
                item.content,
            )
            &&& may_link_all(
                embedding,
                scope,
                stamp,
                super::record_id(stamp, before.counter),
                entity::entities_in(item.content),
                stored,
                after,
            )
        }
}

/// Whether adding an item may fail with an error, and leave a state: the item is
/// not there and cannot be stored, or it is stored and cannot be linked.
pub open spec fn may_fail_at_item<E: EmbeddingProvider, V: VectorStore>(
    embedding: E,
    scope: Map<Seq<char>, Seq<char>>,
    stamp: Stamp,
    item: Item,
    vector: Seq<u32>,
    before: State<V>,
    after: State<V>,
    err: CoreError,
) -> bool {
    &&& may_be_new(before.store, scope, item.content, vector)
    &&& {
        ||| fails_to_store(
            before,
            after,
            RecordModel {
                id: super::record_id(stamp, before.counter),
                vector,
                payload: memory_payload(scope, item.content, item.role),
            },
            err,
        )
        ||| may_store_and_fail(embedding, scope, stamp, item, vector, before, after, err)
    }
}

/// Whether an error reports that a memory could not be stored, and a state is
/// what that left: a number was taken for its id, and its history is not begun.
pub open spec fn fails_to_store<V: VectorStore>(
    before: State<V>,
    after: State<V>,
    record: RecordModel,
    err: CoreError,
) -> bool {
    &&& after.log == before.log
    &&& after.counter == next(before.counter)
    &&& super::refuses_change(
        before.store,
        StoreRequest::Insert(record),
        err,
        after.store.records(),
    )
}

/// Whether an item may be stored and then linking it fail with an error, and
/// leave a state.
pub open spec fn may_store_and_fail<E: EmbeddingProvider, V: VectorStore>(
    embedding: E,
    scope: Map<Seq<char>, Seq<char>>,
    stamp: Stamp,
    item: Item,
    vector: Seq<u32>,
    before: State<V>,
    after: State<V>,
    err: CoreError,
) -> bool {
    exists|stored: State<V>|
        {
            &&& #[trigger] stores(
                before,
                stored,
                stamp,
                vector,
                memory_payload(scope, item.content, item.role),
                item.content,
            )
            &&& may_fail_to_link(
                embedding,
                scope,
                stamp,
                super::record_id(stamp, before.counter),
                entity::entities_in(item.content),
                stored,
                after,
                err,
            )
        }
}

/// Whether a store may find a content near a vector.
pub open spec fn may_be_known<V: VectorStore>(
    store: V,
    scope: Map<Seq<char>, Seq<char>>,
    content: Seq<char>,
    vector: Seq<u32>,
) -> bool {
    exists|found: Seq<ResultModel>|
        {
            &&& has_content(found, content)
            &&& #[trigger] store.may_find(
                vector,
                DUPLICATE_CANDIDATES as nat,
                scope,
                None,
                Ok(found),
            )
            &&& vector_store::sound_results(
                store.records(),
                DUPLICATE_CANDIDATES as nat,
                scope,
                None,
                found,
            )
        }
}

/// Whether a store may not find a content near a vector; a search that fails
/// finds nothing.
pub open spec fn may_be_new<V: VectorStore>(
    store: V,
    scope: Map<Seq<char>, Seq<char>>,
    content: Seq<char>,
    vector: Seq<u32>,
) -> bool {
    exists|outcome: Result<Seq<ResultModel>, vector_store::VectorStoreError>|
        {
            &&& #[trigger] store.may_find(
                vector,
                DUPLICATE_CANDIDATES as nat,
                scope,
                None,
                outcome,
            )
            &&& outcome matches Ok(found) ==> !has_content(found, content)
                && vector_store::sound_results(
                store.records(),
                DUPLICATE_CANDIDATES as nat,
                scope,
                None,
                found,
            )
        }
}

/// Whether some results hold a content.
pub fn holds_content(found: &Vec<SearchResult>, content: &str) -> (r: bool)
    ensures
        r == has_content(rank::views(found@), content@),
{
    let ghost all = rank::views(found@);
    let mut i: usize = 0;
    while i < found.len()
        invariant
            i <= found.len(),
            all == rank::views(found@),
            forall|j: int|
                0 <= j < i ==> !((#[trigger] all[j]).payload.contains_key("content"@)
                    && all[j].payload["content"@] == content@),
        decreases found.len() - i,
    {
        proof {
            assert(all[i as int] == found@[i as int]@);
        }
        if found[i].payload.has("content", content) {
            return true;
        }
        i = i + 1;
    }
    false
}

impl<L: LlmProvider, E: EmbeddingProvider, V: VectorStore> Memory<L, E, V> {
    /// Stores a memory and begins its history.
    fn store_memory(
        &mut self,
        vector: Vec<u32>,
        payload: Payload,
        content: &str,
        stamp: Stamp,
    ) -> (r: Result<String, CoreError>)
        ensures
            final(self).setup() == old(self).setup(),
            final(self).store().measure() == old(self).store().measure(),
            match r {
                Ok(id) => {
                    &&& id@ == super::record_id(stamp, old(self).counter())
                    &&& stores(
                        old(self).state(),
                        final(self).state(),
                        stamp,
                        vector@,
                        payload@,
                        content@,
                    )
                },
                Err(err) => fails_to_store(
                    old(self).state(),
                    final(self).state(),
                    RecordModel {
                        id: super::record_id(stamp, old(self).counter()),
                        vector: vector@,
                        payload: payload@,
                    },
                    err,
                ),
            },
    {
        let number = self.take_number();
        let id = next_record_id(stamp, number);
        let record = VectorRecord::new(id.as_str(), vector, payload);
        let ghost wanted = record@;
        let ghost before = self.store();
        match self.vector_store.insert(record) {
            Ok(()) => {},
            Err(err) => {
                let report = CoreError::from(err);
                proof {
                    assert(report.reports_store(err));
                    assert(before.may_refuse(StoreRequest::Insert(wanted), err));
                    assert(super::refuses_change(
                        before,
                        StoreRequest::Insert(wanted),
                        report,
                        self.store().records(),
                    ));
                }
                return Err(report);
            },
        }
        self.history.record(id.as_str(), HistoryEvent::Added, content);
        Ok(id)
    }

    /// Adds an item, unless it is there already.
    fn add_item(
        &mut self,
        scope: &Payload,
        content: &str,
        role: Option<Role>,
        vector: &Vec<u32>,
        stamp: Stamp,
    ) -> (r: Result<Option<String>, CoreError>)
        ensures
            final(self).setup() == old(self).setup(),
            final(self).store().measure() == old(self).store().measure(),
            match r {
                Ok(id) => may_add_item(
                    old(self).setup().embedding,
                    scope@,
                    stamp,
                    Item { content: content@, role },
                    vector@,
                    old(self).state(),
                    final(self).state(),
                    text::model(id),
                ),
                Err(err) => may_fail_at_item(
                    old(self).setup().embedding,
                    scope@,
                    stamp,
                    Item { content: content@, role },
                    vector@,
                    old(self).state(),
                    final(self).state(),
                    err,
                ),
            },
    {
        let ghost before = self.state();
        let outcome = self.vector_store.search(
            vector.as_slice(),
            DUPLICATE_CANDIDATES,
            scope,
            None,
        );
        proof {
            assert(before.store.may_find(
                vector@,
                DUPLICATE_CANDIDATES as nat,
                scope@,
                None,
                vector_store::found_in(outcome),
            ));
        }
        let known = match &outcome {
            Ok(found) => holds_content(found, content),
            Err(_) => false,
        };
        if known {
            proof {
                assert(may_be_known(before.store, scope@, content@, vector@));
            }
            return Ok(None);
        }
        proof {
            assert(may_be_new(before.store, scope@, content@, vector@));
        }
        let mut payload = scope.clone();
        if !payload.contains_key("content") {
            payload.insert("content".to_owned(), content.to_owned());
        }
        match role {
            Some(role) => {
                payload.insert("role".to_owned(), role.as_str().to_owned());
            },
            None => {},
        }
        proof {
            assert(payload@ =~= memory_payload(scope@, content@, role));
        }
        let id = match self.store_memory(
            vector_store::copy_vector(vector),
            payload,
            content,
            stamp,
        ) {
            Ok(id) => id,
            Err(err) => {
                return Err(err);
            },
        };
        let ghost stored = self.state();
        proof {
            assert(stores(
                before,
                stored,
                stamp,
                vector@,
                memory_payload(scope@, content@, role),
                content@,
            ));
        }
        match self.link_entities(scope, id.as_str(), content, stamp) {
            Ok(()) => {},
            Err(err) => {
                proof {
                    let item = Item { content: content@, role };
                    assert(stores(
                        before,
                        stored,
                        stamp,
                        vector@,
                        memory_payload(scope@, item.content, item.role),
                        item.content,
                    ));
                    assert(may_fail_to_link(
                        old(self).setup().embedding,
                        scope@,
                        stamp,
                        super::record_id(stamp, before.counter),
                        entity::entities_in(item.content),
                        stored,
                        self.state(),
                        err,
                    ));
                    assert(may_store_and_fail(
                        old(self).setup().embedding,
                        scope@,
                        stamp,
                        Item { content: content@, role },
                        vector@,
                        before,
                        self.state(),
                        err,
                    ));
                }
                return Err(err);
            },
        }
        proof {
            let item = Item { content: content@, role };
            assert(id@ == super::record_id(stamp, before.counter));
            assert(may_link_all(
                old(self).setup().embedding,
                scope@,
                stamp,
                super::record_id(stamp, before.counter),
                entity::entities_in(item.content),
                stored,
                self.state(),
            ));
            assert(may_store_and_link(
                old(self).setup().embedding,
                scope@,
                stamp,
                item,
                vector@,
                before,
                self.state(),
            ));
        }
        Ok(Some(id))
    }
}

/// Why memories are refused for their scope, if they are.
pub open spec fn scope_problem<L, E>(setup: Setup<L, E>, scope: Payload) -> Option<Seq<char>> {
    if !super::names_someone(scope@) {
        Some(SCOPE_REQUIRED@)
    } else if setup.max_metadata_bytes matches Some(max) && payload::entry_bytes(scope.entries())
        > max {
        Some(
            "metadata payload of "@ + text::decimal(payload::entry_bytes(scope.entries()))
                + " bytes exceeds the configured limit of "@ + text::decimal(
                setup.max_metadata_bytes->0 as nat,
            ) + " bytes"@,
        )
    } else {
        None
    }
}

/// Whether messages without images may stand in for others: a message with
/// images is what a language model says of them.
pub open spec fn may_stand_in<L: LlmProvider>(
    model: L,
    messages: Seq<MessageModel>,
    resolved: Seq<MessageModel>,
) -> bool {
    &&& resolved.len() == messages.len()
    &&& forall|i: int|
        0 <= i < messages.len() ==> may_describe(model, #[trigger] messages[i], resolved[i])
}

/// Whether a message may stand in for another.
pub open spec fn may_describe<L: LlmProvider>(
    model: L,
    message: MessageModel,
    resolved: MessageModel,
) -> bool {
    if message.images.len() == 0 {
        resolved == message
    } else {
        exists|description: Seq<char>| #[trigger]
            model.may_answer(llm::image_question(message.images), Ok(description)) && resolved
                == llm::plain(message.role, description)
    }
}

/// Why a message is refused, if it is.
pub open spec fn message_problem(message: MessageModel, max: Option<usize>) -> Option<Seq<char>> {
    let size = vstd::utf8::encode_utf8(message.content).len();
    if message.content.len() == 0 {
        Some("message content must not be empty"@)
    } else if max matches Some(limit) && size > limit {
        Some(
            "message content of "@ + text::decimal(size)
                + " bytes exceeds the configured limit of "@ + text::decimal(max->0 as nat)
                + " bytes"@,
        )
    } else {
        None
    }
}

/// Why the first message that is refused is.
pub open spec fn messages_problem(messages: Seq<MessageModel>, max: Option<usize>) -> Option<
    Seq<char>,
>
    decreases messages.len(),
{
    if messages.len() == 0 {
        None
    } else if message_problem(messages[0], max) is Some {
        message_problem(messages[0], max)
    } else {
        messages_problem(messages.skip(1), max)
    }
}

/// Whether what is added in a scope is the procedure of an agent.
pub open spec fn is_procedure(scope: Map<Seq<char>, Seq<char>>) -> bool {
    &&& scope.contains_key("memory_type"@) && scope["memory_type"@] == "procedural_memory"@
    &&& scope.contains_key("agent_id"@)
}

/// Facts as items.
pub open spec fn fact_items(facts: Seq<Seq<char>>) -> Seq<Item> {
    facts.map_values(|fact: Seq<char>| Item { content: fact, role: None })
}

/// Messages as items.
pub open spec fn said_items(messages: Seq<MessageModel>) -> Seq<Item> {
    messages.map_values(|m: MessageModel| Item { content: m.content, role: Some(m.role) })
}

/// Whether messages may give these items: the facts that a language model
/// finds in them, or the messages as they are.
pub open spec fn may_give<L: LlmProvider>(
    model: L,
    messages: Seq<MessageModel>,
    infer: bool,
    items: Seq<Item>,
) -> bool {
    if infer {
        exists|answer: Seq<char>| #[trigger]
            model.may_answer(llm::prompt(llm::EXTRACTION_PROMPT@, messages), Ok(answer)) && items
                == fact_items(llm::facts_in(answer))
    } else {
        items == said_items(messages)
    }
}

/// Whether some items may have these vectors.
pub open spec fn may_embed_all<E: EmbeddingProvider>(
    embedding: E,
    items: Seq<Item>,
    vectors: Seq<Seq<u32>>,
) -> bool {
    &&& vectors.len() == items.len()
    &&& forall|i: int|
        0 <= i < items.len() ==> embedding.may_embed((#[trigger] items[i]).content, Ok(vectors[i]))
}

/// Whether adding items may go through these states, with these ids.
pub open spec fn adds_through<E: EmbeddingProvider, V: VectorStore>(
    embedding: E,
    scope: Map<Seq<char>, Seq<char>>,
    stamp: Stamp,
    items: Seq<Item>,
    vectors: Seq<Seq<u32>>,
    states: Seq<State<V>>,
    ids: Seq<Option<Seq<char>>>,
) -> bool {
    &&& states.len() == items.len() + 1
    &&& ids.len() == items.len()
    &&& forall|i: int|
        0 <= i < items.len() ==> may_add_item(
            embedding,
            scope,
            stamp,
            #[trigger] items[i],
            vectors[i],
            states[i],
            states[i + 1],
            ids[i],
        )
}

/// The ids that were given.
pub open spec fn given(ids: Seq<Option<Seq<char>>>) -> Seq<Seq<char>>
    decreases ids.len(),
{
    if ids.len() == 0 {
        Seq::empty()
    } else {
        match ids.last() {
            Some(id) => given(ids.drop_last()).push(id),
            None => given(ids.drop_last()),
        }
    }
}

/// Whether adding items may turn one state into another, and give these ids.
pub open spec fn may_add_items<L: LlmProvider, E: EmbeddingProvider, V: VectorStore>(
    setup: Setup<L, E>,
    scope: Map<Seq<char>, Seq<char>>,
    stamp: Stamp,
    messages: Seq<MessageModel>,
    infer: bool,
    before: State<V>,
    after: State<V>,
    ids: Seq<Seq<char>>,
) -> bool {
    exists|
        items: Seq<Item>,
        vectors: Seq<Seq<u32>>,
        states: Seq<State<V>>,
        marks: Seq<Option<Seq<char>>>,
    |
        {
            &&& may_give(setup.llm, messages, infer, items)
            &&& may_embed_all(setup.embedding, items, vectors)
            &&& #[trigger] adds_through(
                setup.embedding,
                scope,
                stamp,
                items,
                vectors,
                states,
                marks,
            )
            &&& states[0] == before
            &&& states.last() == after
            &&& ids == given(marks)
        }
}

/// Whether adding a procedure may turn one state into another, and give these
/// ids: the summary that a language model writes is stored.
pub open spec fn may_add_procedure<L: LlmProvider, E: EmbeddingProvider, V: VectorStore>(
    setup: Setup<L, E>,
    scope: Map<Seq<char>, Seq<char>>,
    stamp: Stamp,
    messages: Seq<MessageModel>,
    before: State<V>,
    after: State<V>,
    ids: Seq<Seq<char>>,
) -> bool {
    exists|summary: Seq<char>, vector: Seq<u32>|
        {
            &&& setup.llm.may_answer(
                llm::prompt(llm::PROCEDURE_PROMPT@, messages),
                Ok(summary),
            )
            &&& summary.len() > 0
            &&& setup.embedding.may_embed(summary, Ok(vector))
            &&& #[trigger] stores(
                before,
                after,
                stamp,
                vector,
                scope.insert("content"@, summary),
                summary,
            )
            &&& ids == seq![super::record_id(stamp, before.counter)]
        }
}

/// Whether adding messages may turn one state into another, and give these
/// ids.
pub open spec fn may_add<L: LlmProvider, E: EmbeddingProvider, V: VectorStore>(
    setup: Setup<L, E>,
    scope: Map<Seq<char>, Seq<char>>,
    stamp: Stamp,
    messages: Seq<MessageModel>,
    infer: bool,
    before: State<V>,
    after: State<V>,
    ids: Seq<Seq<char>>,
) -> bool {
    exists|resolved: Seq<MessageModel>|
        {
            &&& #[trigger] may_stand_in(setup.llm, messages, resolved)
            &&& messages_problem(resolved, setup.max_content_length) is None
            &&& if is_procedure(scope) {
                may_add_procedure(setup, scope, stamp, resolved, before, after, ids)
            } else {
                may_add_items(setup, scope, stamp, resolved, infer, before, after, ids)
            }
        }
}

/// Whether an error says why messages are not added though nothing is changed:
/// an image cannot be described, a message is refused, or a provider fails.
pub open spec fn may_refuse_to_add<L: LlmProvider, E: EmbeddingProvider>(
    setup: Setup<L, E>,
    scope: Map<Seq<char>, Seq<char>>,
    messages: Seq<MessageModel>,
    infer: bool,
    err: CoreError,
) -> bool {
    ||| exists|i: int|
        0 <= i < messages.len() && (#[trigger] messages[i]).images.len() > 0 && super::reports_llm(
            setup.llm,
            llm::image_question(messages[i].images),
            err,
        )
    ||| exists|resolved: Seq<MessageModel>| #[trigger]
        may_stand_in(setup.llm, messages, resolved) && may_refuse_resolved(
            setup,
            scope,
            resolved,
            infer,
            err,
        )
}

/// Whether an error says why messages without images are not added though
/// nothing is changed.
pub open spec fn may_refuse_resolved<L: LlmProvider, E: EmbeddingProvider>(
    setup: Setup<L, E>,
    scope: Map<Seq<char>, Seq<char>>,
    messages: Seq<MessageModel>,
    infer: bool,
    err: CoreError,
) -> bool {
    match messages_problem(messages, setup.max_content_length) {
        Some(problem) => err.is_validation(problem),
        None => if is_procedure(scope) {
            may_refuse_procedure(setup, messages, err)
        } else {
            ||| infer && super::reports_llm(
                setup.llm,
                llm::prompt(llm::EXTRACTION_PROMPT@, messages),
                err,
            )
            ||| may_refuse_items(setup, messages, infer, err)
        },
    }
}

/// The contents of some items.
pub open spec fn contents_of(items: Seq<Item>) -> Seq<Seq<char>> {
    items.map_values(|item: Item| item.content)
}

/// Whether embedding some items may fail for a cause.
pub open spec fn may_fail_to_embed<E: EmbeddingProvider>(
    embedding: E,
    items: Seq<Item>,
    cause: EmbeddingError,
) -> bool {
    ||| exists|i: int|
        0 <= i < items.len() && embedding.may_embed((#[trigger] items[i]).content, Err(cause))
    ||| embedding.may_fail_together(contents_of(items), cause)
}

/// Whether an error reports that some items could not be embedded.
pub open spec fn reports_items<E: EmbeddingProvider>(
    embedding: E,
    items: Seq<Item>,
    err: CoreError,
) -> bool {
    exists|cause: EmbeddingError| #[trigger]
        may_fail_to_embed(embedding, items, cause) && err.hands_on(ProviderError::Embedding(cause))
}

/// Whether an error reports that what messages give could not be embedded.
pub open spec fn may_refuse_items<L: LlmProvider, E: EmbeddingProvider>(
    setup: Setup<L, E>,
    messages: Seq<MessageModel>,
    infer: bool,
    err: CoreError,
) -> bool {
    exists|items: Seq<Item>| #[trigger]
        may_give(setup.llm, messages, infer, items) && reports_items(setup.embedding, items, err)
}

/// Whether an error says why a procedure is not added though nothing is
/// changed.
pub open spec fn may_refuse_procedure<L: LlmProvider, E: EmbeddingProvider>(
    setup: Setup<L, E>,
    messages: Seq<MessageModel>,
    err: CoreError,
) -> bool {
    ||| super::reports_llm(setup.llm, llm::prompt(llm::PROCEDURE_PROMPT@, messages), err)
    ||| exists|summary: Seq<char>|
        {
            &&& #[trigger] setup.llm.may_answer(
                llm::prompt(llm::PROCEDURE_PROMPT@, messages),
                Ok(summary),
            )
            &&& if summary.len() == 0 {
                err.is_validation(PROCEDURE_WITHOUT_SUMMARY@)
            } else {
                super::reports_embedding(setup.embedding, summary, err)
            }
        }
}

/// Whether adding items may fail with an error after some of them were added,
/// and leave a state.
pub open spec fn may_fail_midway<E: EmbeddingProvider, V: VectorStore>(
    embedding: E,
    scope: Map<Seq<char>, Seq<char>>,
    stamp: Stamp,
    items: Seq<Item>,
    vectors: Seq<Seq<u32>>,
    before: State<V>,
    after: State<V>,
    err: CoreError,
) -> bool {
    exists|k: int, states: Seq<State<V>>, marks: Seq<Option<Seq<char>>>|
        {
            &&& 0 <= k < items.len()
            &&& #[trigger] adds_through(
                embedding,
                scope,
                stamp,
                items.take(k),
                vectors.take(k),
                states,
                marks,
            )
            &&& states[0] == before
            &&& may_fail_at_item(
                embedding,
                scope,
                stamp,
                items[k],
                vectors[k],
                states.last(),
                after,
                err,
            )
        }
}

/// Whether storing a procedure may fail with an error, and leave a state.
pub open spec fn may_fail_to_store_procedure<
    L: LlmProvider,
    E: EmbeddingProvider,
    V: VectorStore,
>(
    setup: Setup<L, E>,
    scope: Map<Seq<char>, Seq<char>>,
    stamp: Stamp,
    messages: Seq<MessageModel>,
    before: State<V>,
    after: State<V>,
    err: CoreError,
) -> bool {
    exists|summary: Seq<char>, vector: Seq<u32>|
        {
            &&& #[trigger] setup.llm.may_answer(
                llm::prompt(llm::PROCEDURE_PROMPT@, messages),
                Ok(summary),
            )
            &&& summary.len() > 0
            &&& #[trigger] setup.embedding.may_embed(summary, Ok(vector))
            &&& fails_to_store(
                before,
                after,
                RecordModel {
                    id: super::record_id(stamp, before.counter),
                    vector,
                    payload: scope.insert("content"@, summary),
                },
                err,
            )
        }
}

/// Whether adding items that messages give may fail with an error after some of
/// them were added, and leave a state.
pub open spec fn may_fail_at_items<L: LlmProvider, E: EmbeddingProvider, V: VectorStore>(
    setup: Setup<L, E>,
    scope: Map<Seq<char>, Seq<char>>,
    stamp: Stamp,
    messages: Seq<MessageModel>,
    infer: bool,
    before: State<V>,
    after: State<V>,
    err: CoreError,
) -> bool {
    exists|items: Seq<Item>, vectors: Seq<Seq<u32>>|
        {
            &&& may_give(setup.llm, messages, infer, items)
            &&& #[trigger] may_embed_all(setup.embedding, items, vectors)
            &&& may_fail_midway(
                setup.embedding,
                scope,
                stamp,
                items,
                vectors,
                before,
                after,
                err,
            )
        }
}

/// Whether adding messages may fail with an error when the store is asked to
/// keep them or the entities that they name, and leave a state.
pub open spec fn may_fail_to_store<L: LlmProvider, E: EmbeddingProvider, V: VectorStore>(
    setup: Setup<L, E>,
    scope: Map<Seq<char>, Seq<char>>,
    stamp: Stamp,
    messages: Seq<MessageModel>,
    infer: bool,
    before: State<V>,
    after: State<V>,
    err: CoreError,
) -> bool {
    exists|resolved: Seq<MessageModel>|
        {
            &&& #[trigger] may_stand_in(setup.llm, messages, resolved)
            &&& messages_problem(resolved, setup.max_content_length) is None
            &&& if is_procedure(scope) {
                may_fail_to_store_procedure(setup, scope, stamp, resolved, before, after, err)
            } else {
                may_fail_at_items(setup, scope, stamp, resolved, infer, before, after, err)
            }
        }
}

/// Whether adding messages may turn one state into another, with an outcome: the
/// ids of what was added, or why it was not.
pub open spec fn may_add_with<L: LlmProvider, E: EmbeddingProvider, V: VectorStore>(
    setup: Setup<L, E>,
    before: State<V>,
    after: State<V>,
    messages: Seq<MessageModel>,
    scope: Payload,
    infer: bool,
    stamp: Stamp,
    r: Result<Vec<String>, CoreError>,
) -> bool {
    match scope_problem(setup, scope) {
        Some(problem) => {
            &&& r matches Err(err)
            &&& err.is_validation(problem)
            &&& after == before
        },
        None => match r {
            Ok(ids) => may_add(
                setup,
                scope@,
                stamp,
                messages,
                infer,
                before,
                after,
                text::texts(ids@),
            ),
            Err(err) => {
                ||| after == before && may_refuse_to_add(setup, scope@, messages, infer, err)
                ||| may_fail_to_store(
                    setup,
                    scope@,
                    stamp,
                    messages,
                    infer,
                    before,
                    after,
                    err,
                )
            },
        },
    }
}

/// Some items as values.
pub open spec fn item_models(items: Seq<(String, Option<Role>)>) -> Seq<Item> {
    items.map_values(|i: (String, Option<Role>)| Item { content: i.0@, role: i.1 })
}

impl<L: LlmProvider, E: EmbeddingProvider, V: VectorStore> Memory<L, E, V> {
    /// Has the images of messages described.
    fn resolve_images(&self, messages: &[Message]) -> (r: Result<Vec<Message>, CoreError>)
        ensures
            match r {
                Ok(resolved) => may_stand_in(
                    self.setup().llm,
                    llm::message_models(messages@),
                    llm::message_models(resolved@),
                ),
                Err(err) => exists|i: int|
                    0 <= i < messages@.len() && (#[trigger] llm::message_models(
                        messages@,
                    )[i]).images.len() > 0 && super::reports_llm(
                        self.setup().llm,
                        llm::image_question(llm::message_models(messages@)[i].images),
                        err,
                    ),
            },
    {
        let ghost models = llm::message_models(messages@);
        let mut resolved: Vec<Message> = Vec::new();
        let mut i: usize = 0;
        while i < messages.len()
            invariant
                i <= messages.len(),
                models == llm::message_models(messages@),
                resolved@.len() == i,
                forall|j: int|
                    0 <= j < i ==> may_describe(
                        self.setup().llm,
                        #[trigger] models[j],
                        llm::message_models(resolved@)[j],
                    ),
            decreases messages.len() - i,
        {
            let message = &messages[i];
            let ghost earlier = llm::message_models(resolved@);
            proof {
                assert(models[i as int] == message@);
                assert(message@.images.len() == message.images@.len());
            }
            let new = if message.images.len() == 0 {
                message.clone()
            } else {
                let images = text::copy_texts(&message.images);
                let outcome = llm::describe_image(&self.setup.llm, images);
                proof {
                    assert(self.setup.llm.may_answer(
                        llm::image_question(models[i as int].images),
                        llm::said_in(outcome),
                    ));
                }
                match outcome {
                    Ok(description) => Message::new(message.role, description.as_str()),
                    Err(err) => {
                        let report = CoreError::from(err);
                        proof {
                            assert(report.hands_on(ProviderError::Llm(err)));
                            assert(super::reports_llm(
                                self.setup().llm,
                                llm::image_question(models[i as int].images),
                                report,
                            ));
                        }
                        return Err(report);
                    },
                }
            };
            proof {
                assert(may_describe(self.setup().llm, models[i as int], new@));
            }
            resolved.push(new);
            proof {
                let now = llm::message_models(resolved@);
                assert(now =~= earlier.push(new@));
                assert forall|j: int| 0 <= j < i + 1 implies may_describe(
                    self.setup().llm,
                    #[trigger] models[j],
                    now[j],
                ) by {
                    if j < i {
                        assert(now[j] == earlier[j]);
                    }
                }
            }
            i = i + 1;
        }
        Ok(resolved)
    }

    /// Refuses messages that are empty or too long.
    fn check_messages(&self, messages: &Vec<Message>) -> (r: Result<(), CoreError>)
        ensures
            match messages_problem(
                llm::message_models(messages@),
                self.setup().max_content_length,
            ) {
                Some(problem) => r matches Err(err) && err.is_validation(problem),
                None => r is Ok,
            },
    {
        let ghost models = llm::message_models(messages@);
        let ghost limit = self.setup().max_content_length;
        let mut i: usize = 0;
        proof {
            assert(models.skip(0) =~= models);
        }
        while i < messages.len()
            invariant
                i <= messages.len(),
                models == llm::message_models(messages@),
                limit == self.setup().max_content_length,
                messages_problem(models, limit) == messages_problem(models.skip(i as int), limit),
            decreases messages.len() - i,
        {
            let content = messages[i].content.as_str();
            proof {
                assert(models.skip(i as int)[0] == messages@[i as int]@);
                assert(models.skip(i as int).skip(1) =~= models.skip(i + 1));
            }
            if content.is_empty() {
                return Err(CoreError::Validation("message content must not be empty".to_owned()));
            }
            match self.setup.max_content_length {
                Some(max) => {
                    let size: usize = content.as_bytes().len();
                    if size > max {
                        let mut message = text::concat3(
                            "message content of ",
                            text::to_decimal(size as u128).as_str(),
                            " bytes exceeds the configured limit of ",
                        );
                        message.append(text::to_decimal(max as u128).as_str());
                        message.append(" bytes");
                        return Err(CoreError::Validation(message));
                    }
                },
                None => {},
            }
            i = i + 1;
        }
        Ok(())
    }

    /// Refuses a scope that names no one or is too large.
    fn check_scope(&self, scope: &Payload) -> (r: Result<(), CoreError>)
        ensures
            match scope_problem(self.setup(), *scope) {
                Some(problem) => r matches Err(err) && err.is_validation(problem),
                None => r is Ok,
            },
    {
        if !has_scope_id(scope) {
            return Err(CoreError::Validation(SCOPE_REQUIRED.to_owned()));
        }
        match self.setup.max_metadata_bytes {
            Some(max) => {
                let (keys, values) = scope.byte_sizes();
                let limit: u128 = max as u128;
                if keys > limit || values > limit || keys + values > limit {
                    let mut message = text::concat3(
                        "metadata payload of ",
                        text::sum_to_decimal(keys, values).as_str(),
                        " bytes exceeds the configured limit of ",
                    );
                    message.append(text::to_decimal(max as u128).as_str());
                    message.append(" bytes");
                    return Err(CoreError::Validation(message));
                }
            },
            None => {},
        }
        Ok(())
    }
}

impl<L: LlmProvider, E: EmbeddingProvider, V: VectorStore> Memory<L, E, V> {
    /// Adds the summary of a procedure.
    fn add_procedure(&mut self, messages: &Vec<Message>, scope: &Payload, stamp: Stamp) -> (r: Result<
        Vec<String>,
        CoreError,
    >)
        ensures
            final(self).setup() == old(self).setup(),
            final(self).store().measure() == old(self).store().measure(),
            match r {
                Ok(ids) => may_add_procedure(
                    old(self).setup(),
                    scope@,
                    stamp,
                    llm::message_models(messages@),
                    old(self).state(),
                    final(self).state(),
                    text::texts(ids@),
                ),
                Err(err) => {
                    ||| final(self).state() == old(self).state() && may_refuse_procedure(
                        old(self).setup(),
                        llm::message_models(messages@),
                        err,
                    )
                    ||| may_fail_to_store_procedure(
                        old(self).setup(),
                        scope@,
                        stamp,
                        llm::message_models(messages@),
                        old(self).state(),
                        final(self).state(),
                        err,
                    )
                },
            },
    {
        let ghost models = llm::message_models(messages@);
        let ghost before = self.state();
        let outcome = llm::summarize_procedure(&self.setup.llm, messages.as_slice());
        let summary = match outcome {
            Ok(summary) => summary,
            Err(err) => {
                let report = CoreError::from(err);
                proof {
                    assert(report.hands_on(ProviderError::Llm(err)));
                    assert(self.setup().llm.may_answer(
                        llm::prompt(llm::PROCEDURE_PROMPT@, models),
                        Err(err),
                    ));
                }
                return Err(report);
            },
        };
        proof {
            assert(self.setup().llm.may_answer(
                llm::prompt(llm::PROCEDURE_PROMPT@, models),
                Ok(summary@),
            ));
        }
        if summary.as_str().is_empty() {
            return Err(CoreError::Validation(PROCEDURE_WITHOUT_SUMMARY.to_owned()));
        }
        let vector = match self.setup.embedding.embed(summary.as_str()) {
            Ok(vector) => vector,
            Err(err) => {
                let report = CoreError::from(err);
                proof {
                    assert(self.setup().embedding.may_embed(summary@, Err(err)));
                    assert(super::reports_embedding(self.setup().embedding, summary@, report));
                }
                return Err(report);
            },
        };
        let ghost known = vector@;
        let mut payload = scope.clone();
        payload.insert("content".to_owned(), summary.clone());
        let ghost wanted = payload@;
        proof {
            assert(wanted =~= scope@.insert("content"@, summary@));
            assert(old(self).setup().embedding.may_embed(summary@, Ok(known)));
        }
        match self.store_memory(vector, payload, summary.as_str(), stamp) {
            Ok(id) => {
                let mut ids: Vec<String> = Vec::new();
                ids.push(id);
                proof {
                    assert(text::texts(ids@) =~= seq![super::record_id(stamp, before.counter)]);
                    assert(stores(
                        before,
                        self.state(),
                        stamp,
                        known,
                        scope@.insert("content"@, summary@),
                        summary@,
                    ));
                }
                Ok(ids)
            },
            Err(err) => {
                proof {
                    assert(may_fail_to_store_procedure(
                        old(self).setup(),
                        scope@,
                        stamp,
                        models,
                        before,
                        self.state(),
                        err,
                    ));
                }
                Err(err)
            },
        }
    }

    /// What messages give to remember.
    fn gather_items(&self, messages: &Vec<Message>, infer: bool) -> (r: Result<
        Vec<(String, Option<Role>)>,
        CoreError,
    >)
        ensures
            match r {
                Ok(items) => may_give(
                    self.setup().llm,
                    llm::message_models(messages@),
                    infer,
                    item_models(items@),
                ),
                Err(err) => infer && super::reports_llm(
                    self.setup().llm,
                    llm::prompt(llm::EXTRACTION_PROMPT@, llm::message_models(messages@)),
                    err,
                ),
            },
    {
        let ghost models = llm::message_models(messages@);
        let mut items: Vec<(String, Option<Role>)> = Vec::new();
        let mut i: usize = 0;
        if infer {
            let outcome = llm::extract_facts(&self.setup.llm, messages.as_slice());
            let ghost answer = choose|answer: Result<Seq<char>, llm::LlmError>|
                {
                    &&& #[trigger] self.setup.llm.may_answer(
                        llm::prompt(llm::EXTRACTION_PROMPT@, models),
                        answer,
                    )
                    &&& match answer {
                        Ok(said) => outcome matches Ok(facts) && text::texts(facts@)
                            == llm::facts_in(said),
                        Err(err) => outcome == Err::<Vec<String>, llm::LlmError>(err),
                    }
                };
            let facts = match outcome {
                Ok(facts) => facts,
                Err(err) => {
                    let report = CoreError::from(err);
                    proof {
                        assert(report.hands_on(ProviderError::Llm(err)));
                        assert(self.setup().llm.may_answer(
                            llm::prompt(llm::EXTRACTION_PROMPT@, models),
                            Err(err),
                        ));
                    }
                    return Err(report);
                },
            };
            let ghost wanted = fact_items(text::texts(facts@));
            while i < facts.len()
                invariant
                    i <= facts.len(),
                    wanted == fact_items(text::texts(facts@)),
                    item_models(items@) == wanted.take(i as int),
                decreases facts.len() - i,
            {
                let ghost before = item_models(items@);
                items.push((facts[i].clone(), None));
                proof {
                    assert(item_models(items@) =~= before.push(wanted[i as int]));
                    assert(wanted.take(i + 1) =~= before.push(wanted[i as int]));
                }
                i = i + 1;
            }
            proof {
                assert(wanted.take(i as int) =~= wanted);
                assert(self.setup().llm.may_answer(
                    llm::prompt(llm::EXTRACTION_PROMPT@, models),
                    Ok(answer->Ok_0),
                ));
            }
        } else {
            let ghost wanted = said_items(models);
            while i < messages.len()
                invariant
                    i <= messages.len(),
                    models == llm::message_models(messages@),
                    wanted == said_items(models),
                    item_models(items@) == wanted.take(i as int),
                decreases messages.len() - i,
            {
                let ghost before = item_models(items@);
                items.push((messages[i].content.clone(), Some(messages[i].role)));
                proof {
                    assert(item_models(items@) =~= before.push(wanted[i as int]));
                    assert(wanted.take(i + 1) =~= before.push(wanted[i as int]));
                }
                i = i + 1;
            }
            proof {
                assert(wanted.take(i as int) =~= wanted);
            }
        }
        Ok(items)
    }

    /// The vectors of some items.
    fn embed_items(&self, items: &Vec<(String, Option<Role>)>) -> (r: Result<
        Vec<Vec<u32>>,
        CoreError,
    >)
        ensures
            match r {
                Ok(vectors) => may_embed_all(
                    self.setup().embedding,
                    item_models(items@),
                    embedding::vector_models(vectors@),
                ),
                Err(err) => reports_items(self.setup().embedding, item_models(items@), err),
            },
    {
        let ghost models = item_models(items@);
        let mut contents: Vec<&str> = Vec::new();
        let mut i: usize = 0;
        while i < items.len()
            invariant
                i <= items.len(),
                models == item_models(items@),
                contents@.len() == i,
                forall|j: int| 0 <= j < i ==> (#[trigger] contents@[j])@ == models[j].content,
            decreases items.len() - i,
        {
            contents.push(items[i].0.as_str());
            i = i + 1;
        }
        match self.setup.embedding.embed_batch(contents.as_slice()) {
            Ok(vectors) => {
                proof {
                    assert forall|j: int| 0 <= j < models.len() implies self.setup().embedding.may_embed(
                        (#[trigger] models[j]).content,
                        Ok(embedding::vector_models(vectors@)[j]),
                    ) by {
                        assert(contents@[j]@ == models[j].content);
                    }
                }
                Ok(vectors)
            },
            Err(err) => {
                let report = CoreError::from(err);
                proof {
                    assert(report.hands_on(ProviderError::Embedding(err)));
                    assert(embedding::text_views(contents@) =~= contents_of(models));
                    if !self.setup().embedding.may_fail_together(contents_of(models), err) {
                        let i = choose|i: int|
                            0 <= i < contents@.len() && self.setup().embedding.may_embed(
                                (#[trigger] contents@[i])@,
                                Err(err),
                            );
                        assert(contents@[i]@ == models[i].content);
                    }
                    assert(may_fail_to_embed(self.setup().embedding, models, err));
                }
                Err(report)
            },
        }
    }

    /// Adds items one after the other.
    fn add_items(
        &mut self,
        items: &Vec<(String, Option<Role>)>,
        vectors: &Vec<Vec<u32>>,
        scope: &Payload,
        stamp: Stamp,
    ) -> (r: Result<(Vec<String>, Ghost<(Seq<State<V>>, Seq<Option<Seq<char>>>)>), CoreError>)
        requires
            items@.len() == vectors@.len(),
        ensures
            final(self).setup() == old(self).setup(),
            final(self).store().measure() == old(self).store().measure(),
            match r {
                Ok((ids, run)) => {
                    &&& adds_through(
                        old(self).setup().embedding,
                        scope@,
                        stamp,
                        item_models(items@),
                        embedding::vector_models(vectors@),
                        run@.0,
                        run@.1,
                    )
                    &&& run@.0[0] == old(self).state()
                    &&& run@.0.last() == final(self).state()
                    &&& text::texts(ids@) == given(run@.1)
                },
                Err(err) => may_fail_midway(
                    old(self).setup().embedding,
                    scope@,
                    stamp,
                    item_models(items@),
                    embedding::vector_models(vectors@),
                    old(self).state(),
                    final(self).state(),
                    err,
                ),
            },
    {
        let ghost models = item_models(items@);
        let ghost known = embedding::vector_models(vectors@);
        let ghost mut states: Seq<State<V>> = seq![self.state()];
        let ghost mut marks: Seq<Option<Seq<char>>> = Seq::empty();
        let mut ids: Vec<String> = Vec::new();
        let mut i: usize = 0;
        proof {
            assert(text::texts(ids@) =~= given(marks));
        }
        while i < items.len()
            invariant
                i <= items.len(),
                items@.len() == vectors@.len(),
                models == item_models(items@),
                known == embedding::vector_models(vectors@),
                self.setup() == old(self).setup(),
                self.store().measure() == old(self).store().measure(),
                states.len() == i + 1,
                marks.len() == i,
                states[0] == old(self).state(),
                states.last() == self.state(),
                text::texts(ids@) == given(marks),
                forall|j: int|
                    0 <= j < i ==> may_add_item(
                        old(self).setup().embedding,
                        scope@,
                        stamp,
                        #[trigger] models[j],
                        known[j],
                        states[j],
                        states[j + 1],
                        marks[j],
                    ),
            decreases items.len() - i,
        {
            let ghost earlier = states;
            let ghost earlier_marks = marks;
            let ghost before = text::texts(ids@);
            let outcome = self.add_item(
                scope,
                items[i].0.as_str(),
                items[i].1,
                &vectors[i],
                stamp,
            );
            match outcome {
                Ok(id) => {
                    proof {
                        assert(models[i as int] == (Item {
                            content: items@[i as int].0@,
                            role: items@[i as int].1,
                        }));
                        states = states.push(self.state());
                        marks = marks.push(text::model(id));
                        assert(marks.drop_last() =~= earlier_marks);
                        assert forall|j: int| 0 <= j < i + 1 implies may_add_item(
                            old(self).setup().embedding,
                            scope@,
                            stamp,
                            #[trigger] models[j],
                            known[j],
                            states[j],
                            states[j + 1],
                            marks[j],
                        ) by {
                            assert(states[j] == earlier[j]);
                            if j < i {
                                assert(states[j + 1] == earlier[j + 1]);
                                assert(marks[j] == earlier_marks[j]);
                            }
                        }
                    }
                    match id {
                        Some(id) => {
                            ids.push(id);
                            proof {
                                assert(text::texts(ids@) =~= before.push(id@));
                            }
                        },
                        None => {},
                    }
                },
                Err(err) => {
                    proof {
                        let done = models.take(i as int);
                        let known_done = known.take(i as int);
                        assert forall|j: int| 0 <= j < done.len() implies may_add_item(
                            old(self).setup().embedding,
                            scope@,
                            stamp,
                            #[trigger] done[j],
                            known_done[j],
                            states[j],
                            states[j + 1],
                            marks[j],
                        ) by {
                            assert(done[j] == models[j]);
                        }
                        assert(models[i as int] == (Item {
                            content: items@[i as int].0@,
                            role: items@[i as int].1,
                        }));
                        assert(adds_through(
                            old(self).setup().embedding,
                            scope@,
                            stamp,
                            models.take(i as int),
                            known.take(i as int),
                            states,
                            marks,
                        ));
                    }
                    return Err(err);
                },
            }
            i = i + 1;
        }
        Ok((ids, Ghost((states, marks))))
    }

    /// Adds what messages say to the memories of a scope, and hands out the ids
    /// of what was added: the facts that a language model finds in the
    /// messages, the messages as they are, or the summary of a procedure.
    pub fn add(&mut self, messages: &[Message], scope: &Payload, infer: bool, stamp: Stamp) -> (r:
        Result<Vec<String>, CoreError>)
        ensures
            final(self).setup() == old(self).setup(),
            final(self).store().measure() == old(self).store().measure(),
            may_add_with(
                old(self).setup(),
                old(self).state(),
                final(self).state(),
                llm::message_models(messages@),
                *scope,
                infer,
                stamp,
                r,
            ),
    {
        match self.check_scope(scope) {
            Ok(()) => {},
            Err(err) => {
                return Err(err);
            },
        }
        let resolved = match self.resolve_images(messages) {
            Ok(resolved) => resolved,
            Err(err) => {
                return Err(err);
            },
        };
        let ghost models = llm::message_models(messages@);
        let ghost plain = llm::message_models(resolved@);
        proof {
            assert(may_stand_in(self.setup().llm, models, plain));
        }
        match self.check_messages(&resolved) {
            Ok(()) => {},
            Err(err) => {
                proof {
                    assert(may_refuse_resolved(self.setup(), scope@, plain, infer, err));
                }
                return Err(err);
            },
        }
        if scope.has("memory_type", "procedural_memory") && scope.contains_key("agent_id") {
            let outcome = self.add_procedure(&resolved, scope, stamp);
            proof {
                assert(messages_problem(plain, old(self).setup().max_content_length) is None);
                if outcome is Err && may_refuse_procedure(old(self).setup(), plain, outcome->Err_0) {
                    assert(may_refuse_resolved(
                        old(self).setup(),
                        scope@,
                        plain,
                        infer,
                        outcome->Err_0,
                    ));
                }
            }
            return outcome;
        }
        let items = match self.gather_items(&resolved, infer) {
            Ok(items) => items,
            Err(err) => {
                proof {
                    assert(may_refuse_resolved(self.setup(), scope@, plain, infer, err));
                }
                return Err(err);
            },
        };
        let vectors = match self.embed_items(&items) {
            Ok(vectors) => vectors,
            Err(err) => {
                proof {
                    assert(may_refuse_items(self.setup(), plain, infer, err));
                    assert(may_refuse_resolved(self.setup(), scope@, plain, infer, err));
                }
                return Err(err);
            },
        };
        proof {
            assert(item_models(items@).len() == items@.len());
            assert(embedding::vector_models(vectors@).len() == vectors@.len());
        }
        match self.add_items(&items, &vectors, scope, stamp) {
            Ok((ids, run)) => {
                proof {
                    assert(adds_through(
                        old(self).setup().embedding,
                        scope@,
                        stamp,
                        item_models(items@),
                        embedding::vector_models(vectors@),
                        run@.0,
                        run@.1,
                    ));
                    assert(may_add_items(
                        old(self).setup(),
                        scope@,
                        stamp,
                        plain,
                        infer,
                        old(self).state(),
                        self.state(),
                        text::texts(ids@),
                    ));
                }
                Ok(ids)
            },
            Err(err) => {
                proof {
                    assert(may_embed_all(
                        old(self).setup().embedding,
                        item_models(items@),
                        embedding::vector_models(vectors@),
                    ));
                    assert(may_fail_at_items(
                        old(self).setup(),
                        scope@,
                        stamp,
                        plain,
                        infer,
                        old(self).state(),
                        self.state(),
                        err,
                    ));
                }
                Err(err)
            },
        }
    }
}

/// Linking a memory once more leaves the links that were there, and adds the
/// memory at the end.
pub proof fn law_links_grow_by_one(
    id: Seq<char>,
    record: RecordModel,
    memory_id: Seq<char>,
)
    requires
        text::lacks(memory_id, CharClass::Only(',')),
    ensures
        searching::links(with_link(id, record, memory_id).payload) == searching::links(
            record.payload,
        ).push(memory_id),
{
    let old_links = searching::links(record.payload);
    let new_links = old_links.push(memory_id);
    let class = CharClass::Only(',');
    reveal_strlit(",");
    assert(","@ =~= seq![',']);
    if record.payload.contains_key(LINKED_MEMORY_IDS_KEY@) {
        text::law_pieces_lack_the_class(record.payload[LINKED_MEMORY_IDS_KEY@], class);
    }
    assert forall|i: int| 0 <= i < new_links.len() implies text::lacks(
        #[trigger] new_links[i],
        class,
    ) by {
        if i < old_links.len() {
            assert(new_links[i] == old_links[i]);
        }
    }
    text::law_split_of_joined(new_links, ',');
}

/// A record of an entity never links a memory twice: linking a memory leaves
/// links without duplicates without duplicates.
pub proof fn law_links_have_no_duplicates<E: EmbeddingProvider, V: VectorStore>(
    embedding: E,
    scope: Map<Seq<char>, Seq<char>>,
    stamp: Stamp,
    memory_id: Seq<char>,
    entity: (EntityType, Seq<char>),
    before: State<V>,
    after: State<V>,
    id: Seq<char>,
)
    requires
        may_link(embedding, scope, stamp, memory_id, entity, before, after),
        text::lacks(memory_id, CharClass::Only(',')),
        before.store.records().contains_key(id) ==> searching::links(
            before.store.records()[id].payload,
        ).no_duplicates(),
        after.store.records().contains_key(id),
    ensures
        searching::links(after.store.records()[id].payload).no_duplicates(),
{
    let records = before.store.records();
    let found = first_record(
        records,
        vector_store::all_ids(before.store),
        scope,
        entity.0,
        entity.1,
    );
    match found {
        Some(known) => {
            if known == id && !searching::links(records[known].payload).contains(memory_id) {
                law_links_grow_by_one(known, records[known], memory_id);
                let links = searching::links(records[id].payload);
                let more = links.push(memory_id);
                assert forall|i: int, j: int| 0 <= i < j < more.len() implies more[i] != more[j] by {
                    assert(links.contains(links[i]));
                }
            }
        },
        None => {
            let vector = choose|vector: Seq<u32>| #[trigger]
                embedding.may_embed(entity.1, Ok(vector)) && puts(
                    before,
                    after,
                    RecordModel {
                        id: super::entity_id(stamp, before.counter),
                        vector,
                        payload: entity_payload(scope, entity.0, entity.1, memory_id),
                    },
                );
            let payload = entity_payload(scope, entity.0, entity.1, memory_id);
            let class = CharClass::Only(',');
            let one = seq![memory_id];
            assert(text::joined(one, seq![',']) == memory_id);
            text::law_split_of_joined(one, ',');
            assert(searching::links(payload) == one);
        },
    }
}

pub proof fn lemma_first_record_describes(
    records: Map<Seq<char>, RecordModel>,
    ids: Seq<Seq<char>>,
    scope: Map<Seq<char>, Seq<char>>,
    kind: EntityType,
    name: Seq<char>,
)
    ensures
        first_record(records, ids, scope, kind, name) matches Some(id) ==> describes(
            records[id].payload,
            scope,
            kind,
            name,
        ) && ids.contains(id),
    decreases ids.len(),
{
    if ids.len() > 0 {
        lemma_first_record_describes(records, ids.skip(1), scope, kind, name);
        let found = first_record(records, ids, scope, kind, name);
        if found is Some {
            let id = found->0;
            if !describes(records[ids[0]].payload, scope, kind, name) {
                let k = choose|k: int| 0 <= k < ids.skip(1).len() && ids.skip(1)[k] == id;
                assert(ids[k + 1] == id);
            } else {
                assert(ids[0] == id);
            }
        }
    }
}

/// Whether a record is there and is no entity's.
pub open spec fn has_memory(records: Map<Seq<char>, RecordModel>, id: Seq<char>) -> bool {
    records.contains_key(id) && !super::is_entity(records[id].payload)
}

/// Whether an id is none that the record of an entity gets at a time.
pub open spec fn is_no_entity_id(stamp: Stamp, id: Seq<char>) -> bool {
    forall|number: u64| id != #[trigger] super::entity_id(stamp, number)
}

/// Linking leaves every memory as it is, and every history.
pub proof fn law_linking_keeps_memories<E: EmbeddingProvider, V: VectorStore>(
    embedding: E,
    scope: Map<Seq<char>, Seq<char>>,
    stamp: Stamp,
    memory_id: Seq<char>,
    entities: Seq<(EntityType, Seq<char>)>,
    before: State<V>,
    after: State<V>,
    id: Seq<char>,
)
    requires
        may_link_all(embedding, scope, stamp, memory_id, entities, before, after),
        has_memory(before.store.records(), id),
        is_no_entity_id(stamp, id),
    ensures
        after.store.records().contains_key(id),
        after.store.records()[id] == before.store.records()[id],
        after.log == before.log,
{
    let states = choose|states: Seq<State<V>>|
        {
            &&& #[trigger] links_through(embedding, scope, stamp, memory_id, entities, states)
            &&& states[0] == before
            &&& states.last() == after
        };
    lemma_links_keep(embedding, scope, stamp, memory_id, entities, states, id, entities.len() as int);
}

proof fn lemma_links_keep<E: EmbeddingProvider, V: VectorStore>(
    embedding: E,
    scope: Map<Seq<char>, Seq<char>>,
    stamp: Stamp,
    memory_id: Seq<char>,
    entities: Seq<(EntityType, Seq<char>)>,
    states: Seq<State<V>>,
    id: Seq<char>,
    n: int,
)
    requires
        links_through(embedding, scope, stamp, memory_id, entities, states),
        has_memory(states[0].store.records(), id),
        is_no_entity_id(stamp, id),
        0 <= n <= entities.len(),
    ensures
        states[n].store.records().contains_key(id),
        states[n].store.records()[id] == states[0].store.records()[id],
        states[n].log == states[0].log,
    decreases n,
{
    if n > 0 {
        lemma_links_keep(embedding, scope, stamp, memory_id, entities, states, id, n - 1);
        let entity = entities[n - 1];
        let before = states[n - 1];
        let after = states[n];
        assert(may_link(embedding, scope, stamp, memory_id, entity, before, states[n - 1 + 1]));
        let records = before.store.records();
        lemma_first_record_describes(
            records,
            vector_store::all_ids(before.store),
            scope,
            entity.0,
            entity.1,
        );
        assert(id != super::entity_id(stamp, before.counter));
    }
}

/// A memory that is added can be read: it is there under its id, with its
/// vector and its payload, and its history ends in the adding. A scope that
/// marks records of entities is left out.
pub proof fn law_added_memory_can_be_read<E: EmbeddingProvider, V: VectorStore>(
    embedding: E,
    scope: Map<Seq<char>, Seq<char>>,
    stamp: Stamp,
    item: Item,
    vector: Seq<u32>,
    before: State<V>,
    after: State<V>,
    id: Seq<char>,
)
    requires
        may_add_item(embedding, scope, stamp, item, vector, before, after, Some(id)),
        !super::is_entity(scope),
    ensures
        after.store.records().contains_key(id),
        after.store.records()[id] == (RecordModel {
            id,
            vector,
            payload: memory_payload(scope, item.content, item.role),
        }),
        after.log == history::with_entry(before.log, id, HistoryEvent::Added, item.content),
{
    let payload = memory_payload(scope, item.content, item.role);
    lemma_memory_payload_is_no_entity(scope, item);
    let stored = choose|stored: State<V>|
        {
            &&& #[trigger] stores(before, stored, stamp, vector, payload, item.content)
            &&& may_link_all(
                embedding,
                scope,
                stamp,
                super::record_id(stamp, before.counter),
                entity::entities_in(item.content),
                stored,
                after,
            )
        };
    assert forall|number: u64| id != #[trigger] super::entity_id(stamp, number) by {
        super::law_record_ids_are_no_entity_ids(stamp, before.counter, stamp, number);
    }
    law_linking_keeps_memories(
        embedding,
        scope,
        stamp,
        id,
        entity::entities_in(item.content),
        stored,
        after,
        id,
    );
}

/// Whether a scope has a record with a content.
pub open spec fn knows(
    records: Map<Seq<char>, RecordModel>,
    scope: Map<Seq<char>, Seq<char>>,
    content: Seq<char>,
) -> bool {
    exists|id: Seq<char>|
        {
            &&& #[trigger] records.contains_key(id)
            &&& payload::covers(records[id].payload, scope)
            &&& records[id].payload.contains_key("content"@)
            &&& records[id].payload["content"@] == content
        }
}

/// An item is left out only where the scope has a record with its content, and
/// nothing changes then.
pub proof fn law_only_known_items_are_left_out<E: EmbeddingProvider, V: VectorStore>(
    embedding: E,
    scope: Map<Seq<char>, Seq<char>>,
    stamp: Stamp,
    item: Item,
    vector: Seq<u32>,
    before: State<V>,
    after: State<V>,
)
    requires
        may_add_item(embedding, scope, stamp, item, vector, before, after, None),
    ensures
        knows(before.store.records(), scope, item.content),
        after == before,
{
    let found = choose|found: Seq<ResultModel>|
        {
            &&& has_content(found, item.content)
            &&& #[trigger] before.store.may_find(
                vector,
                DUPLICATE_CANDIDATES as nat,
                scope,
                None,
                Ok(found),
            )
            &&& vector_store::sound_results(
                before.store.records(),
                DUPLICATE_CANDIDATES as nat,
                scope,
                None,
                found,
            )
        };
    let i = choose|i: int|
        0 <= i < found.len() && (#[trigger] found[i]).payload.contains_key("content"@)
            && found[i].payload["content"@] == item.content;
    assert(before.store.records().contains_key(found[i].id));
}

/// A content that the scope has is left out of a store in memory, and nothing
/// changes then, if the scope has not more records than are looked at.
pub proof fn law_known_items_are_left_out<E: EmbeddingProvider, D: Fn(&[u32], &[u32]) -> i64>(
    embedding: E,
    scope: Map<Seq<char>, Seq<char>>,
    stamp: Stamp,
    item: Item,
    vector: Seq<u32>,
    before: State<InMemoryVectorStore<D>>,
    after: State<InMemoryVectorStore<D>>,
    id: Option<Seq<char>>,
)
    requires
        may_add_item(embedding, scope, stamp, item, vector, before, after, id),
        knows(before.store.records(), scope, item.content),
        vector_store::ids_having(before.store.records(), scope).len() <= DUPLICATE_CANDIDATES,
    ensures
        id is None,
        after == before,
{
    if may_be_new(before.store, scope, item.content, vector) {
        lemma_known_is_not_new(before.store, scope, item.content, vector);
    }
}

/// A store in memory does not fail to find a content that the scope has.
pub proof fn lemma_known_is_not_new<D: Fn(&[u32], &[u32]) -> i64>(
    store: InMemoryVectorStore<D>,
    scope: Map<Seq<char>, Seq<char>>,
    content: Seq<char>,
    vector: Seq<u32>,
)
    requires
        knows(store.records(), scope, content),
        vector_store::ids_having(store.records(), scope).len() <= DUPLICATE_CANDIDATES,
    ensures
        !may_be_new(store, scope, content, vector),
{
    if may_be_new(store, scope, content, vector) {
        let records = store.records();
        let known = choose|id: Seq<char>|
            {
                &&& #[trigger] records.contains_key(id)
                &&& payload::covers(records[id].payload, scope)
                &&& records[id].payload.contains_key("content"@)
                &&& records[id].payload["content"@] == content
            };
        let outcome = choose|outcome: Result<Seq<ResultModel>, vector_store::VectorStoreError>|
            {
                &&& #[trigger] store.may_find(
                    vector,
                    DUPLICATE_CANDIDATES as nat,
                    scope,
                    None,
                    outcome,
                )
                &&& outcome matches Ok(found) ==> !has_content(found, content)
                    && vector_store::sound_results(
                    records,
                    DUPLICATE_CANDIDATES as nat,
                    scope,
                    None,
                    found,
                )
            };
        vector_store::law_few_records_are_all_found(
            store,
            vector,
            DUPLICATE_CANDIDATES as nat,
            scope,
            None,
            outcome->Ok_0,
            known,
        );
    }
}

/// Adding an item leaves every other memory as it is.
pub proof fn law_adding_keeps_memories<E: EmbeddingProvider, V: VectorStore>(
    embedding: E,
    scope: Map<Seq<char>, Seq<char>>,
    stamp: Stamp,
    item: Item,
    vector: Seq<u32>,
    before: State<V>,
    after: State<V>,
    new: Option<Seq<char>>,
    id: Seq<char>,
)
    requires
        may_add_item(embedding, scope, stamp, item, vector, before, after, new),
        has_memory(before.store.records(), id),
        is_no_entity_id(stamp, id),
        id != super::record_id(stamp, before.counter),
    ensures
        after.store.records().contains_key(id),
        after.store.records()[id] == before.store.records()[id],
        history::log_at(after.log, id) == history::log_at(before.log, id),
{
    if new is Some {
        let payload = memory_payload(scope, item.content, item.role);
        let stored = choose|stored: State<V>|
            {
                &&& #[trigger] stores(before, stored, stamp, vector, payload, item.content)
                &&& may_link_all(
                    embedding,
                    scope,
                    stamp,
                    super::record_id(stamp, before.counter),
                    entity::entities_in(item.content),
                    stored,
                    after,
                )
            };
        law_linking_keeps_memories(
            embedding,
            scope,
            stamp,
            super::record_id(stamp, before.counter),
            entity::entities_in(item.content),
            stored,
            after,
            id,
        );
    }
}

/// Whether the ids that are given end in different numbers.
pub open spec fn numbers_differ<V>(states: Seq<State<V>>, ids: Seq<Option<Seq<char>>>) -> bool {
    forall|i: int, j: int|
        0 <= i < j < ids.len() && (#[trigger] ids[i]) is Some && (#[trigger] ids[j]) is Some
            ==> states[i].counter != states[j].counter
}

/// How many numbers there are.
pub open spec fn all_numbers() -> nat {
    u64::MAX as nat + 1
}

/// The number that comes so many after another.
pub open spec fn advance(counter: u64, n: nat) -> u64 {
    ((counter + n) % (all_numbers() as int)) as u64
}

/// How many numbers adding some items takes at most: one for each, and one for
/// each entity that it names.
pub open spec fn numbers_needed(items: Seq<Item>) -> nat
    decreases items.len(),
{
    if items.len() == 0 {
        0
    } else {
        numbers_needed(items.drop_last()) + 1 + entity::entities_in(items.last().content).len()
    }
}

pub proof fn lemma_advance(counter: u64, n: nat)
    ensures
        advance(counter, 0) == counter,
        next(advance(counter, n)) == advance(counter, n + 1),
        advance(next(counter), n) == advance(counter, n + 1),
{
    let all = all_numbers() as int;
    assert(0 <= (counter + n) % all < all);
    if (counter + n) % all == all - 1 {
        assert((counter + n + 1) % all == 0) by (nonlinear_arith)
            requires
                all > 0,
                (counter + n) % all == all - 1,
        ;
    } else {
        assert((counter + n + 1) % all == (counter + n) % all + 1) by (nonlinear_arith)
            requires
                all > 0,
                (counter + n) % all < all - 1,
        ;
    }
    if counter == u64::MAX {
        assert((all + n) % all == n as int % all) by (nonlinear_arith)
            requires
                all > 0,
        ;
    }
}

/// Numbers that are not too far apart differ.
pub proof fn lemma_advances_differ(counter: u64, a: nat, b: nat)
    requires
        a < b < a + all_numbers(),
    ensures
        advance(counter, a) != advance(counter, b),
{
    let all = all_numbers() as int;
    let x = counter + a;
    let d = b - a;
    assert(x % all != (x + d) % all) by (nonlinear_arith)
        requires
            all > 0,
            0 < d < all,
    ;
}

proof fn lemma_link_numbers<E: EmbeddingProvider, V: VectorStore>(
    embedding: E,
    scope: Map<Seq<char>, Seq<char>>,
    stamp: Stamp,
    memory_id: Seq<char>,
    entities: Seq<(EntityType, Seq<char>)>,
    states: Seq<State<V>>,
    k: int,
) -> (n: nat)
    requires
        links_through(embedding, scope, stamp, memory_id, entities, states),
        0 <= k <= entities.len(),
    ensures
        n <= k,
        states[k].counter == advance(states[0].counter, n),
    decreases k,
{
    if k == 0 {
        lemma_advance(states[0].counter, 0);
        0
    } else {
        let n = lemma_link_numbers(embedding, scope, stamp, memory_id, entities, states, k - 1);
        assert(may_link(
            embedding,
            scope,
            stamp,
            memory_id,
            entities[k - 1],
            states[k - 1],
            states[k - 1 + 1],
        ));
        lemma_advance(states[0].counter, n);
        if states[k].counter == states[k - 1].counter {
            n
        } else {
            n + 1
        }
    }
}

proof fn lemma_item_numbers<E: EmbeddingProvider, V: VectorStore>(
    embedding: E,
    scope: Map<Seq<char>, Seq<char>>,
    stamp: Stamp,
    item: Item,
    vector: Seq<u32>,
    before: State<V>,
    after: State<V>,
    id: Option<Seq<char>>,
) -> (n: nat)
    requires
        may_add_item(embedding, scope, stamp, item, vector, before, after, id),
    ensures
        n <= 1 + entity::entities_in(item.content).len(),
        id is Some ==> n > 0,
        after.counter == advance(before.counter, n),
{
    lemma_advance(before.counter, 0);
    if id is None {
        0
    } else {
        let entities = entity::entities_in(item.content);
        let new = super::record_id(stamp, before.counter);
        let payload = memory_payload(scope, item.content, item.role);
        let stored = choose|stored: State<V>|
            {
                &&& #[trigger] stores(before, stored, stamp, vector, payload, item.content)
                &&& may_link_all(embedding, scope, stamp, new, entities, stored, after)
            };
        let states = choose|states: Seq<State<V>>|
            {
                &&& #[trigger] links_through(embedding, scope, stamp, new, entities, states)
                &&& states[0] == stored
                &&& states.last() == after
            };
        let n = lemma_link_numbers(
            embedding,
            scope,
            stamp,
            new,
            entities,
            states,
            entities.len() as int,
        );
        lemma_advance(before.counter, n);
        n + 1
    }
}

/// The numbers that adding items has taken when it is so far, in each state.
proof fn lemma_items_numbers<E: EmbeddingProvider, V: VectorStore>(
    embedding: E,
    scope: Map<Seq<char>, Seq<char>>,
    stamp: Stamp,
    items: Seq<Item>,
    vectors: Seq<Seq<u32>>,
    states: Seq<State<V>>,
    ids: Seq<Option<Seq<char>>>,
    k: int,
) -> (taken: Seq<nat>)
    requires
        adds_through(embedding, scope, stamp, items, vectors, states, ids),
        0 <= k <= items.len(),
    ensures
        taken.len() == k + 1,
        taken[k] <= numbers_needed(items.take(k)),
        forall|i: int| 0 <= i <= k ==> #[trigger] taken[i] <= taken[k],
        forall|i: int, j: int|
            0 <= i < j <= k && ids[i] is Some ==> #[trigger] taken[i] < #[trigger] taken[j],
        forall|i: int|
            0 <= i <= k ==> (#[trigger] states[i]).counter == advance(states[0].counter, taken[i]),
    decreases k,
{
    if k == 0 {
        lemma_advance(states[0].counter, 0);
        seq![0nat]
    } else {
        let before = lemma_items_numbers(
            embedding,
            scope,
            stamp,
            items,
            vectors,
            states,
            ids,
            k - 1,
        );
        assert(may_add_item(
            embedding,
            scope,
            stamp,
            items[k - 1],
            vectors[k - 1],
            states[k - 1],
            states[k - 1 + 1],
            ids[k - 1],
        ));
        let n = lemma_item_numbers(
            embedding,
            scope,
            stamp,
            items[k - 1],
            vectors[k - 1],
            states[k - 1],
            states[k],
            ids[k - 1],
        );
        let taken = before.push(before[k - 1] + n);
        assert(items.take(k).drop_last() =~= items.take(k - 1));
        assert(items.take(k).last() == items[k - 1]);
        assert(states[k].counter == advance(states[0].counter, taken[k])) by {
            lemma_advance_sum(states[0].counter, before[k - 1], n);
        }
        assert forall|i: int| 0 <= i <= k implies #[trigger] taken[i] <= taken[k] by {
            if i < k {
                assert(taken[i] == before[i]);
            }
        }
        assert forall|i: int, j: int| 0 <= i < j <= k && ids[i] is Some implies #[trigger] taken[i]
            < #[trigger] taken[j] by {
            assert(taken[i] == before[i]);
            if j < k {
                assert(taken[j] == before[j]);
            } else if i < k - 1 {
                assert(before[i] < before[k - 1]);
            }
        }
        assert forall|i: int| 0 <= i <= k implies (#[trigger] states[i]).counter == advance(
            states[0].counter,
            taken[i],
        ) by {
            if i < k {
                assert(taken[i] == before[i]);
            }
        }
        taken
    }
}

proof fn lemma_advance_sum(counter: u64, a: nat, b: nat)
    ensures
        advance(advance(counter, a), b) == advance(counter, a + b),
    decreases b,
{
    if b == 0 {
        lemma_advance(advance(counter, a), 0);
    } else {
        lemma_advance_sum(counter, a, (b - 1) as nat);
        lemma_advance(advance(counter, a), (b - 1) as nat);
        lemma_advance(counter, (a + b - 1) as nat);
    }
}

/// The ids that adding items gives are all different, unless more numbers are
/// taken than there are.
pub proof fn law_given_ids_differ<E: EmbeddingProvider, V: VectorStore>(
    embedding: E,
    scope: Map<Seq<char>, Seq<char>>,
    stamp: Stamp,
    items: Seq<Item>,
    vectors: Seq<Seq<u32>>,
    states: Seq<State<V>>,
    ids: Seq<Option<Seq<char>>>,
)
    requires
        adds_through(embedding, scope, stamp, items, vectors, states, ids),
        numbers_needed(items) <= all_numbers(),
    ensures
        numbers_differ(states, ids),
        given(ids).no_duplicates(),
{
    let taken = lemma_items_numbers(
        embedding,
        scope,
        stamp,
        items,
        vectors,
        states,
        ids,
        items.len() as int,
    );
    assert(items.take(items.len() as int) =~= items);
    assert forall|i: int, j: int|
        0 <= i < j < ids.len() && (#[trigger] ids[i]) is Some && (
        #[trigger] ids[j]) is Some implies states[i].counter != states[j].counter by {
        assert(taken[i] < taken[j]);
        assert(taken[j] < taken[items.len() as int]);
        assert(states[i].counter == advance(states[0].counter, taken[i]));
        assert(states[j].counter == advance(states[0].counter, taken[j]));
        lemma_advances_differ(states[0].counter, taken[i], taken[j]);
    }
    assert forall|i: int| 0 <= i < ids.len() && (#[trigger] ids[i]) is Some implies ids[i]->0
        == super::record_id(stamp, states[i].counter) by {
        assert(may_add_item(
            embedding,
            scope,
            stamp,
            items[i],
            vectors[i],
            states[i],
            states[i + 1],
            ids[i],
        ));
    }
    lemma_given_differ(stamp, states, ids);
}

proof fn lemma_given_differ<V>(stamp: Stamp, states: Seq<State<V>>, ids: Seq<Option<Seq<char>>>)
    requires
        numbers_differ(states, ids),
        forall|i: int|
            0 <= i < ids.len() && (#[trigger] ids[i]) is Some ==> ids[i]->0 == super::record_id(
                stamp,
                states[i].counter,
            ),
    ensures
        given(ids).no_duplicates(),
        forall|p: int|
            0 <= p < given(ids).len() ==> ids.contains(Some(#[trigger] given(ids)[p])),
    decreases ids.len(),
{
    if ids.len() > 0 {
        let rest = ids.drop_last();
        let last = ids.len() - 1;
        assert forall|i: int, j: int|
            0 <= i < j < rest.len() && (#[trigger] rest[i]) is Some && (
            #[trigger] rest[j]) is Some implies states[i].counter != states[j].counter by {
            assert(ids[i] is Some && ids[j] is Some);
        }
        assert forall|i: int| 0 <= i < rest.len() && (#[trigger] rest[i]) is Some implies rest[i]->0
            == super::record_id(stamp, states[i].counter) by {
            assert(ids[i] is Some);
        }
        lemma_given_differ(stamp, states, rest);
        let before = given(rest);
        let all = given(ids);
        assert forall|p: int| 0 <= p < all.len() implies ids.contains(Some(#[trigger] all[p])) by {
            if p < before.len() {
                assert(rest.contains(Some(before[p])));
                let i = choose|i: int| 0 <= i < rest.len() && rest[i] == Some(before[p]);
                assert(ids[i] == Some(all[p]));
            } else {
                assert(ids[last] == Some(all[p]));
            }
        }
        if ids[last] is Some {
            assert forall|p: int| 0 <= p < before.len() implies #[trigger] before[p] != ids[last]->0 by {
                assert(rest.contains(Some(before[p])));
                let i = choose|i: int| 0 <= i < rest.len() && rest[i] == Some(before[p]);
                assert(ids[i] == Some(before[p]));
                if before[p] == ids[last]->0 {
                    super::law_record_ids_differ(stamp, states[i].counter, states[last].counter);
                }
            }
        }
    }
}

/// Every memory that is added together with others can be read when all are
/// added. A scope that marks records of entities is left out, and so are items
/// that take more numbers than there are.
pub proof fn law_all_added_memories_can_be_read<E: EmbeddingProvider, V: VectorStore>(
    embedding: E,
    scope: Map<Seq<char>, Seq<char>>,
    stamp: Stamp,
    items: Seq<Item>,
    vectors: Seq<Seq<u32>>,
    states: Seq<State<V>>,
    ids: Seq<Option<Seq<char>>>,
    k: int,
)
    requires
        adds_through(embedding, scope, stamp, items, vectors, states, ids),
        !super::is_entity(scope),
        numbers_needed(items) <= all_numbers(),
        0 <= k < items.len(),
        ids[k] is Some,
    ensures
        states.last().store.records().contains_key(ids[k]->0),
        states.last().store.records()[ids[k]->0] == (RecordModel {
            id: ids[k]->0,
            vector: vectors[k],
            payload: memory_payload(scope, items[k].content, items[k].role),
        }),
        history::log_at(states.last().log, ids[k]->0) == history::log_at(
            states[k].log,
            ids[k]->0,
        ).push(EntryModel { event: HistoryEvent::Added, content: items[k].content }),
{
    law_given_ids_differ(embedding, scope, stamp, items, vectors, states, ids);
    lemma_added_stays(
        embedding,
        scope,
        stamp,
        items,
        vectors,
        states,
        ids,
        k,
        items.len() as int,
    );
}

proof fn lemma_added_stays<E: EmbeddingProvider, V: VectorStore>(
    embedding: E,
    scope: Map<Seq<char>, Seq<char>>,
    stamp: Stamp,
    items: Seq<Item>,
    vectors: Seq<Seq<u32>>,
    states: Seq<State<V>>,
    ids: Seq<Option<Seq<char>>>,
    k: int,
    n: int,
)
    requires
        adds_through(embedding, scope, stamp, items, vectors, states, ids),
        !super::is_entity(scope),
        numbers_differ(states, ids),
        0 <= k < n <= items.len(),
        ids[k] is Some,
    ensures
        states[n].store.records().contains_key(ids[k]->0),
        states[n].store.records()[ids[k]->0] == (RecordModel {
            id: ids[k]->0,
            vector: vectors[k],
            payload: memory_payload(scope, items[k].content, items[k].role),
        }),
        history::log_at(states[n].log, ids[k]->0) == history::log_at(
            states[k].log,
            ids[k]->0,
        ).push(EntryModel { event: HistoryEvent::Added, content: items[k].content }),
    decreases n,
{
    let id = ids[k]->0;
    let last = items[n - 1];
    assert(may_add_item(
        embedding,
        scope,
        stamp,
        last,
        vectors[n - 1],
        states[n - 1],
        states[n - 1 + 1],
        ids[n - 1],
    ));
    if k == n - 1 {
        law_added_memory_can_be_read(
            embedding,
            scope,
            stamp,
            last,
            vectors[k],
            states[k],
            states[n],
            id,
        );
    } else {
        lemma_added_stays(embedding, scope, stamp, items, vectors, states, ids, k, n - 1);
        if ids[n - 1] is Some {
            assert(may_add_item(
                embedding,
                scope,
                stamp,
                items[k],
                vectors[k],
                states[k],
                states[k + 1],
                ids[k],
            ));
            assert(states[k].counter != states[n - 1].counter);
            if id == super::record_id(stamp, states[n - 1].counter) {
                super::law_record_ids_differ(stamp, states[k].counter, states[n - 1].counter);
            }
            assert forall|number: u64| id != #[trigger] super::entity_id(stamp, number) by {
                super::law_record_ids_are_no_entity_ids(stamp, states[k].counter, stamp, number);
            }
            lemma_memory_payload_is_no_entity(scope, items[k]);
            law_adding_keeps_memories(
                embedding,
                scope,
                stamp,
                last,
                vectors[n - 1],
                states[n - 1],
                states[n],
                ids[n - 1],
                id,
            );
        }
    }
}

/// A memory is no record of an entity unless its scope marks such records.
pub proof fn lemma_memory_payload_is_no_entity(scope: Map<Seq<char>, Seq<char>>, item: Item)
    requires
        !super::is_entity(scope),
    ensures
        !super::is_entity(memory_payload(scope, item.content, item.role)),
{
    reveal_strlit("__memoria_record_kind");
    reveal_strlit("content");
    reveal_strlit("role");
    assert("content"@.len() != ENTITY_RECORD_KIND_KEY@.len());
    assert("role"@.len() != ENTITY_RECORD_KIND_KEY@.len());
}

} // verus!
