//! What adding memories does.

use super::{Item, State};
use crate::embedding::EmbeddingProvider;
use crate::entity;
use crate::entity::EntityType;
use crate::error::CoreError;
use crate::history;
use crate::history::{EntryModel, HistoryEvent};
use crate::llm;
use crate::llm::{LlmProvider, MessageModel, Role};
use crate::memory;
use crate::memory::adding;
use crate::memory::laws as memories;
use crate::memory::searching;
use crate::memory::{Setup, Stamp};
use crate::payload;
use crate::payload::Payload;
use crate::text;
use crate::text::CharClass;
use crate::vector_store;
use crate::vector_store::{RecordModel, ResultModel, VectorStore, VectorStoreError};
use vstd::prelude::*;

verus! {

/// An id is made of what it is for, of the nanoseconds since the start of 1970, of
/// the process, and of a number.
pub proof fn law_ids(stamp: Stamp, number: u64)
    ensures
        memory::record_id(stamp, number) == "rec-"@ + text::decimal(
            stamp.seconds as nat * 1_000_000_000 + stamp.subsec_nanos as nat,
        ) + "-"@ + text::decimal(stamp.process_id as nat) + "-"@ + text::decimal(number as nat),
        memory::entity_id(stamp, number) == "entity-"@ + text::decimal(
            stamp.seconds as nat * 1_000_000_000 + stamp.subsec_nanos as nat,
        ) + "-"@ + text::decimal(stamp.process_id as nat) + "-"@ + text::decimal(number as nat),
        number < u64::MAX ==> adding::next(number) == number + 1,
        adding::next(u64::MAX) == 0,
{
}

/// The payload of a memory has the role of who said it if it was said, the content
/// unless the scope has one, and for the rest what the scope has.
pub proof fn law_memory_payload(
    scope: Map<Seq<char>, Seq<char>>,
    content: Seq<char>,
    role: Option<Role>,
    key: Seq<char>,
)
    ensures
        ({
            let payload = adding::memory_payload(scope, content, role);
            &&& payload.contains_key("content"@)
            &&& !scope.contains_key("content"@) ==> payload["content"@] == content
            &&& scope.contains_key("content"@) ==> payload["content"@] == scope["content"@]
            &&& role == Some(Role::User) ==> payload.contains_key("role"@) && payload["role"@]
                == "user"@
            &&& role == Some(Role::Assistant) ==> payload.contains_key("role"@) && payload["role"@]
                == "assistant"@
            &&& role == Some(Role::System) ==> payload.contains_key("role"@) && payload["role"@]
                == "system"@
            &&& key != "content"@ && (role is None || key != "role"@) ==> {
                &&& payload.contains_key(key) == scope.contains_key(key)
                &&& scope.contains_key(key) ==> payload[key] == scope[key]
            }
        }),
{
    reveal_strlit("content");
    reveal_strlit("role");
    assert("content"@.len() != "role"@.len());
}

/// Whether a record is that of an entity in a scope: it is marked as one, it has
/// all entries of the scope, and it has the kind and the name of the entity.
pub open spec fn is_of_entity(
    payload: Map<Seq<char>, Seq<char>>,
    scope: Map<Seq<char>, Seq<char>>,
    kind: EntityType,
    name: Seq<char>,
) -> bool {
    &&& !memories::is_memory(payload)
    &&& forall|key: Seq<char>| #[trigger]
        scope.contains_key(key) ==> payload.contains_key(key) && payload[key] == scope[key]
    &&& payload.contains_key("entity_type"@)
    &&& kind is Proper ==> payload["entity_type"@] == "proper"@
    &&& kind is Quoted ==> payload["entity_type"@] == "quoted"@
    &&& payload.contains_key("entity_text"@)
    &&& payload["entity_text"@] == name
}

/// Whether a record links a memory: the memory's id stands between the commas of
/// the list.
pub open spec fn names_memory(payload: Map<Seq<char>, Seq<char>>, memory_id: Seq<char>) -> bool {
    payload.contains_key("linked_memory_ids"@) && text::split_on(
        payload["linked_memory_ids"@],
        CharClass::Only(','),
    ).contains(memory_id)
}

/// Whether a key is one of those that only records of entities have.
pub open spec fn is_entity_key(key: Seq<char>) -> bool {
    key == "__memoria_record_kind"@ || key == "entity_type"@ || key == "entity_text"@ || key
        == "linked_memory_ids"@
}

proof fn lemma_entity_keys()
    ensures
        "__memoria_record_kind"@ != "entity_type"@,
        "__memoria_record_kind"@ != "entity_text"@,
        "__memoria_record_kind"@ != "linked_memory_ids"@,
        "entity_type"@ != "entity_text"@,
        "entity_type"@ != "linked_memory_ids"@,
        "entity_text"@ != "linked_memory_ids"@,
        "proper"@ != "quoted"@,
{
    reveal_strlit("__memoria_record_kind");
    reveal_strlit("entity_type");
    reveal_strlit("entity_text");
    reveal_strlit("linked_memory_ids");
    reveal_strlit("proper");
    reveal_strlit("quoted");
    assert("entity_type"@[8] == 'y');
    assert("entity_text"@[8] == 'e');
    assert("entity_type"@.len() == 11);
    assert("entity_text"@.len() == 11);
    assert("linked_memory_ids"@.len() == 17);
    assert("__memoria_record_kind"@.len() == 21);
    assert("proper"@[0] == 'p');
    assert("quoted"@[0] == 'q');
}

proof fn lemma_first_record_is_found(
    records: Map<Seq<char>, RecordModel>,
    ids: Seq<Seq<char>>,
    scope: Map<Seq<char>, Seq<char>>,
    kind: EntityType,
    name: Seq<char>,
    k: int,
)
    requires
        0 <= k < ids.len(),
        adding::describes(records[ids[k]].payload, scope, kind, name),
    ensures
        adding::first_record(records, ids, scope, kind, name) is Some,
    decreases ids.len(),
{
    if !adding::describes(records[ids[0]].payload, scope, kind, name) {
        assert(ids.skip(1)[k - 1] == ids[k]);
        lemma_first_record_is_found(records, ids.skip(1), scope, kind, name, k - 1);
    }
}

/// Linking a memory to an entity leaves a record of the entity in the scope that
/// links the memory. It is the one that was there if one was, and no record is new
/// then; else it is new, with the vector of the entity's name, and links nothing
/// else. No other record changes, and no history does. Left out are a scope with
/// keys that only records of entities have, an id with a comma, and a store with
/// more records than a list can hold.
pub proof fn law_link<E: EmbeddingProvider, V: VectorStore>(
    embedding: E,
    scope: Map<Seq<char>, Seq<char>>,
    stamp: Stamp,
    memory_id: Seq<char>,
    entity: (EntityType, Seq<char>),
    before: State<V>,
    after: State<V>,
    other: Seq<char>,
) -> (id: Seq<char>)
    requires
        adding::may_link(embedding, scope, stamp, memory_id, entity, before, after),
        forall|key: Seq<char>| #[trigger] scope.contains_key(key) ==> !is_entity_key(key),
        text::lacks(memory_id, CharClass::Only(',')),
        before.store.order().len() <= usize::MAX,
    ensures
        after.store.records().contains_key(id),
        is_of_entity(after.store.records()[id].payload, scope, entity.0, entity.1),
        names_memory(after.store.records()[id].payload, memory_id),
        (exists|known: Seq<char>| #[trigger]
            before.store.records().contains_key(known) && is_of_entity(
                before.store.records()[known].payload,
                scope,
                entity.0,
                entity.1,
            )) ==> {
            &&& before.store.records().contains_key(id)
            &&& is_of_entity(before.store.records()[id].payload, scope, entity.0, entity.1)
            &&& after.store.records()[id].vector == before.store.records()[id].vector
            &&& after.counter == before.counter
        },
        !(exists|known: Seq<char>| #[trigger]
            before.store.records().contains_key(known) && is_of_entity(
                before.store.records()[known].payload,
                scope,
                entity.0,
                entity.1,
            )) ==> {
            &&& id == memory::entity_id(stamp, before.counter)
            &&& embedding.may_embed(entity.1, Ok(after.store.records()[id].vector))
            &&& after.store.records()[id].payload["linked_memory_ids"@] == memory_id
            &&& after.counter == adding::next(before.counter)
        },
        other != id ==> {
            &&& after.store.records().contains_key(other) == before.store.records().contains_key(
                other,
            )
            &&& before.store.records().contains_key(other) ==> after.store.records()[other]
                == before.store.records()[other]
        },
        before.store.records().contains_key(id) && is_of_entity(
            before.store.records()[id].payload,
            scope,
            entity.0,
            entity.1,
        ) && names_memory(before.store.records()[id].payload, other) ==> names_memory(
            after.store.records()[id].payload,
            other,
        ),
        after.log == before.log,
{
    lemma_entity_keys();
    let records = before.store.records();
    let ids = vector_store::all_ids(before.store);
    let class = CharClass::Only(',');
    vector_store::lemma_all_ids(before.store);
    adding::lemma_first_record_describes(records, ids, scope, entity.0, entity.1);
    match adding::first_record(records, ids, scope, entity.0, entity.1) {
        Some(id) => {
            assert(is_of_entity(records[id].payload, scope, entity.0, entity.1));
            let links = searching::links(records[id].payload);
            if !links.contains(memory_id) {
                let new = adding::with_link(id, records[id], memory_id);
                adding::law_links_grow_by_one(id, records[id], memory_id);
                let more = links.push(memory_id);
                assert(more[links.len() as int] == memory_id);
                assert(searching::links(new.payload).contains(memory_id));
                assert(after.store.records()[id] == new);
                assert(new.payload.contains_key("linked_memory_ids"@));
                assert(is_of_entity(new.payload, scope, entity.0, entity.1)) by {
                    assert forall|key: Seq<char>| #[trigger] scope.contains_key(key) implies
                        new.payload.contains_key(key) && new.payload[key] == scope[key] by {
                        assert(!is_entity_key(key));
                    }
                }
                if links.contains(other) {
                    let k = choose|k: int| 0 <= k < links.len() && links[k] == other;
                    assert(more[k] == other);
                }
            }
            id
        },
        None => {
            let id = memory::entity_id(stamp, before.counter);
            let vector = choose|vector: Seq<u32>| #[trigger]
                embedding.may_embed(entity.1, Ok(vector)) && adding::puts(
                    before,
                    after,
                    RecordModel {
                        id,
                        vector,
                        payload: adding::entity_payload(scope, entity.0, entity.1, memory_id),
                    },
                );
            let payload = adding::entity_payload(scope, entity.0, entity.1, memory_id);
            assert(after.store.records()[id].payload == payload);
            assert forall|key: Seq<char>| #[trigger] scope.contains_key(key) implies
                payload.contains_key(key) && payload[key] == scope[key] by {
                assert(!is_entity_key(key));
            }
            text::laws::law_split(memory_id, ',', memory_id, class);
            assert(text::split_on(memory_id, class)[0] == memory_id);
            assert forall|known: Seq<char>| #[trigger] records.contains_key(known) implies
                !is_of_entity(records[known].payload, scope, entity.0, entity.1) by {
                if is_of_entity(records[known].payload, scope, entity.0, entity.1) {
                    assert(ids.contains(known));
                    let k = choose|k: int| 0 <= k < ids.len() && ids[k] == known;
                    lemma_first_record_is_found(records, ids, scope, entity.0, entity.1, k);
                }
            }
            if records.contains_key(id) {
                assert(!is_of_entity(records[id].payload, scope, entity.0, entity.1));
            }
            id
        },
    }
}

/// Whether a store has a record of an entity in a scope that links a memory.
pub open spec fn is_linked(
    records: Map<Seq<char>, RecordModel>,
    scope: Map<Seq<char>, Seq<char>>,
    entity: (EntityType, Seq<char>),
    memory_id: Seq<char>,
) -> bool {
    exists|id: Seq<char>| #[trigger]
        records.contains_key(id) && is_of_entity(records[id].payload, scope, entity.0, entity.1)
            && names_memory(records[id].payload, memory_id)
}

/// An item that is stored is there under its id with its vector and its payload,
/// its history begins with it, and then every entity that its content names is
/// linked with it, one after another. Stores with more records than a list can
/// hold are left out, and so are scopes with keys that only records of entities
/// have.
pub proof fn law_stored_and_linked<E: EmbeddingProvider, V: VectorStore>(
    embedding: E,
    scope: Map<Seq<char>, Seq<char>>,
    stamp: Stamp,
    item: Item,
    vector: Seq<u32>,
    before: State<V>,
    after: State<V>,
    id: Seq<char>,
) -> (states: Seq<State<V>>)
    requires
        adding::may_add_item(embedding, scope, stamp, item, vector, before, after, Some(id)),
        forall|key: Seq<char>| #[trigger] scope.contains_key(key) ==> !is_entity_key(key),
    ensures
        states.len() == entity::entities_in(item.content).len() + 1,
        states.last() == after,
        id == memory::record_id(stamp, before.counter),
        states[0].store.records().contains_key(id),
        states[0].store.records()[id].id == id,
        states[0].store.records()[id].vector == vector,
        states[0].store.records()[id].payload == adding::memory_payload(
            scope,
            item.content,
            item.role,
        ),
        forall|other: Seq<char>|
            other != id ==> {
                &&& #[trigger] states[0].store.records().contains_key(other)
                    == before.store.records().contains_key(other)
                &&& before.store.records().contains_key(other) ==> states[0].store.records()[other]
                    == before.store.records()[other]
            },
        before.counter < u64::MAX ==> states[0].counter == before.counter + 1,
        states[0].log.contains_key(id),
        states[0].log[id].len() > 0,
        states[0].log[id].last().event is Added,
        states[0].log[id].last().content == item.content,
        states[0].log[id].drop_last() == if before.log.contains_key(id) {
            before.log[id]
        } else {
            Seq::empty()
        },
        forall|i: int|
            0 <= i < entity::entities_in(item.content).len()
                && states[i].store.order().len() <= usize::MAX ==> is_linked(
                states[i + 1].store.records(),
                scope,
                #[trigger] entity::entities_in(item.content)[i],
                id,
            ),
{
    let entities = entity::entities_in(item.content);
    let payload = adding::memory_payload(scope, item.content, item.role);
    let stored = choose|stored: State<V>|
        {
            &&& #[trigger] adding::stores(before, stored, stamp, vector, payload, item.content)
            &&& adding::may_link_all(embedding, scope, stamp, id, entities, stored, after)
        };
    let states = choose|states: Seq<State<V>>|
        {
            &&& #[trigger] adding::links_through(embedding, scope, stamp, id, entities, states)
            &&& states[0] == stored
            &&& states.last() == after
        };
    memory::law_record_ids_have_no_comma(stamp, before.counter);
    assert forall|i: int|
        0 <= i < entities.len() && states[i].store.order().len() <= usize::MAX implies is_linked(
        states[i + 1].store.records(),
        scope,
        #[trigger] entities[i],
        id,
    ) by {
        let known = law_link(
            embedding,
            scope,
            stamp,
            id,
            entities[i],
            states[i],
            states[i + 1],
            id,
        );
        assert(states[i + 1].store.records().contains_key(known));
    }
    assert(stored.log[id].drop_last() =~= history::log_at(before.log, id));
    states
}

/// Memories whose scope names no one are refused, and so are those whose scope has
/// more bytes than is allowed; nothing changes then.
pub proof fn law_refused_scopes<L: LlmProvider, E: EmbeddingProvider, V: VectorStore>(
    setup: Setup<L, E>,
    before: State<V>,
    after: State<V>,
    messages: Seq<MessageModel>,
    scope: Payload,
    infer: bool,
    stamp: Stamp,
    r: Result<Vec<String>, CoreError>,
)
    requires
        adding::may_add_with(setup, before, after, messages, scope, infer, stamp, r),
    ensures
        ({
            let named = scope@.contains_key("user_id"@) || scope@.contains_key("agent_id"@)
                || scope@.contains_key("run_id"@);
            let bytes = payload::entry_bytes(scope.entries());
            let large = setup.max_metadata_bytes is Some && bytes > setup.max_metadata_bytes->0;
            &&& !named ==> after == before && r is Err && r->Err_0 is Validation
                && r->Err_0->Validation_0@
                == "scope must contain user_id, agent_id, or run_id"@
            &&& named && large ==> after == before && r is Err && r->Err_0 is Validation
                && r->Err_0->Validation_0@ == "metadata payload of "@ + text::decimal(bytes)
                + " bytes exceeds the configured limit of "@ + text::decimal(
                setup.max_metadata_bytes->0 as nat,
            ) + " bytes"@
        }),
{
}

/// Why a message is refused: it is empty, or it has more bytes than is allowed.
pub open spec fn is_refused(message: MessageModel, max: Option<usize>) -> bool {
    message.content.len() == 0 || max is Some && vstd::utf8::encode_utf8(message.content).len()
        > max->0
}

proof fn lemma_messages_problem(messages: Seq<MessageModel>, max: Option<usize>)
    ensures
        match adding::messages_problem(messages, max) {
            None => forall|i: int|
                0 <= i < messages.len() ==> !is_refused(#[trigger] messages[i], max),
            Some(problem) => exists|i: int|
                {
                    &&& 0 <= i < messages.len()
                    &&& is_refused(#[trigger] messages[i], max)
                    &&& forall|j: int| 0 <= j < i ==> !is_refused(#[trigger] messages[j], max)
                    &&& messages[i].content.len() == 0 ==> problem
                        == "message content must not be empty"@
                    &&& messages[i].content.len() > 0 ==> problem == "message content of "@
                        + text::decimal(vstd::utf8::encode_utf8(messages[i].content).len())
                        + " bytes exceeds the configured limit of "@ + text::decimal(max->0 as nat)
                        + " bytes"@
                },
        },
    decreases messages.len(),
{
    if messages.len() > 0 {
        let rest = messages.skip(1);
        lemma_messages_problem(rest, max);
        assert forall|i: int| 0 <= i < rest.len() implies #[trigger] rest[i] == messages[i + 1] by {}
        if adding::message_problem(messages[0], max) is Some {
            assert(is_refused(messages[0], max));
        } else {
            match adding::messages_problem(rest, max) {
                None => {
                    assert forall|i: int| 0 <= i < messages.len() implies !is_refused(
                        #[trigger] messages[i],
                        max,
                    ) by {
                        if i > 0 {
                            assert(!is_refused(rest[i - 1], max));
                        }
                    }
                },
                Some(problem) => {
                    let i = choose|i: int|
                        {
                            &&& 0 <= i < rest.len()
                            &&& is_refused(#[trigger] rest[i], max)
                            &&& forall|j: int| 0 <= j < i ==> !is_refused(#[trigger] rest[j], max)
                            &&& rest[i].content.len() == 0 ==> problem
                                == "message content must not be empty"@
                            &&& rest[i].content.len() > 0 ==> problem == "message content of "@
                                + text::decimal(vstd::utf8::encode_utf8(rest[i].content).len())
                                + " bytes exceeds the configured limit of "@ + text::decimal(
                                max->0 as nat,
                            ) + " bytes"@
                        };
                    assert(is_refused(messages[i + 1], max));
                    assert forall|j: int| 0 <= j < i + 1 implies !is_refused(
                        #[trigger] messages[j],
                        max,
                    ) by {
                        if j > 0 {
                            assert(!is_refused(rest[j - 1], max));
                        }
                    }
                },
            }
        }
    }
}

/// Messages without images of which one is empty or too long are refused, and
/// nothing changes; the first such message says why.
pub proof fn law_refused_messages<L: LlmProvider, E: EmbeddingProvider, V: VectorStore>(
    setup: Setup<L, E>,
    before: State<V>,
    after: State<V>,
    messages: Seq<MessageModel>,
    scope: Payload,
    infer: bool,
    stamp: Stamp,
    r: Result<Vec<String>, CoreError>,
    i: int,
)
    requires
        adding::may_add_with(setup, before, after, messages, scope, infer, stamp, r),
        adding::scope_problem(setup, scope) is None,
        forall|j: int| 0 <= j < messages.len() ==> (#[trigger] messages[j]).images.len() == 0,
        0 <= i < messages.len(),
        is_refused(messages[i], setup.max_content_length),
        forall|j: int|
            0 <= j < i ==> !is_refused(#[trigger] messages[j], setup.max_content_length),
    ensures
        after == before,
        r is Err,
        r->Err_0 is Validation,
        messages[i].content.len() == 0 ==> r->Err_0->Validation_0@
            == "message content must not be empty"@,
        messages[i].content.len() > 0 ==> r->Err_0->Validation_0@ == "message content of "@
            + text::decimal(vstd::utf8::encode_utf8(messages[i].content).len())
            + " bytes exceeds the configured limit of "@ + text::decimal(
            setup.max_content_length->0 as nat,
        ) + " bytes"@,
{
    let max = setup.max_content_length;
    lemma_messages_problem(messages, max);
    assert forall|resolved: Seq<MessageModel>| #[trigger]
        adding::may_stand_in(setup.llm, messages, resolved) implies resolved == messages by {
        assert forall|j: int| 0 <= j < messages.len() implies resolved[j] == messages[j] by {
            assert(adding::may_describe(setup.llm, messages[j], resolved[j]));
        }
        assert(resolved =~= messages);
    }
    assert(is_refused(messages[i], max));
    let problem = adding::messages_problem(messages, max);
    assert(problem is Some);
    let k = choose|k: int|
        {
            &&& 0 <= k < messages.len()
            &&& is_refused(#[trigger] messages[k], max)
            &&& forall|j: int| 0 <= j < k ==> !is_refused(#[trigger] messages[j], max)
            &&& messages[k].content.len() == 0 ==> problem->0
                == "message content must not be empty"@
            &&& messages[k].content.len() > 0 ==> problem->0 == "message content of "@
                + text::decimal(vstd::utf8::encode_utf8(messages[k].content).len())
                + " bytes exceeds the configured limit of "@ + text::decimal(max->0 as nat)
                + " bytes"@
        };
    assert(k == i) by {
        if k < i {
            assert(!is_refused(messages[k], max));
        }
        if i < k {
            assert(!is_refused(messages[i], max));
        }
    }
}

/// An item is left out where a record of the scope with its content is among the
/// hundred that are nearest to it, and nothing changes then. It is stored where no
/// such record is among those that were found, or none could be looked for.
pub proof fn law_known_or_new<E: EmbeddingProvider, V: VectorStore>(
    embedding: E,
    scope: Map<Seq<char>, Seq<char>>,
    stamp: Stamp,
    item: Item,
    vector: Seq<u32>,
    before: State<V>,
    after: State<V>,
    id: Option<Seq<char>>,
) -> (outcome: Result<Seq<ResultModel>, VectorStoreError>)
    requires
        adding::may_add_item(embedding, scope, stamp, item, vector, before, after, id),
    ensures
        before.store.may_find(vector, 100, scope, None, outcome),
        id is None ==> {
            &&& after == before
            &&& outcome is Ok
            &&& exists|i: int|
                {
                    &&& 0 <= i < outcome->Ok_0.len()
                    &&& (#[trigger] outcome->Ok_0[i]).payload.contains_key("content"@)
                    &&& outcome->Ok_0[i].payload["content"@] == item.content
                }
        },
        id is Some ==> {
            &&& id->0 == memory::record_id(stamp, before.counter)
            &&& outcome is Ok ==> forall|i: int|
                {
                    &&& 0 <= i < outcome->Ok_0.len()
                    &&& (#[trigger] outcome->Ok_0[i]).payload.contains_key("content"@)
                } ==> outcome->Ok_0[i].payload["content"@] != item.content
        },
        outcome is Ok ==> forall|i: int|
            0 <= i < outcome->Ok_0.len() ==> {
                let r = #[trigger] outcome->Ok_0[i];
                before.store.records().contains_key(r.id) && r.payload
                    == before.store.records()[r.id].payload
            },
{
    let limit = adding::DUPLICATE_CANDIDATES as nat;
    let records = before.store.records();
    if id is None {
        let found = choose|found: Seq<ResultModel>|
            {
                &&& adding::has_content(found, item.content)
                &&& #[trigger] before.store.may_find(vector, limit, scope, None, Ok(found))
                &&& vector_store::sound_results(records, limit, scope, None, found)
            };
        Ok(found)
    } else {
        let outcome = choose|outcome: Result<Seq<ResultModel>, VectorStoreError>|
            {
                &&& #[trigger] before.store.may_find(vector, limit, scope, None, outcome)
                &&& outcome matches Ok(found) ==> !adding::has_content(found, item.content)
                    && vector_store::sound_results(records, limit, scope, None, found)
            };
        outcome
    }
}

/// A procedure is refused where the model fails to sum it up, sums it up in no
/// words, or sums it up in words that cannot be embedded.
pub proof fn law_refused_procedure<L: LlmProvider, E: EmbeddingProvider>(
    setup: Setup<L, E>,
    messages: Seq<MessageModel>,
    err: CoreError,
)
    requires
        adding::may_refuse_procedure(setup, messages, err),
    ensures
        ({
            let question = llm::prompt(
                "Summarize the procedure that the conversation records. List each action with its result, in order."@,
                messages,
            );
            ||| memory::reports_llm(setup.llm, question, err)
            ||| setup.llm.may_answer(question, Ok(Seq::empty())) && err.is_validation(
                "the LLM returned no content for the procedural memory summary -- the model may have declined the request or returned an empty response"@,
            )
            ||| exists|summary: Seq<char>|
                {
                    &&& #[trigger] setup.llm.may_answer(question, Ok(summary))
                    &&& summary.len() > 0
                    &&& memory::reports_embedding(setup.embedding, summary, err)
                }
        }),
{
    let question = llm::prompt(llm::PROCEDURE_PROMPT@, messages);
    if !memory::reports_llm(setup.llm, question, err) {
        let summary = choose|summary: Seq<char>|
            {
                &&& #[trigger] setup.llm.may_answer(question, Ok(summary))
                &&& if summary.len() == 0 {
                    err.is_validation(adding::PROCEDURE_WITHOUT_SUMMARY@)
                } else {
                    memory::reports_embedding(setup.embedding, summary, err)
                }
            };
        if summary.len() == 0 {
            assert(summary =~= Seq::empty());
        }
    }
}

/// The ids that adding gives are those that were given, in order: none for what
/// was left out.
pub proof fn law_given_ids(marks: Seq<Option<Seq<char>>>, mark: Option<Seq<char>>)
    ensures
        adding::given(Seq::empty()) == Seq::<Seq<char>>::empty(),
        mark is None ==> adding::given(marks.push(mark)) == adding::given(marks),
        mark is Some ==> adding::given(marks.push(mark)) == adding::given(marks).push(mark->0),
{
    assert(marks.push(mark).drop_last() =~= marks);
}

/// Whether some items are added one after another, each with a vector of its own
/// content, and these ids come of it.
pub open spec fn are_added<E: EmbeddingProvider, V: VectorStore>(
    embedding: E,
    scope: Map<Seq<char>, Seq<char>>,
    stamp: Stamp,
    items: Seq<Item>,
    before: State<V>,
    after: State<V>,
    ids: Seq<Seq<char>>,
    vectors: Seq<Seq<u32>>,
    states: Seq<State<V>>,
    marks: Seq<Option<Seq<char>>>,
) -> bool {
    &&& vectors.len() == items.len()
    &&& marks.len() == items.len()
    &&& states.len() == items.len() + 1
    &&& states[0] == before
    &&& states.last() == after
    &&& ids == adding::given(marks)
    &&& forall|i: int|
        0 <= i < items.len() ==> embedding.may_embed((#[trigger] items[i]).content, Ok(vectors[i]))
            && adding::may_add_item(
            embedding,
            scope,
            stamp,
            items[i],
            vectors[i],
            states[i],
            states[i + 1],
            marks[i],
        )
}

/// Whether a scope asks for the procedure of an agent.
pub open spec fn asks_for_procedure(scope: Map<Seq<char>, Seq<char>>) -> bool {
    scope.contains_key("memory_type"@) && scope["memory_type"@] == "procedural_memory"@
        && scope.contains_key("agent_id"@)
}

/// Adding messages as they are adds each message, in order, with its content and
/// with the role of who said it; a message with images has the content that the
/// model says of them.
pub proof fn law_add_as_said<L: LlmProvider, E: EmbeddingProvider, V: VectorStore>(
    setup: Setup<L, E>,
    scope: Map<Seq<char>, Seq<char>>,
    stamp: Stamp,
    messages: Seq<MessageModel>,
    before: State<V>,
    after: State<V>,
    ids: Seq<Seq<char>>,
)
    requires
        adding::may_add(setup, scope, stamp, messages, false, before, after, ids),
        !asks_for_procedure(scope),
    ensures
        exists|
            items: Seq<Item>,
            vectors: Seq<Seq<u32>>,
            states: Seq<State<V>>,
            marks: Seq<Option<Seq<char>>>,
        |
            {
                &&& #[trigger] are_added(
                    setup.embedding,
                    scope,
                    stamp,
                    items,
                    before,
                    after,
                    ids,
                    vectors,
                    states,
                    marks,
                )
                &&& items.len() == messages.len()
                &&& forall|i: int|
                    0 <= i < messages.len() ==> {
                        let said = #[trigger] messages[i];
                        &&& items[i].role == Some(said.role)
                        &&& items[i].content.len() > 0
                        &&& said.images.len() == 0 ==> items[i].content == said.content
                        &&& said.images.len() > 0 ==> setup.llm.may_answer(
                            llm::image_question(said.images),
                            Ok(items[i].content),
                        )
                    }
            },
{
    let resolved = choose|resolved: Seq<MessageModel>|
        {
            &&& #[trigger] adding::may_stand_in(setup.llm, messages, resolved)
            &&& adding::messages_problem(resolved, setup.max_content_length) is None
            &&& adding::may_add_items(setup, scope, stamp, resolved, false, before, after, ids)
        };
    lemma_messages_problem(resolved, setup.max_content_length);
    let (items, vectors, states, marks) = choose|
        items: Seq<Item>,
        vectors: Seq<Seq<u32>>,
        states: Seq<State<V>>,
        marks: Seq<Option<Seq<char>>>,
    |
        {
            &&& adding::may_give(setup.llm, resolved, false, items)
            &&& adding::may_embed_all(setup.embedding, items, vectors)
            &&& #[trigger] adding::adds_through(
                setup.embedding,
                scope,
                stamp,
                items,
                vectors,
                states,
                marks,
            )
            &&& states[0] == before
            &&& states.last() == after
            &&& ids == adding::given(marks)
        };
    assert forall|i: int| 0 <= i < messages.len() implies {
        let said = #[trigger] messages[i];
        &&& items[i].role == Some(said.role)
        &&& items[i].content.len() > 0
        &&& said.images.len() == 0 ==> items[i].content == said.content
        &&& said.images.len() > 0 ==> setup.llm.may_answer(
            llm::image_question(said.images),
            Ok(items[i].content),
        )
    } by {
        assert(adding::may_describe(setup.llm, messages[i], resolved[i]));
        assert(!is_refused(resolved[i], setup.max_content_length));
    }
    assert(are_added(
        setup.embedding,
        scope,
        stamp,
        items,
        before,
        after,
        ids,
        vectors,
        states,
        marks,
    ));
}

/// Adding what a model finds asks the model for the facts in the conversation,
/// and adds each fact that it answers with, in order, as said by no one.
pub proof fn law_add_facts<L: LlmProvider, E: EmbeddingProvider, V: VectorStore>(
    setup: Setup<L, E>,
    scope: Map<Seq<char>, Seq<char>>,
    stamp: Stamp,
    messages: Seq<MessageModel>,
    before: State<V>,
    after: State<V>,
    ids: Seq<Seq<char>>,
)
    requires
        adding::may_add(setup, scope, stamp, messages, true, before, after, ids),
        !asks_for_procedure(scope),
        forall|j: int| 0 <= j < messages.len() ==> (#[trigger] messages[j]).images.len() == 0,
    ensures
        exists|
            answer: Seq<char>,
            items: Seq<Item>,
            vectors: Seq<Seq<u32>>,
            states: Seq<State<V>>,
            marks: Seq<Option<Seq<char>>>,
        |
            {
                &&& #[trigger] are_added(
                    setup.embedding,
                    scope,
                    stamp,
                    items,
                    before,
                    after,
                    ids,
                    vectors,
                    states,
                    marks,
                )
                &&& #[trigger] setup.llm.may_answer(
                    llm::prompt(
                        "Extract discrete factual statements from the conversation. Output one fact per line. Do not number them. Do not add blank lines."@,
                        messages,
                    ),
                    Ok(answer),
                )
                &&& items.len() == llm::facts_in(answer).len()
                &&& forall|i: int|
                    0 <= i < items.len() ==> (#[trigger] items[i]).content == llm::facts_in(
                        answer,
                    )[i] && items[i].role is None
            },
{
    let resolved = choose|resolved: Seq<MessageModel>|
        {
            &&& #[trigger] adding::may_stand_in(setup.llm, messages, resolved)
            &&& adding::messages_problem(resolved, setup.max_content_length) is None
            &&& adding::may_add_items(setup, scope, stamp, resolved, true, before, after, ids)
        };
    assert forall|j: int| 0 <= j < messages.len() implies resolved[j] == messages[j] by {
        assert(adding::may_describe(setup.llm, messages[j], resolved[j]));
    }
    assert(resolved =~= messages);
    let (items, vectors, states, marks) = choose|
        items: Seq<Item>,
        vectors: Seq<Seq<u32>>,
        states: Seq<State<V>>,
        marks: Seq<Option<Seq<char>>>,
    |
        {
            &&& adding::may_give(setup.llm, resolved, true, items)
            &&& adding::may_embed_all(setup.embedding, items, vectors)
            &&& #[trigger] adding::adds_through(
                setup.embedding,
                scope,
                stamp,
                items,
                vectors,
                states,
                marks,
            )
            &&& states[0] == before
            &&& states.last() == after
            &&& ids == adding::given(marks)
        };
    let answer = choose|answer: Seq<char>| #[trigger]
        setup.llm.may_answer(llm::prompt(llm::EXTRACTION_PROMPT@, messages), Ok(answer)) && items
            == adding::fact_items(llm::facts_in(answer));
    assert(are_added(
        setup.embedding,
        scope,
        stamp,
        items,
        before,
        after,
        ids,
        vectors,
        states,
        marks,
    ));
    assert(setup.llm.may_answer(llm::prompt(llm::EXTRACTION_PROMPT@, messages), Ok(answer)));
}

/// Adding the procedure of an agent asks the model for a summary, and stores that
/// as one memory in the scope, with the vector of the summary; no entity is
/// linked. A summary is never empty.
pub proof fn law_add_procedure<L: LlmProvider, E: EmbeddingProvider, V: VectorStore>(
    setup: Setup<L, E>,
    scope: Map<Seq<char>, Seq<char>>,
    stamp: Stamp,
    messages: Seq<MessageModel>,
    infer: bool,
    before: State<V>,
    after: State<V>,
    ids: Seq<Seq<char>>,
    key: Seq<char>,
)
    requires
        adding::may_add(setup, scope, stamp, messages, infer, before, after, ids),
        asks_for_procedure(scope),
        forall|j: int| 0 <= j < messages.len() ==> (#[trigger] messages[j]).images.len() == 0,
    ensures
        ({
            let id = memory::record_id(stamp, before.counter);
            let record = after.store.records()[id];
            let summary = record.payload["content"@];
            &&& ids == seq![id]
            &&& after.store.records().contains_key(id)
            &&& record.payload.contains_key("content"@)
            &&& summary.len() > 0
            &&& setup.llm.may_answer(
                llm::prompt(
                    "Summarize the procedure that the conversation records. List each action with its result, in order."@,
                    messages,
                ),
                Ok(summary),
            )
            &&& setup.embedding.may_embed(summary, Ok(record.vector))
            &&& key != "content"@ ==> {
                &&& record.payload.contains_key(key) == scope.contains_key(key)
                &&& scope.contains_key(key) ==> record.payload[key] == scope[key]
            }
            &&& after.log.contains_key(id) && after.log[id].len() > 0
            &&& after.log[id].last().event is Added
            &&& after.log[id].last().content == summary
            &&& after.store.records().remove(id) == before.store.records().remove(id)
        }),
{
    let resolved = choose|resolved: Seq<MessageModel>|
        {
            &&& #[trigger] adding::may_stand_in(setup.llm, messages, resolved)
            &&& adding::messages_problem(resolved, setup.max_content_length) is None
            &&& adding::may_add_procedure(setup, scope, stamp, resolved, before, after, ids)
        };
    assert forall|j: int| 0 <= j < messages.len() implies resolved[j] == messages[j] by {
        assert(adding::may_describe(setup.llm, messages[j], resolved[j]));
    }
    assert(resolved =~= messages);
    let (summary, vector) = choose|summary: Seq<char>, vector: Seq<u32>|
        {
            &&& setup.llm.may_answer(
                llm::prompt(llm::PROCEDURE_PROMPT@, resolved),
                Ok(summary),
            )
            &&& summary.len() > 0
            &&& setup.embedding.may_embed(summary, Ok(vector))
            &&& #[trigger] adding::stores(
                before,
                after,
                stamp,
                vector,
                scope.insert("content"@, summary),
                summary,
            )
            &&& ids == seq![memory::record_id(stamp, before.counter)]
        };
    let id = memory::record_id(stamp, before.counter);
    assert(adding::stores(
        before,
        after,
        stamp,
        vector,
        scope.insert("content"@, summary),
        summary,
    ));
    assert(after.store.records().remove(id) =~= before.store.records().remove(id));
}

} // verus!
