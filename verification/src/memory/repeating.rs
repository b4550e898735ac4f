//! What adding or linking once more leaves as it is.

use super::adding;
use super::adding::{Item, State};
use super::searching;
use super::{
    Setup, Stamp, ENTITY_RECORD_KIND_KEY, ENTITY_TEXT_KEY, ENTITY_TYPE_KEY,
    LINKED_MEMORY_IDS_KEY,
};
use crate::embedding;
use crate::embedding::{EmbeddingError, EmbeddingProvider};
use crate::entity;
use crate::entity::EntityType;
use crate::error::CoreError;
use crate::llm;
use crate::llm::{LlmError, LlmProvider, MessageModel, Role};
use crate::payload;
use crate::payload::Payload;
use crate::text;
use crate::text::CharClass;
use crate::vector_store;
use crate::vector_store::{InMemoryVectorStore, RecordModel, StoreRequest, VectorStore};
use vstd::prelude::*;

verus! {

/// Whether no record has an id that ends in one of the next numbers.
pub open spec fn are_free(
    records: Map<Seq<char>, RecordModel>,
    stamp: Stamp,
    counter: u64,
    n: nat,
) -> bool {
    forall|k: nat|
        k < n ==> {
            let number = #[trigger] adding::advance(counter, k);
            &&& !records.contains_key(super::record_id(stamp, number))
            &&& !records.contains_key(super::entity_id(stamp, number))
        }
}

/// Taking a number for a record leaves the numbers after it free.
proof fn lemma_free_after(
    records: Map<Seq<char>, RecordModel>,
    after: Map<Seq<char>, RecordModel>,
    stamp: Stamp,
    counter: u64,
    n: nat,
    new: Seq<char>,
)
    requires
        are_free(records, stamp, counter, n),
        0 < n <= adding::all_numbers(),
        new == super::record_id(stamp, counter) || new == super::entity_id(stamp, counter),
        forall|id: Seq<char>| #[trigger]
            after.contains_key(id) ==> records.contains_key(id) || id == new,
    ensures
        !records.contains_key(new),
        are_free(after, stamp, adding::next(counter), (n - 1) as nat),
{
    adding::lemma_advance(counter, 0);
    assert(!records.contains_key(super::record_id(stamp, adding::advance(counter, 0))));
    assert forall|k: nat| k < n - 1 implies {
        let number = #[trigger] adding::advance(adding::next(counter), k);
        &&& !after.contains_key(super::record_id(stamp, number))
        &&& !after.contains_key(super::entity_id(stamp, number))
    } by {
        let number = adding::advance(adding::next(counter), k);
        adding::lemma_advance(counter, k);
        assert(number == adding::advance(counter, k + 1));
        adding::lemma_advances_differ(counter, 0, k + 1);
        super::law_record_ids_are_no_entity_ids(stamp, number, stamp, counter);
        super::law_record_ids_are_no_entity_ids(stamp, counter, stamp, number);
        if super::record_id(stamp, number) == super::record_id(stamp, counter) {
            super::law_record_ids_differ(stamp, number, counter);
        }
        if super::entity_id(stamp, number) == super::entity_id(stamp, counter) {
            super::law_entity_ids_differ(stamp, number, counter);
        }
    }
}

/// The keys of the entries that only the records of entities have differ from
/// each other and from that of a content.
proof fn lemma_keys_differ()
    ensures
        LINKED_MEMORY_IDS_KEY@ != "content"@,
        ENTITY_RECORD_KIND_KEY@ != "content"@,
        ENTITY_TYPE_KEY@ != "content"@,
        ENTITY_TEXT_KEY@ != "content"@,
        LINKED_MEMORY_IDS_KEY@ != ENTITY_RECORD_KIND_KEY@,
        LINKED_MEMORY_IDS_KEY@ != ENTITY_TYPE_KEY@,
        LINKED_MEMORY_IDS_KEY@ != ENTITY_TEXT_KEY@,
        ENTITY_RECORD_KIND_KEY@ != ENTITY_TYPE_KEY@,
        ENTITY_RECORD_KIND_KEY@ != ENTITY_TEXT_KEY@,
        ENTITY_TYPE_KEY@ != ENTITY_TEXT_KEY@,
        "content"@ != "role"@,
{
    reveal_strlit("__memoria_record_kind");
    reveal_strlit("entity_type");
    reveal_strlit("entity_text");
    reveal_strlit("linked_memory_ids");
    reveal_strlit("content");
    reveal_strlit("role");
    assert(LINKED_MEMORY_IDS_KEY@.len() == 17);
    assert(ENTITY_RECORD_KIND_KEY@.len() == 21);
    assert(ENTITY_TYPE_KEY@.len() == 11);
    assert(ENTITY_TEXT_KEY@.len() == 11);
    assert(ENTITY_TYPE_KEY@[8] == 'y');
    assert(ENTITY_TEXT_KEY@[8] == 'e');
    assert("content"@.len() == 7);
    assert("role"@.len() == 4);
}

/// Whether linking takes no content out of a scope. It does so where the scope has
/// the links of a record of an entity as one of its entries, and such a record in
/// the scope has a content of its own.
pub open spec fn keeps_contents(
    records: Map<Seq<char>, RecordModel>,
    scope: Map<Seq<char>, Seq<char>>,
) -> bool {
    scope.contains_key(LINKED_MEMORY_IDS_KEY@) ==> {
        &&& !super::is_entity(scope)
        &&& forall|id: Seq<char>| #[trigger]
            records.contains_key(id) && super::is_entity(records[id].payload) && payload::covers(
                records[id].payload,
                scope.remove(LINKED_MEMORY_IDS_KEY@),
            ) ==> !records[id].payload.contains_key("content"@)
    }
}

proof fn lemma_link_keeps_contents<E: EmbeddingProvider, V: VectorStore>(
    embedding: E,
    scope: Map<Seq<char>, Seq<char>>,
    stamp: Stamp,
    memory_id: Seq<char>,
    entity: (EntityType, Seq<char>),
    before: State<V>,
    after: State<V>,
)
    requires
        adding::may_link(embedding, scope, stamp, memory_id, entity, before, after),
        !scope.contains_key("content"@),
        keeps_contents(before.store.records(), scope),
    ensures
        keeps_contents(after.store.records(), scope),
{
    lemma_keys_differ();
    let records = before.store.records();
    let new = after.store.records();
    let rest = scope.remove(LINKED_MEMORY_IDS_KEY@);
    if scope.contains_key(LINKED_MEMORY_IDS_KEY@) {
        assert forall|id: Seq<char>| #[trigger]
            new.contains_key(id) && super::is_entity(new[id].payload) && payload::covers(
                new[id].payload,
                rest,
            ) implies !new[id].payload.contains_key("content"@) by {
            let found = adding::first_record(
                records,
                vector_store::all_ids(before.store),
                scope,
                entity.0,
                entity.1,
            );
            if found is Some || id != super::entity_id(stamp, before.counter) {
                assert(records.contains_key(id));
                assert(payload::covers(records[id].payload, rest)) by {
                    assert forall|key: Seq<char>| #[trigger] rest.contains_key(
                        key,
                    ) implies records[id].payload.contains_key(key) && records[id].payload[key]
                        == rest[key] by {
                        assert(new[id].payload.contains_key(key));
                    }
                }
                assert(super::is_entity(records[id].payload));
            }
        }
    }
}

proof fn lemma_link_keeps_known<E: EmbeddingProvider, V: VectorStore>(
    embedding: E,
    scope: Map<Seq<char>, Seq<char>>,
    stamp: Stamp,
    memory_id: Seq<char>,
    entity: (EntityType, Seq<char>),
    before: State<V>,
    after: State<V>,
    n: nat,
    content: Seq<char>,
)
    requires
        adding::may_link(embedding, scope, stamp, memory_id, entity, before, after),
        are_free(before.store.records(), stamp, before.counter, n),
        0 < n <= adding::all_numbers(),
        keeps_contents(before.store.records(), scope),
    ensures
        are_free(after.store.records(), stamp, after.counter, (n - 1) as nat),
        adding::knows(before.store.records(), scope, content) ==> adding::knows(
            after.store.records(),
            scope,
            content,
        ),
{
    lemma_keys_differ();
    let records = before.store.records();
    let new = super::entity_id(stamp, before.counter);
    let found = adding::first_record(
        records,
        vector_store::all_ids(before.store),
        scope,
        entity.0,
        entity.1,
    );
    if found is None {
        lemma_free_after(records, after.store.records(), stamp, before.counter, n, new);
    }
    if adding::knows(records, scope, content) {
        let id = choose|id: Seq<char>|
            {
                &&& #[trigger] records.contains_key(id)
                &&& payload::covers(records[id].payload, scope)
                &&& records[id].payload.contains_key("content"@)
                &&& records[id].payload["content"@] == content
            };
        assert(after.store.records().contains_key(id));
        if found is None {
            assert(id != new);
        } else if scope.contains_key(LINKED_MEMORY_IDS_KEY@) {
            assert(payload::covers(
                records[id].payload,
                scope.remove(LINKED_MEMORY_IDS_KEY@),
            ));
            assert(!super::is_entity(records[id].payload));
            adding::lemma_first_record_describes(
                records,
                vector_store::all_ids(before.store),
                scope,
                entity.0,
                entity.1,
            );
        } else {
            assert forall|key: Seq<char>| #[trigger] scope.contains_key(key) implies key
                != LINKED_MEMORY_IDS_KEY@ by {}
        }
        assert(payload::covers(after.store.records()[id].payload, scope));
    }
}

proof fn lemma_links_keep_known<E: EmbeddingProvider, V: VectorStore>(
    embedding: E,
    scope: Map<Seq<char>, Seq<char>>,
    stamp: Stamp,
    memory_id: Seq<char>,
    entities: Seq<(EntityType, Seq<char>)>,
    states: Seq<State<V>>,
    n: nat,
    content: Seq<char>,
    k: int,
)
    requires
        adding::links_through(embedding, scope, stamp, memory_id, entities, states),
        are_free(states[0].store.records(), stamp, states[0].counter, n),
        0 <= k <= entities.len() <= n <= adding::all_numbers(),
        !scope.contains_key("content"@),
        keeps_contents(states[0].store.records(), scope),
    ensures
        keeps_contents(states[k].store.records(), scope),
        are_free(states[k].store.records(), stamp, states[k].counter, (n - k) as nat),
        adding::knows(states[0].store.records(), scope, content) ==> adding::knows(
            states[k].store.records(),
            scope,
            content,
        ),
    decreases k,
{
    if k > 0 {
        lemma_links_keep_known(
            embedding,
            scope,
            stamp,
            memory_id,
            entities,
            states,
            n,
            content,
            k - 1,
        );
        assert(adding::may_link(
            embedding,
            scope,
            stamp,
            memory_id,
            entities[k - 1],
            states[k - 1],
            states[k - 1 + 1],
        ));
        lemma_link_keeps_contents(
            embedding,
            scope,
            stamp,
            memory_id,
            entities[k - 1],
            states[k - 1],
            states[k],
        );
        lemma_link_keeps_known(
            embedding,
            scope,
            stamp,
            memory_id,
            entities[k - 1],
            states[k - 1],
            states[k],
            (n - (k - 1)) as nat,
            content,
        );
    }
}

/// Whether a memory in a scope keeps the scope's role if it has the role of who
/// said it.
pub open spec fn fits_role(scope: Map<Seq<char>, Seq<char>>, role: Option<Role>) -> bool {
    role matches Some(said) ==> scope.contains_key("role"@) ==> scope["role"@] == said.keyword()
}

proof fn lemma_item_is_known<E: EmbeddingProvider, V: VectorStore>(
    embedding: E,
    scope: Map<Seq<char>, Seq<char>>,
    stamp: Stamp,
    item: Item,
    vector: Seq<u32>,
    before: State<V>,
    after: State<V>,
    id: Option<Seq<char>>,
    n: nat,
    content: Seq<char>,
)
    requires
        adding::may_add_item(embedding, scope, stamp, item, vector, before, after, id),
        are_free(before.store.records(), stamp, before.counter, n),
        1 + entity::entities_in(item.content).len() <= n <= adding::all_numbers(),
        keeps_contents(before.store.records(), scope),
        !scope.contains_key("content"@),
        fits_role(scope, item.role),
    ensures
        keeps_contents(after.store.records(), scope),
        are_free(
            after.store.records(),
            stamp,
            after.counter,
            (n - 1 - entity::entities_in(item.content).len()) as nat,
        ),
        adding::knows(after.store.records(), scope, item.content),
        adding::knows(before.store.records(), scope, content) ==> adding::knows(
            after.store.records(),
            scope,
            content,
        ),
{
    if id is None {
        adding::law_only_known_items_are_left_out(
            embedding,
            scope,
            stamp,
            item,
            vector,
            before,
            after,
        );
    } else {
        lemma_keys_differ();
        let entities = entity::entities_in(item.content);
        let new = super::record_id(stamp, before.counter);
        let payload = adding::memory_payload(scope, item.content, item.role);
        let stored = choose|stored: State<V>|
            {
                &&& #[trigger] adding::stores(before, stored, stamp, vector, payload, item.content)
                &&& adding::may_link_all(embedding, scope, stamp, new, entities, stored, after)
            };
        let states = choose|states: Seq<State<V>>|
            {
                &&& #[trigger] adding::links_through(
                    embedding,
                    scope,
                    stamp,
                    new,
                    entities,
                    states,
                )
                &&& states[0] == stored
                &&& states.last() == after
            };
        let records = before.store.records();
        lemma_free_after(records, stored.store.records(), stamp, before.counter, n, new);
        assert(stored.store.records().contains_key(new));
        assert(payload::covers(payload, scope));
        assert(adding::knows(stored.store.records(), scope, item.content));
        if scope.contains_key(LINKED_MEMORY_IDS_KEY@) {
            adding::lemma_memory_payload_is_no_entity(scope, item);
            assert forall|id: Seq<char>| #[trigger]
                stored.store.records().contains_key(id) && super::is_entity(
                    stored.store.records()[id].payload,
                ) && payload::covers(
                    stored.store.records()[id].payload,
                    scope.remove(LINKED_MEMORY_IDS_KEY@),
                ) implies !stored.store.records()[id].payload.contains_key("content"@) by {
                assert(id != new);
                assert(records.contains_key(id));
            }
        }
        if adding::knows(records, scope, content) {
            let known = choose|known: Seq<char>|
                {
                    &&& #[trigger] records.contains_key(known)
                    &&& payload::covers(records[known].payload, scope)
                    &&& records[known].payload.contains_key("content"@)
                    &&& records[known].payload["content"@] == content
                };
            assert(stored.store.records().contains_key(known));
            assert(adding::knows(stored.store.records(), scope, content));
        }
        let last = entities.len() as int;
        let left = (n - 1) as nat;
        lemma_links_keep_known(
            embedding,
            scope,
            stamp,
            new,
            entities,
            states,
            left,
            content,
            last,
        );
        lemma_links_keep_known(
            embedding,
            scope,
            stamp,
            new,
            entities,
            states,
            left,
            item.content,
            last,
        );
    }
}

proof fn lemma_items_are_known<E: EmbeddingProvider, V: VectorStore>(
    embedding: E,
    scope: Map<Seq<char>, Seq<char>>,
    stamp: Stamp,
    items: Seq<Item>,
    vectors: Seq<Seq<u32>>,
    states: Seq<State<V>>,
    ids: Seq<Option<Seq<char>>>,
    n: nat,
    k: int,
)
    requires
        adding::adds_through(embedding, scope, stamp, items, vectors, states, ids),
        are_free(states[0].store.records(), stamp, states[0].counter, n),
        0 <= k <= items.len(),
        adding::numbers_needed(items.take(k)) <= n <= adding::all_numbers(),
        keeps_contents(states[0].store.records(), scope),
        !scope.contains_key("content"@),
        forall|i: int| 0 <= i < items.len() ==> fits_role(scope, (#[trigger] items[i]).role),
    ensures
        keeps_contents(states[k].store.records(), scope),
        are_free(
            states[k].store.records(),
            stamp,
            states[k].counter,
            (n - adding::numbers_needed(items.take(k))) as nat,
        ),
        forall|i: int|
            0 <= i < k ==> adding::knows(
                states[k].store.records(),
                scope,
                (#[trigger] items[i]).content,
            ),
    decreases k,
{
    if k > 0 {
        let last = items[k - 1];
        assert(items.take(k).drop_last() =~= items.take(k - 1));
        assert(items.take(k).last() == last);
        lemma_items_are_known(
            embedding,
            scope,
            stamp,
            items,
            vectors,
            states,
            ids,
            n,
            k - 1,
        );
        assert(adding::may_add_item(
            embedding,
            scope,
            stamp,
            last,
            vectors[k - 1],
            states[k - 1],
            states[k - 1 + 1],
            ids[k - 1],
        ));
        let left = (n - adding::numbers_needed(items.take(k - 1))) as nat;
        lemma_item_is_known(
            embedding,
            scope,
            stamp,
            last,
            vectors[k - 1],
            states[k - 1],
            states[k],
            ids[k - 1],
            left,
            last.content,
        );
        assert forall|i: int| 0 <= i < k implies adding::knows(
            states[k].store.records(),
            scope,
            (#[trigger] items[i]).content,
        ) by {
            lemma_item_is_known(
                embedding,
                scope,
                stamp,
                last,
                vectors[k - 1],
                states[k - 1],
                states[k],
                ids[k - 1],
                left,
                items[i].content,
            );
        }
    }
}

proof fn lemma_fewer_need_fewer(items: Seq<Item>, k: int)
    requires
        0 <= k <= items.len(),
    ensures
        adding::numbers_needed(items.take(k)) <= adding::numbers_needed(items),
    decreases items.len() - k,
{
    if k < items.len() {
        lemma_fewer_need_fewer(items, k + 1);
        assert(items.take(k + 1).drop_last() =~= items.take(k));
    } else {
        assert(items.take(k) =~= items);
    }
}

/// A content that comes twice among what is added to a store in memory is added
/// once. The same scopes and stores are left out as where the same messages are
/// added again.
pub proof fn law_repeated_items_are_added_once<
    E: EmbeddingProvider,
    D: Fn(&[u32], &[u32]) -> i64,
>(
    embedding: E,
    scope: Map<Seq<char>, Seq<char>>,
    stamp: Stamp,
    items: Seq<Item>,
    vectors: Seq<Seq<u32>>,
    states: Seq<State<InMemoryVectorStore<D>>>,
    ids: Seq<Option<Seq<char>>>,
    i: int,
    j: int,
)
    requires
        adding::adds_through(embedding, scope, stamp, items, vectors, states, ids),
        0 <= i < j < items.len(),
        items[i].content == items[j].content,
        !scope.contains_key("content"@),
        keeps_contents(states[0].store.records(), scope),
        forall|k: int| 0 <= k < items.len() ==> fits_role(scope, (#[trigger] items[k]).role),
        adding::numbers_needed(items) <= adding::all_numbers(),
        are_free(
            states[0].store.records(),
            stamp,
            states[0].counter,
            adding::numbers_needed(items),
        ),
        vector_store::ids_having(states[j].store.records(), scope).len()
            <= adding::DUPLICATE_CANDIDATES,
    ensures
        ids[j] is None,
        states[j + 1] == states[j],
{
    lemma_fewer_need_fewer(items, j);
    lemma_items_are_known(
        embedding,
        scope,
        stamp,
        items,
        vectors,
        states,
        ids,
        adding::numbers_needed(items),
        j,
    );
    assert(adding::knows(states[j].store.records(), scope, items[i].content));
    assert(adding::may_add_item(
        embedding,
        scope,
        stamp,
        items[j],
        vectors[j],
        states[j],
        states[j + 1],
        ids[j],
    ));
    adding::law_known_items_are_left_out(
        embedding,
        scope,
        stamp,
        items[j],
        vectors[j],
        states[j],
        states[j + 1],
        ids[j],
    );
}

/// Whether a language model answers the same messages in the same way.
pub open spec fn answers_once<L: LlmProvider>(model: L) -> bool {
    forall|
        messages: Seq<MessageModel>,
        a: Result<Seq<char>, LlmError>,
        b: Result<Seq<char>, LlmError>,
    | #[trigger]
        model.may_answer(messages, a) && #[trigger] model.may_answer(messages, b) ==> a == b
}

/// Whether an embedding gives the same text the same vector, and fails on
/// several texts only where it fails on one of them.
pub open spec fn embeds_together<E: EmbeddingProvider>(embedding: E) -> bool {
    &&& embedding::embeds_once(&embedding)
    &&& forall|inputs: Seq<Seq<char>>, err: EmbeddingError| #[trigger]
        embedding.may_fail_together(inputs, err) ==> exists|i: int|
            0 <= i < inputs.len() && embedding.may_embed(#[trigger] inputs[i], Err(err))
}

/// Whether some messages may give these items when their images are described.
pub open spec fn may_come<L: LlmProvider>(
    model: L,
    messages: Seq<MessageModel>,
    infer: bool,
    items: Seq<Item>,
) -> bool {
    exists|resolved: Seq<MessageModel>| #[trigger]
        adding::may_stand_in(model, messages, resolved) && adding::may_give(
            model,
            resolved,
            infer,
            items,
        )
}

/// Whether there are numbers for whatever some messages give, and no record has
/// an id that ends in one of them.
pub open spec fn has_room<L: LlmProvider, V: VectorStore>(
    model: L,
    messages: Seq<MessageModel>,
    infer: bool,
    stamp: Stamp,
    state: State<V>,
) -> bool {
    forall|items: Seq<Item>| #[trigger]
        may_come(model, messages, infer, items) ==> {
            &&& adding::numbers_needed(items) <= adding::all_numbers()
            &&& are_free(
                state.store.records(),
                stamp,
                state.counter,
                adding::numbers_needed(items),
            )
        }
}

proof fn lemma_one_stand_in<L: LlmProvider>(
    model: L,
    messages: Seq<MessageModel>,
    one: Seq<MessageModel>,
    other: Seq<MessageModel>,
)
    requires
        answers_once(model),
        adding::may_stand_in(model, messages, one),
        adding::may_stand_in(model, messages, other),
    ensures
        one == other,
        forall|i: int| 0 <= i < one.len() ==> (#[trigger] one[i]).role == messages[i].role,
{
    assert forall|i: int| 0 <= i < messages.len() implies one[i] == other[i] && one[i].role
        == messages[i].role by {
        assert(adding::may_describe(model, messages[i], one[i]));
        assert(adding::may_describe(model, messages[i], other[i]));
        if messages[i].images.len() > 0 {
            let question = llm::image_question(messages[i].images);
            let a = choose|a: Seq<char>| #[trigger]
                model.may_answer(question, Ok(a)) && one[i] == llm::plain(messages[i].role, a);
            let b = choose|b: Seq<char>| #[trigger]
                model.may_answer(question, Ok(b)) && other[i] == llm::plain(messages[i].role, b);
            assert(Ok::<Seq<char>, LlmError>(a) == Ok::<Seq<char>, LlmError>(b));
        }
    }
    assert(one =~= other);
}

proof fn lemma_one_gift<L: LlmProvider>(
    model: L,
    messages: Seq<MessageModel>,
    infer: bool,
    one: Seq<Item>,
    other: Seq<Item>,
)
    requires
        answers_once(model),
        adding::may_give(model, messages, infer, one),
        adding::may_give(model, messages, infer, other),
    ensures
        one == other,
{
    if infer {
        let question = llm::prompt(llm::EXTRACTION_PROMPT@, messages);
        let a = choose|a: Seq<char>| #[trigger]
            model.may_answer(question, Ok(a)) && one == adding::fact_items(llm::facts_in(a));
        let b = choose|b: Seq<char>| #[trigger]
            model.may_answer(question, Ok(b)) && other == adding::fact_items(llm::facts_in(b));
        assert(Ok::<Seq<char>, LlmError>(a) == Ok::<Seq<char>, LlmError>(b));
    }
}

/// Adding known items leaves them all out.
proof fn lemma_known_add_nothing<E: EmbeddingProvider, D: Fn(&[u32], &[u32]) -> i64>(
    embedding: E,
    scope: Map<Seq<char>, Seq<char>>,
    stamp: Stamp,
    items: Seq<Item>,
    vectors: Seq<Seq<u32>>,
    states: Seq<State<InMemoryVectorStore<D>>>,
    ids: Seq<Option<Seq<char>>>,
    k: int,
)
    requires
        adding::adds_through(embedding, scope, stamp, items, vectors, states, ids),
        0 <= k <= items.len(),
        forall|i: int|
            0 <= i < items.len() ==> adding::knows(
                states[0].store.records(),
                scope,
                (#[trigger] items[i]).content,
            ),
        vector_store::ids_having(states[0].store.records(), scope).len()
            <= adding::DUPLICATE_CANDIDATES,
    ensures
        states[k] == states[0],
        adding::given(ids.take(k)) == Seq::<Seq<char>>::empty(),
    decreases k,
{
    if k > 0 {
        lemma_known_add_nothing(embedding, scope, stamp, items, vectors, states, ids, k - 1);
        assert(adding::may_add_item(
            embedding,
            scope,
            stamp,
            items[k - 1],
            vectors[k - 1],
            states[k - 1],
            states[k - 1 + 1],
            ids[k - 1],
        ));
        adding::law_known_items_are_left_out(
            embedding,
            scope,
            stamp,
            items[k - 1],
            vectors[k - 1],
            states[k - 1],
            states[k],
            ids[k - 1],
        );
        assert(ids.take(k).drop_last() =~= ids.take(k - 1));
        assert(ids.take(k).last() == ids[k - 1]);
    }
}

/// Adding the same messages again to a store in memory adds nothing and changes
/// nothing: the second call succeeds, and gives no id. The providers answer the
/// same questions in the same way. Left out are procedures; scopes with a content,
/// and those with another role than that of who says something; scopes out of
/// which linking takes a content; scopes with more records than are looked at; and
/// stores with records under the ids that the first call gives.
pub proof fn law_adding_again_changes_nothing<
    L: LlmProvider,
    E: EmbeddingProvider,
    D: Fn(&[u32], &[u32]) -> i64,
>(
    setup: Setup<L, E>,
    messages: Seq<MessageModel>,
    scope: Payload,
    infer: bool,
    stamp: Stamp,
    before: State<InMemoryVectorStore<D>>,
    between: State<InMemoryVectorStore<D>>,
    ids: Vec<String>,
    later: Stamp,
    after: State<InMemoryVectorStore<D>>,
    r: Result<Vec<String>, CoreError>,
)
    requires
        adding::may_add_with(setup, before, between, messages, scope, infer, stamp, Ok(ids)),
        adding::may_add_with(setup, between, after, messages, scope, infer, later, r),
        answers_once(setup.llm),
        embeds_together(setup.embedding),
        !adding::is_procedure(scope@),
        !scope@.contains_key("content"@),
        keeps_contents(before.store.records(), scope@),
        infer || forall|i: int|
            0 <= i < messages.len() ==> fits_role(scope@, Some((#[trigger] messages[i]).role)),
        vector_store::ids_having(between.store.records(), scope@).len()
            <= adding::DUPLICATE_CANDIDATES,
        has_room(setup.llm, messages, infer, stamp, before),
    ensures
        r matches Ok(none) && none@.len() == 0,
        after == between,
{
    let model = setup.llm;
    let resolved = choose|resolved: Seq<MessageModel>|
        {
            &&& #[trigger] adding::may_stand_in(model, messages, resolved)
            &&& adding::messages_problem(resolved, setup.max_content_length) is None
            &&& adding::may_add_items(
                setup,
                scope@,
                stamp,
                resolved,
                infer,
                before,
                between,
                text::texts(ids@),
            )
        };
    lemma_one_stand_in(model, messages, resolved, resolved);
    let (items, vectors, states, marks) = choose|
        items: Seq<Item>,
        vectors: Seq<Seq<u32>>,
        states: Seq<State<InMemoryVectorStore<D>>>,
        marks: Seq<Option<Seq<char>>>,
    |
        {
            &&& adding::may_give(model, resolved, infer, items)
            &&& adding::may_embed_all(setup.embedding, items, vectors)
            &&& #[trigger] adding::adds_through(
                setup.embedding,
                scope@,
                stamp,
                items,
                vectors,
                states,
                marks,
            )
            &&& states[0] == before
            &&& states.last() == between
            &&& text::texts(ids@) == adding::given(marks)
        };
    assert(may_come(model, messages, infer, items));
    assert forall|i: int| 0 <= i < items.len() implies fits_role(
        scope@,
        (#[trigger] items[i]).role,
    ) by {
        if !infer {
            assert(items[i].role == Some(resolved[i].role));
            assert(fits_role(scope@, Some(messages[i].role)));
        }
    }
    assert(items.take(items.len() as int) =~= items);
    lemma_items_are_known(
        setup.embedding,
        scope@,
        stamp,
        items,
        vectors,
        states,
        marks,
        adding::numbers_needed(items),
        items.len() as int,
    );
    match r {
        Ok(again) => {
            let other = choose|other: Seq<MessageModel>|
                {
                    &&& #[trigger] adding::may_stand_in(model, messages, other)
                    &&& adding::messages_problem(other, setup.max_content_length) is None
                    &&& adding::may_add_items(
                        setup,
                        scope@,
                        later,
                        other,
                        infer,
                        between,
                        after,
                        text::texts(again@),
                    )
                };
            lemma_one_stand_in(model, messages, resolved, other);
            let (same, found, through, none) = choose|
                same: Seq<Item>,
                found: Seq<Seq<u32>>,
                through: Seq<State<InMemoryVectorStore<D>>>,
                none: Seq<Option<Seq<char>>>,
            |
                {
                    &&& adding::may_give(model, other, infer, same)
                    &&& adding::may_embed_all(setup.embedding, same, found)
                    &&& #[trigger] adding::adds_through(
                        setup.embedding,
                        scope@,
                        later,
                        same,
                        found,
                        through,
                        none,
                    )
                    &&& through[0] == between
                    &&& through.last() == after
                    &&& text::texts(again@) == adding::given(none)
                };
            lemma_one_gift(model, resolved, infer, items, same);
            lemma_known_add_nothing(
                setup.embedding,
                scope@,
                later,
                same,
                found,
                through,
                none,
                same.len() as int,
            );
            assert(none.take(same.len() as int) =~= none);
            assert(text::texts(again@).len() == again@.len());
        },
        Err(err) => {
            lemma_no_refusal(setup, messages, scope, infer, resolved, items, vectors, err);
            lemma_no_failure(
                setup,
                messages,
                scope,
                infer,
                resolved,
                items,
                later,
                between,
                after,
                err,
            );
        },
    }
}

/// Messages that were added are not refused.
proof fn lemma_no_refusal<L: LlmProvider, E: EmbeddingProvider>(
    setup: Setup<L, E>,
    messages: Seq<MessageModel>,
    scope: Payload,
    infer: bool,
    resolved: Seq<MessageModel>,
    items: Seq<Item>,
    vectors: Seq<Seq<u32>>,
    err: CoreError,
)
    requires
        answers_once(setup.llm),
        embeds_together(setup.embedding),
        !adding::is_procedure(scope@),
        adding::may_stand_in(setup.llm, messages, resolved),
        adding::messages_problem(resolved, setup.max_content_length) is None,
        adding::may_give(setup.llm, resolved, infer, items),
        adding::may_embed_all(setup.embedding, items, vectors),
    ensures
        !adding::may_refuse_to_add(setup, scope@, messages, infer, err),
{
    let model = setup.llm;
    if adding::may_refuse_to_add(setup, scope@, messages, infer, err) {
        assert forall|i: int| 0 <= i < messages.len() && (
        #[trigger] messages[i]).images.len() > 0 implies !super::reports_llm(
            model,
            llm::image_question(messages[i].images),
            err,
        ) by {
            assert(adding::may_describe(model, messages[i], resolved[i]));
        }
        let other = choose|other: Seq<MessageModel>| #[trigger]
            adding::may_stand_in(model, messages, other) && adding::may_refuse_resolved(
                setup,
                scope@,
                other,
                infer,
                err,
            );
        lemma_one_stand_in(model, messages, resolved, other);
        assert(adding::may_refuse_items(setup, resolved, infer, err));
        let same = choose|same: Seq<Item>| #[trigger]
            adding::may_give(model, resolved, infer, same) && adding::reports_items(
                setup.embedding,
                same,
                err,
            );
        lemma_one_gift(model, resolved, infer, items, same);
        let cause = choose|cause: EmbeddingError| #[trigger]
            adding::may_fail_to_embed(setup.embedding, same, cause);
        if setup.embedding.may_fail_together(adding::contents_of(items), cause) {
            let contents = adding::contents_of(items);
            let i = choose|i: int|
                0 <= i < contents.len() && setup.embedding.may_embed(
                    #[trigger] contents[i],
                    Err(cause),
                );
            assert(contents[i] == items[i].content);
            assert(setup.embedding.may_embed(items[i].content, Ok(vectors[i])));
        } else {
            let i = choose|i: int|
                0 <= i < items.len() && setup.embedding.may_embed(
                    (#[trigger] items[i]).content,
                    Err(cause),
                );
            assert(setup.embedding.may_embed(items[i].content, Ok(vectors[i])));
        }
    }
}

/// Adding known items does not fail halfway.
proof fn lemma_no_failure<
    L: LlmProvider,
    E: EmbeddingProvider,
    D: Fn(&[u32], &[u32]) -> i64,
>(
    setup: Setup<L, E>,
    messages: Seq<MessageModel>,
    scope: Payload,
    infer: bool,
    resolved: Seq<MessageModel>,
    items: Seq<Item>,
    stamp: Stamp,
    before: State<InMemoryVectorStore<D>>,
    after: State<InMemoryVectorStore<D>>,
    err: CoreError,
)
    requires
        answers_once(setup.llm),
        !adding::is_procedure(scope@),
        adding::may_stand_in(setup.llm, messages, resolved),
        adding::may_give(setup.llm, resolved, infer, items),
        forall|i: int|
            0 <= i < items.len() ==> adding::knows(
                before.store.records(),
                scope@,
                (#[trigger] items[i]).content,
            ),
        vector_store::ids_having(before.store.records(), scope@).len()
            <= adding::DUPLICATE_CANDIDATES,
    ensures
        !adding::may_fail_to_store(setup, scope@, stamp, messages, infer, before, after, err),
{
    let model = setup.llm;
    if adding::may_fail_to_store(setup, scope@, stamp, messages, infer, before, after, err) {
        let other = choose|other: Seq<MessageModel>|
            {
                &&& #[trigger] adding::may_stand_in(model, messages, other)
                &&& adding::may_fail_at_items(
                    setup,
                    scope@,
                    stamp,
                    other,
                    infer,
                    before,
                    after,
                    err,
                )
            };
        lemma_one_stand_in(model, messages, resolved, other);
        let (same, vectors) = choose|same: Seq<Item>, vectors: Seq<Seq<u32>>|
            {
                &&& adding::may_give(model, resolved, infer, same)
                &&& #[trigger] adding::may_embed_all(setup.embedding, same, vectors)
                &&& adding::may_fail_midway(
                    setup.embedding,
                    scope@,
                    stamp,
                    same,
                    vectors,
                    before,
                    after,
                    err,
                )
            };
        lemma_one_gift(model, resolved, infer, items, same);
        let (k, states, marks) = choose|
            k: int,
            states: Seq<State<InMemoryVectorStore<D>>>,
            marks: Seq<Option<Seq<char>>>,
        |
            {
                &&& 0 <= k < same.len()
                &&& #[trigger] adding::adds_through(
                    setup.embedding,
                    scope@,
                    stamp,
                    same.take(k),
                    vectors.take(k),
                    states,
                    marks,
                )
                &&& states[0] == before
                &&& adding::may_fail_at_item(
                    setup.embedding,
                    scope@,
                    stamp,
                    same[k],
                    vectors[k],
                    states.last(),
                    after,
                    err,
                )
            };
        let done = same.take(k);
        assert forall|i: int| 0 <= i < done.len() implies adding::knows(
            states[0].store.records(),
            scope@,
            (#[trigger] done[i]).content,
        ) by {
            assert(done[i] == items[i]);
        }
        lemma_known_add_nothing(
            setup.embedding,
            scope@,
            stamp,
            done,
            vectors.take(k),
            states,
            marks,
            k,
        );
        assert(states.last() == before);
        assert(adding::knows(before.store.records(), scope@, items[k].content));
        adding::lemma_known_is_not_new(before.store, scope@, same[k].content, vectors[k]);
    }
}

/// Whether an id is that of the record of an entity in a scope.
pub open spec fn is_record_of(
    records: Map<Seq<char>, RecordModel>,
    scope: Map<Seq<char>, Seq<char>>,
    entity: (EntityType, Seq<char>),
    id: Seq<char>,
) -> bool {
    records.contains_key(id) && adding::describes(records[id].payload, scope, entity.0, entity.1)
}

/// Whether something comes at most once among others.
pub open spec fn at_most_once<A>(s: Seq<A>, x: A) -> bool {
    forall|i: int, j: int| 0 <= i < j < s.len() ==> #[trigger] s[i] != x || #[trigger] s[j] != x
}

/// Whether no record of an entity in a scope links a memory twice.
pub open spec fn links_at_most_once(
    records: Map<Seq<char>, RecordModel>,
    scope: Map<Seq<char>, Seq<char>>,
    entity: (EntityType, Seq<char>),
    memory_id: Seq<char>,
) -> bool {
    forall|id: Seq<char>| #[trigger]
        is_record_of(records, scope, entity, id) ==> at_most_once(
            searching::links(records[id].payload),
            memory_id,
        )
}

/// Whether a record that an entity got in a scope is the only one that it has
/// there.
pub open spec fn gets_no_second(
    before: Map<Seq<char>, RecordModel>,
    after: Map<Seq<char>, RecordModel>,
    scope: Map<Seq<char>, Seq<char>>,
    entity: (EntityType, Seq<char>),
) -> bool {
    forall|a: Seq<char>, b: Seq<char>| #[trigger]
        is_record_of(after, scope, entity, a) && #[trigger] is_record_of(after, scope, entity, b)
            && !is_record_of(before, scope, entity, a) ==> a == b
}

/// Whether the record that a store finds for an entity in a scope links a
/// memory.
pub open spec fn links_memory<V: VectorStore>(
    store: V,
    scope: Map<Seq<char>, Seq<char>>,
    entity: (EntityType, Seq<char>),
    memory_id: Seq<char>,
) -> bool {
    adding::first_record(
        store.records(),
        vector_store::all_ids(store),
        scope,
        entity.0,
        entity.1,
    ) matches Some(id) && is_record_of(store.records(), scope, entity, id) && searching::links(
        store.records()[id].payload,
    ).contains(memory_id)
}

/// Whether a scope has an entry that the records of entities have for
/// themselves.
pub open spec fn is_reserved(scope: Map<Seq<char>, Seq<char>>) -> bool {
    ||| scope.contains_key(ENTITY_RECORD_KIND_KEY@)
    ||| scope.contains_key(ENTITY_TYPE_KEY@)
    ||| scope.contains_key(ENTITY_TEXT_KEY@)
    ||| scope.contains_key(LINKED_MEMORY_IDS_KEY@)
}

proof fn lemma_first_record_complete(
    records: Map<Seq<char>, RecordModel>,
    ids: Seq<Seq<char>>,
    scope: Map<Seq<char>, Seq<char>>,
    kind: EntityType,
    name: Seq<char>,
    id: Seq<char>,
)
    requires
        ids.contains(id),
        adding::describes(records[id].payload, scope, kind, name),
    ensures
        adding::first_record(records, ids, scope, kind, name) is Some,
    decreases ids.len(),
{
    let k = choose|k: int| 0 <= k < ids.len() && ids[k] == id;
    if !adding::describes(records[ids[0]].payload, scope, kind, name) {
        assert(ids.skip(1)[k - 1] == id);
        lemma_first_record_complete(records, ids.skip(1), scope, kind, name, id);
    }
}

/// Where all ids are listed, an entity with a record is found.
proof fn lemma_found_where_there<V: VectorStore>(
    store: V,
    scope: Map<Seq<char>, Seq<char>>,
    entity: (EntityType, Seq<char>),
)
    requires
        vector_store::orders_records(store),
        store.order().len() <= usize::MAX,
    ensures
        ({
            let found = adding::first_record(
                store.records(),
                vector_store::all_ids(store),
                scope,
                entity.0,
                entity.1,
            );
            &&& found matches Some(id) ==> is_record_of(store.records(), scope, entity, id)
            &&& found is None ==> forall|id: Seq<char>|
                !(#[trigger] is_record_of(store.records(), scope, entity, id))
        }),
{
    vector_store::lemma_all_ids(store);
    let records = store.records();
    let ids = vector_store::all_ids(store);
    adding::lemma_first_record_describes(records, ids, scope, entity.0, entity.1);
    let found = adding::first_record(records, ids, scope, entity.0, entity.1);
    if found is None {
        assert forall|id: Seq<char>| !(#[trigger] is_record_of(records, scope, entity, id)) by {
            if is_record_of(records, scope, entity, id) {
                assert(store.order().contains(id));
                lemma_first_record_complete(records, ids, scope, entity.0, entity.1, id);
            }
        }
    }
}

/// The first record stays the same where the same ids are those of the entity's
/// records.
proof fn lemma_first_record_same(
    records: Map<Seq<char>, RecordModel>,
    other: Map<Seq<char>, RecordModel>,
    ids: Seq<Seq<char>>,
    scope: Map<Seq<char>, Seq<char>>,
    entity: (EntityType, Seq<char>),
)
    requires
        forall|i: int|
            0 <= i < ids.len() ==> adding::describes(
                records[#[trigger] ids[i]].payload,
                scope,
                entity.0,
                entity.1,
            ) == adding::describes(other[ids[i]].payload, scope, entity.0, entity.1),
    ensures
        adding::first_record(records, ids, scope, entity.0, entity.1) == adding::first_record(
            other,
            ids,
            scope,
            entity.0,
            entity.1,
        ),
    decreases ids.len(),
{
    if ids.len() > 0 {
        let rest = ids.skip(1);
        assert forall|i: int| 0 <= i < rest.len() implies adding::describes(
            records[#[trigger] rest[i]].payload,
            scope,
            entity.0,
            entity.1,
        ) == adding::describes(other[rest[i]].payload, scope, entity.0, entity.1) by {
            assert(rest[i] == ids[i + 1]);
        }
        lemma_first_record_same(records, other, rest, scope, entity);
        assert(adding::describes(records[ids[0]].payload, scope, entity.0, entity.1)
            == adding::describes(other[ids[0]].payload, scope, entity.0, entity.1));
    }
}

/// One more id at the end is found only where none was found before it.
proof fn lemma_first_record_push(
    records: Map<Seq<char>, RecordModel>,
    ids: Seq<Seq<char>>,
    new: Seq<char>,
    scope: Map<Seq<char>, Seq<char>>,
    entity: (EntityType, Seq<char>),
)
    ensures
        ({
            let before = adding::first_record(records, ids, scope, entity.0, entity.1);
            let after = adding::first_record(records, ids.push(new), scope, entity.0, entity.1);
            if before is Some {
                after == before
            } else if adding::describes(records[new].payload, scope, entity.0, entity.1) {
                after == Some(new)
            } else {
                after is None
            }
        }),
    decreases ids.len(),
{
    let more = ids.push(new);
    if ids.len() > 0 {
        lemma_first_record_push(records, ids.skip(1), new, scope, entity);
        assert(more.skip(1) =~= ids.skip(1).push(new));
        assert(more[0] == ids[0]);
    } else {
        assert(more.skip(1) =~= Seq::empty());
        assert(more[0] == new);
        assert(adding::first_record(records, more.skip(1), scope, entity.0, entity.1) is None);
    }
}

proof fn lemma_all_listed<V: VectorStore>(store: V)
    requires
        store.order().len() <= usize::MAX,
    ensures
        vector_store::all_ids(store) == store.order(),
{
    assert(vector_store::all_ids(store) =~= store.order());
}

proof fn lemma_push_at_most_once<A>(s: Seq<A>, x: A)
    requires
        !s.contains(x),
    ensures
        at_most_once(s.push(x), x),
{
    let more = s.push(x);
    assert forall|i: int, j: int| 0 <= i < j < more.len() implies #[trigger] more[i] != x
        || #[trigger] more[j] != x by {
        assert(s.contains(s[i]));
    }
}

/// One more link in a store in memory, where the entity's record is found: it has
/// the link then, and the entity records that are found stay the same.
proof fn lemma_link_found<E: EmbeddingProvider, D: Fn(&[u32], &[u32]) -> i64>(
    embedding: E,
    scope: Map<Seq<char>, Seq<char>>,
    stamp: Stamp,
    memory_id: Seq<char>,
    entity: (EntityType, Seq<char>),
    start: Map<Seq<char>, RecordModel>,
    before: State<InMemoryVectorStore<D>>,
    after: State<InMemoryVectorStore<D>>,
    other: (EntityType, Seq<char>),
    known: Seq<char>,
)
    requires
        adding::may_link(embedding, scope, stamp, memory_id, entity, before, after),
        before.store.order().len() <= usize::MAX,
        after.store.order().len() <= usize::MAX,
        text::lacks(memory_id, CharClass::Only(',')),
        !is_reserved(scope),
        adding::first_record(
            before.store.records(),
            vector_store::all_ids(before.store),
            scope,
            entity.0,
            entity.1,
        ) == Some(known),
    ensures
        links_memory(before.store, scope, other, memory_id) || entity == other ==> links_memory(
            after.store,
            scope,
            other,
            memory_id,
        ),
        gets_no_second(start, before.store.records(), scope, other) ==> gets_no_second(
            start,
            after.store.records(),
            scope,
            other,
        ),
        links_at_most_once(before.store.records(), scope, other, memory_id) ==> links_at_most_once(
            after.store.records(),
            scope,
            other,
            memory_id,
        ),
{
    lemma_found_where_there(before.store, scope, entity);
    lemma_all_listed(before.store);
    lemma_all_listed(after.store);
    let records = before.store.records();
    let new = after.store.records();
    let order = before.store.order();
    let old_links = searching::links(records[known].payload);
    if !old_links.contains(memory_id) {
        let more = old_links.push(memory_id);
        adding::law_links_grow_by_one(known, records[known], memory_id);
        assert(searching::links(new[known].payload) == more);
        assert(more[old_links.len() as int] == memory_id);
        assert(order.contains(known));
        assert(after.store.order() == order);
        assert forall|id: Seq<char>| #[trigger]
            is_record_of(new, scope, other, id) == is_record_of(records, scope, other, id) by {
            if id == known {
                lemma_link_is_no_mark(records[known].payload, new[known].payload, scope, other);
            }
        }
        assert forall|i: int| 0 <= i < order.len() implies adding::describes(
            records[#[trigger] order[i]].payload,
            scope,
            other.0,
            other.1,
        ) == adding::describes(new[order[i]].payload, scope, other.0, other.1) by {
            if order[i] == known {
                lemma_link_is_no_mark(records[known].payload, new[known].payload, scope, other);
            }
        }
        lemma_first_record_same(records, new, order, scope, other);
        if links_memory(before.store, scope, other, memory_id) {
            let id = adding::first_record(records, order, scope, other.0, other.1)->0;
            assert(is_record_of(new, scope, other, id));
            assert(id != known);
        }
        if entity == other {
            assert(is_record_of(new, scope, other, known));
        }
        if gets_no_second(start, records, scope, other) {
            assert forall|a: Seq<char>, b: Seq<char>| #[trigger]
                is_record_of(new, scope, other, a) && #[trigger] is_record_of(new, scope, other, b)
                    && !is_record_of(start, scope, other, a) implies a == b by {
                assert(is_record_of(records, scope, other, a));
                assert(is_record_of(records, scope, other, b));
            }
        }
        if links_at_most_once(records, scope, other, memory_id) {
            assert forall|id: Seq<char>| #[trigger]
                is_record_of(new, scope, other, id) implies at_most_once(
                searching::links(new[id].payload),
                memory_id,
            ) by {
                assert(is_record_of(records, scope, other, id));
                if id == known {
                    lemma_push_at_most_once(old_links, memory_id);
                }
            }
        }
    }
}

/// One more link in a store in memory, where the entity has no record: it gets
/// one with the link, and the entity records that are found stay the same.
proof fn lemma_link_made<E: EmbeddingProvider, D: Fn(&[u32], &[u32]) -> i64>(
    embedding: E,
    scope: Map<Seq<char>, Seq<char>>,
    stamp: Stamp,
    memory_id: Seq<char>,
    entity: (EntityType, Seq<char>),
    start: Map<Seq<char>, RecordModel>,
    before: State<InMemoryVectorStore<D>>,
    after: State<InMemoryVectorStore<D>>,
    other: (EntityType, Seq<char>),
)
    requires
        adding::may_link(embedding, scope, stamp, memory_id, entity, before, after),
        before.store.order().len() <= usize::MAX,
        after.store.order().len() <= usize::MAX,
        !before.store.records().contains_key(super::entity_id(stamp, before.counter)),
        text::lacks(memory_id, CharClass::Only(',')),
        !is_reserved(scope),
        adding::first_record(
            before.store.records(),
            vector_store::all_ids(before.store),
            scope,
            entity.0,
            entity.1,
        ) is None,
    ensures
        links_memory(before.store, scope, other, memory_id) || entity == other ==> links_memory(
            after.store,
            scope,
            other,
            memory_id,
        ),
        gets_no_second(start, before.store.records(), scope, other) ==> gets_no_second(
            start,
            after.store.records(),
            scope,
            other,
        ),
        links_at_most_once(before.store.records(), scope, other, memory_id) ==> links_at_most_once(
            after.store.records(),
            scope,
            other,
            memory_id,
        ),
{
    lemma_keys_differ();
    lemma_found_where_there(before.store, scope, entity);
    lemma_all_listed(before.store);
    lemma_all_listed(after.store);
    let records = before.store.records();
    let new = after.store.records();
    let order = before.store.order();
    let id = super::entity_id(stamp, before.counter);
    let payload = adding::entity_payload(scope, entity.0, entity.1, memory_id);
    let vector = choose|vector: Seq<u32>| #[trigger]
        embedding.may_embed(entity.1, Ok(vector)) && adding::puts(
            before,
            after,
            RecordModel { id, vector, payload },
        );
    let one = seq![memory_id];
    assert(new[id].payload == payload);
    assert(searching::links(payload) == one) by {
        assert(text::joined(one, seq![',']) == memory_id);
        text::law_split_of_joined(one, ',');
    }
    assert(one[0] == memory_id);
    assert(adding::describes(payload, scope, entity.0, entity.1)) by {
        assert forall|key: Seq<char>| #[trigger] scope.contains_key(key) implies payload.contains_key(
            key,
        ) && payload[key] == scope[key] by {}
    }
    assert(!order.contains(id)) by {
        if order.contains(id) {
            assert(records.contains_key(id));
        }
    }
    assert(after.store.order() == order.push(id));
    assert forall|x: Seq<char>| x != id implies #[trigger] is_record_of(new, scope, other, x)
        == is_record_of(records, scope, other, x) by {}
    assert forall|i: int| 0 <= i < order.len() implies adding::describes(
        records[#[trigger] order[i]].payload,
        scope,
        other.0,
        other.1,
    ) == adding::describes(new[order[i]].payload, scope, other.0, other.1) by {
        assert(order.contains(order[i]));
    }
    lemma_first_record_same(records, new, order, scope, other);
    lemma_first_record_push(new, order, id, scope, other);
    if is_record_of(new, scope, other, id) {
        assert(other.0.keyword() == entity.0.keyword());
        assert(other.1 == entity.1);
        assert forall|x: Seq<char>| !(#[trigger] is_record_of(records, scope, other, x)) by {
            assert(!is_record_of(records, scope, entity, x));
        }
    }
    if links_memory(before.store, scope, other, memory_id) {
        let x = adding::first_record(records, order, scope, other.0, other.1)->0;
        assert(is_record_of(records, scope, other, x));
        assert(x != id);
        assert(is_record_of(new, scope, other, x));
    } else if entity == other {
        assert(is_record_of(new, scope, other, id));
    }
    if gets_no_second(start, records, scope, other) {
        assert forall|a: Seq<char>, b: Seq<char>| #[trigger]
            is_record_of(new, scope, other, a) && #[trigger] is_record_of(new, scope, other, b)
                && !is_record_of(start, scope, other, a) implies a == b by {
            if a != id {
                assert(is_record_of(records, scope, other, a));
            }
            if b != id {
                assert(is_record_of(records, scope, other, b));
            }
        }
    }
    if links_at_most_once(records, scope, other, memory_id) {
        assert forall|x: Seq<char>| #[trigger]
            is_record_of(new, scope, other, x) implies at_most_once(
            searching::links(new[x].payload),
            memory_id,
        ) by {
            if x != id {
                assert(is_record_of(records, scope, other, x));
            }
        }
    }
}

/// Another link leaves a payload what it is.
proof fn lemma_link_is_no_mark(
    payload: Map<Seq<char>, Seq<char>>,
    linked: Map<Seq<char>, Seq<char>>,
    scope: Map<Seq<char>, Seq<char>>,
    entity: (EntityType, Seq<char>),
)
    requires
        linked == payload.insert(LINKED_MEMORY_IDS_KEY@, linked[LINKED_MEMORY_IDS_KEY@]),
        !is_reserved(scope),
    ensures
        adding::describes(linked, scope, entity.0, entity.1) == adding::describes(
            payload,
            scope,
            entity.0,
            entity.1,
        ),
{
    lemma_keys_differ();
    assert(payload::covers(linked, scope) == payload::covers(payload, scope)) by {
        assert forall|key: Seq<char>| #[trigger] scope.contains_key(key) implies key
            != LINKED_MEMORY_IDS_KEY@ by {}
        if payload::covers(linked, scope) {
            assert forall|key: Seq<char>| #[trigger] scope.contains_key(key) implies payload.contains_key(
                key,
            ) && payload[key] == scope[key] by {
                assert(linked.contains_key(key) && linked[key] == scope[key]);
            }
        }
        if payload::covers(payload, scope) {
            assert forall|key: Seq<char>| #[trigger] scope.contains_key(key) implies linked.contains_key(
                key,
            ) && linked[key] == scope[key] by {
                assert(payload.contains_key(key) && payload[key] == scope[key]);
            }
        }
    }
}

/// A store whose records are all among some others has no longer order than
/// those are many.
proof fn lemma_order_is_short<V: VectorStore>(store: V, more: Map<Seq<char>, RecordModel>)
    requires
        vector_store::orders_records(store),
        more.dom().finite(),
        forall|id: Seq<char>| #[trigger]
            store.records().contains_key(id) ==> more.contains_key(id),
    ensures
        store.order().len() <= more.dom().len(),
{
    let ids = store.order();
    ids.unique_seq_to_set();
    assert forall|id: Seq<char>| ids.to_set().contains(id) implies more.dom().contains(id) by {
        assert(ids.contains(id));
        assert(store.records().contains_key(id));
    }
    vstd::set_lib::lemma_len_subset(ids.to_set(), more.dom());
}

proof fn lemma_linking_removes_nothing<E: EmbeddingProvider, V: VectorStore>(
    embedding: E,
    scope: Map<Seq<char>, Seq<char>>,
    stamp: Stamp,
    memory_id: Seq<char>,
    entities: Seq<(EntityType, Seq<char>)>,
    states: Seq<State<V>>,
    k: int,
)
    requires
        adding::links_through(embedding, scope, stamp, memory_id, entities, states),
        0 <= k <= entities.len(),
    ensures
        forall|id: Seq<char>| #[trigger]
            states[k].store.records().contains_key(id) ==> states.last().store.records().contains_key(
                id,
            ),
    decreases entities.len() - k,
{
    if k < entities.len() {
        assert(adding::may_link(
            embedding,
            scope,
            stamp,
            memory_id,
            entities[k],
            states[k],
            states[k + 1],
        ));
        lemma_linking_removes_nothing(
            embedding,
            scope,
            stamp,
            memory_id,
            entities,
            states,
            k + 1,
        );
        assert forall|id: Seq<char>| #[trigger]
            states[k].store.records().contains_key(
                id,
            ) implies states.last().store.records().contains_key(id) by {
            assert(states[k + 1].store.records().contains_key(id));
        }
    }
}

proof fn lemma_links_reach_all<E: EmbeddingProvider, D: Fn(&[u32], &[u32]) -> i64>(
    embedding: E,
    scope: Map<Seq<char>, Seq<char>>,
    stamp: Stamp,
    memory_id: Seq<char>,
    entities: Seq<(EntityType, Seq<char>)>,
    states: Seq<State<InMemoryVectorStore<D>>>,
    k: int,
)
    requires
        adding::links_through(embedding, scope, stamp, memory_id, entities, states),
        0 <= k <= entities.len() <= adding::all_numbers(),
        are_free(states[0].store.records(), stamp, states[0].counter, entities.len()),
        forall|i: int|
            0 <= i < states.len() ==> (#[trigger] states[i]).store.order().len() <= usize::MAX,
        text::lacks(memory_id, CharClass::Only(',')),
        !is_reserved(scope),
    ensures
        are_free(
            states[k].store.records(),
            stamp,
            states[k].counter,
            (entities.len() - k) as nat,
        ),
        forall|i: int|
            0 <= i < k ==> links_memory(
                states[k].store,
                scope,
                #[trigger] entities[i],
                memory_id,
            ),
        forall|i: int|
            0 <= i < entities.len() ==> gets_no_second(
                states[0].store.records(),
                states[k].store.records(),
                scope,
                #[trigger] entities[i],
            ),
        forall|i: int|
            0 <= i < entities.len() && links_at_most_once(
                states[0].store.records(),
                scope,
                #[trigger] entities[i],
                memory_id,
            ) ==> links_at_most_once(states[k].store.records(), scope, entities[i], memory_id),
    decreases k,
{
    if k > 0 {
        lemma_links_reach_all(
            embedding,
            scope,
            stamp,
            memory_id,
            entities,
            states,
            k - 1,
        );
        let start = states[0].store.records();
        let before = states[k - 1];
        let after = states[k];
        let entity = entities[k - 1];
        assert(adding::may_link(
            embedding,
            scope,
            stamp,
            memory_id,
            entity,
            before,
            states[k - 1 + 1],
        ));
        lemma_link_keeps_known(
            embedding,
            scope,
            stamp,
            memory_id,
            entity,
            before,
            after,
            (entities.len() - (k - 1)) as nat,
            memory_id,
        );
        adding::lemma_advance(before.counter, 0);
        assert(!before.store.records().contains_key(
            super::entity_id(stamp, adding::advance(before.counter, 0)),
        ));
        assert(before.store.order().len() <= usize::MAX);
        assert(after.store.order().len() <= usize::MAX);
        let found = adding::first_record(
            before.store.records(),
            vector_store::all_ids(before.store),
            scope,
            entity.0,
            entity.1,
        );
        assert forall|i: int| 0 <= i < entities.len() implies {
            let other = #[trigger] entities[i];
            &&& i < k ==> links_memory(after.store, scope, other, memory_id)
            &&& gets_no_second(start, after.store.records(), scope, other)
            &&& links_at_most_once(start, scope, other, memory_id) ==> links_at_most_once(
                after.store.records(),
                scope,
                other,
                memory_id,
            )
        } by {
            let other = entities[i];
            assert(gets_no_second(start, before.store.records(), scope, other));
            match found {
                Some(known) => {
                    lemma_link_found(
                        embedding,
                        scope,
                        stamp,
                        memory_id,
                        entity,
                        start,
                        before,
                        after,
                        other,
                        known,
                    );
                },
                None => {
                    lemma_link_made(
                        embedding,
                        scope,
                        stamp,
                        memory_id,
                        entity,
                        start,
                        before,
                        after,
                        other,
                    );
                },
            }
        }
    }
}

/// Linking a memory again to entities that link it leaves everything as it is.
proof fn lemma_linking_again<E: EmbeddingProvider, V: VectorStore>(
    embedding: E,
    scope: Map<Seq<char>, Seq<char>>,
    stamp: Stamp,
    memory_id: Seq<char>,
    entities: Seq<(EntityType, Seq<char>)>,
    states: Seq<State<V>>,
    k: int,
)
    requires
        adding::links_through(embedding, scope, stamp, memory_id, entities, states),
        0 <= k <= entities.len(),
        forall|i: int|
            0 <= i < entities.len() ==> links_memory(
                states[0].store,
                scope,
                #[trigger] entities[i],
                memory_id,
            ),
    ensures
        states[k] == states[0],
    decreases k,
{
    if k > 0 {
        lemma_linking_again(embedding, scope, stamp, memory_id, entities, states, k - 1);
        assert(adding::may_link(
            embedding,
            scope,
            stamp,
            memory_id,
            entities[k - 1],
            states[k - 1],
            states[k - 1 + 1],
        ));
        assert(links_memory(states[0].store, scope, entities[k - 1], memory_id));
    }
}

/// A store in memory that is looked through, whether or not that is of use, orders
/// its records.
proof fn lemma_linked_store_is_ordered<E: EmbeddingProvider, D: Fn(&[u32], &[u32]) -> i64>(
    embedding: E,
    scope: Map<Seq<char>, Seq<char>>,
    stamp: Stamp,
    memory_id: Seq<char>,
    entities: Seq<(EntityType, Seq<char>)>,
    before: State<InMemoryVectorStore<D>>,
    after: State<InMemoryVectorStore<D>>,
    r: Result<(), CoreError>,
)
    requires
        may_link_with(embedding, scope, stamp, memory_id, entities, before, after, r),
        entities.len() > 0,
    ensures
        vector_store::orders_records(before.store),
{
    match r {
        Ok(()) => {
            let states = choose|states: Seq<State<InMemoryVectorStore<D>>>|
                {
                    &&& #[trigger] adding::links_through(
                        embedding,
                        scope,
                        stamp,
                        memory_id,
                        entities,
                        states,
                    )
                    &&& states[0] == before
                    &&& states.last() == after
                };
            assert(adding::may_link(
                embedding,
                scope,
                stamp,
                memory_id,
                entities[0],
                states[0],
                states[0int + 1],
            ));
        },
        Err(err) => {
            let (k, states) = choose|k: int, states: Seq<State<InMemoryVectorStore<D>>>|
                {
                    &&& 0 <= k < entities.len()
                    &&& #[trigger] adding::links_through(
                        embedding,
                        scope,
                        stamp,
                        memory_id,
                        entities.take(k),
                        states,
                    )
                    &&& states[0] == before
                    &&& adding::may_fail_at_entity(
                        embedding,
                        scope,
                        stamp,
                        memory_id,
                        entities[k],
                        states.last(),
                        after,
                        err,
                    )
                };
            if k > 0 {
                let done = entities.take(k);
                assert(adding::may_link(
                    embedding,
                    scope,
                    stamp,
                    memory_id,
                    done[0],
                    states[0],
                    states[0int + 1],
                ));
            } else {
                lemma_memory_can_be_looked_through(before.store, err);
            }
        },
    }
}

/// Looking through a store in memory does not fail.
proof fn lemma_memory_can_be_looked_through<D: Fn(&[u32], &[u32]) -> i64>(
    store: InMemoryVectorStore<D>,
    err: CoreError,
)
    ensures
        !adding::may_fail_to_look(store, err),
{
    assert(!super::reports_refusal(store, StoreRequest::List, err));
    assert forall|id: Seq<char>| !(#[trigger] super::reports_refusal(
        store,
        StoreRequest::Get(id),
        err,
    )) by {}
}

/// Whether linking a memory to some entities may turn one state into another,
/// with an outcome.
pub open spec fn may_link_with<E: EmbeddingProvider, V: VectorStore>(
    embedding: E,
    scope: Map<Seq<char>, Seq<char>>,
    stamp: Stamp,
    memory_id: Seq<char>,
    entities: Seq<(EntityType, Seq<char>)>,
    before: State<V>,
    after: State<V>,
    r: Result<(), CoreError>,
) -> bool {
    match r {
        Ok(()) => adding::may_link_all(
            embedding,
            scope,
            stamp,
            memory_id,
            entities,
            before,
            after,
        ),
        Err(err) => adding::may_fail_to_link(
            embedding,
            scope,
            stamp,
            memory_id,
            entities,
            before,
            after,
            err,
        ),
    }
}

/// Linking a memory to some entities in a store in memory gives each of them a
/// record that links it, and no second record; a record that does not list the
/// memory twice lists it once then. Linking it again succeeds and changes
/// nothing. Left out are memories with a comma in their id, scopes with entries
/// of the records of entities, and stores with records under the ids that the
/// first call gives.
pub proof fn law_linking_again_changes_nothing<
    E: EmbeddingProvider,
    D: Fn(&[u32], &[u32]) -> i64,
>(
    embedding: E,
    scope: Map<Seq<char>, Seq<char>>,
    stamp: Stamp,
    memory_id: Seq<char>,
    entities: Seq<(EntityType, Seq<char>)>,
    before: State<InMemoryVectorStore<D>>,
    between: State<InMemoryVectorStore<D>>,
    later: Stamp,
    after: State<InMemoryVectorStore<D>>,
    r: Result<(), CoreError>,
)
    requires
        adding::may_link_all(embedding, scope, stamp, memory_id, entities, before, between),
        may_link_with(embedding, scope, later, memory_id, entities, between, after, r),
        text::lacks(memory_id, CharClass::Only(',')),
        !is_reserved(scope),
        entities.len() <= adding::all_numbers(),
        are_free(before.store.records(), stamp, before.counter, entities.len()),
        between.store.records().dom().finite(),
        between.store.records().dom().len() <= usize::MAX,
    ensures
        r is Ok,
        after == between,
        forall|i: int|
            0 <= i < entities.len() ==> links_memory(
                after.store,
                scope,
                #[trigger] entities[i],
                memory_id,
            ) && gets_no_second(
                before.store.records(),
                after.store.records(),
                scope,
                entities[i],
            ),
        forall|i: int|
            0 <= i < entities.len() && links_at_most_once(
                before.store.records(),
                scope,
                #[trigger] entities[i],
                memory_id,
            ) ==> links_at_most_once(after.store.records(), scope, entities[i], memory_id),
{
    let states = choose|states: Seq<State<InMemoryVectorStore<D>>>|
        {
            &&& #[trigger] adding::links_through(
                embedding,
                scope,
                stamp,
                memory_id,
                entities,
                states,
            )
            &&& states[0] == before
            &&& states.last() == between
        };
    let n = entities.len() as int;
    if n > 0 {
        lemma_linked_store_is_ordered(
            embedding,
            scope,
            later,
            memory_id,
            entities,
            between,
            after,
            r,
        );
        assert forall|i: int| 0 <= i < states.len() implies (
        #[trigger] states[i]).store.order().len() <= usize::MAX by {
            lemma_linking_removes_nothing(
                embedding,
                scope,
                stamp,
                memory_id,
                entities,
                states,
                i,
            );
            if i < n {
                assert(adding::may_link(
                    embedding,
                    scope,
                    stamp,
                    memory_id,
                    entities[i],
                    states[i],
                    states[i + 1],
                ));
            }
            lemma_order_is_short(states[i].store, between.store.records());
        }
        lemma_links_reach_all(embedding, scope, stamp, memory_id, entities, states, n);
    }
    assert(states[n] == between);
    match r {
        Ok(()) => {
            let again = choose|again: Seq<State<InMemoryVectorStore<D>>>|
                {
                    &&& #[trigger] adding::links_through(
                        embedding,
                        scope,
                        later,
                        memory_id,
                        entities,
                        again,
                    )
                    &&& again[0] == between
                    &&& again.last() == after
                };
            lemma_linking_again(embedding, scope, later, memory_id, entities, again, n);
        },
        Err(err) => {
            let (k, again) = choose|k: int, again: Seq<State<InMemoryVectorStore<D>>>|
                {
                    &&& 0 <= k < entities.len()
                    &&& #[trigger] adding::links_through(
                        embedding,
                        scope,
                        later,
                        memory_id,
                        entities.take(k),
                        again,
                    )
                    &&& again[0] == between
                    &&& adding::may_fail_at_entity(
                        embedding,
                        scope,
                        later,
                        memory_id,
                        entities[k],
                        again.last(),
                        after,
                        err,
                    )
                };
            let done = entities.take(k);
            assert forall|i: int| 0 <= i < done.len() implies links_memory(
                again[0].store,
                scope,
                #[trigger] done[i],
                memory_id,
            ) by {
                assert(done[i] == entities[i]);
            }
            lemma_linking_again(embedding, scope, later, memory_id, done, again, k);
            assert(again.last() == between);
            lemma_memory_can_be_looked_through(between.store, err);
            assert(links_memory(between.store, scope, entities[k], memory_id));
        },
    }
}

} // verus!
