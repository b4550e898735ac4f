//! What the tools answer.

use super::{Caller, Change, Fetched, FetchedModel, MemoryRecord, ShownModel};
use crate::cli;
use crate::cli::Ids;
use crate::embedding::EmbeddingProvider;
use crate::error::CoreError;
use crate::filter::ExprModel;
use crate::history::{EntryModel, HistoryEntry};
use crate::llm;
use crate::llm::{LlmProvider, MessageModel, Role};
use crate::memory;
use crate::memory::adding;
use crate::memory::adding::State;
use crate::memory::laws as memories;
use crate::memory::listing;
use crate::memory::listing::EntitySummary;
use crate::memory::searching;
use crate::memory::searching::Scorer;
use crate::memory::{Setup, Stamp};
use crate::number::{Number, Reading};
use crate::payload::Payload;
use crate::rank;
use crate::rank::Ranked;
use crate::scoring::Blend;
use crate::snapshot;
use crate::text;
use crate::tools;
use crate::vector_store::{
    InMemoryVectorStore, RecordModel, SearchResult, StoreRequest, VectorRecord, VectorStore,
    VectorStoreError,
};
use vstd::prelude::*;

verus! {

/// A caller may go on where no secret is configured, or where the same one is
/// given; any other is turned away, with what is said then.
pub proof fn law_callers<T>(caller: Caller<'_>, r: Result<T, String>, change: Change<T>)
    ensures
        caller.configured is None ==> caller.may_enter(),
        caller.configured is Some && caller.provided is None ==> !caller.may_enter(),
        caller.configured is Some && caller.provided is Some ==> (caller.may_enter()
            <==> caller.provided->0@ == caller.configured->0@),
        tools::turned_away(r) ==> r is Err && r->Err_0@
            == "missing or incorrect secret (MEMORIA_MCP_SECRET is configured on this server; see ADR-38)"@,
        tools::refused(change) ==> change.answer is Err && !change.save,
{
}

/// An answer gives what an outcome gives, or says what its error says; a change is
/// saved exactly where it succeeded.
pub proof fn law_answers<T>(
    outcome: Result<T, CoreError>,
    r: Result<T, String>,
    change: Change<T>,
)
    ensures
        tools::tells(outcome, r) ==> {
            &&& r is Ok <==> outcome is Ok
            &&& r is Ok ==> r->Ok_0 == outcome->Ok_0
            &&& r is Err ==> r->Err_0@ == outcome->Err_0.shown()
        },
        tools::tells_change(outcome, change) ==> tools::tells(outcome, change.answer)
            && change.save == (change.answer is Ok),
{
}

/// The tool that searches searches for what is asked, for those whom it is about,
/// with no filter and no reranking; whether expired memories count, and whether
/// scores are explained, is as asked.
pub proof fn law_search_tool<
    L: LlmProvider,
    E: EmbeddingProvider,
    V: VectorStore,
    N: Fn(&str) -> Reading,
    C: Fn(Blend) -> i64,
    B: Fn(i64) -> i64,
>(
    setup: Setup<L, E>,
    store: V,
    scorer: Scorer<N, C, B>,
    query: Seq<char>,
    ids: Ids,
    top_k: usize,
    threshold: Option<&Number>,
    show_expired: bool,
    explain: bool,
    stamp: Stamp,
    r: Result<Vec<SearchResult>, String>,
) -> (outcome: Result<Vec<SearchResult>, CoreError>)
    requires
        tools::may_answer_search(
            setup,
            store,
            scorer,
            query,
            ids,
            top_k,
            threshold,
            show_expired,
            explain,
            stamp,
            r,
        ),
    ensures
        searching::may_search(
            setup,
            store,
            scorer,
            query,
            top_k,
            ids.scope(),
            threshold,
            show_expired,
            None,
            false,
            explain,
            stamp,
            outcome,
        ),
        r is Ok <==> outcome is Ok,
        r is Ok ==> r->Ok_0 == outcome->Ok_0,
        r is Err ==> r->Err_0@ == outcome->Err_0.shown(),
{
    choose|outcome: Result<Vec<SearchResult>, CoreError>| #[trigger]
        searching::may_search(
            setup,
            store,
            scorer,
            query,
            top_k,
            ids.scope(),
            threshold,
            show_expired,
            None,
            false,
            explain,
            stamp,
            outcome,
        ) && tools::tells(outcome, r)
}

/// The tool that reads a memory of a store in memory answers with its id and its
/// payload; that there is none is a failure that says so.
pub proof fn law_get_tool<D: Fn(&[u32], &[u32]) -> i64>(
    store: InMemoryVectorStore<D>,
    id: Seq<char>,
    r: Result<MemoryRecord, String>,
)
    requires
        tools::may_answer_get(store, id, r),
    ensures
        store.records().contains_key(id) ==> r is Ok && r->Ok_0.id@ == store.records()[id].id
            && r->Ok_0.payload@ == store.records()[id].payload,
        !store.records().contains_key(id) ==> r is Err && r->Err_0@ == "no memory found with id "@
            + id,
{
    let found = choose|found: Result<Option<VectorRecord>, CoreError>| #[trigger]
        memory::may_get(store, id, found) && tools::tells_found(id, found, r);
    memories::law_get(store, id, found);
    if r is Ok {
        assert(r->Ok_0@ == tools::shown(found->Ok_0->0@));
    }
}

/// What is shown of records is their ids and their payloads, in order.
pub proof fn law_shown(records: Seq<RecordModel>, i: int)
    ensures
        tools::all_shown(records).len() == records.len(),
        0 <= i < records.len() ==> tools::all_shown(records)[i].id == records[i].id
            && tools::all_shown(records)[i].payload == records[i].payload,
{
}

/// The tool that lists answers with the memories of the page that is asked for, of
/// those whom it is about, with no filter: each that can be read, in order.
pub proof fn law_list_tool<N: Fn(&str) -> Reading, D: Fn(&[u32], &[u32]) -> i64>(
    read: N,
    store: InMemoryVectorStore<D>,
    ids: Ids,
    offset: usize,
    limit: usize,
    show_expired: bool,
    stamp: Stamp,
    r: Result<Vec<MemoryRecord>, String>,
    i: int,
) -> (listed: Result<Vec<String>, CoreError>)
    requires
        tools::may_answer_list(read, store, ids, offset, limit, show_expired, stamp, r),
    ensures
        listing::may_list_scope(
            read,
            store,
            ids.scope(),
            offset,
            limit,
            show_expired,
            None,
            stamp,
            listed,
        ),
        r is Ok <==> listed is Ok,
        r is Err ==> r->Err_0@ == listed->Err_0.shown(),
        r is Ok && (forall|k: int|
            0 <= k < listed->Ok_0@.len() ==> store.records().contains_key(
                (#[trigger] listed->Ok_0@[k])@,
            )) ==> {
            &&& r->Ok_0@.len() == listed->Ok_0@.len()
            &&& 0 <= i < r->Ok_0@.len() ==> r->Ok_0@[i]@.payload
                == store.records()[listed->Ok_0@[i]@].payload
        },
{
    let listed = choose|listed: Result<Vec<String>, CoreError>| #[trigger]
        listing::may_list_scope(
            read,
            store,
            ids.scope(),
            offset,
            limit,
            show_expired,
            None,
            stamp,
            listed,
        ) && tools::tells_listed(store, listed, r);
    if r is Ok {
        let records = store.records();
        let names = text::texts(listed->Ok_0@);
        let memories = rank::views(r->Ok_0@);
        let out = choose|out: Seq<RecordModel>| #[trigger]
            snapshot::may_read_out(store, names, out) && memories == tools::all_shown(out);
        let marks = choose|marks: Seq<bool>| #[trigger]
            snapshot::may_mark(store, names, marks) && out == snapshot::picked(
                records,
                names,
                marks,
            );
        if forall|k: int|
            0 <= k < listed->Ok_0@.len() ==> records.contains_key((#[trigger] listed->Ok_0@[k])@) {
            assert forall|k: int| 0 <= k < names.len() implies marks[k] by {
                assert(names[k] == listed->Ok_0@[k]@);
                if !marks[k] {
                    assert(snapshot::may_skip(store, names[k]));
                }
            }
            snapshot::laws::lemma_all_picked(records, names, marks);
            assert(memories.len() == out.len());
            assert(memories.len() == r->Ok_0@.len());
            if 0 <= i < r->Ok_0@.len() {
                assert(memories[i] == r->Ok_0@[i]@);
                assert(out[i] == records[names[i]]);
            }
        }
    }
    listed
}

/// The tool that adds adds one message of the user with the content and the images
/// that are given, for those whom it is about; it is saved where it succeeded.
pub proof fn law_add_tool<L: LlmProvider, E: EmbeddingProvider, V: VectorStore>(
    setup: Setup<L, E>,
    before: State<V>,
    after: State<V>,
    content: Seq<char>,
    images: Seq<Seq<char>>,
    ids: Ids,
    infer: bool,
    stamp: Stamp,
    change: Change<Vec<String>>,
) -> (r: (Payload, Result<Vec<String>, CoreError>, Seq<MessageModel>))
    requires
        tools::may_answer_add(
            setup,
            before,
            after,
            content,
            images,
            ids,
            infer,
            stamp,
            change,
        ),
    ensures
        r.0@ == ids.scope(),
        adding::may_add_with(setup, before, after, r.2, r.0, infer, stamp, r.1),
        r.2.len() == 1,
        r.2[0].role is User,
        r.2[0].content == content,
        r.2[0].images == images,
        change.save <==> r.1 is Ok,
        r.1 is Ok ==> change.answer is Ok && change.answer->Ok_0 == r.1->Ok_0,
        r.1 is Err ==> change.answer is Err && change.answer->Err_0@ == r.1->Err_0.shown(),
{
    let messages = seq![MessageModel { role: Role::User, content, images }];
    let (scope, outcome) = choose|scope: Payload, outcome: Result<Vec<String>, CoreError>|
        {
            &&& scope@ == ids.scope()
            &&& #[trigger] adding::may_add_with(
                setup,
                before,
                after,
                messages,
                scope,
                infer,
                stamp,
                outcome,
            )
            &&& tools::tells_change(outcome, change)
        };
    (scope, outcome, messages)
}

/// The tool that updates a memory of a store in memory answers with the memory as
/// it is afterwards: every key of the metadata has the metadata's value. It is
/// saved where it succeeded, and a refused update changes no record.
pub proof fn law_update_tool<E: EmbeddingProvider, D: Fn(&[u32], &[u32]) -> i64>(
    embedding: E,
    before: State<InMemoryVectorStore<D>>,
    after: State<InMemoryVectorStore<D>>,
    id: Seq<char>,
    content: Option<Seq<char>>,
    metadata: Option<Payload>,
    change: Change<MemoryRecord>,
    key: Seq<char>,
)
    requires
        tools::may_answer_update(embedding, before, after, id, content, metadata, change),
    ensures
        change.save <==> change.answer is Ok,
        change.answer is Ok ==> {
            let payload = change.answer->Ok_0.payload@;
            let given = metadata is Some && metadata->0@.contains_key(key);
            &&& after.store.records().contains_key(id)
            &&& payload == after.store.records()[id].payload
            &&& given ==> payload.contains_key(key) && payload[key] == metadata->0@[key]
            &&& !given && content is Some && key == "content"@ ==> payload.contains_key(key)
                && payload[key] == content->0
        },
        change.answer is Err ==> after.store.records() == before.store.records(),
{
    let outcome = choose|outcome: Result<(), CoreError>| #[trigger]
        memory::may_update(embedding, before, after, id, content, metadata, outcome)
            && match outcome {
            Ok(()) => tools::may_tell_update(after.store, id, change),
            Err(err) => !change.save && (change.answer matches Err(message) && message@
                == err.shown()),
        };
    if outcome is Ok {
        memories::law_update(embedding, before, after, id, content, metadata, key, id);
        let found = choose|found: Result<Option<VectorRecord>, CoreError>| #[trigger]
            memory::may_get(after.store, id, found) && tools::tells_found(
                id,
                found,
                change.answer,
            ) && change.save == (found is Ok);
        memories::law_get(after.store, id, found);
        assert(change.answer->Ok_0@ == tools::shown(found->Ok_0->0@));
    } else {
        memories::law_refused_update(embedding, before, after, id, content, metadata, outcome);
    }
}

/// The tool that deletes a memory leaves none with the id; it is saved where it
/// succeeded.
pub proof fn law_delete_tool<V: VectorStore>(
    before: State<V>,
    after: State<V>,
    id: Seq<char>,
    change: Change<()>,
    other: Seq<char>,
)
    requires
        tools::may_answer_delete(before, after, id, change),
    ensures
        change.save <==> change.answer is Ok,
        change.answer is Ok ==> !after.store.records().contains_key(id),
        change.answer is Ok && other != id && before.store.records().contains_key(other)
            ==> after.store.records().contains_key(other) && after.store.records()[other]
            == before.store.records()[other],
{
    let outcome = choose|outcome: Result<(), CoreError>| #[trigger]
        memory::may_delete(before, after, id, outcome) && tools::tells_change(outcome, change);
    if outcome is Ok {
        memories::law_delete(before, after, id, other);
    }
}

/// The tool that deletes the memories of someone is refused where it is said of no
/// one, and nothing changes. Else the records that have every id that is given are
/// gone, and no others, and the answer is how many there were. A store with more
/// records than a list can hold is left out.
pub proof fn law_delete_all_tool<N: Fn(&str) -> Reading, V: VectorStore>(
    read: N,
    before: State<V>,
    after: State<V>,
    ids: Ids,
    change: Change<usize>,
    id: Seq<char>,
)
    requires
        tools::may_answer_delete_all(read, before, after, ids, change),
        before.store.order().len() <= usize::MAX,
    ensures
        ids.user_id is None && ids.agent_id is None && ids.run_id is None ==> {
            &&& after == before
            &&& !change.save
            &&& change.answer is Err
            &&& change.answer->Err_0@
                == "delete_all_memories requires at least one of user_id, agent_id, or run_id -- server has no separate admin tier to gate an unscoped wipe the way the REST API does"@
        },
        change.save <==> change.answer is Ok,
        change.answer is Ok ==> {
            let gone = memories::in_scope(read, before.store.records(), ids.scope(), None);
            &&& change.answer->Ok_0 == gone.len()
            &&& after.store.records().contains_key(id) <==> before.store.records().contains_key(id)
                && !gone.contains(id)
        },
{
    cli::laws::law_ids(ids, "user_id"@);
    if memory::names_someone(ids.scope()) {
        let outcome = choose|outcome: Result<usize, CoreError>| #[trigger]
            listing::may_reset(read, before, after, ids.scope(), None, outcome)
                && tools::tells_change(outcome, change);
        if outcome is Ok {
            memories::law_reset(read, before, after, ids.scope(), None, outcome->Ok_0, id);
        }
    }
}

/// The tool that reads a history answers with the page of it that is asked for.
pub proof fn law_history_tool(
    log: Map<Seq<char>, Seq<EntryModel>>,
    id: Seq<char>,
    offset: usize,
    limit: usize,
    r: Result<Vec<HistoryEntry>, String>,
    i: int,
)
    requires
        tools::may_answer_history(log, id, offset, limit, r),
    ensures
        r is Ok,
        r->Ok_0@.len() <= limit,
        0 <= i < r->Ok_0@.len() ==> r->Ok_0@[i]@ == log[id][offset + i],
        log.contains_key(id) && offset + i < log[id].len() && 0 <= i < limit ==> i
            < r->Ok_0@.len(),
        !log.contains_key(id) ==> r->Ok_0@.len() == 0,
{
    let outcome = choose|outcome: Result<Vec<HistoryEntry>, CoreError>| #[trigger]
        memory::hands_out(log, id, offset, limit, outcome) && tools::tells(outcome, r);
    memories::law_history(log, id, offset, limit, outcome, i);
}

/// The tool that counts whom the memories belong to answers with the table of a
/// count, or says why there is none.
pub proof fn law_entities_tool<V: VectorStore>(
    store: V,
    r: Result<Vec<EntitySummary>, String>,
) -> (outcome: Result<Vec<EntitySummary>, CoreError>)
    requires
        tools::may_answer_entities(store, r),
    ensures
        listing::may_list_entities(store, outcome),
        r is Ok <==> outcome is Ok,
        r is Ok ==> r->Ok_0 == outcome->Ok_0,
        r is Err ==> r->Err_0@ == outcome->Err_0.shown(),
{
    choose|outcome: Result<Vec<EntitySummary>, CoreError>| #[trigger]
        listing::may_list_entities(store, outcome) && tools::tells(outcome, r)
}

/// What comes of records that were asked for: the first failure, or what is shown
/// of those that are there, in order.
pub proof fn law_gathered(fetched: Seq<FetchedModel>, last: FetchedModel)
    ensures
        tools::gathered(Seq::empty()) == Ok::<Seq<ShownModel>, Seq<char>>(Seq::empty()),
        tools::gathered(fetched) is Err ==> tools::gathered(fetched.push(last))
            == tools::gathered(fetched),
        tools::gathered(fetched) is Ok && last.outcome is Err ==> tools::gathered(
            fetched.push(last),
        ) == Err::<Seq<ShownModel>, Seq<char>>(last.outcome->Err_0),
        tools::gathered(fetched) is Ok && last.outcome is Ok && last.outcome->Ok_0 is None
            ==> tools::gathered(fetched.push(last)) == tools::gathered(fetched),
        tools::gathered(fetched) is Ok && last.outcome is Ok && last.outcome->Ok_0 is Some
            ==> tools::gathered(fetched.push(last)) == Ok::<Seq<ShownModel>, Seq<char>>(
            tools::gathered(fetched)->Ok_0.push(
                ShownModel {
                    id: last.outcome->Ok_0->0.id,
                    payload: last.outcome->Ok_0->0.payload,
                },
            ),
        ),
{
    assert(fetched.push(last).drop_last() =~= fetched);
}

/// Records that were asked for are put in the order in which they were asked for.
pub proof fn law_asked_order(a: FetchedModel, b: FetchedModel)
    ensures
        Fetched::may_precede(a, b) <==> a.index <= b.index,
{
}

} // verus!
