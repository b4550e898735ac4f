//! The tools that a server offers to agents: what each of them answers, and when
//! something is to be saved.

pub mod laws;

use crate::cli::Ids;
use crate::embedding::EmbeddingProvider;
use crate::error::CoreError;
use crate::filter;
use crate::history::{EntryModel, HistoryEntry};
use crate::llm;
use crate::llm::{LlmProvider, Message, Role};
use crate::memory;
use crate::memory::adding;
use crate::memory::adding::State;
use crate::memory::listing;
use crate::memory::listing::EntitySummary;
use crate::memory::searching;
use crate::memory::searching::Scorer;
use crate::memory::{Memory, Setup, Stamp};
use crate::number::{Number, Reading};
use crate::payload::Payload;
use crate::rank;
use crate::rank::Ranked;
use crate::scoring::Blend;
use crate::secret;
use crate::settings;
use crate::snapshot;
use crate::text;
use crate::vector_store::{RecordModel, SearchResult, VectorRecord, VectorStore};
use vstd::prelude::*;

verus! {

pub const UNSCOPED_DELETE: &'static str = "delete_all_memories requires at least one of user_id, agent_id, or run_id -- server has no separate admin tier to gate an unscoped wipe the way the REST API does";

/// A caller, by what it says: the secret that is configured, and the one that the
/// caller gives.
#[derive(Clone, Copy, Debug)]
pub struct Caller<'a> {
    pub configured: Option<&'a str>,
    pub provided: Option<&'a str>,
}

impl<'a> Caller<'a> {
    /// Whether the caller may go on.
    pub open spec fn may_enter(self) -> bool {
        secret::knows(self.configured, self.provided)
    }

    fn check(&self) -> (r: Result<(), String>)
        ensures
            r is Ok == self.may_enter(),
            r matches Err(message) ==> message@ == secret::WRONG_SECRET@,
    {
        secret::check_secret(self.configured, self.provided)
    }
}

/// Whether an answer says that the caller may not go on.
pub open spec fn turned_away<T>(r: Result<T, String>) -> bool {
    r matches Err(message) && message@ == secret::WRONG_SECRET@
}

/// Whether an answer tells an outcome: what it gives, or what its error says.
pub open spec fn tells<T>(outcome: Result<T, CoreError>, r: Result<T, String>) -> bool {
    match outcome {
        Ok(value) => r == Ok::<T, String>(value),
        Err(err) => r matches Err(message) && message@ == err.shown(),
    }
}

fn tell<T>(outcome: Result<T, CoreError>) -> (r: Result<T, String>)
    ensures
        tells(outcome, r),
{
    match outcome {
        Ok(value) => Ok(value),
        Err(err) => Err(err.to_string()),
    }
}

/// What a search answers: nothing is reranked and nothing is filtered but by
/// whom it belongs to.
pub open spec fn may_answer_search<
    L: LlmProvider,
    E: EmbeddingProvider,
    V: VectorStore,
    N: Fn(&str) -> Reading,
    C: Fn(Blend) -> i64,
    B: Fn(i64) -> i64,
>(
    setup: Setup<L, E>,
    store: V,
    scorer: Scorer<N, C, B>,
    query: Seq<char>,
    ids: Ids,
    top_k: usize,
    threshold: Option<&Number>,
    show_expired: bool,
    explain: bool,
    stamp: Stamp,
    r: Result<Vec<SearchResult>, String>,
) -> bool {
    exists|outcome: Result<Vec<SearchResult>, CoreError>| #[trigger]
        searching::may_search(
            setup,
            store,
            scorer,
            query,
            top_k,
            ids.scope(),
            threshold,
            show_expired,
            None,
            false,
            explain,
            stamp,
            outcome,
        ) && tells(outcome, r)
}

/// Searches memories.
pub fn search_memories<
    L: LlmProvider,
    E: EmbeddingProvider,
    V: VectorStore,
    N: Fn(&str) -> Reading,
    C: Fn(Blend) -> i64,
    B: Fn(i64) -> i64,
>(
    caller: Caller,
    memory: &Memory<L, E, V>,
    scorer: &Scorer<N, C, B>,
    query: &str,
    ids: Ids,
    top_k: usize,
    threshold: Option<&Number>,
    show_expired: bool,
    explain: bool,
    stamp: Stamp,
) -> (r: Result<Vec<SearchResult>, String>)
    requires
        scorer.answers(),
    ensures
        if caller.may_enter() {
            may_answer_search(
                memory.setup(),
                memory.store(),
                *scorer,
                query@,
                ids,
                top_k,
                threshold,
                show_expired,
                explain,
                stamp,
                r,
            )
        } else {
            turned_away(r)
        },
{
    match caller.check() {
        Ok(()) => {},
        Err(message) => {
            return Err(message);
        },
    }
    let ghost asked = ids;
    let scope = settings::scope_from_optional(ids.user_id, ids.agent_id, ids.run_id);
    let outcome = memory.search(
        query,
        top_k,
        &scope,
        threshold,
        show_expired,
        None,
        false,
        explain,
        stamp,
        scorer,
    );
    proof {
        assert(scope@ == asked.scope());
        assert(searching::may_search(
            memory.setup(),
            memory.store(),
            *scorer,
            query@,
            top_k,
            asked.scope(),
            threshold,
            show_expired,
            None,
            false,
            explain,
            stamp,
            outcome,
        ));
    }
    tell(outcome)
}

/// A memory as it is shown: its id and its payload.
#[derive(Debug)]
pub struct MemoryRecord {
    pub id: String,
    pub payload: Payload,
}

/// A memory as it is shown, as a value.
#[verifier::ext_equal]
pub struct ShownModel {
    pub id: Seq<char>,
    pub payload: Map<Seq<char>, Seq<char>>,
}

impl View for MemoryRecord {
    type V = ShownModel;

    open spec fn view(&self) -> ShownModel {
        ShownModel { id: self.id@, payload: self.payload@ }
    }
}

/// What is shown of a record: all but its vector.
pub open spec fn shown(record: RecordModel) -> ShownModel {
    ShownModel { id: record.id, payload: record.payload }
}

/// What is shown of some records.
pub open spec fn all_shown(records: Seq<RecordModel>) -> Seq<ShownModel> {
    records.map_values(|r: RecordModel| shown(r))
}

impl MemoryRecord {
    /// What is shown of a record.
    pub fn of(record: VectorRecord) -> (r: Self)
        ensures
            r@ == shown(record@),
    {
        MemoryRecord { id: record.id, payload: record.payload }
    }
}

fn show_all(records: Vec<VectorRecord>) -> (r: Vec<MemoryRecord>)
    ensures
        rank::views(r@) == all_shown(rank::views(records@)),
{
    let ghost wanted = all_shown(rank::views(records@));
    let mut r: Vec<MemoryRecord> = Vec::new();
    let mut i: usize = 0;
    while i < records.len()
        invariant
            i <= records.len(),
            wanted == all_shown(rank::views(records@)),
            rank::views(r@) == wanted.take(i as int),
        decreases records.len() - i,
    {
        let ghost before = rank::views(r@);
        r.push(MemoryRecord::of(records[i].clone()));
        proof {
            assert(r@.last()@ =~= wanted[i as int]);
            assert(rank::views(r@) =~= before.push(wanted[i as int]));
            assert(wanted.take(i + 1) =~= before.push(wanted[i as int]));
        }
        i = i + 1;
    }
    proof {
        assert(wanted.take(i as int) =~= wanted);
    }
    r
}

/// Whether an answer tells what was found with an id.
pub open spec fn tells_found(
    id: Seq<char>,
    found: Result<Option<VectorRecord>, CoreError>,
    r: Result<MemoryRecord, String>,
) -> bool {
    match found {
        Ok(Some(record)) => r matches Ok(memory) && memory@ == shown(record@),
        Ok(None) => r matches Err(message) && message@ == "no memory found with id "@ + id,
        Err(err) => r matches Err(message) && message@ == err.shown(),
    }
}

/// What was found with an id, as it is shown; to find nothing is a failure.
pub fn tell_found(id: &str, found: Option<VectorRecord>) -> (r: Result<MemoryRecord, String>)
    ensures
        tells_found(id@, Ok(found), r),
{
    match found {
        Some(record) => Ok(MemoryRecord::of(record)),
        None => Err(text::concat("no memory found with id ", id)),
    }
}

/// What reading a memory answers.
pub open spec fn may_answer_get<V: VectorStore>(
    store: V,
    id: Seq<char>,
    r: Result<MemoryRecord, String>,
) -> bool {
    exists|found: Result<Option<VectorRecord>, CoreError>| #[trigger]
        memory::may_get(store, id, found) && tells_found(id, found, r)
}

/// Reads a memory.
pub fn get_memory<L: LlmProvider, E: EmbeddingProvider, V: VectorStore>(
    caller: Caller,
    memory: &Memory<L, E, V>,
    id: &str,
) -> (r: Result<MemoryRecord, String>)
    ensures
        if caller.may_enter() {
            may_answer_get(memory.store(), id@, r)
        } else {
            turned_away(r)
        },
{
    match caller.check() {
        Ok(()) => {},
        Err(message) => {
            return Err(message);
        },
    }
    let found = memory.get(id);
    proof {
        assert(memory::may_get(memory.store(), id@, found));
    }
    match found {
        Ok(found) => tell_found(id, found),
        Err(err) => Err(err.to_string()),
    }
}

/// Whether an answer shows the memories of a list.
pub open spec fn tells_listed<V: VectorStore>(
    store: V,
    listed: Result<Vec<String>, CoreError>,
    r: Result<Vec<MemoryRecord>, String>,
) -> bool {
    match listed {
        Ok(ids) => r matches Ok(memories) && may_show(
            store,
            text::texts(ids@),
            rank::views(memories@),
        ),
        Err(err) => r matches Err(message) && message@ == err.shown(),
    }
}

/// Whether these memories may be shown for some ids: each that can be read.
pub open spec fn may_show<V: VectorStore>(
    store: V,
    ids: Seq<Seq<char>>,
    memories: Seq<ShownModel>,
) -> bool {
    exists|records: Seq<RecordModel>| #[trigger]
        snapshot::may_read_out(store, ids, records) && memories == all_shown(records)
}

/// What listing memories answers.
pub open spec fn may_answer_list<N: Fn(&str) -> Reading, V: VectorStore>(
    read: N,
    store: V,
    ids: Ids,
    offset: usize,
    limit: usize,
    show_expired: bool,
    stamp: Stamp,
    r: Result<Vec<MemoryRecord>, String>,
) -> bool {
    exists|listed: Result<Vec<String>, CoreError>| #[trigger]
        listing::may_list_scope(
            read,
            store,
            ids.scope(),
            offset,
            limit,
            show_expired,
            None,
            stamp,
            listed,
        ) && tells_listed(store, listed, r)
}

/// Lists memories.
pub fn get_memories<L: LlmProvider, E: EmbeddingProvider, V: VectorStore, N: Fn(&str) -> Reading>(
    caller: Caller,
    memory: &Memory<L, E, V>,
    read: &N,
    ids: Ids,
    offset: usize,
    limit: usize,
    show_expired: bool,
    stamp: Stamp,
) -> (r: Result<Vec<MemoryRecord>, String>)
    requires
        filter::reads(*read),
    ensures
        if caller.may_enter() {
            may_answer_list(
                *read,
                memory.store(),
                ids,
                offset,
                limit,
                show_expired,
                stamp,
                r,
            )
        } else {
            turned_away(r)
        },
{
    match caller.check() {
        Ok(()) => {},
        Err(message) => {
            return Err(message);
        },
    }
    let ghost asked = ids;
    let scope = settings::scope_from_optional(ids.user_id, ids.agent_id, ids.run_id);
    let listed = memory.list(&scope, offset, limit, show_expired, None, stamp, read);
    proof {
        assert(scope@ == asked.scope());
        assert(listing::may_list_scope(
            *read,
            memory.store(),
            asked.scope(),
            offset,
            limit,
            show_expired,
            None,
            stamp,
            listed,
        ));
    }
    match &listed {
        Ok(ids) => {
            let records = snapshot::read_records(memory, ids);
            let ghost found = rank::views(records@);
            let memories = show_all(records);
            proof {
                assert(snapshot::may_read_out(memory.store(), text::texts(ids@), found));
                assert(may_show(memory.store(), text::texts(ids@), rank::views(memories@)));
            }
            Ok(memories)
        },
        Err(err) => Err(err.to_string()),
    }
}

/// What reading a history answers.
pub open spec fn may_answer_history(
    log: Map<Seq<char>, Seq<EntryModel>>,
    id: Seq<char>,
    offset: usize,
    limit: usize,
    r: Result<Vec<HistoryEntry>, String>,
) -> bool {
    exists|outcome: Result<Vec<HistoryEntry>, CoreError>| #[trigger]
        memory::hands_out(log, id, offset, limit, outcome) && tells(outcome, r)
}

/// Reads the history of a memory.
pub fn memory_history<L: LlmProvider, E: EmbeddingProvider, V: VectorStore>(
    caller: Caller,
    memory: &Memory<L, E, V>,
    id: &str,
    offset: usize,
    limit: usize,
) -> (r: Result<Vec<HistoryEntry>, String>)
    ensures
        if caller.may_enter() {
            may_answer_history(memory.log(), id@, offset, limit, r)
        } else {
            turned_away(r)
        },
{
    match caller.check() {
        Ok(()) => {},
        Err(message) => {
            return Err(message);
        },
    }
    let outcome = memory.history(id, offset, limit);
    proof {
        assert(memory::hands_out(memory.log(), id@, offset, limit, outcome));
    }
    tell(outcome)
}

/// What a tool that changes memories answers, and whether the change is to be
/// saved.
#[derive(Debug)]
pub struct Change<T> {
    pub answer: Result<T, String>,
    pub save: bool,
}

/// Whether a change is that of a caller who may not go on: nothing is saved.
pub open spec fn refused<T>(change: Change<T>) -> bool {
    turned_away(change.answer) && !change.save
}

/// Whether a change tells an outcome: it is to be saved if it succeeded.
pub open spec fn tells_change<T>(outcome: Result<T, CoreError>, change: Change<T>) -> bool {
    tells(outcome, change.answer) && change.save == (outcome is Ok)
}

/// What adding a message answers.
pub open spec fn may_answer_add<L: LlmProvider, E: EmbeddingProvider, V: VectorStore>(
    setup: Setup<L, E>,
    before: State<V>,
    after: State<V>,
    content: Seq<char>,
    images: Seq<Seq<char>>,
    ids: Ids,
    infer: bool,
    stamp: Stamp,
    change: Change<Vec<String>>,
) -> bool {
    exists|scope: Payload, outcome: Result<Vec<String>, CoreError>|
        {
            &&& scope@ == ids.scope()
            &&& #[trigger] adding::may_add_with(
                setup,
                before,
                after,
                seq![llm::MessageModel { role: Role::User, content, images }],
                scope,
                infer,
                stamp,
                outcome,
            )
            &&& tells_change(outcome, change)
        }
}

/// Adds a message to the memories.
pub fn add_memory<L: LlmProvider, E: EmbeddingProvider, V: VectorStore>(
    caller: Caller,
    memory: &mut Memory<L, E, V>,
    content: &str,
    images: Vec<String>,
    ids: Ids,
    infer: bool,
    stamp: Stamp,
) -> (r: Change<Vec<String>>)
    ensures
        final(memory).setup() == old(memory).setup(),
        if caller.may_enter() {
            may_answer_add(
                old(memory).setup(),
                old(memory).state(),
                final(memory).state(),
                content@,
                text::texts(images@),
                ids,
                infer,
                stamp,
                r,
            )
        } else {
            refused(r) && final(memory).state() == old(memory).state()
        },
{
    match caller.check() {
        Ok(()) => {},
        Err(message) => {
            return Change { answer: Err(message), save: false };
        },
    }
    let ghost asked = ids;
    let ghost pictures = text::texts(images@);
    let scope = settings::scope_from_optional(ids.user_id, ids.agent_id, ids.run_id);
    let mut messages: Vec<Message> = Vec::new();
    messages.push(Message::with_images(Role::User, content, images));
    let ghost said = seq![
        llm::MessageModel { role: Role::User, content: content@, images: pictures },
    ];
    proof {
        assert(llm::message_models(messages@) =~= said);
        assert(scope@ == asked.scope());
    }
    let outcome = memory.add(messages.as_slice(), &scope, infer, stamp);
    proof {
        assert(adding::may_add_with(
            old(memory).setup(),
            old(memory).state(),
            memory.state(),
            said,
            scope,
            infer,
            stamp,
            outcome,
        ));
    }
    let save = outcome.is_ok();
    Change { answer: tell(outcome), save }
}

/// What an update answers: what the memory is afterwards. An update that was
/// made and can be read back is to be saved.
pub open spec fn may_answer_update<E: EmbeddingProvider, V: VectorStore>(
    embedding: E,
    before: State<V>,
    after: State<V>,
    id: Seq<char>,
    content: Option<Seq<char>>,
    metadata: Option<Payload>,
    change: Change<MemoryRecord>,
) -> bool {
    exists|outcome: Result<(), CoreError>| #[trigger]
        memory::may_update(embedding, before, after, id, content, metadata, outcome)
            && match outcome {
            Ok(()) => may_tell_update(after.store, id, change),
            Err(err) => !change.save && (change.answer matches Err(message) && message@
                == err.shown()),
        }
}

/// What is told of an update that was made.
pub open spec fn may_tell_update<V: VectorStore>(
    store: V,
    id: Seq<char>,
    change: Change<MemoryRecord>,
) -> bool {
    exists|found: Result<Option<VectorRecord>, CoreError>| #[trigger]
        memory::may_get(store, id, found) && tells_found(id, found, change.answer) && change.save
            == (found is Ok)
}

/// Updates a memory.
pub fn update_memory<L: LlmProvider, E: EmbeddingProvider, V: VectorStore>(
    caller: Caller,
    memory: &mut Memory<L, E, V>,
    id: &str,
    content: Option<&str>,
    metadata: Option<Payload>,
) -> (r: Change<MemoryRecord>)
    ensures
        final(memory).setup() == old(memory).setup(),
        if caller.may_enter() {
            may_answer_update(
                old(memory).setup().embedding,
                old(memory).state(),
                final(memory).state(),
                id@,
                text::lent(content),
                metadata,
                r,
            )
        } else {
            refused(r) && final(memory).state() == old(memory).state()
        },
{
    match caller.check() {
        Ok(()) => {},
        Err(message) => {
            return Change { answer: Err(message), save: false };
        },
    }
    let ghost wanted = metadata;
    let outcome = memory.update(id, content, metadata);
    proof {
        assert(memory::may_update(
            old(memory).setup().embedding,
            old(memory).state(),
            memory.state(),
            id@,
            text::lent(content),
            wanted,
            outcome,
        ));
    }
    match outcome {
        Ok(()) => {},
        Err(err) => {
            return Change { answer: Err(err.to_string()), save: false };
        },
    }
    let found = memory.get(id);
    proof {
        assert(memory::may_get(memory.state().store, id@, found));
    }
    let ghost seen = found;
    let change = match found {
        Ok(found) => Change { answer: tell_found(id, found), save: true },
        Err(err) => Change { answer: Err(err.to_string()), save: false },
    };
    proof {
        assert(memory::may_get(memory.state().store, id@, seen));
        assert(tells_found(id@, seen, change.answer));
        assert(may_tell_update(memory.state().store, id@, change));
    }
    change
}

/// What deleting a memory answers.
pub open spec fn may_answer_delete<V: VectorStore>(
    before: State<V>,
    after: State<V>,
    id: Seq<char>,
    change: Change<()>,
) -> bool {
    exists|outcome: Result<(), CoreError>| #[trigger]
        memory::may_delete(before, after, id, outcome) && tells_change(outcome, change)
}

/// Deletes a memory.
pub fn delete_memory<L: LlmProvider, E: EmbeddingProvider, V: VectorStore>(
    caller: Caller,
    memory: &mut Memory<L, E, V>,
    id: &str,
) -> (r: Change<()>)
    ensures
        final(memory).setup() == old(memory).setup(),
        if caller.may_enter() {
            may_answer_delete(old(memory).state(), final(memory).state(), id@, r)
        } else {
            refused(r) && final(memory).state() == old(memory).state()
        },
{
    match caller.check() {
        Ok(()) => {},
        Err(message) => {
            return Change { answer: Err(message), save: false };
        },
    }
    let outcome = memory.delete(id);
    proof {
        assert(memory::may_delete(old(memory).state(), memory.state(), id@, outcome));
    }
    let save = outcome.is_ok();
    Change { answer: tell(outcome), save }
}

/// Refuses to delete memories without saying whose.
pub fn check_delete_all(ids: &Ids) -> (r: Result<(), String>)
    ensures
        r is Ok == memory::names_someone(ids.scope()),
        r matches Err(message) ==> message@ == UNSCOPED_DELETE@,
{
    proof {
        settings::law_scope_names_whom_the_request_names(
            text::model(ids.user_id),
            text::model(ids.agent_id),
            text::model(ids.run_id),
        );
    }
    if ids.user_id.is_none() && ids.agent_id.is_none() && ids.run_id.is_none() {
        return Err(UNSCOPED_DELETE.to_owned());
    }
    Ok(())
}

/// What deleting the memories of someone answers: how many there were.
pub open spec fn may_answer_delete_all<N: Fn(&str) -> Reading, V: VectorStore>(
    read: N,
    before: State<V>,
    after: State<V>,
    ids: Ids,
    change: Change<usize>,
) -> bool {
    if !memory::names_someone(ids.scope()) {
        &&& change.answer matches Err(message)
        &&& message@ == UNSCOPED_DELETE@
        &&& !change.save
        &&& after == before
    } else {
        exists|outcome: Result<usize, CoreError>| #[trigger]
            listing::may_reset(read, before, after, ids.scope(), None, outcome) && tells_change(
                outcome,
                change,
            )
    }
}

/// Deletes the memories of someone.
pub fn delete_all_memories<
    L: LlmProvider,
    E: EmbeddingProvider,
    V: VectorStore,
    N: Fn(&str) -> Reading,
>(caller: Caller, memory: &mut Memory<L, E, V>, read: &N, ids: Ids) -> (r: Change<usize>)
    requires
        filter::reads(*read),
    ensures
        final(memory).setup() == old(memory).setup(),
        if caller.may_enter() {
            may_answer_delete_all(*read, old(memory).state(), final(memory).state(), ids, r)
        } else {
            refused(r) && final(memory).state() == old(memory).state()
        },
{
    match caller.check() {
        Ok(()) => {},
        Err(message) => {
            return Change { answer: Err(message), save: false };
        },
    }
    match check_delete_all(&ids) {
        Ok(()) => {},
        Err(message) => {
            return Change { answer: Err(message), save: false };
        },
    }
    let ghost asked = ids;
    let scope = settings::scope_from_optional(ids.user_id, ids.agent_id, ids.run_id);
    let outcome = memory.reset(&scope, None, read);
    proof {
        assert(scope@ == asked.scope());
        assert(listing::may_reset(
            *read,
            old(memory).state(),
            memory.state(),
            asked.scope(),
            None,
            outcome,
        ));
    }
    let save = outcome.is_ok();
    Change { answer: tell(outcome), save }
}

/// What counting whom the memories belong to answers.
pub open spec fn may_answer_entities<V: VectorStore>(
    store: V,
    r: Result<Vec<EntitySummary>, String>,
) -> bool {
    exists|outcome: Result<Vec<EntitySummary>, CoreError>| #[trigger]
        listing::may_list_entities(store, outcome) && tells(outcome, r)
}

/// Counts whom the memories belong to.
pub fn list_entities<L: LlmProvider, E: EmbeddingProvider, V: VectorStore>(
    caller: Caller,
    memory: &Memory<L, E, V>,
) -> (r: Result<Vec<EntitySummary>, String>)
    ensures
        if caller.may_enter() {
            may_answer_entities(memory.store(), r)
        } else {
            turned_away(r)
        },
{
    match caller.check() {
        Ok(()) => {},
        Err(message) => {
            return Err(message);
        },
    }
    let outcome = memory.list_entities();
    proof {
        assert(listing::may_list_entities(memory.store(), outcome));
    }
    tell(outcome)
}

/// What is saved after a change: the records if the server keeps them in a file,
/// and the histories if it keeps those. A server that hands everything on to
/// another saves nothing.
pub fn persist_after_mutation(
    local: bool,
    persist_json_snapshot: bool,
    persist_history: bool,
) -> (r: (bool, bool))
    ensures
        r.0 == (local && persist_json_snapshot),
        r.1 == (local && persist_history),
{
    (local && persist_json_snapshot, local && persist_history)
}

/// A record that was asked for from elsewhere: which it was of those that were
/// asked for, and what came of it.
#[derive(Debug)]
pub struct Fetched {
    pub index: usize,
    pub outcome: Result<Option<VectorRecord>, String>,
}

/// A record that was asked for from elsewhere, as a value.
#[verifier::ext_equal]
pub struct FetchedModel {
    pub index: usize,
    pub outcome: Result<Option<RecordModel>, Seq<char>>,
}

impl View for Fetched {
    type V = FetchedModel;

    open spec fn view(&self) -> FetchedModel {
        FetchedModel {
            index: self.index,
            outcome: match self.outcome {
                Ok(Some(record)) => Ok(Some(record@)),
                Ok(None) => Ok(None),
                Err(message) => Err(message@),
            },
        }
    }
}

impl Ranked for Fetched {
    open spec fn may_precede(a: FetchedModel, b: FetchedModel) -> bool {
        a.index <= b.index
    }

    fn is_not_after(&self, other: &Self) -> (b: bool) {
        self.index <= other.index
    }
}

/// What some records come to that were asked for: what is shown of those that
/// are there, or the first failure.
pub open spec fn gathered(fetched: Seq<FetchedModel>) -> Result<Seq<ShownModel>, Seq<char>>
    decreases fetched.len(),
{
    if fetched.len() == 0 {
        Ok(Seq::empty())
    } else {
        match gathered(fetched.drop_last()) {
            Err(message) => Err(message),
            Ok(before) => match fetched.last().outcome {
                Ok(Some(record)) => Ok(before.push(shown(record))),
                Ok(None) => Ok(before),
                Err(message) => Err(message),
            },
        }
    }
}

proof fn lemma_gathered_fails(fetched: Seq<FetchedModel>, i: int)
    requires
        0 <= i < fetched.len(),
        gathered(fetched.take(i)) is Ok,
        fetched[i].outcome is Err,
    ensures
        gathered(fetched) == Err::<Seq<ShownModel>, Seq<char>>(fetched[i].outcome->Err_0),
    decreases fetched.len(),
{
    if i == fetched.len() - 1 {
        assert(fetched.drop_last() =~= fetched.take(i));
    } else {
        let before = fetched.drop_last();
        assert(before.take(i) =~= fetched.take(i));
        lemma_gathered_fails(before, i);
    }
}

/// What some records come to that were asked for and came in any order: what is
/// shown of those that are there, in the order in which they were asked for, or
/// the first failure in that order.
pub fn gather(fetched: Vec<Fetched>) -> (r: Result<Vec<MemoryRecord>, String>)
    ensures
        match r {
            Ok(memories) => gathered(rank::ranked::<Fetched>(rank::views(fetched@))) == Ok::<
                Seq<ShownModel>,
                Seq<char>,
            >(rank::views(memories@)),
            Err(message) => gathered(rank::ranked::<Fetched>(rank::views(fetched@))) == Err::<
                Seq<ShownModel>,
                Seq<char>,
            >(message@),
        },
{
    let ghost given = rank::views(fetched@);
    let sorted = rank::sort(fetched);
    let ghost all = rank::views(sorted@);
    let mut r: Vec<MemoryRecord> = Vec::new();
    let mut i: usize = 0;
    proof {
        assert(all.take(0) =~= Seq::empty());
        assert(rank::views(r@) =~= Seq::empty());
    }
    while i < sorted.len()
        invariant
            i <= sorted.len(),
            all == rank::views(sorted@),
            given == rank::views(fetched@),
            all == rank::ranked::<Fetched>(given),
            gathered(all.take(i as int)) == Ok::<Seq<ShownModel>, Seq<char>>(rank::views(r@)),
        decreases sorted.len() - i,
    {
        let ghost before = rank::views(r@);
        proof {
            assert(all.take(i + 1).drop_last() =~= all.take(i as int));
            assert(all.take(i + 1).last() == sorted@[i as int]@);
            assert(all[i as int] == sorted@[i as int]@);
        }
        match &sorted[i].outcome {
            Ok(Some(record)) => {
                r.push(MemoryRecord::of(record.clone()));
                proof {
                    assert(rank::views(r@) =~= before.push(shown(record@)));
                }
            },
            Ok(None) => {},
            Err(message) => {
                proof {
                    lemma_gathered_fails(all, i as int);
                }
                return Err(message.clone());
            },
        }
        i = i + 1;
    }
    proof {
        assert(all.take(i as int) =~= all);
    }
    Ok(r)
}

} // verus!
