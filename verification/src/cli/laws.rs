//! What commands do and say.

use super::{Command, Ids, Output, Report, WhoamiInfo};
use crate::cli;
use crate::embedding::EmbeddingProvider;
use crate::error::CoreError;
use crate::history::{HistoryEntry, HistoryEvent};
use crate::llm::{LlmProvider, MessageModel, Role};
use crate::memory;
use crate::memory::adding;
use crate::memory::adding::State;
use crate::memory::laws as memories;
use crate::memory::listing;
use crate::memory::searching;
use crate::memory::searching::Scorer;
use crate::memory::{Setup, Stamp};
use crate::number::{Number, Reading};
use crate::payload;
use crate::payload::Payload;
use crate::rank;
use crate::scoring::Blend;
use crate::text;
use crate::vector_store::{InMemoryVectorStore, SearchResult, VectorRecord, VectorStore};
use vstd::prelude::*;

verus! {

/// Whom a command is about: the ids that are given, under their names, and nothing
/// else.
pub proof fn law_ids(ids: Ids, key: Seq<char>)
    ensures
        ids.scope().contains_key("user_id"@) == (ids.user_id is Some),
        ids.user_id is Some ==> ids.scope()["user_id"@] == ids.user_id->0@,
        ids.scope().contains_key("agent_id"@) == (ids.agent_id is Some),
        ids.agent_id is Some ==> ids.scope()["agent_id"@] == ids.agent_id->0@,
        ids.scope().contains_key("run_id"@) == (ids.run_id is Some),
        ids.run_id is Some ==> ids.scope()["run_id"@] == ids.run_id->0@,
        key != "user_id"@ && key != "agent_id"@ && key != "run_id"@ ==> !ids.scope().contains_key(
            key,
        ),
{
    crate::settings::laws::law_scopes(
        text::model(ids.user_id),
        text::model(ids.agent_id),
        text::model(ids.run_id),
        key,
    );
}

/// Whether a report is that of a success: it says what there is to say, or nothing
/// if it is to be quiet.
pub open spec fn succeeds(report: Report, quiet: bool, output: Output) -> bool {
    &&& report.failure is None
    &&& quiet ==> report.output is Nothing
    &&& !quiet ==> report.output == output
}

/// Whether a report is that of a failure for a reason: it says why, and nothing is
/// saved.
pub open spec fn fails(report: Report, why: Seq<char>) -> bool {
    &&& report.failure is Some
    &&& report.failure->0@ == why
    &&& report.output is Nothing
    &&& !report.save_store
    &&& !report.save_history
}

/// The command to add adds one message of the user with the content that is given,
/// for those whom it is about, with its facts extracted unless that is not wanted.
/// It says the ids, and the records and the histories are saved.
pub proof fn law_add_command<
    L: LlmProvider,
    E: EmbeddingProvider,
    V: VectorStore,
    N: Fn(&str) -> Reading,
    C: Fn(Blend) -> i64,
    B: Fn(i64) -> i64,
>(
    content: String,
    ids: Ids,
    no_infer: bool,
    setup: Setup<L, E>,
    before: State<V>,
    after: State<V>,
    scorer: Scorer<N, C, B>,
    info: WhoamiInfo,
    quiet: bool,
    stamp: Stamp,
    report: Report,
) -> (r: (Payload, Result<Vec<String>, CoreError>, Seq<MessageModel>))
    requires
        cli::may_report(
            Command::Add { content, ids, no_infer },
            setup,
            before,
            after,
            scorer,
            info,
            quiet,
            stamp,
            report,
        ),
    ensures
        r.0@ == ids.scope(),
        adding::may_add_with(setup, before, after, r.2, r.0, !no_infer, stamp, r.1),
        r.2.len() == 1,
        r.2[0].role is User,
        r.2[0].content == content@,
        r.2[0].images.len() == 0,
        r.1 is Ok ==> succeeds(report, quiet, Output::Ids(r.1->Ok_0)) && report.save_store
            && report.save_history,
        r.1 is Err ==> fails(report, "error: "@ + r.1->Err_0.shown()),
{
    let messages = seq![crate::llm::plain(Role::User, content@)];
    let infer = !no_infer;
    let (scope, outcome) = choose|scope: Payload, r: Result<Vec<String>, CoreError>|
        {
            &&& scope@ == ids.scope()
            &&& #[trigger] adding::may_add_with(
                setup,
                before,
                after,
                messages,
                scope,
                infer,
                stamp,
                r,
            )
            &&& match r {
                Ok(added) => cli::did(report, quiet, Output::Ids(added), true, true),
                Err(err) => cli::failed(report, "error: "@ + err.shown()),
            }
        };
    (scope, outcome, messages)
}

/// The command to search searches for what is asked, for those whom it is about;
/// expired memories count, no score is explained, and nothing changes.
pub proof fn law_search_command<
    L: LlmProvider,
    E: EmbeddingProvider,
    V: VectorStore,
    N: Fn(&str) -> Reading,
    C: Fn(Blend) -> i64,
    B: Fn(i64) -> i64,
>(
    query: String,
    ids: Ids,
    top_k: usize,
    threshold: Option<Number>,
    rerank: bool,
    filter: Option<crate::filter::FilterExpr>,
    setup: Setup<L, E>,
    before: State<V>,
    after: State<V>,
    scorer: Scorer<N, C, B>,
    info: WhoamiInfo,
    quiet: bool,
    stamp: Stamp,
    report: Report,
) -> (r: Result<Vec<SearchResult>, CoreError>)
    requires
        cli::may_report(
            Command::Search { query, ids, top_k, threshold, rerank, filter },
            setup,
            before,
            after,
            scorer,
            info,
            quiet,
            stamp,
            report,
        ),
    ensures
        after == before,
        threshold is None ==> searching::may_search(
            setup,
            before.store,
            scorer,
            query@,
            top_k,
            ids.scope(),
            None,
            true,
            if filter is Some {
                Some(filter->0@)
            } else {
                None
            },
            rerank,
            false,
            stamp,
            r,
        ),
        threshold is Some ==> searching::may_search(
            setup,
            before.store,
            scorer,
            query@,
            top_k,
            ids.scope(),
            Some(&threshold->0),
            true,
            if filter is Some {
                Some(filter->0@)
            } else {
                None
            },
            rerank,
            false,
            stamp,
            r,
        ),
        r is Ok ==> succeeds(report, quiet, Output::Results(r->Ok_0)) && !report.save_store
            && !report.save_history,
        r is Err ==> fails(report, "error: "@ + r->Err_0.shown()),
{
    choose|r: Result<Vec<SearchResult>, CoreError>| #[trigger]
        searching::may_search(
            setup,
            before.store,
            scorer,
            query@,
            top_k,
            ids.scope(),
            cli::number_ref(&threshold),
            true,
            cli::filter_value(filter),
            rerank,
            false,
            stamp,
            r,
        ) && match r {
            Ok(results) => cli::did(report, quiet, Output::Results(results), false, false),
            Err(err) => cli::failed(report, "error: "@ + err.shown()),
        }
}

/// The command to read a memory of a store in memory says the record with the id;
/// that there is none is a failure that says so. Nothing changes.
pub proof fn law_get_command<
    L: LlmProvider,
    E: EmbeddingProvider,
    D: Fn(&[u32], &[u32]) -> i64,
    N: Fn(&str) -> Reading,
    C: Fn(Blend) -> i64,
    B: Fn(i64) -> i64,
>(
    id: String,
    setup: Setup<L, E>,
    before: State<InMemoryVectorStore<D>>,
    after: State<InMemoryVectorStore<D>>,
    scorer: Scorer<N, C, B>,
    info: WhoamiInfo,
    stamp: Stamp,
    report: Report,
)
    requires
        cli::may_report(
            Command::Get { id },
            setup,
            before,
            after,
            scorer,
            info,
            false,
            stamp,
            report,
        ),
    ensures
        after == before,
        before.store.records().contains_key(id@) ==> report.failure is None && report.output
            is Record && report.output->Record_0@ == before.store.records()[id@],
        !before.store.records().contains_key(id@) ==> fails(report, "not found: "@ + id@),
        !report.save_store,
        !report.save_history,
{
    let r = choose|r: Result<Option<VectorRecord>, CoreError>| #[trigger]
        memory::may_get(before.store, id@, r) && match r {
            Ok(Some(record)) => cli::did(report, false, Output::Record(record), false, false),
            Ok(None) => cli::failed(report, "not found: "@ + id@),
            Err(err) => cli::failed(report, "error: "@ + err.shown()),
        };
    memories::law_get(before.store, id@, r);
}

/// The command to list says a page of the memories of those whom it is about,
/// expired ones too, with no filter; nothing changes.
pub proof fn law_list_command<
    L: LlmProvider,
    E: EmbeddingProvider,
    V: VectorStore,
    N: Fn(&str) -> Reading,
    C: Fn(Blend) -> i64,
    B: Fn(i64) -> i64,
>(
    ids: Ids,
    offset: usize,
    limit: usize,
    setup: Setup<L, E>,
    before: State<V>,
    after: State<V>,
    scorer: Scorer<N, C, B>,
    info: WhoamiInfo,
    quiet: bool,
    stamp: Stamp,
    report: Report,
) -> (r: Result<Vec<String>, CoreError>)
    requires
        cli::may_report(
            Command::List { ids, offset, limit },
            setup,
            before,
            after,
            scorer,
            info,
            quiet,
            stamp,
            report,
        ),
    ensures
        after == before,
        listing::may_list_scope(
            scorer.read,
            before.store,
            ids.scope(),
            offset,
            limit,
            true,
            None,
            stamp,
            r,
        ),
        r is Ok ==> succeeds(report, quiet, Output::Ids(r->Ok_0)) && !report.save_store
            && !report.save_history,
        r is Err ==> fails(report, "error: "@ + r->Err_0.shown()),
{
    choose|r: Result<Vec<String>, CoreError>| #[trigger]
        listing::may_list_scope(
            scorer.read,
            before.store,
            ids.scope(),
            offset,
            limit,
            true,
            None,
            stamp,
            r,
        ) && match r {
            Ok(listed) => cli::did(report, quiet, Output::Ids(listed), false, false),
            Err(err) => cli::failed(report, "error: "@ + err.shown()),
        }
}

/// The command to update that succeeds leaves what was set last under each key, and
/// the content that is given unless one was set; the records are saved, and nothing
/// is said.
pub proof fn law_update_command<
    L: LlmProvider,
    E: EmbeddingProvider,
    V: VectorStore,
    N: Fn(&str) -> Reading,
    C: Fn(Blend) -> i64,
    B: Fn(i64) -> i64,
>(
    id: String,
    new_content: Option<String>,
    set: Vec<(String, String)>,
    setup: Setup<L, E>,
    before: State<V>,
    after: State<V>,
    scorer: Scorer<N, C, B>,
    info: WhoamiInfo,
    quiet: bool,
    stamp: Stamp,
    report: Report,
    i: int,
)
    requires
        cli::may_report(
            Command::Update { id, new_content, set },
            setup,
            before,
            after,
            scorer,
            info,
            quiet,
            stamp,
            report,
        ),
        report.failure is None,
    ensures
        before.store.records().contains_key(id@),
        after.store.records().contains_key(id@),
        ({
            let payload = after.store.records()[id@].payload;
            &&& 0 <= i < set@.len() && (forall|j: int|
                i < j < set@.len() ==> (#[trigger] set@[j]).0@ != set@[i].0@)
                ==> payload.contains_key(set@[i].0@) && payload[set@[i].0@] == set@[i].1@
            &&& new_content is Some && (forall|j: int|
                0 <= j < set@.len() ==> (#[trigger] set@[j]).0@ != "content"@)
                ==> payload.contains_key("content"@) && payload["content"@] == new_content->0@
        }),
        report.output is Nothing,
        report.save_store,
        !report.save_history,
{
    let content = text::model(new_content);
    let (metadata, r) = choose|metadata: Option<Payload>, r: Result<(), CoreError>|
        {
            &&& cli::is_metadata(set@, metadata)
            &&& #[trigger] memory::may_update(
                setup.embedding,
                before,
                after,
                id@,
                content,
                metadata,
                r,
            )
            &&& match r {
                Ok(()) => cli::did(report, quiet, Output::Nothing, true, false),
                Err(err) => cli::failed(report, "error: "@ + err.shown()),
            }
        };
    let pairs = text::pairs(set@);
    let none = Map::<Seq<char>, Seq<char>>::empty();
    assert forall|j: int| 0 <= j < set@.len() implies (#[trigger] pairs[j]) == (
        set@[j].0@,
        set@[j].1@,
    ) by {}
    memories::law_update(
        setup.embedding,
        before,
        after,
        id@,
        content,
        metadata,
        "content"@,
        id@,
    );
    payload::laws::law_overlaid(none, pairs, "content"@);
    if 0 <= i < set@.len() {
        memories::law_update(
            setup.embedding,
            before,
            after,
            id@,
            content,
            metadata,
            set@[i].0@,
            id@,
        );
        payload::laws::law_overlaid(none, pairs, set@[i].0@);
        if forall|j: int| i < j < set@.len() ==> (#[trigger] set@[j]).0@ != set@[i].0@ {
            assert(pairs[i].0 == set@[i].0@);
            assert forall|j: int| i < j < pairs.len() implies (#[trigger] pairs[j]).0
                != set@[i].0@ by {
                assert(set@[j].0@ != set@[i].0@);
            }
        }
    }
    if forall|j: int| 0 <= j < set@.len() ==> (#[trigger] set@[j]).0@ != "content"@ {
        assert forall|j: int| 0 <= j < pairs.len() implies (#[trigger] pairs[j]).0
            != "content"@ by {
            assert(set@[j].0@ != "content"@);
        }
    }
}

/// The command to delete that succeeds leaves no memory with the id, and all
/// others; the records and the histories are saved, and nothing is said.
pub proof fn law_delete_command<
    L: LlmProvider,
    E: EmbeddingProvider,
    V: VectorStore,
    N: Fn(&str) -> Reading,
    C: Fn(Blend) -> i64,
    B: Fn(i64) -> i64,
>(
    id: String,
    other: Seq<char>,
    setup: Setup<L, E>,
    before: State<V>,
    after: State<V>,
    scorer: Scorer<N, C, B>,
    info: WhoamiInfo,
    quiet: bool,
    stamp: Stamp,
    report: Report,
)
    requires
        cli::may_report(
            Command::Delete { id },
            setup,
            before,
            after,
            scorer,
            info,
            quiet,
            stamp,
            report,
        ),
        report.failure is None,
    ensures
        !after.store.records().contains_key(id@),
        other != id@ && before.store.records().contains_key(other)
            ==> after.store.records().contains_key(other) && after.store.records()[other]
            == before.store.records()[other],
        report.output is Nothing,
        report.save_store,
        report.save_history,
{
    let r = choose|r: Result<(), CoreError>| #[trigger]
        memory::may_delete(before, after, id@, r) && match r {
            Ok(()) => cli::did(report, quiet, Output::Nothing, true, true),
            Err(err) => cli::failed(report, "error: "@ + err.shown()),
        };
    memories::law_delete(before, after, id@, other);
}

/// The command to read a history says the page of it that is asked for; nothing
/// changes.
pub proof fn law_history_command<
    L: LlmProvider,
    E: EmbeddingProvider,
    V: VectorStore,
    N: Fn(&str) -> Reading,
    C: Fn(Blend) -> i64,
    B: Fn(i64) -> i64,
>(
    id: String,
    offset: usize,
    limit: usize,
    setup: Setup<L, E>,
    before: State<V>,
    after: State<V>,
    scorer: Scorer<N, C, B>,
    info: WhoamiInfo,
    stamp: Stamp,
    report: Report,
    i: int,
)
    requires
        cli::may_report(
            Command::History { id, offset, limit },
            setup,
            before,
            after,
            scorer,
            info,
            false,
            stamp,
            report,
        ),
    ensures
        after == before,
        report.failure is None,
        report.output is History,
        report.output->History_0@.len() <= limit,
        0 <= i < report.output->History_0@.len() ==> report.output->History_0@[i]@
            == before.log[id@][offset + i],
        before.log.contains_key(id@) && offset + i < before.log[id@].len() && 0 <= i < limit ==> i
            < report.output->History_0@.len(),
        !report.save_store,
        !report.save_history,
{
    let r = choose|r: Result<Vec<HistoryEntry>, CoreError>| #[trigger]
        memory::hands_out(before.log, id@, offset, limit, r) && match r {
            Ok(entries) => cli::did(report, false, Output::History(entries), false, false),
            Err(err) => cli::failed(report, "error: "@ + err.shown()),
        };
    memories::law_history(before.log, id@, offset, limit, r, i);
}

/// The other commands: a store is begun, with its records saved and its place
/// said; what the memory is made of is said; and so is whether its providers
/// answer. None of them changes a memory.
pub proof fn law_other_commands<
    L: LlmProvider,
    E: EmbeddingProvider,
    V: VectorStore,
    N: Fn(&str) -> Reading,
    C: Fn(Blend) -> i64,
    B: Fn(i64) -> i64,
>(
    setup: Setup<L, E>,
    before: State<V>,
    after: State<V>,
    scorer: Scorer<N, C, B>,
    info: WhoamiInfo,
    quiet: bool,
    stamp: Stamp,
    report: Report,
)
    ensures
        cli::may_report(
            Command::Init,
            setup,
            before,
            after,
            scorer,
            info,
            quiet,
            stamp,
            report,
        ) ==> {
            &&& after == before
            &&& report.failure is None
            &&& report.save_store
            &&& !report.save_history
            &&& quiet ==> report.output is Nothing
            &&& !quiet ==> report.output is Text && report.output->Text_0@
                == "initialized local store at "@ + info.store@
        },
        cli::may_report(
            Command::Whoami,
            setup,
            before,
            after,
            scorer,
            info,
            quiet,
            stamp,
            report,
        ) ==> {
            &&& after == before
            &&& succeeds(report, quiet, Output::Whoami(info))
            &&& !report.save_store
            &&& !report.save_history
        },
        cli::may_report(
            Command::Status,
            setup,
            before,
            after,
            scorer,
            info,
            quiet,
            stamp,
            report,
        ) ==> {
            &&& after == before
            &&& !report.save_store
            &&& !report.save_history
            &&& report.failure is None ==> memory::may_be_healthy(setup, before.store, Ok(()))
            &&& report.failure is None && !quiet ==> report.output is Text
                && report.output->Text_0@ == "ok"@
            &&& report.failure is Some ==> is_unhealthy(setup, before.store, report)
        },
{
    if cli::may_report(
        Command::Status,
        setup,
        before,
        after,
        scorer,
        info,
        quiet,
        stamp,
        report,
    ) {
        let r = choose|r: Result<(), CoreError>| #[trigger]
            memory::may_be_healthy(setup, before.store, r) && match r {
                Ok(()) => cli::said(report, quiet, "ok"@, false),
                Err(err) => cli::failed(report, "unhealthy: "@ + err.shown()),
            };
        assert(memory::may_be_healthy(setup, before.store, r));
    }
}

/// Whether a report says why the providers of a memory do not all answer.
pub open spec fn is_unhealthy<L: LlmProvider, E: EmbeddingProvider, V: VectorStore>(
    setup: Setup<L, E>,
    store: V,
    report: Report,
) -> bool {
    exists|err: CoreError| #[trigger]
        memory::may_be_healthy(setup, store, Err(err)) && report.failure is Some
            && report.failure->0@ == "unhealthy: "@ + err.shown()
}

/// What is printed: an id on each line; results with their ids, scores and
/// contents, and a record with its id and content, with tabs between; what happened
/// before what it happened to; what the memory is made of, with names before it;
/// and words as they are.
pub proof fn law_lines(
    ids: Vec<String>,
    results: Vec<SearchResult>,
    record: VectorRecord,
    entries: Vec<HistoryEntry>,
    info: WhoamiInfo,
    words: String,
    scores: Seq<Seq<char>>,
    i: int,
)
    ensures
        cli::plain_lines(Output::Nothing, scores).len() == 0,
        cli::plain_lines(Output::Ids(ids), scores).len() == ids@.len(),
        0 <= i < ids@.len() ==> cli::plain_lines(Output::Ids(ids), scores)[i] == ids@[i]@,
        cli::plain_lines(Output::Results(results), scores).len() == results@.len(),
        0 <= i < results@.len() ==> cli::plain_lines(Output::Results(results), scores)[i]
            == results@[i].id@ + "\t"@ + scores[i] + "\t"@ + cli::content_in(results@[i].payload@),
        cli::plain_lines(Output::Record(record), scores) == seq![
            record.id@ + "\t"@ + cli::content_in(record.payload@),
        ],
        cli::plain_lines(Output::History(entries), scores).len() == entries@.len(),
        0 <= i < entries@.len() && entries@[i].event is Added ==> cli::plain_lines(
            Output::History(entries),
            scores,
        )[i] == "added"@ + "\t"@ + entries@[i].content@,
        0 <= i < entries@.len() && entries@[i].event is Deleted ==> cli::plain_lines(
            Output::History(entries),
            scores,
        )[i] == "deleted"@ + "\t"@ + entries@[i].content@,
        cli::plain_lines(Output::Whoami(info), scores).len() == if info.reranker is Some {
            4int
        } else {
            3int
        },
        cli::plain_lines(Output::Whoami(info), scores)[0] == "store: "@ + info.store@,
        cli::plain_lines(Output::Whoami(info), scores)[1] == "llm provider: "@
            + info.llm_provider@,
        cli::plain_lines(Output::Whoami(info), scores)[2] == "embedding provider: "@
            + info.embedding_provider@,
        info.reranker is Some ==> cli::plain_lines(Output::Whoami(info), scores)[3] == "reranker: "@
            + info.reranker->0@,
        cli::plain_lines(Output::Text(words), scores) == seq![words@],
{
}

/// The content of a payload is what it has at `content`, or nothing.
pub proof fn law_contents(payload: Map<Seq<char>, Seq<char>>)
    ensures
        payload.contains_key("content"@) ==> cli::content_in(payload) == payload["content"@],
        !payload.contains_key("content"@) ==> cli::content_in(payload).len() == 0,
        cli::event_word(HistoryEvent::Added) == "added"@,
        cli::event_word(HistoryEvent::Deleted) == "deleted"@,
{
}

} // verus!
