//! The commands of the command line: what each of them does, says and saves.

pub mod laws;

use crate::embedding::EmbeddingProvider;
use crate::error::CoreError;
use crate::filter::FilterExpr;
use crate::history::{HistoryEntry, HistoryEvent};
use crate::llm;
use crate::llm::{LlmProvider, Message, Role};
use crate::memory;
use crate::memory::adding;
use crate::memory::adding::State;
use crate::memory::listing;
use crate::memory::searching;
use crate::memory::searching::Scorer;
use crate::memory::{Memory, Setup, Stamp};
use crate::number::{Number, Reading};
use crate::payload;
use crate::payload::Payload;
use crate::scoring::Blend;
use crate::settings;
use crate::text;
use crate::vector_store::{SearchResult, VectorRecord, VectorStore};
use vstd::prelude::*;

verus! {

/// Whom a command is about.
#[derive(Debug)]
pub struct Ids {
    pub user_id: Option<String>,
    pub agent_id: Option<String>,
    pub run_id: Option<String>,
}

impl Ids {
    /// The scope that the ids make.
    pub open spec fn scope(self) -> Map<Seq<char>, Seq<char>> {
        settings::scope_of(
            text::model(self.user_id),
            text::model(self.agent_id),
            text::model(self.run_id),
        )
    }
}

/// What is asked for.
#[derive(Debug)]
pub enum Command {
    Add { content: String, ids: Ids, no_infer: bool },
    Search {
        query: String,
        ids: Ids,
        top_k: usize,
        threshold: Option<Number>,
        rerank: bool,
        filter: Option<FilterExpr>,
    },
    Get { id: String },
    List { ids: Ids, offset: usize, limit: usize },
    Update { id: String, new_content: Option<String>, set: Vec<(String, String)> },
    Delete { id: String },
    History { id: String, offset: usize, limit: usize },
    Init,
    Whoami,
    Status,
}

/// What the memory is made of, and where it is kept.
#[derive(Debug)]
pub struct WhoamiInfo {
    pub store: String,
    pub llm_provider: String,
    pub embedding_provider: String,
    pub reranker: Option<String>,
}

/// What a command says.
#[derive(Debug)]
pub enum Output {
    Nothing,
    Ids(Vec<String>),
    Results(Vec<SearchResult>),
    Record(VectorRecord),
    History(Vec<HistoryEntry>),
    Whoami(WhoamiInfo),
    Text(String),
}

/// What comes of a command: what it says, what went wrong, and what is to be
/// saved.
#[derive(Debug)]
pub struct Report {
    pub output: Output,
    pub failure: Option<String>,
    pub save_store: bool,
    pub save_history: bool,
}

/// What is said aloud: nothing if the command is to be quiet.
pub open spec fn aloud(quiet: bool, output: Output) -> Output {
    if quiet {
        Output::Nothing
    } else {
        output
    }
}

/// Whether a report is that of a command that did what was asked.
pub open spec fn did(
    report: Report,
    quiet: bool,
    output: Output,
    save_store: bool,
    save_history: bool,
) -> bool {
    &&& report.output == aloud(quiet, output)
    &&& report.failure is None
    &&& report.save_store == save_store
    &&& report.save_history == save_history
}

/// Whether a report is that of a command that did what was asked and says a
/// text.
pub open spec fn said(report: Report, quiet: bool, words: Seq<char>, save_store: bool) -> bool {
    &&& if quiet {
        report.output is Nothing
    } else {
        report.output matches Output::Text(s) && s@ == words
    }
    &&& report.failure is None
    &&& report.save_store == save_store
    &&& !report.save_history
}

/// Whether a report is that of a command that failed: it says why, and nothing
/// is saved.
pub open spec fn failed(report: Report, words: Seq<char>) -> bool {
    &&& report.output is Nothing
    &&& report.failure matches Some(s) && s@ == words
    &&& !report.save_store
    &&& !report.save_history
}

fn done(quiet: bool, output: Output, save_store: bool, save_history: bool) -> (r: Report)
    ensures
        did(r, quiet, output, save_store, save_history),
{
    let output = if quiet {
        Output::Nothing
    } else {
        output
    };
    Report { output, failure: None, save_store, save_history }
}

fn fail(before: &str, words: &str) -> (r: Report)
    ensures
        failed(r, before@ + words@),
{
    Report {
        output: Output::Nothing,
        failure: Some(text::concat(before, words)),
        save_store: false,
        save_history: false,
    }
}

/// What adding a message comes to.
pub open spec fn may_report_add<L: LlmProvider, E: EmbeddingProvider, V: VectorStore>(
    setup: Setup<L, E>,
    before: State<V>,
    after: State<V>,
    content: Seq<char>,
    ids: Ids,
    infer: bool,
    stamp: Stamp,
    quiet: bool,
    report: Report,
) -> bool {
    exists|scope: Payload, r: Result<Vec<String>, CoreError>|
        {
            &&& scope@ == ids.scope()
            &&& #[trigger] adding::may_add_with(
                setup,
                before,
                after,
                seq![llm::plain(Role::User, content)],
                scope,
                infer,
                stamp,
                r,
            )
            &&& match r {
                Ok(added) => did(report, quiet, Output::Ids(added), true, true),
                Err(err) => failed(report, "error: "@ + err.shown()),
            }
        }
}

fn run_add<L: LlmProvider, E: EmbeddingProvider, V: VectorStore>(
    memory: &mut Memory<L, E, V>,
    content: &str,
    ids: Ids,
    infer: bool,
    stamp: Stamp,
    quiet: bool,
) -> (r: Report)
    ensures
        final(memory).setup() == old(memory).setup(),
        may_report_add(
            old(memory).setup(),
            old(memory).state(),
            final(memory).state(),
            content@,
            ids,
            infer,
            stamp,
            quiet,
            r,
        ),
{
    let ghost asked = ids;
    let scope = settings::build_scope(ids.user_id, ids.agent_id, ids.run_id);
    let mut messages: Vec<Message> = Vec::new();
    messages.push(Message::new(Role::User, content));
    proof {
        assert(llm::message_models(messages@) =~= seq![llm::plain(Role::User, content@)]);
        assert(scope@ == asked.scope());
    }
    let outcome = memory.add(messages.as_slice(), &scope, infer, stamp);
    proof {
        assert(adding::may_add_with(
            old(memory).setup(),
            old(memory).state(),
            memory.state(),
            seq![llm::plain(Role::User, content@)],
            scope,
            infer,
            stamp,
            outcome,
        ));
    }
    match outcome {
        Ok(added) => done(quiet, Output::Ids(added), true, true),
        Err(err) => fail("error: ", err.to_string().as_str()),
    }
}

/// A filter that may be there, as a value.
pub open spec fn filter_value(filter: Option<FilterExpr>) -> Option<crate::filter::ExprModel> {
    match filter {
        Some(expr) => Some(expr@),
        None => None,
    }
}

/// What a search comes to: expired memories are searched too, and no score is
/// explained.
pub open spec fn may_report_search<
    L: LlmProvider,
    E: EmbeddingProvider,
    V: VectorStore,
    N: Fn(&str) -> Reading,
    C: Fn(Blend) -> i64,
    B: Fn(i64) -> i64,
>(
    setup: Setup<L, E>,
    store: V,
    scorer: Scorer<N, C, B>,
    query: Seq<char>,
    ids: Ids,
    top_k: usize,
    threshold: Option<&Number>,
    rerank: bool,
    filter: Option<crate::filter::ExprModel>,
    stamp: Stamp,
    quiet: bool,
    report: Report,
) -> bool {
    exists|r: Result<Vec<SearchResult>, CoreError>| #[trigger]
        searching::may_search(
            setup,
            store,
            scorer,
            query,
            top_k,
            ids.scope(),
            threshold,
            true,
            filter,
            rerank,
            false,
            stamp,
            r,
        ) && match r {
            Ok(results) => did(report, quiet, Output::Results(results), false, false),
            Err(err) => failed(report, "error: "@ + err.shown()),
        }
}

fn run_search<
    L: LlmProvider,
    E: EmbeddingProvider,
    V: VectorStore,
    N: Fn(&str) -> Reading,
    C: Fn(Blend) -> i64,
    B: Fn(i64) -> i64,
>(
    memory: &Memory<L, E, V>,
    scorer: &Scorer<N, C, B>,
    query: &str,
    ids: Ids,
    top_k: usize,
    threshold: Option<&Number>,
    rerank: bool,
    filter: Option<&FilterExpr>,
    stamp: Stamp,
    quiet: bool,
) -> (r: Report)
    requires
        scorer.answers(),
    ensures
        may_report_search(
            memory.setup(),
            memory.store(),
            *scorer,
            query@,
            ids,
            top_k,
            threshold,
            rerank,
            memory::filter_model(filter),
            stamp,
            quiet,
            r,
        ),
{
    let ghost asked = ids;
    let scope = settings::build_scope(ids.user_id, ids.agent_id, ids.run_id);
    let outcome = memory.search(
        query,
        top_k,
        &scope,
        threshold,
        true,
        filter,
        rerank,
        false,
        stamp,
        scorer,
    );
    proof {
        assert(scope@ == asked.scope());
        assert(searching::may_search(
            memory.setup(),
            memory.store(),
            *scorer,
            query@,
            top_k,
            asked.scope(),
            threshold,
            true,
            memory::filter_model(filter),
            rerank,
            false,
            stamp,
            outcome,
        ));
    }
    match outcome {
        Ok(results) => done(quiet, Output::Results(results), false, false),
        Err(err) => fail("error: ", err.to_string().as_str()),
    }
}

/// What reading a memory comes to; one that is not there is a failure.
pub open spec fn may_report_get<V: VectorStore>(
    store: V,
    id: Seq<char>,
    quiet: bool,
    report: Report,
) -> bool {
    exists|r: Result<Option<VectorRecord>, CoreError>| #[trigger]
        memory::may_get(store, id, r) && match r {
            Ok(Some(record)) => did(report, quiet, Output::Record(record), false, false),
            Ok(None) => failed(report, "not found: "@ + id),
            Err(err) => failed(report, "error: "@ + err.shown()),
        }
}

fn run_get<L: LlmProvider, E: EmbeddingProvider, V: VectorStore>(
    memory: &Memory<L, E, V>,
    id: &str,
    quiet: bool,
) -> (r: Report)
    ensures
        may_report_get(memory.store(), id@, quiet, r),
{
    let outcome = memory.get(id);
    proof {
        assert(memory::may_get(memory.store(), id@, outcome));
    }
    match outcome {
        Ok(Some(record)) => done(quiet, Output::Record(record), false, false),
        Ok(None) => fail("not found: ", id),
        Err(err) => fail("error: ", err.to_string().as_str()),
    }
}

/// What listing memories comes to: expired ones are listed too.
pub open spec fn may_report_list<N: Fn(&str) -> Reading, V: VectorStore>(
    read: N,
    store: V,
    ids: Ids,
    offset: usize,
    limit: usize,
    stamp: Stamp,
    quiet: bool,
    report: Report,
) -> bool {
    exists|r: Result<Vec<String>, CoreError>| #[trigger]
        listing::may_list_scope(
            read,
            store,
            ids.scope(),
            offset,
            limit,
            true,
            None,
            stamp,
            r,
        ) && match r {
            Ok(listed) => did(report, quiet, Output::Ids(listed), false, false),
            Err(err) => failed(report, "error: "@ + err.shown()),
        }
}

fn run_list<L: LlmProvider, E: EmbeddingProvider, V: VectorStore, N: Fn(&str) -> Reading>(
    memory: &Memory<L, E, V>,
    read: &N,
    ids: Ids,
    offset: usize,
    limit: usize,
    stamp: Stamp,
    quiet: bool,
) -> (r: Report)
    requires
        crate::filter::reads(*read),
    ensures
        may_report_list(*read, memory.store(), ids, offset, limit, stamp, quiet, r),
{
    let ghost asked = ids;
    let scope = settings::build_scope(ids.user_id, ids.agent_id, ids.run_id);
    let outcome = memory.list(&scope, offset, limit, true, None, stamp, read);
    proof {
        assert(scope@ == asked.scope());
        assert(listing::may_list_scope(
            *read,
            memory.store(),
            asked.scope(),
            offset,
            limit,
            true,
            None,
            stamp,
            outcome,
        ));
    }
    match outcome {
        Ok(listed) => done(quiet, Output::Ids(listed), false, false),
        Err(err) => fail("error: ", err.to_string().as_str()),
    }
}

/// The metadata that an update sets: none if no pair is given; of two pairs with
/// the same key the later one counts.
pub open spec fn is_metadata(set: Seq<(String, String)>, metadata: Option<Payload>) -> bool {
    if set.len() == 0 {
        metadata is None
    } else {
        metadata matches Some(m) && m@ == payload::overlaid(
            Map::empty(),
            text::pairs(set),
        )
    }
}

/// What an update comes to.
pub open spec fn may_report_update<E: EmbeddingProvider, V: VectorStore>(
    embedding: E,
    before: State<V>,
    after: State<V>,
    id: Seq<char>,
    content: Option<Seq<char>>,
    set: Seq<(String, String)>,
    quiet: bool,
    report: Report,
) -> bool {
    exists|metadata: Option<Payload>, r: Result<(), CoreError>|
        {
            &&& is_metadata(set, metadata)
            &&& #[trigger] memory::may_update(embedding, before, after, id, content, metadata, r)
            &&& match r {
                Ok(()) => did(report, quiet, Output::Nothing, true, false),
                Err(err) => failed(report, "error: "@ + err.shown()),
            }
        }
}

fn run_update<L: LlmProvider, E: EmbeddingProvider, V: VectorStore>(
    memory: &mut Memory<L, E, V>,
    id: &str,
    content: Option<&str>,
    set: Vec<(String, String)>,
    quiet: bool,
) -> (r: Report)
    ensures
        final(memory).setup() == old(memory).setup(),
        may_report_update(
            old(memory).setup().embedding,
            old(memory).state(),
            final(memory).state(),
            id@,
            text::lent(content),
            set@,
            quiet,
            r,
        ),
{
    let ghost pairs = set@;
    let metadata: Option<Payload> = if set.len() == 0 {
        None
    } else {
        Some(Payload::from_pairs(set))
    };
    let ghost wanted = metadata;
    proof {
        assert(is_metadata(pairs, wanted));
    }
    let outcome = memory.update(id, content, metadata);
    proof {
        assert(memory::may_update(
            old(memory).setup().embedding,
            old(memory).state(),
            memory.state(),
            id@,
            text::lent(content),
            wanted,
            outcome,
        ));
    }
    match outcome {
        Ok(()) => done(quiet, Output::Nothing, true, false),
        Err(err) => fail("error: ", err.to_string().as_str()),
    }
}

/// What deleting a memory comes to.
pub open spec fn may_report_delete<V: VectorStore>(
    before: State<V>,
    after: State<V>,
    id: Seq<char>,
    quiet: bool,
    report: Report,
) -> bool {
    exists|r: Result<(), CoreError>| #[trigger]
        memory::may_delete(before, after, id, r) && match r {
            Ok(()) => did(report, quiet, Output::Nothing, true, true),
            Err(err) => failed(report, "error: "@ + err.shown()),
        }
}

fn run_delete<L: LlmProvider, E: EmbeddingProvider, V: VectorStore>(
    memory: &mut Memory<L, E, V>,
    id: &str,
    quiet: bool,
) -> (r: Report)
    ensures
        final(memory).setup() == old(memory).setup(),
        may_report_delete(old(memory).state(), final(memory).state(), id@, quiet, r),
{
    let outcome = memory.delete(id);
    proof {
        assert(memory::may_delete(old(memory).state(), memory.state(), id@, outcome));
    }
    match outcome {
        Ok(()) => done(quiet, Output::Nothing, true, true),
        Err(err) => fail("error: ", err.to_string().as_str()),
    }
}

/// What reading a history comes to.
pub open spec fn may_report_history(
    log: Map<Seq<char>, Seq<crate::history::EntryModel>>,
    id: Seq<char>,
    offset: usize,
    limit: usize,
    quiet: bool,
    report: Report,
) -> bool {
    exists|r: Result<Vec<HistoryEntry>, CoreError>| #[trigger]
        memory::hands_out(log, id, offset, limit, r) && match r {
            Ok(entries) => did(report, quiet, Output::History(entries), false, false),
            Err(err) => failed(report, "error: "@ + err.shown()),
        }
}

fn run_history<L: LlmProvider, E: EmbeddingProvider, V: VectorStore>(
    memory: &Memory<L, E, V>,
    id: &str,
    offset: usize,
    limit: usize,
    quiet: bool,
) -> (r: Report)
    ensures
        may_report_history(memory.log(), id@, offset, limit, quiet, r),
{
    let outcome = memory.history(id, offset, limit);
    proof {
        assert(memory::hands_out(memory.log(), id@, offset, limit, outcome));
    }
    match outcome {
        Ok(entries) => done(quiet, Output::History(entries), false, false),
        Err(err) => fail("error: ", err.to_string().as_str()),
    }
}

/// What asking for the state of the providers comes to.
pub open spec fn may_report_status<L: LlmProvider, E: EmbeddingProvider, V: VectorStore>(
    setup: Setup<L, E>,
    store: V,
    quiet: bool,
    report: Report,
) -> bool {
    exists|r: Result<(), CoreError>| #[trigger]
        memory::may_be_healthy(setup, store, r) && match r {
            Ok(()) => said(report, quiet, "ok"@, false),
            Err(err) => failed(report, "unhealthy: "@ + err.shown()),
        }
}

fn run_status<L: LlmProvider, E: EmbeddingProvider, V: VectorStore>(
    memory: &Memory<L, E, V>,
    quiet: bool,
) -> (r: Report)
    ensures
        may_report_status(memory.setup(), memory.store(), quiet, r),
{
    let outcome = memory.health_check();
    proof {
        assert(memory::may_be_healthy(memory.setup(), memory.store(), outcome));
    }
    match outcome {
        Ok(()) => done(quiet, Output::Text("ok".to_owned()), false, false),
        Err(err) => fail("unhealthy: ", err.to_string().as_str()),
    }
}

/// Whether a command may turn one state into another and come to a report.
pub open spec fn may_report<
    L: LlmProvider,
    E: EmbeddingProvider,
    V: VectorStore,
    N: Fn(&str) -> Reading,
    C: Fn(Blend) -> i64,
    B: Fn(i64) -> i64,
>(
    command: Command,
    setup: Setup<L, E>,
    before: State<V>,
    after: State<V>,
    scorer: Scorer<N, C, B>,
    info: WhoamiInfo,
    quiet: bool,
    stamp: Stamp,
    report: Report,
) -> bool {
    match command {
        Command::Add { content, ids, no_infer } => may_report_add(
            setup,
            before,
            after,
            content@,
            ids,
            !no_infer,
            stamp,
            quiet,
            report,
        ),
        Command::Update { id, new_content, set } => may_report_update(
            setup.embedding,
            before,
            after,
            id@,
            text::model(new_content),
            set@,
            quiet,
            report,
        ),
        Command::Delete { id } => may_report_delete(before, after, id@, quiet, report),
        Command::Search { query, ids, top_k, threshold, rerank, filter } => after == before
            && may_report_search(
            setup,
            before.store,
            scorer,
            query@,
            ids,
            top_k,
            number_ref(&threshold),
            rerank,
            filter_value(filter),
            stamp,
            quiet,
            report,
        ),
        Command::Get { id } => after == before && may_report_get(before.store, id@, quiet, report),
        Command::List { ids, offset, limit } => after == before && may_report_list(
            scorer.read,
            before.store,
            ids,
            offset,
            limit,
            stamp,
            quiet,
            report,
        ),
        Command::History { id, offset, limit } => after == before && may_report_history(
            before.log,
            id@,
            offset,
            limit,
            quiet,
            report,
        ),
        Command::Init => after == before && said(
            report,
            quiet,
            "initialized local store at "@ + info.store@,
            true,
        ),
        Command::Whoami => after == before && did(report, quiet, Output::Whoami(info), false, false),
        Command::Status => after == before && may_report_status(
            setup,
            before.store,
            quiet,
            report,
        ),
    }
}

/// A number that may be there, as it is handed to a search.
pub open spec fn number_ref(number: &Option<Number>) -> Option<&Number> {
    match number {
        Some(n) => Some(n),
        None => None,
    }
}

/// Carries out a command.
pub fn run<
    L: LlmProvider,
    E: EmbeddingProvider,
    V: VectorStore,
    N: Fn(&str) -> Reading,
    C: Fn(Blend) -> i64,
    B: Fn(i64) -> i64,
>(
    command: Command,
    memory: &mut Memory<L, E, V>,
    scorer: &Scorer<N, C, B>,
    info: WhoamiInfo,
    quiet: bool,
    stamp: Stamp,
) -> (r: Report)
    requires
        scorer.answers(),
    ensures
        final(memory).setup() == old(memory).setup(),
        may_report(
            command,
            old(memory).setup(),
            old(memory).state(),
            final(memory).state(),
            *scorer,
            info,
            quiet,
            stamp,
            r,
        ),
{
    match command {
        Command::Add { content, ids, no_infer } => run_add(
            memory,
            content.as_str(),
            ids,
            !no_infer,
            stamp,
            quiet,
        ),
        Command::Search { query, ids, top_k, threshold, rerank, filter } => run_search(
            memory,
            scorer,
            query.as_str(),
            ids,
            top_k,
            threshold.as_ref(),
            rerank,
            filter.as_ref(),
            stamp,
            quiet,
        ),
        Command::Get { id } => run_get(memory, id.as_str(), quiet),
        Command::List { ids, offset, limit } => run_list(
            memory,
            &scorer.read,
            ids,
            offset,
            limit,
            stamp,
            quiet,
        ),
        Command::Update { id, new_content, set } => {
            let new: Option<&str> = match &new_content {
                Some(content) => Some(content.as_str()),
                None => None,
            };
            run_update(memory, id.as_str(), new, set, quiet)
        },
        Command::Delete { id } => run_delete(memory, id.as_str(), quiet),
        Command::History { id, offset, limit } => run_history(
            memory,
            id.as_str(),
            offset,
            limit,
            quiet,
        ),
        Command::Init => {
            let words = text::concat("initialized local store at ", info.store.as_str());
            done(quiet, Output::Text(words), true, false)
        },
        Command::Whoami => done(quiet, Output::Whoami(info), false, false),
        Command::Status => run_status(memory, quiet),
    }
}

/// The content in a payload; a payload without one has an empty one.
pub open spec fn content_in(payload: Map<Seq<char>, Seq<char>>) -> Seq<char> {
    if payload.contains_key("content"@) {
        payload["content"@]
    } else {
        Seq::empty()
    }
}

fn content_of(payload: &Payload) -> (r: String)
    ensures
        r@ == content_in(payload@),
{
    match payload.get("content") {
        Some(content) => content.clone(),
        None => String::new(),
    }
}

/// The line of a result, with its score as it prints.
pub open spec fn result_line(result: SearchResult, score: Seq<char>) -> Seq<char> {
    result.id@ + "\t"@ + score + "\t"@ + content_in(result.payload@)
}

/// The line of a record.
pub open spec fn record_line(record: VectorRecord) -> Seq<char> {
    record.id@ + "\t"@ + content_in(record.payload@)
}

/// The word for what happened.
pub open spec fn event_word(event: HistoryEvent) -> Seq<char> {
    match event {
        HistoryEvent::Added => "added"@,
        HistoryEvent::Deleted => "deleted"@,
    }
}

/// The line of an entry of a history.
pub open spec fn entry_line(entry: HistoryEntry) -> Seq<char> {
    event_word(entry.event) + "\t"@ + entry.content@
}

/// The lines that say what the memory is made of.
pub open spec fn whoami_lines(info: WhoamiInfo) -> Seq<Seq<char>> {
    let lines = seq![
        "store: "@ + info.store@,
        "llm provider: "@ + info.llm_provider@,
        "embedding provider: "@ + info.embedding_provider@,
    ];
    match info.reranker {
        Some(reranker) => lines.push("reranker: "@ + reranker@),
        None => lines,
    }
}

/// What a command says as lines of text, with scores as they print.
pub open spec fn plain_lines(output: Output, scores: Seq<Seq<char>>) -> Seq<Seq<char>> {
    match output {
        Output::Nothing => Seq::empty(),
        Output::Ids(ids) => text::texts(ids@),
        Output::Results(results) => Seq::new(
            results@.len(),
            |i: int| result_line(results@[i], scores[i]),
        ),
        Output::Record(record) => seq![record_line(record)],
        Output::History(entries) => entries@.map_values(|e: HistoryEntry| entry_line(e)),
        Output::Whoami(info) => whoami_lines(info),
        Output::Text(words) => seq![words@],
    }
}

/// The word for what happened.
pub fn word_of(event: HistoryEvent) -> (r: &'static str)
    ensures
        r@ == event_word(event),
{
    match event {
        HistoryEvent::Added => "added",
        HistoryEvent::Deleted => "deleted",
    }
}

fn lines_of_results(results: &Vec<SearchResult>, scores: &Vec<String>) -> (r: Vec<String>)
    requires
        scores@.len() == results@.len(),
    ensures
        text::texts(r@) == Seq::new(
            results@.len(),
            |i: int| result_line(results@[i], text::texts(scores@)[i]),
        ),
{
    let ghost wanted = Seq::new(
        results@.len(),
        |i: int| result_line(results@[i], text::texts(scores@)[i]),
    );
    let mut r: Vec<String> = Vec::new();
    let mut i: usize = 0;
    while i < results.len()
        invariant
            i <= results.len(),
            scores@.len() == results@.len(),
            wanted == Seq::new(
                results@.len(),
                |i: int| result_line(results@[i], text::texts(scores@)[i]),
            ),
            text::texts(r@) == wanted.take(i as int),
        decreases results.len() - i,
    {
        let ghost before = text::texts(r@);
        let mut line = text::concat3(results[i].id.as_str(), "\t", scores[i].as_str());
        line.append("\t");
        line.append(content_of(&results[i].payload).as_str());
        r.push(line);
        proof {
            assert(text::texts(r@) =~= before.push(wanted[i as int]));
            assert(wanted.take(i + 1) =~= before.push(wanted[i as int]));
        }
        i = i + 1;
    }
    proof {
        assert(wanted.take(i as int) =~= wanted);
    }
    r
}

fn lines_of_history(entries: &Vec<HistoryEntry>) -> (r: Vec<String>)
    ensures
        text::texts(r@) == entries@.map_values(|e: HistoryEntry| entry_line(e)),
{
    let ghost wanted = entries@.map_values(|e: HistoryEntry| entry_line(e));
    let mut r: Vec<String> = Vec::new();
    let mut i: usize = 0;
    while i < entries.len()
        invariant
            i <= entries.len(),
            wanted == entries@.map_values(|e: HistoryEntry| entry_line(e)),
            text::texts(r@) == wanted.take(i as int),
        decreases entries.len() - i,
    {
        let ghost before = text::texts(r@);
        r.push(text::concat3(word_of(entries[i].event), "\t", entries[i].content.as_str()));
        proof {
            assert(text::texts(r@) =~= before.push(wanted[i as int]));
            assert(wanted.take(i + 1) =~= before.push(wanted[i as int]));
        }
        i = i + 1;
    }
    proof {
        assert(wanted.take(i as int) =~= wanted);
    }
    r
}

fn lines_of_whoami(info: &WhoamiInfo) -> (r: Vec<String>)
    ensures
        text::texts(r@) == whoami_lines(*info),
{
    let mut r: Vec<String> = Vec::new();
    r.push(text::concat("store: ", info.store.as_str()));
    r.push(text::concat("llm provider: ", info.llm_provider.as_str()));
    r.push(text::concat("embedding provider: ", info.embedding_provider.as_str()));
    match &info.reranker {
        Some(reranker) => {
            r.push(text::concat("reranker: ", reranker.as_str()));
        },
        None => {},
    }
    proof {
        assert(text::texts(r@) =~= whoami_lines(*info));
    }
    r
}

impl Output {
    /// What a command says as lines of text. For results there is the text of
    /// each score.
    pub fn lines(&self, scores: &Vec<String>) -> (r: Vec<String>)
        requires
            *self matches Output::Results(results) ==> scores@.len() == results@.len(),
        ensures
            text::texts(r@) == plain_lines(*self, text::texts(scores@)),
    {
        match self {
            Output::Nothing => {
                let r: Vec<String> = Vec::new();
                proof {
                    assert(text::texts(r@) =~= Seq::empty());
                }
                r
            },
            Output::Ids(ids) => text::copy_texts(ids),
            Output::Results(results) => lines_of_results(results, scores),
            Output::Record(record) => {
                let mut r: Vec<String> = Vec::new();
                let content = content_of(&record.payload);
                r.push(text::concat3(record.id.as_str(), "\t", content.as_str()));
                proof {
                    assert(text::texts(r@) =~= seq![record_line(*record)]);
                }
                r
            },
            Output::History(entries) => lines_of_history(entries),
            Output::Whoami(info) => lines_of_whoami(info),
            Output::Text(words) => {
                let mut r: Vec<String> = Vec::new();
                r.push(words.clone());
                proof {
                    assert(text::texts(r@) =~= seq![words@]);
                }
                r
            },
        }
    }
}

/// A quiet command says nothing but what went wrong.
pub proof fn law_quiet_commands_say_nothing<
    L: LlmProvider,
    E: EmbeddingProvider,
    V: VectorStore,
    N: Fn(&str) -> Reading,
    C: Fn(Blend) -> i64,
    B: Fn(i64) -> i64,
>(
    command: Command,
    setup: Setup<L, E>,
    before: State<V>,
    after: State<V>,
    scorer: Scorer<N, C, B>,
    info: WhoamiInfo,
    stamp: Stamp,
    report: Report,
)
    requires
        may_report(command, setup, before, after, scorer, info, true, stamp, report),
    ensures
        report.output is Nothing,
{
}

/// A command that fails saves nothing.
pub proof fn law_failed_commands_save_nothing<
    L: LlmProvider,
    E: EmbeddingProvider,
    V: VectorStore,
    N: Fn(&str) -> Reading,
    C: Fn(Blend) -> i64,
    B: Fn(i64) -> i64,
>(
    command: Command,
    setup: Setup<L, E>,
    before: State<V>,
    after: State<V>,
    scorer: Scorer<N, C, B>,
    info: WhoamiInfo,
    quiet: bool,
    stamp: Stamp,
    report: Report,
)
    requires
        may_report(command, setup, before, after, scorer, info, quiet, stamp, report),
        report.failure is Some,
    ensures
        !report.save_store,
        !report.save_history,
        report.output is Nothing,
{
}

/// A command that may change a memory and does not fail saves the records.
pub proof fn law_changes_are_saved<
    L: LlmProvider,
    E: EmbeddingProvider,
    V: VectorStore,
    N: Fn(&str) -> Reading,
    C: Fn(Blend) -> i64,
    B: Fn(i64) -> i64,
>(
    command: Command,
    setup: Setup<L, E>,
    before: State<V>,
    after: State<V>,
    scorer: Scorer<N, C, B>,
    info: WhoamiInfo,
    quiet: bool,
    stamp: Stamp,
    report: Report,
)
    requires
        may_report(command, setup, before, after, scorer, info, quiet, stamp, report),
        report.failure is None,
    ensures
        after.store != before.store ==> report.save_store,
        after.log != before.log ==> report.save_history,
{
}

} // verus!
