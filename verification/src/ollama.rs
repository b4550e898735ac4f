//! What is asked of an Ollama server, and what is made of its answers.

pub mod laws;

use crate::embedding;
use crate::embedding::{EmbeddingConfig, EmbeddingError};
use crate::error::CoreError;
use crate::json;
use crate::json::{Json, JsonKind, JsonTree, TreeKind};
use crate::llm;
use crate::llm::{Completion, LlmConfig, LlmError, Message, MessageModel};
use crate::settings;
use crate::text;
use vstd::prelude::*;

verus! {

/// The status of an answer that the caller may not have.
pub const UNAUTHORIZED: u16 = 401;

/// The status of an answer from a place where nothing is.
pub const NOT_FOUND: u16 = 404;

/// Whether a status is a success.
pub open spec fn succeeded(status: u16) -> bool {
    200 <= status < 300
}

/// A message in a request.
pub open spec fn says_message(value: Json, message: MessageModel) -> bool {
    json::says(
        value,
        seq![
            ("role"@, JsonKind::Text(message.role.keyword())),
            ("content"@, JsonKind::Text(message.content)),
        ],
    )
}

/// Some messages in a request, in their order.
pub open spec fn says_messages(values: Seq<Json>, messages: Seq<MessageModel>) -> bool {
    &&& values.len() == messages.len()
    &&& forall|i: int|
        0 <= i < messages.len() ==> says_message(#[trigger] values[i], messages[i])
}

/// The request for the next message of a conversation, all at once.
pub open spec fn is_chat_request(
    request: Json,
    model: Seq<char>,
    messages: Seq<MessageModel>,
) -> bool {
    exists|values: Seq<Json>| #[trigger]
        says_messages(values, messages) && json::says(
            request,
            seq![
                ("model"@, JsonKind::Text(model)),
                ("messages"@, JsonKind::List(values)),
                ("stream"@, JsonKind::Bool(false)),
            ],
        )
}

fn two(a: &str, x: serde_json::Value, b: &str, y: serde_json::Value) -> (r: serde_json::Value)
    requires
        a@ != b@,
    ensures
        json::says(json::json_of(r), seq![(a@, json::json_of(x).kind), (b@, json::json_of(y).kind)]),
{
    let ghost wanted = seq![(a@, json::json_of(x).kind), (b@, json::json_of(y).kind)];
    let mut entries: Vec<(String, serde_json::Value)> = Vec::new();
    entries.push((a.to_owned(), x));
    entries.push((b.to_owned(), y));
    proof {
        assert(json::kinds_of(entries@) =~= wanted);
    }
    json::object(entries)
}

fn message_value(message: &Message) -> (r: serde_json::Value)
    ensures
        says_message(json::json_of(r), message@),
{
    proof {
        reveal_strlit("role");
        reveal_strlit("content");
        assert("role"@.len() != "content"@.len());
    }
    two(
        "role",
        json::text_value(message.role.as_str()),
        "content",
        json::text_value(message.content.as_str()),
    )
}

/// The request for the next message of a conversation, all at once.
pub fn build_chat_request(model: &str, messages: &[Message]) -> (r: serde_json::Value)
    ensures
        is_chat_request(json::json_of(r), model@, llm::message_models(messages@)),
{
    let ghost said = llm::message_models(messages@);
    let mut items: Vec<serde_json::Value> = Vec::new();
    let mut i: usize = 0;
    while i < messages.len()
        invariant
            i <= messages.len(),
            said == llm::message_models(messages@),
            items@.len() == i,
            forall|j: int| 0 <= j < i ==> says_message(json::json_of(#[trigger] items@[j]), said[j]),
        decreases messages.len() - i,
    {
        items.push(message_value(&messages[i]));
        i = i + 1;
    }
    let ghost values = json::values_of(items@);
    let ghost wanted = seq![
        ("model"@, JsonKind::Text(model@)),
        ("messages"@, JsonKind::List(values)),
        ("stream"@, JsonKind::Bool(false)),
    ];
    let mut entries: Vec<(String, serde_json::Value)> = Vec::new();
    entries.push(("model".to_owned(), json::text_value(model)));
    entries.push(("messages".to_owned(), json::list_value(items)));
    entries.push(("stream".to_owned(), json::bool_value(false)));
    proof {
        reveal_strlit("model");
        reveal_strlit("messages");
        reveal_strlit("stream");
        assert("model"@.len() != "messages"@.len());
        assert("model"@.len() != "stream"@.len());
        assert("messages"@.len() != "stream"@.len());
        assert(json::kinds_of(entries@) =~= wanted);
        assert(says_messages(values, said));
    }
    json::object(entries)
}

/// What an answer to a chat request says.
pub open spec fn chat_answer(answer: Json) -> Option<Seq<char>> {
    match json::member(answer, "message"@) {
        Some(message) => match json::member(message, "content"@) {
            Some(content) => match content.kind {
                JsonKind::Text(s) => Some(s),
                _ => None,
            },
            None => None,
        },
        None => None,
    }
}

/// What is made of an answer to a chat request.
pub open spec fn completes(answer: Json, r: Result<Completion, LlmError>) -> bool {
    match chat_answer(answer) {
        Some(content) => r matches Ok(completion) && completion.content@ == content,
        None => r matches Err(LlmError::Malformed(reason)) && reason@
            == "missing message.content field"@,
    }
}

/// What an answer to a chat request says; one that says nothing is malformed.
pub fn parse_chat_response(answer: &JsonTree) -> (r: Result<Completion, LlmError>)
    ensures
        completes(answer@, r),
{
    match answer.get("message") {
        Some(message) => match message.get("content") {
            Some(content) => match content.as_text() {
                Some(s) => {
                    return Ok(Completion::new(s.as_str()));
                },
                None => {},
            },
            None => {},
        },
        None => {},
    }
    Err(LlmError::Malformed("missing message.content field".to_owned()))
}

/// A language model on an Ollama server.
#[derive(Debug)]
pub struct OllamaLlmProvider {
    pub base_url: String,
    pub model: String,
}

impl OllamaLlmProvider {
    /// The model of a configuration that is accepted, at its address or else at
    /// the usual one.
    pub fn from_config(config: LlmConfig) -> (r: Result<Self, CoreError>)
        ensures
            match config.problem() {
                None => r matches Ok(provider) && provider.base_url@ == text::or(
                    text::model(config.base_url),
                    settings::OLLAMA_BASE_URL@,
                ) && provider.model@ == config.model@,
                Some(message) => r matches Err(err) && err.is_config(message),
            },
    {
        match config.validate() {
            Ok(()) => {},
            Err(err) => {
                return Err(err);
            },
        }
        let base_url = text::text_or(&config.base_url, settings::OLLAMA_BASE_URL);
        Ok(OllamaLlmProvider { base_url, model: config.model })
    }

    /// Where a chat request goes.
    pub fn url(&self) -> (r: String)
        ensures
            r@ == self.base_url@ + "/api/chat"@,
    {
        text::concat(self.base_url.as_str(), "/api/chat")
    }

    /// The request for some messages. There must be a message; without one
    /// nothing is sent.
    pub fn request(&self, messages: &[Message]) -> (r: Result<serde_json::Value, LlmError>)
        ensures
            match r {
                Ok(request) => messages@.len() > 0 && is_chat_request(
                    json::json_of(request),
                    self.model@,
                    llm::message_models(messages@),
                ),
                Err(err) => messages@.len() == 0 && err == LlmError::EmptyMessages,
            },
    {
        if messages.len() == 0 {
            return Err(LlmError::EmptyMessages);
        }
        Ok(build_chat_request(self.model.as_str(), messages))
    }
}

/// What is made of a request that got no answer.
pub fn chat_failure(timed_out: bool, reason: String) -> (r: LlmError)
    ensures
        r == if timed_out {
            LlmError::Timeout
        } else {
            LlmError::Backend(reason)
        },
{
    if timed_out {
        LlmError::Timeout
    } else {
        LlmError::Backend(reason)
    }
}

/// Accepts an answer by its status, which prints as it is shown.
pub fn check_chat_status(status: u16, shown: &str) -> (r: Result<(), LlmError>)
    ensures
        r is Ok == succeeded(status),
        status == UNAUTHORIZED ==> r == Err::<(), LlmError>(LlmError::AuthFailure),
        status != UNAUTHORIZED && !succeeded(status) ==> (r matches Err(LlmError::Backend(reason))
            && reason@ == "HTTP "@ + shown@),
{
    if status == UNAUTHORIZED {
        return Err(LlmError::AuthFailure);
    }
    if !(200 <= status && status < 300) {
        return Err(LlmError::Backend(text::concat("HTTP ", shown)));
    }
    Ok(())
}

/// What is made of the body of an accepted answer, or of why it is none.
pub fn read_chat_body(body: Result<JsonTree, String>) -> (r: Result<Completion, LlmError>)
    ensures
        match body {
            Ok(answer) => completes(answer@, r),
            Err(reason) => r == Err::<Completion, LlmError>(LlmError::Malformed(reason)),
        },
{
    match body {
        Ok(answer) => parse_chat_response(&answer),
        Err(reason) => Err(LlmError::Malformed(reason)),
    }
}

/// The request for the vector of a text.
pub fn build_embeddings_request(model: &str, prompt: &str) -> (r: serde_json::Value)
    ensures
        json::says(
            json::json_of(r),
            seq![("model"@, JsonKind::Text(model@)), ("prompt"@, JsonKind::Text(prompt@))],
        ),
{
    proof {
        reveal_strlit("model");
        reveal_strlit("prompt");
        assert("model"@.len() != "prompt"@.len());
    }
    two("model", json::text_value(model), "prompt", json::text_value(prompt))
}

/// Whether some values are some texts, in their order.
pub open spec fn are_texts(values: Seq<Json>, texts: Seq<Seq<char>>) -> bool {
    &&& values.len() == texts.len()
    &&& forall|i: int|
        0 <= i < texts.len() ==> (#[trigger] values[i]).kind == JsonKind::Text(texts[i])
}

/// The request for the vectors of some texts at once.
pub open spec fn is_batch_request(request: Json, model: Seq<char>, texts: Seq<Seq<char>>) -> bool {
    exists|values: Seq<Json>| #[trigger]
        are_texts(values, texts) && json::says(
            request,
            seq![("model"@, JsonKind::Text(model)), ("input"@, JsonKind::List(values))],
        )
}

/// The request for the vectors of some texts at once.
pub fn build_batch_embeddings_request(model: &str, texts: &[&str]) -> (r: serde_json::Value)
    ensures
        is_batch_request(json::json_of(r), model@, embedding::text_views(texts@)),
{
    let mut items: Vec<serde_json::Value> = Vec::new();
    let mut i: usize = 0;
    while i < texts.len()
        invariant
            i <= texts.len(),
            items@.len() == i,
            forall|j: int|
                0 <= j < i ==> json::json_of(#[trigger] items@[j]).kind == JsonKind::Text(
                    texts@[j]@,
                ),
        decreases texts.len() - i,
    {
        items.push(json::text_value(texts[i]));
        i = i + 1;
    }
    let ghost values = json::values_of(items@);
    proof {
        assert(are_texts(values, embedding::text_views(texts@)));
        reveal_strlit("model");
        reveal_strlit("input");
        assert("model"@[0] != "input"@[0]);
    }
    two("model", json::text_value(model), "input", json::list_value(items))
}

/// The numbers of the vector that an answer gives, as they print. An answer
/// without a vector is refused.
pub fn parse_embeddings_response(answer: &JsonTree) -> (r: Result<Vec<String>, EmbeddingError>)
    ensures
        match vector_in(answer@) {
            Some(numbers) => r matches Ok(v) && text::texts(v@) == numbers,
            None => r matches Err(EmbeddingError::Backend(reason)) && reason@
                == "missing embedding field in response"@,
        },
{
    match answer.get("embedding") {
        Some(value) => match value.numbers() {
            Some(numbers) => {
                return Ok(numbers);
            },
            None => {},
        },
        None => {},
    }
    Err(EmbeddingError::Backend("missing embedding field in response".to_owned()))
}

/// The numbers of the vector that an answer gives.
pub open spec fn vector_in(answer: Json) -> Option<Seq<Seq<char>>> {
    match json::member(answer, "embedding"@) {
        Some(value) => json::numbers(value),
        None => None,
    }
}

/// The rows that an answer to a request for some vectors gives.
pub open spec fn rows_in(answer: Json) -> Option<Seq<Json>> {
    match json::member(answer, "embeddings"@) {
        Some(value) => match value.kind {
            JsonKind::List(rows) => Some(rows),
            _ => None,
        },
        None => None,
    }
}

/// Whether each of some rows is a list.
pub open spec fn all_lists(rows: Seq<Json>) -> bool {
    forall|i: int| 0 <= i < rows.len() ==> (#[trigger] rows[i]).kind is List
}

/// Lists of texts as values.
pub open spec fn text_lists(v: Seq<Vec<String>>) -> Seq<Seq<Seq<char>>> {
    v.map_values(|texts: Vec<String>| text::texts(texts@))
}

/// The numbers of each of some rows that are lists.
pub open spec fn row_numbers(rows: Seq<Json>) -> Seq<Seq<Seq<char>>> {
    rows.map_values(|row: Json| json::numbers(row)->0)
}

/// What is made of an answer to a request for some vectors.
pub open spec fn embeds(
    answer: Json,
    expected: nat,
    r: Result<Vec<Vec<String>>, EmbeddingError>,
) -> bool {
    match rows_in(answer) {
        None => r matches Err(EmbeddingError::Backend(reason)) && reason@
            == "missing embeddings field in response"@,
        Some(rows) => if rows.len() != expected {
            r matches Err(EmbeddingError::Backend(reason)) && reason@ == "expected "@
                + text::decimal(expected) + " embeddings, got "@ + text::decimal(rows.len())
        } else if !all_lists(rows) {
            r matches Err(EmbeddingError::Backend(reason)) && reason@
                == "an embeddings entry was not an array"@
        } else {
            r matches Ok(vectors) && text_lists(vectors@) == row_numbers(rows)
        },
    }
}

/// The numbers of the vectors that an answer gives, as they print. There must be
/// as many vectors as were asked for.
pub fn parse_batch_embeddings_response(answer: &JsonTree, expected: usize) -> (r: Result<
    Vec<Vec<String>>,
    EmbeddingError,
>)
    ensures
        embeds(answer@, expected as nat, r),
{
    let rows = match answer.get("embeddings") {
        Some(value) => match &value.kind {
            TreeKind::List(rows) => rows,
            _ => {
                return Err(
                    EmbeddingError::Backend("missing embeddings field in response".to_owned()),
                );
            },
        },
        None => {
            return Err(EmbeddingError::Backend("missing embeddings field in response".to_owned()));
        },
    };
    let ghost all = json::list_models(rows@);
    proof {
        json::lemma_list_models(rows@);
        assert(rows_in(answer@) == Some(all));
    }
    if rows.len() != expected {
        let mut reason = text::concat3(
            "expected ",
            text::to_decimal(expected as u128).as_str(),
            " embeddings, got ",
        );
        reason.append(text::to_decimal(rows.len() as u128).as_str());
        return Err(EmbeddingError::Backend(reason));
    }
    let ghost wanted = row_numbers(all);
    let mut r: Vec<Vec<String>> = Vec::new();
    let mut i: usize = 0;
    while i < rows.len()
        invariant
            i <= rows.len(),
            rows@.len() == expected,
            all.len() == rows@.len(),
            forall|j: int| 0 <= j < rows@.len() ==> #[trigger] all[j] == rows@[j]@,
            rows_in(answer@) == Some(all),
            wanted == row_numbers(all),
            text_lists(r@) == wanted.take(i as int),
            forall|j: int| 0 <= j < i ==> (#[trigger] all[j]).kind is List,
        decreases rows.len() - i,
    {
        let ghost before = text_lists(r@);
        match rows[i].numbers() {
            Some(numbers) => {
                proof {
                    assert(all[i as int] == rows@[i as int]@);
                }
                r.push(numbers);
                proof {
                    assert(text_lists(r@) =~= before.push(wanted[i as int]));
                    assert(wanted.take(i + 1) =~= before.push(wanted[i as int]));
                }
            },
            None => {
                proof {
                    assert(!(all[i as int].kind is List));
                }
                return Err(
                    EmbeddingError::Backend("an embeddings entry was not an array".to_owned()),
                );
            },
        }
        i = i + 1;
    }
    proof {
        assert(wanted.take(i as int) =~= wanted);
    }
    Ok(r)
}

/// An embedding model on an Ollama server.
#[derive(Debug)]
pub struct OllamaEmbeddingProvider {
    pub base_url: String,
    pub model: String,
}

/// What a request for some vectors comes to before anything is sent.
#[derive(Debug)]
pub enum Batch {
    /// There is nothing to send: no texts have no vectors.
    Nothing,
    /// The request to send.
    Send(serde_json::Value),
}

impl OllamaEmbeddingProvider {
    /// The model of a configuration that is accepted, at its address or else at
    /// the usual one.
    pub fn from_config(config: EmbeddingConfig) -> (r: Result<Self, CoreError>)
        ensures
            match config.problem() {
                None => r matches Ok(provider) && provider.base_url@ == text::or(
                    text::model(config.base_url),
                    settings::OLLAMA_BASE_URL@,
                ) && provider.model@ == config.model@,
                Some(message) => r matches Err(err) && err.is_config(message),
            },
    {
        match config.validate() {
            Ok(()) => {},
            Err(err) => {
                return Err(err);
            },
        }
        let base_url = text::text_or(&config.base_url, settings::OLLAMA_BASE_URL);
        Ok(OllamaEmbeddingProvider { base_url, model: config.model })
    }

    /// Where a request for one vector goes.
    pub fn url(&self) -> (r: String)
        ensures
            r@ == self.base_url@ + "/api/embeddings"@,
    {
        text::concat(self.base_url.as_str(), "/api/embeddings")
    }

    /// Where a request for some vectors at once goes.
    pub fn batch_url(&self) -> (r: String)
        ensures
            r@ == self.base_url@ + "/api/embed"@,
    {
        text::concat(self.base_url.as_str(), "/api/embed")
    }

    /// The request for the vector of a text. For an empty text nothing is sent.
    pub fn request(&self, prompt: &str) -> (r: Result<serde_json::Value, EmbeddingError>)
        ensures
            match r {
                Ok(request) => prompt@.len() > 0 && json::says(
                    json::json_of(request),
                    seq![
                        ("model"@, JsonKind::Text(self.model@)),
                        ("prompt"@, JsonKind::Text(prompt@)),
                    ],
                ),
                Err(err) => prompt@.len() == 0 && err == EmbeddingError::EmptyInput,
            },
    {
        match embedding::check_input(prompt) {
            Ok(()) => Ok(build_embeddings_request(self.model.as_str(), prompt)),
            Err(err) => Err(err),
        }
    }

    /// The request for the vectors of some texts. No texts need no request; an
    /// empty text among them is refused, and nothing is sent.
    pub fn batch_request(&self, texts: &[&str]) -> (r: Result<Batch, EmbeddingError>)
        ensures
            texts@.len() == 0 ==> r == Ok::<Batch, EmbeddingError>(Batch::Nothing),
            embedding::has_empty(embedding::text_views(texts@)) ==> r == Err::<Batch, EmbeddingError>(
                EmbeddingError::EmptyInput,
            ),
            texts@.len() > 0 && !embedding::has_empty(embedding::text_views(texts@)) ==> (r matches Ok(Batch::Send(request))
                && is_batch_request(json::json_of(request), self.model@, embedding::text_views(texts@))),
    {
        match embedding::check_inputs(texts) {
            Ok(true) => Ok(
                Batch::Send(build_batch_embeddings_request(self.model.as_str(), texts)),
            ),
            Ok(false) => Ok(Batch::Nothing),
            Err(err) => Err(err),
        }
    }
}

/// What is made of a request that got no answer.
pub fn embedding_failure(timed_out: bool, reason: String) -> (r: EmbeddingError)
    ensures
        r == if timed_out {
            EmbeddingError::Timeout
        } else {
            EmbeddingError::Backend(reason)
        },
{
    if timed_out {
        EmbeddingError::Timeout
    } else {
        EmbeddingError::Backend(reason)
    }
}

/// Accepts an answer by its status, which prints as it is shown.
pub fn check_embedding_status(status: u16, shown: &str) -> (r: Result<(), EmbeddingError>)
    ensures
        r is Ok == succeeded(status),
        !succeeded(status) ==> (r matches Err(EmbeddingError::Backend(reason)) && reason@
            == "HTTP "@ + shown@),
{
    if !(200 <= status && status < 300) {
        return Err(EmbeddingError::Backend(text::concat("HTTP ", shown)));
    }
    Ok(())
}

/// What to do with the answer to a request for some vectors at once.
#[derive(Clone, Copy, Debug, PartialEq, Eq, Structural)]
pub enum BatchStep {
    /// The server has no such requests: ask for one vector after the other.
    OneByOne,
    /// The body holds the vectors.
    ReadBody,
}

/// Accepts an answer to a request for some vectors at once by its status, which
/// prints as it is shown.
pub fn check_batch_status(status: u16, shown: &str) -> (r: Result<BatchStep, EmbeddingError>)
    ensures
        status == NOT_FOUND ==> r == Ok::<BatchStep, EmbeddingError>(BatchStep::OneByOne),
        succeeded(status) ==> r == Ok::<BatchStep, EmbeddingError>(BatchStep::ReadBody),
        status != NOT_FOUND && !succeeded(status) ==> (r matches Err(
            EmbeddingError::Backend(reason),
        ) && reason@ == "HTTP "@ + shown@),
{
    if status == NOT_FOUND {
        return Ok(BatchStep::OneByOne);
    }
    match check_embedding_status(status, shown) {
        Ok(()) => Ok(BatchStep::ReadBody),
        Err(err) => Err(err),
    }
}

} // verus!
