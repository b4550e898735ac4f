//! What is asked of an Ollama server, and what is made of its answers.

use crate::embedding::EmbeddingError;
use crate::json;
use crate::json::laws as said;
use crate::json::{Json, JsonKind};
use crate::llm::{Completion, LlmError, MessageModel};
use crate::ollama;
use crate::text;
use vstd::prelude::*;

verus! {

/// Which statuses are successes.
pub proof fn law_statuses(status: u16)
    ensures
        ollama::succeeded(status) <==> status / 100 == 2,
        ollama::UNAUTHORIZED == 401,
        ollama::NOT_FOUND == 404,
{
}

/// A chat request names the model, has each message in order with its role and its
/// content, and asks for the whole answer at once; it says nothing else.
pub proof fn law_chat_request(
    request: Json,
    model: Seq<char>,
    messages: Seq<MessageModel>,
    i: int,
    key: Seq<char>,
)
    requires
        ollama::is_chat_request(request, model, messages),
    ensures
        said::has(request, "model"@, JsonKind::Text(model)),
        said::has(request, "stream"@, JsonKind::Bool(false)),
        json::member(request, "messages"@) is Some,
        ({
            let list = json::member(request, "messages"@)->0.kind;
            &&& list is List
            &&& list->List_0.len() == messages.len()
            &&& 0 <= i < messages.len() ==> {
                let value = list->List_0[i];
                &&& said::has(value, "role"@, JsonKind::Text(messages[i].role.keyword()))
                &&& said::has(value, "content"@, JsonKind::Text(messages[i].content))
                &&& json::member(value, key) is Some ==> key == "role"@ || key == "content"@
            }
        }),
        json::member(request, key) is Some ==> key == "model"@ || key == "messages"@ || key
            == "stream"@,
{
    let values = choose|values: Seq<Json>| #[trigger]
        ollama::says_messages(values, messages) && json::says(
            request,
            seq![
                ("model"@, JsonKind::Text(model)),
                ("messages"@, JsonKind::List(values)),
                ("stream"@, JsonKind::Bool(false)),
            ],
        );
    let entries = seq![
        ("model"@, JsonKind::Text(model)),
        ("messages"@, JsonKind::List(values)),
        ("stream"@, JsonKind::Bool(false)),
    ];
    assert(entries[0].0 == "model"@);
    assert(entries[1].0 == "messages"@);
    assert(entries[2].0 == "stream"@);
    if 0 <= i < messages.len() {
        assert(ollama::says_message(values[i], messages[i]));
        let parts = seq![
            ("role"@, JsonKind::Text(messages[i].role.keyword())),
            ("content"@, JsonKind::Text(messages[i].content)),
        ];
        assert(parts[0].0 == "role"@);
        assert(parts[1].0 == "content"@);
    }
}

/// An answer to a chat request is completed with the text at `content` of what it
/// has at `message`; an answer without that is malformed.
pub proof fn law_chat_answer(
    answer: Json,
    message: Json,
    content: Json,
    r: Result<Completion, LlmError>,
)
    requires
        ollama::completes(answer, r),
    ensures
        json::member(answer, "message"@) == Some(message) && json::member(message, "content"@)
            == Some(content) && content.kind is Text ==> r is Ok && r->Ok_0.content@
            == content.kind->Text_0,
        json::member(answer, "message"@) is None ==> r is Err,
        json::member(answer, "message"@) == Some(message) && json::member(message, "content"@)
            is None ==> r is Err,
        json::member(answer, "message"@) == Some(message) && json::member(message, "content"@)
            == Some(content) && !(content.kind is Text) ==> r is Err,
        r is Err ==> r->Err_0 is Malformed && r->Err_0->Malformed_0@
            == "missing message.content field"@,
{
}

/// A request for the vectors of some texts names the model and has each text in
/// order; it says nothing else.
pub proof fn law_batch_request(
    request: Json,
    model: Seq<char>,
    texts: Seq<Seq<char>>,
    i: int,
    key: Seq<char>,
)
    requires
        ollama::is_batch_request(request, model, texts),
    ensures
        said::has(request, "model"@, JsonKind::Text(model)),
        json::member(request, "input"@) is Some,
        json::member(request, "input"@)->0.kind is List,
        json::member(request, "input"@)->0.kind->List_0.len() == texts.len(),
        0 <= i < texts.len() ==> json::member(request, "input"@)->0.kind->List_0[i].kind
            == JsonKind::Text(texts[i]),
        json::member(request, key) is Some ==> key == "model"@ || key == "input"@,
{
    let values = choose|values: Seq<Json>| #[trigger]
        ollama::are_texts(values, texts) && json::says(
            request,
            seq![("model"@, JsonKind::Text(model)), ("input"@, JsonKind::List(values))],
        );
    let entries = seq![("model"@, JsonKind::Text(model)), ("input"@, JsonKind::List(values))];
    assert(entries[0].0 == "model"@);
    assert(entries[1].0 == "input"@);
}

/// The vector that an answer gives is the list at `embedding`.
pub proof fn law_vector(answer: Json, value: Json)
    ensures
        json::member(answer, "embedding"@) == Some(value) ==> ollama::vector_in(answer)
            == json::numbers(value),
        json::member(answer, "embedding"@) is None ==> ollama::vector_in(answer) is None,
{
}

/// The vectors that an answer gives are the lists in the list at `embeddings`, one
/// for each text that was sent. Any other answer is refused, and the first of these
/// says why: there is no such list, it is of another length, or something in it is
/// no list.
pub proof fn law_vectors(
    answer: Json,
    value: Json,
    expected: nat,
    r: Result<Vec<Vec<String>>, EmbeddingError>,
    i: int,
)
    requires
        ollama::embeds(answer, expected, r),
        json::member(answer, "embeddings"@) == Some(value) || json::member(answer, "embeddings"@)
            is None,
    ensures
        ({
            let rows = value.kind->List_0;
            let given = json::member(answer, "embeddings"@) is Some && value.kind is List;
            let listed = forall|k: int|
                0 <= k < rows.len() ==> (#[trigger] rows[k]).kind is List;
            &&& r is Ok <==> given && rows.len() == expected && listed
            &&& r is Err ==> r->Err_0 is Backend
            &&& !given ==> r->Err_0->Backend_0@ == "missing embeddings field in response"@
            &&& given && rows.len() != expected ==> r->Err_0->Backend_0@ == "expected "@
                + text::decimal(expected) + " embeddings, got "@ + text::decimal(rows.len())
            &&& given && rows.len() == expected && !listed ==> r->Err_0->Backend_0@
                == "an embeddings entry was not an array"@
            &&& r is Ok ==> r->Ok_0@.len() == expected
            &&& r is Ok && 0 <= i < expected ==> text::texts(r->Ok_0@[i]@) == json::numbers_in(
                rows[i].kind->List_0,
            )
        }),
{
    if r is Ok {
        let vectors = r->Ok_0;
        let rows = value.kind->List_0;
        assert(ollama::text_lists(vectors@).len() == vectors@.len());
        assert(ollama::row_numbers(rows).len() == rows.len());
        if 0 <= i < expected {
            assert(ollama::text_lists(vectors@)[i] == text::texts(vectors@[i]@));
            assert(ollama::row_numbers(rows)[i] == json::numbers(rows[i])->0);
            assert(rows[i].kind is List);
        }
    }
}

} // verus!
