//! What is asked of another server.

use super::Trouble;
use crate::cli::Ids;
use crate::json;
use crate::json::laws as said;
use crate::json::{Json, JsonKind};
use crate::payload::Payload;
use crate::remote;
use crate::text;
use crate::wire;
use vstd::prelude::*;

verus! {

/// A text that may be there is the text, or null.
pub proof fn law_optional_texts(s: Seq<char>)
    ensures
        remote::optional_text(Some(s)) == JsonKind::Text(s),
        remote::optional_text(None) == JsonKind::Null,
{
}

/// A request for a list asks for the page, for the ids that are given, and for
/// expired memories where they count; for nothing else.
pub proof fn law_list_query(
    ids: Ids,
    offset: nat,
    limit: nat,
    show_expired: bool,
    key: Seq<char>,
    value: Seq<char>,
)
    ensures
        remote::list_query(ids, offset, limit, show_expired)[0] == ("offset"@, text::decimal(
            offset,
        )),
        remote::list_query(ids, offset, limit, show_expired)[1] == ("limit"@, text::decimal(limit)),
        remote::list_query(ids, offset, limit, show_expired).contains((key, value)) <==> {
            ||| key == "offset"@ && value == text::decimal(offset)
            ||| key == "limit"@ && value == text::decimal(limit)
            ||| key == "user_id"@ && ids.user_id is Some && value == ids.user_id->0@
            ||| key == "agent_id"@ && ids.agent_id is Some && value == ids.agent_id->0@
            ||| key == "run_id"@ && ids.run_id is Some && value == ids.run_id->0@
            ||| key == "show_expired"@ && show_expired && value == "true"@
        },
{
    let page = seq![("offset"@, text::decimal(offset)), ("limit"@, text::decimal(limit))];
    let one = remote::with_pair(page, "user_id"@, text::model(ids.user_id));
    let two = remote::with_pair(one, "agent_id"@, text::model(ids.agent_id));
    let three = remote::with_pair(two, "run_id"@, text::model(ids.run_id));
    let all = remote::list_query(ids, offset, limit, show_expired);
    let pair = (key, value);
    assert(page.contains(pair) <==> pair == page[0] || pair == page[1]) by {
        if page.contains(pair) {
            let i = choose|i: int| 0 <= i < page.len() && page[i] == pair;
        }
    }
    lemma_with_pair(page, "user_id"@, text::model(ids.user_id), pair);
    lemma_with_pair(one, "agent_id"@, text::model(ids.agent_id), pair);
    lemma_with_pair(two, "run_id"@, text::model(ids.run_id), pair);
    lemma_with_pair(
        three,
        "show_expired"@,
        if show_expired {
            Some("true"@)
        } else {
            None
        },
        pair,
    );
}

proof fn lemma_with_pair(
    pairs: Seq<(Seq<char>, Seq<char>)>,
    key: Seq<char>,
    value: Option<Seq<char>>,
    pair: (Seq<char>, Seq<char>),
)
    ensures
        remote::with_pair(pairs, key, value).contains(pair) <==> pairs.contains(pair) || value
            is Some && pair == (key, value->0),
        pairs.len() >= 2 ==> remote::with_pair(pairs, key, value)[0] == pairs[0]
            && remote::with_pair(pairs, key, value)[1] == pairs[1],
        remote::with_pair(pairs, key, value).len() >= pairs.len(),
{
    let all = remote::with_pair(pairs, key, value);
    if pairs.contains(pair) {
        let i = choose|i: int| 0 <= i < pairs.len() && pairs[i] == pair;
        assert(all[i] == pair);
    }
    if value is Some {
        assert(all[pairs.len() as int] == (key, value->0));
        if all.contains(pair) {
            let i = choose|i: int| 0 <= i < all.len() && all[i] == pair;
            if i < pairs.len() {
                assert(pairs[i] == pair);
            }
        }
    }
}

/// Whether a request says whom it is about.
pub open spec fn is_about(request: Json, ids: Ids) -> bool {
    &&& said::has(request, "user_id"@, remote::optional_text(text::model(ids.user_id)))
    &&& said::has(request, "agent_id"@, remote::optional_text(text::model(ids.agent_id)))
    &&& said::has(request, "run_id"@, remote::optional_text(text::model(ids.run_id)))
}

/// Whether a name is one that says whom a request is about.
pub open spec fn is_id_name(key: Seq<char>) -> bool {
    key == "user_id"@ || key == "agent_id"@ || key == "run_id"@
}

/// A request to search says what is searched for, whom it is about, how many
/// results are wanted, the threshold, whether expired memories count and whether
/// scores are explained; it says nothing else.
pub proof fn law_search_request(
    request: Json,
    query: Seq<char>,
    ids: Ids,
    top_k: nat,
    threshold: JsonKind,
    show_expired: bool,
    explain: bool,
    key: Seq<char>,
)
    requires
        json::says(
            request,
            remote::search_says(query, ids, top_k, threshold, show_expired, explain),
        ),
    ensures
        said::has(request, "query"@, JsonKind::Text(query)),
        is_about(request, ids),
        said::has(request, "top_k"@, JsonKind::Number(text::decimal(top_k))),
        said::has(request, "threshold"@, threshold),
        said::has(request, "show_expired"@, JsonKind::Bool(show_expired)),
        said::has(request, "explain"@, JsonKind::Bool(explain)),
        json::member(request, key) is Some ==> is_id_name(key) || key == "query"@ || key
            == "top_k"@ || key == "threshold"@ || key == "show_expired"@ || key == "explain"@,
{
    let entries = remote::search_says(query, ids, top_k, threshold, show_expired, explain);
    assert(entries[0].0 == "query"@);
    assert(entries[1].0 == "user_id"@);
    assert(entries[2].0 == "agent_id"@);
    assert(entries[3].0 == "run_id"@);
    assert(entries[4].0 == "top_k"@);
    assert(entries[5].0 == "threshold"@);
    assert(entries[6].0 == "show_expired"@);
    assert(entries[7].0 == "explain"@);
}

/// A request to add a message says its content, whom it is about, whether facts
/// are extracted, and the images as texts in order; it says nothing else.
pub proof fn law_add_request(
    request: Json,
    content: Seq<char>,
    ids: Ids,
    infer: bool,
    images: Seq<Seq<char>>,
    key: Seq<char>,
    i: int,
)
    requires
        remote::asks_to_add(request, content, ids, infer, images),
    ensures
        said::has(request, "content"@, JsonKind::Text(content)),
        is_about(request, ids),
        said::has(request, "infer"@, JsonKind::Bool(infer)),
        json::member(request, "images"@) is Some,
        json::member(request, "images"@)->0.kind is List,
        json::member(request, "images"@)->0.kind->List_0.len() == images.len(),
        0 <= i < images.len() ==> json::member(request, "images"@)->0.kind->List_0[i].kind
            == JsonKind::Text(images[i]),
        json::member(request, key) is Some ==> is_id_name(key) || key == "content"@ || key
            == "infer"@ || key == "images"@,
{
    let values = choose|values: Seq<Json>| #[trigger]
        crate::ollama::are_texts(values, images) && json::says(
            request,
            remote::add_says(content, ids, infer, values),
        );
    let entries = remote::add_says(content, ids, infer, values);
    assert(entries[0].0 == "content"@);
    assert(entries[1].0 == "user_id"@);
    assert(entries[2].0 == "agent_id"@);
    assert(entries[3].0 == "run_id"@);
    assert(entries[4].0 == "infer"@);
    assert(entries[5].0 == "images"@);
}

/// A request to update a memory says the content and the metadata, each of them
/// null where it is not given; it says nothing else.
pub proof fn law_update_request(
    request: Json,
    content: Option<Seq<char>>,
    metadata: Option<&Payload>,
    key: Seq<char>,
    i: int,
)
    requires
        remote::asks_to_update(request, content, metadata),
    ensures
        content is Some ==> said::has(request, "content"@, JsonKind::Text(content->0)),
        content is None ==> said::has(request, "content"@, JsonKind::Null),
        metadata is None ==> said::has(request, "metadata"@, JsonKind::Null),
        json::member(request, "metadata"@) is Some,
        metadata is Some && 0 <= i < metadata->0.entries().len() ==> said::has(
            json::member(request, "metadata"@)->0,
            metadata->0.entries()[i].0,
            JsonKind::Text(metadata->0.entries()[i].1),
        ),
        json::member(request, key) is Some ==> key == "content"@ || key == "metadata"@,
{
    let value = choose|value: Json| #[trigger]
        remote::says_payload(value, metadata) && json::says(
            request,
            seq![("content"@, remote::optional_text(content)), ("metadata"@, value.kind)],
        );
    let entries = seq![("content"@, remote::optional_text(content)), ("metadata"@, value.kind)];
    assert(entries[0].0 == "content"@);
    assert(entries[1].0 == "metadata"@);
    let found = json::member(request, "metadata"@)->0;
    assert(found.kind == value.kind);
    if metadata is Some && 0 <= i < metadata->0.entries().len() {
        let said = wire::entries_say(metadata->0.entries());
        assert(said[i].0 == metadata->0.entries()[i].0);
        assert(json::member(found, said[i].0) == json::member(value, said[i].0));
    }
}

/// What is said of each way to fail.
pub proof fn law_troubles()
    ensures
        Trouble::Unsent.start() == "request to server failed: "@,
        Trouble::Unread.start() == "failed to read server response: "@,
        Trouble::Malformed.start() == "malformed response from server: "@,
{
}

} // verus!
