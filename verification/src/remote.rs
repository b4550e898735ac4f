//! The memory of another server: where its parts are, what is sent there, and
//! what is made of the replies.

pub mod laws;

use crate::cli::Ids;
use crate::json;
use crate::json::JsonKind;
use crate::ollama;
use crate::payload::Payload;
use crate::text;
use crate::text::CharClass;
use crate::wire;
use vstd::prelude::*;

verus! {

/// The server that keeps the memory, and the key that opens it.
#[derive(Debug)]
pub struct RemoteClient {
    pub base_url: String,
    pub api_key: Option<String>,
}

impl RemoteClient {
    /// The server at an address, which may end in slashes.
    pub fn new(base_url: &str, api_key: Option<String>) -> (r: Self)
        ensures
            r.base_url@ == text::trimmed_end(base_url@, CharClass::Only('/')),
            r.api_key == api_key,
    {
        RemoteClient { base_url: text::trim_end(base_url, CharClass::Only('/')), api_key }
    }

    /// Where memories are searched.
    pub fn search_url(&self) -> (r: String)
        ensures
            r@ == self.base_url@ + "/search"@,
    {
        text::concat(self.base_url.as_str(), "/search")
    }

    /// Where memories are listed, added, and deleted by whom they belong to.
    pub fn memories_url(&self) -> (r: String)
        ensures
            r@ == self.base_url@ + "/memories"@,
    {
        text::concat(self.base_url.as_str(), "/memories")
    }

    /// Where a memory is.
    pub fn memory_url(&self, id: &str) -> (r: String)
        ensures
            r@ == self.base_url@ + "/memories/"@ + id@,
    {
        text::concat3(self.base_url.as_str(), "/memories/", id)
    }

    /// Where a page of the history of a memory is.
    pub fn history_url(&self, id: &str, offset: usize, limit: usize) -> (r: String)
        ensures
            r@ == self.base_url@ + "/memories/"@ + id@ + "/history?offset="@ + text::decimal(
                offset as nat,
            ) + "&limit="@ + text::decimal(limit as nat),
    {
        let mut r = self.memory_url(id);
        r.append("/history?offset=");
        r.append(text::to_decimal(offset as u128).as_str());
        r.append("&limit=");
        r.append(text::to_decimal(limit as u128).as_str());
        r
    }

    /// Where it is counted whom the memories belong to.
    pub fn entities_url(&self) -> (r: String)
        ensures
            r@ == self.base_url@ + "/entities"@,
    {
        text::concat(self.base_url.as_str(), "/entities")
    }
}

/// Pairs with one more, if there is a value for it.
pub open spec fn with_pair(
    pairs: Seq<(Seq<char>, Seq<char>)>,
    key: Seq<char>,
    value: Option<Seq<char>>,
) -> Seq<(Seq<char>, Seq<char>)> {
    match value {
        Some(value) => pairs.push((key, value)),
        None => pairs,
    }
}

/// What a request for a list asks: the page, whose memories, and whether expired
/// ones count.
pub open spec fn list_query(ids: Ids, offset: nat, limit: nat, show_expired: bool) -> Seq<
    (Seq<char>, Seq<char>),
> {
    let page = seq![("offset"@, text::decimal(offset)), ("limit"@, text::decimal(limit))];
    let whose = with_pair(
        with_pair(
            with_pair(page, "user_id"@, text::model(ids.user_id)),
            "agent_id"@,
            text::model(ids.agent_id),
        ),
        "run_id"@,
        text::model(ids.run_id),
    );
    if show_expired {
        whose.push(("show_expired"@, "true"@))
    } else {
        whose
    }
}

fn push_pair(pairs: &mut Vec<(String, String)>, key: &str, value: &str)
    ensures
        text::pairs(final(pairs)@) == text::pairs(old(pairs)@).push((key@, value@)),
{
    let ghost before = text::pairs(pairs@);
    pairs.push((key.to_owned(), value.to_owned()));
    proof {
        assert(text::pairs(pairs@) =~= before.push((key@, value@)));
    }
}

fn push_given(pairs: &mut Vec<(String, String)>, key: &str, value: &Option<String>)
    ensures
        text::pairs(final(pairs)@) == with_pair(
            text::pairs(old(pairs)@),
            key@,
            text::model(*value),
        ),
{
    match value {
        Some(value) => {
            push_pair(pairs, key, value.as_str());
        },
        None => {},
    }
}

/// What a request for a list asks, as pairs of a query.
pub fn build_list_query(ids: &Ids, offset: usize, limit: usize, show_expired: bool) -> (r: Vec<
    (String, String),
>)
    ensures
        text::pairs(r@) == list_query(*ids, offset as nat, limit as nat, show_expired),
{
    let mut r: Vec<(String, String)> = Vec::new();
    push_pair(&mut r, "offset", text::to_decimal(offset as u128).as_str());
    push_pair(&mut r, "limit", text::to_decimal(limit as u128).as_str());
    proof {
        assert(text::pairs(r@) =~= seq![
            ("offset"@, text::decimal(offset as nat)),
            ("limit"@, text::decimal(limit as nat)),
        ]);
    }
    push_given(&mut r, "user_id", &ids.user_id);
    push_given(&mut r, "agent_id", &ids.agent_id);
    push_given(&mut r, "run_id", &ids.run_id);
    if show_expired {
        push_pair(&mut r, "show_expired", "true");
    }
    r
}

/// A text that may be there, as JSON: nothing is null.
pub open spec fn optional_text(s: Option<Seq<char>>) -> JsonKind {
    match s {
        Some(s) => JsonKind::Text(s),
        None => JsonKind::Null,
    }
}

fn optional_value(s: &Option<String>) -> (r: serde_json::Value)
    ensures
        json::json_of(r).kind == optional_text(text::model(*s)),
{
    match s {
        Some(s) => json::text_value(s.as_str()),
        None => json::null_value(),
    }
}

/// Whom a request is about, as JSON.
pub open spec fn ids_say(ids: Ids) -> Seq<(Seq<char>, JsonKind)> {
    seq![
        ("user_id"@, optional_text(text::model(ids.user_id))),
        ("agent_id"@, optional_text(text::model(ids.agent_id))),
        ("run_id"@, optional_text(text::model(ids.run_id))),
    ]
}

fn push_ids(entries: &mut Vec<(String, serde_json::Value)>, ids: &Ids)
    ensures
        json::kinds_of(final(entries)@) == json::kinds_of(old(entries)@) + ids_say(*ids),
{
    entries.push(("user_id".to_owned(), optional_value(&ids.user_id)));
    entries.push(("agent_id".to_owned(), optional_value(&ids.agent_id)));
    entries.push(("run_id".to_owned(), optional_value(&ids.run_id)));
    proof {
        assert(json::kinds_of(entries@) =~= json::kinds_of(old(entries)@) + ids_say(*ids));
    }
}

proof fn lemma_names_differ()
    ensures
        "user_id"@.len() == 7,
        "agent_id"@.len() == 8,
        "run_id"@.len() == 6,
        "query"@.len() == 5,
        "content"@[0] == 'c',
        "user_id"@[0] == 'u',
        "agent_id"@[0] == 'a',
        "images"@[0] == 'i' && "images"@.len() == 6,
        "infer"@[0] == 'i' && "infer"@.len() == 5,
        "run_id"@[0] == 'r',
        "top_k"@[0] == 't' && "top_k"@.len() == 5,
        "threshold"@[0] == 't' && "threshold"@.len() == 9,
        "show_expired"@[0] == 's',
        "explain"@[0] == 'e',
        "query"@[0] == 'q',
        "metadata"@[0] == 'm',
{
    reveal_strlit("user_id");
    reveal_strlit("agent_id");
    reveal_strlit("run_id");
    reveal_strlit("query");
    reveal_strlit("content");
    reveal_strlit("images");
    reveal_strlit("infer");
    reveal_strlit("top_k");
    reveal_strlit("threshold");
    reveal_strlit("show_expired");
    reveal_strlit("explain");
    reveal_strlit("metadata");
}

/// What a request to delete the memories of someone says.
pub fn build_delete_all_request(ids: &Ids) -> (r: serde_json::Value)
    ensures
        json::says(json::json_of(r), ids_say(*ids)),
{
    let mut entries: Vec<(String, serde_json::Value)> = Vec::new();
    push_ids(&mut entries, ids);
    proof {
        lemma_names_differ();
        assert(json::kinds_of(entries@) =~= ids_say(*ids));
    }
    json::object(entries)
}

/// What a request to search says; the threshold is given as JSON.
pub open spec fn search_says(
    query: Seq<char>,
    ids: Ids,
    top_k: nat,
    threshold: JsonKind,
    show_expired: bool,
    explain: bool,
) -> Seq<(Seq<char>, JsonKind)> {
    seq![("query"@, JsonKind::Text(query))] + ids_say(ids) + seq![
        ("top_k"@, JsonKind::Number(text::decimal(top_k))),
        ("threshold"@, threshold),
        ("show_expired"@, JsonKind::Bool(show_expired)),
        ("explain"@, JsonKind::Bool(explain)),
    ]
}

/// What a request to search says; the threshold is given as JSON.
pub fn build_search_request(
    query: &str,
    ids: &Ids,
    top_k: usize,
    threshold: serde_json::Value,
    show_expired: bool,
    explain: bool,
) -> (r: serde_json::Value)
    ensures
        json::says(
            json::json_of(r),
            search_says(
                query@,
                *ids,
                top_k as nat,
                json::json_of(threshold).kind,
                show_expired,
                explain,
            ),
        ),
{
    let ghost wanted = search_says(
        query@,
        *ids,
        top_k as nat,
        json::json_of(threshold).kind,
        show_expired,
        explain,
    );
    let mut entries: Vec<(String, serde_json::Value)> = Vec::new();
    entries.push(("query".to_owned(), json::text_value(query)));
    push_ids(&mut entries, ids);
    let ghost first = json::kinds_of(entries@);
    entries.push(("top_k".to_owned(), json::size_value(top_k)));
    entries.push(("threshold".to_owned(), threshold));
    entries.push(("show_expired".to_owned(), json::bool_value(show_expired)));
    entries.push(("explain".to_owned(), json::bool_value(explain)));
    proof {
        lemma_names_differ();
        assert(first =~= seq![("query"@, JsonKind::Text(query@))] + ids_say(*ids));
        assert(json::kinds_of(entries@) =~= wanted);
    }
    json::object(entries)
}

/// What a request to add a message says.
pub open spec fn add_says(
    content: Seq<char>,
    ids: Ids,
    infer: bool,
    images: Seq<json::Json>,
) -> Seq<(Seq<char>, JsonKind)> {
    seq![("content"@, JsonKind::Text(content))] + ids_say(ids) + seq![
        ("infer"@, JsonKind::Bool(infer)),
        ("images"@, JsonKind::List(images)),
    ]
}

/// Whether a value asks for a message to be added.
pub open spec fn asks_to_add(
    request: json::Json,
    content: Seq<char>,
    ids: Ids,
    infer: bool,
    images: Seq<Seq<char>>,
) -> bool {
    exists|values: Seq<json::Json>| #[trigger]
        ollama::are_texts(values, images) && json::says(
            request,
            add_says(content, ids, infer, values),
        )
}

/// What a request to add a message says.
pub fn build_add_request(content: &str, ids: &Ids, infer: bool, images: &Vec<String>) -> (r:
    serde_json::Value)
    ensures
        asks_to_add(json::json_of(r), content@, *ids, infer, text::texts(images@)),
{
    let mut items: Vec<serde_json::Value> = Vec::new();
    let mut i: usize = 0;
    while i < images.len()
        invariant
            i <= images.len(),
            items@.len() == i,
            forall|j: int|
                0 <= j < i ==> json::json_of(#[trigger] items@[j]).kind == JsonKind::Text(
                    images@[j]@,
                ),
        decreases images.len() - i,
    {
        items.push(json::text_value(images[i].as_str()));
        i = i + 1;
    }
    let ghost values = json::values_of(items@);
    let mut entries: Vec<(String, serde_json::Value)> = Vec::new();
    entries.push(("content".to_owned(), json::text_value(content)));
    push_ids(&mut entries, ids);
    let ghost first = json::kinds_of(entries@);
    entries.push(("infer".to_owned(), json::bool_value(infer)));
    entries.push(("images".to_owned(), json::list_value(items)));
    proof {
        lemma_names_differ();
        assert(ollama::are_texts(values, text::texts(images@)));
        assert(first =~= seq![("content"@, JsonKind::Text(content@))] + ids_say(*ids));
        assert(json::kinds_of(entries@) =~= add_says(content@, *ids, infer, values));
    }
    json::object(entries)
}

/// Whether a value is a payload, or null for none.
pub open spec fn says_payload(value: json::Json, payload: Option<&Payload>) -> bool {
    match payload {
        Some(payload) => json::says(value, wire::entries_say(payload.entries())),
        None => value.kind is Null,
    }
}

fn optional_payload(payload: Option<&Payload>) -> (r: serde_json::Value)
    ensures
        says_payload(json::json_of(r), payload),
{
    match payload {
        Some(payload) => wire::payload_value(payload),
        None => json::null_value(),
    }
}

/// Whether a value asks for a memory to be updated.
pub open spec fn asks_to_update(
    request: json::Json,
    content: Option<Seq<char>>,
    metadata: Option<&Payload>,
) -> bool {
    exists|value: json::Json| #[trigger]
        says_payload(value, metadata) && json::says(
            request,
            seq![("content"@, optional_text(content)), ("metadata"@, value.kind)],
        )
}

/// What a request to update a memory says.
pub fn build_update_request(content: &Option<String>, metadata: Option<&Payload>) -> (r:
    serde_json::Value)
    ensures
        asks_to_update(json::json_of(r), text::model(*content), metadata),
{
    let value = optional_payload(metadata);
    let ghost said = json::json_of(value);
    let mut entries: Vec<(String, serde_json::Value)> = Vec::new();
    entries.push(("content".to_owned(), optional_value(content)));
    entries.push(("metadata".to_owned(), value));
    proof {
        lemma_names_differ();
        assert(says_payload(said, metadata));
        assert(json::kinds_of(entries@) =~= seq![
            ("content"@, optional_text(text::model(*content))),
            ("metadata"@, said.kind),
        ]);
    }
    json::object(entries)
}

/// What a reply with a status is.
#[derive(Clone, Copy, Debug, PartialEq, Eq, Structural)]
pub enum Reply {
    /// What was asked for.
    Success,
    /// That it is not there.
    Missing,
    /// That something went wrong.
    Failure,
}

/// What a reply with a status is.
pub fn classify(status: u16) -> (r: Reply)
    ensures
        r == if status == ollama::NOT_FOUND {
            Reply::Missing
        } else if ollama::succeeded(status) {
            Reply::Success
        } else {
            Reply::Failure
        },
{
    if status == ollama::NOT_FOUND {
        Reply::Missing
    } else if 200 <= status && status < 300 {
        Reply::Success
    } else {
        Reply::Failure
    }
}

/// What is said of a reply that something went wrong: its status as it is shown,
/// and the error that it names, or else all that it says.
pub fn error_message(status: &str, error: Option<String>, body: &str) -> (r: String)
    ensures
        r@ == "server returned "@ + status@ + ": "@ + text::or(text::model(error), body@),
{
    let mut r = text::concat3("server returned ", status, ": ");
    r.append(text::text_or(&error, body).as_str());
    r
}

/// How a request can fail without a reply that can be used.
#[derive(Clone, Copy, Debug, PartialEq, Eq, Structural)]
pub enum Trouble {
    Unsent,
    Unread,
    Malformed,
}

impl Trouble {
    /// What stands before the cause.
    pub open spec fn start(self) -> Seq<char> {
        match self {
            Trouble::Unsent => "request to server failed: "@,
            Trouble::Unread => "failed to read server response: "@,
            Trouble::Malformed => "malformed response from server: "@,
        }
    }

    /// What is said of the failure.
    pub fn describe(self, cause: &str) -> (r: String)
        ensures
            r@ == self.start() + cause@,
    {
        let start = match self {
            Trouble::Unsent => "request to server failed: ",
            Trouble::Unread => "failed to read server response: ",
            Trouble::Malformed => "malformed response from server: ",
        };
        text::concat(start, cause)
    }
}

} // verus!
