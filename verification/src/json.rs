//! JSON values as trees of plain values.

pub mod laws;

use crate::text;
use crate::textmap;
use vstd::prelude::*;

verus! {

/// A JSON value: what it prints as, and what it is.
pub struct Json {
    pub shown: Seq<char>,
    pub kind: JsonKind,
}

/// What a JSON value is. A number is the text that it prints as; the entries of
/// an object are in the order in which the object hands them out.
pub enum JsonKind {
    Null,
    Bool(bool),
    Number(Seq<char>),
    Text(Seq<char>),
    List(Seq<Json>),
    Object(Seq<(Seq<char>, Json)>),
}

/// A JSON value as a tree.
#[derive(Debug)]
pub struct JsonTree {
    pub shown: String,
    pub kind: TreeKind,
}

/// What a JSON value is, as a tree.
#[derive(Debug)]
pub enum TreeKind {
    Null,
    Bool(bool),
    Number(String),
    Text(String),
    List(Vec<JsonTree>),
    Object(Vec<(String, JsonTree)>),
}

/// The value that a tree stands for.
pub open spec fn tree_model(tree: JsonTree) -> Json
    decreases tree,
{
    Json {
        shown: tree.shown@,
        kind: match tree.kind {
            TreeKind::Null => JsonKind::Null,
            TreeKind::Bool(b) => JsonKind::Bool(b),
            TreeKind::Number(n) => JsonKind::Number(n@),
            TreeKind::Text(s) => JsonKind::Text(s@),
            TreeKind::List(items) => JsonKind::List(list_models(items@)),
            TreeKind::Object(entries) => JsonKind::Object(entry_models(entries@)),
        },
    }
}

/// The values that some trees stand for.
pub open spec fn list_models(items: Seq<JsonTree>) -> Seq<Json>
    decreases items,
{
    if items.len() == 0 {
        Seq::empty()
    } else {
        list_models(items.drop_last()).push(tree_model(items.last()))
    }
}

/// The entries that some entries of trees stand for.
pub open spec fn entry_models(entries: Seq<(String, JsonTree)>) -> Seq<(Seq<char>, Json)>
    decreases entries,
{
    if entries.len() == 0 {
        Seq::empty()
    } else {
        entry_models(entries.drop_last()).push(
            (entries.last().0@, tree_model(entries.last().1)),
        )
    }
}

impl View for JsonTree {
    type V = Json;

    open spec fn view(&self) -> Json {
        tree_model(*self)
    }
}

/// The values of a list are those of its elements.
pub proof fn lemma_list_models(items: Seq<JsonTree>)
    ensures
        list_models(items).len() == items.len(),
        forall|i: int| 0 <= i < items.len() ==> #[trigger] list_models(items)[i] == items[i]@,
    decreases items.len(),
{
    if items.len() > 0 {
        lemma_list_models(items.drop_last());
    }
}

/// The entries of an object are those of its elements.
pub proof fn lemma_entry_models(entries: Seq<(String, JsonTree)>)
    ensures
        entry_models(entries).len() == entries.len(),
        forall|i: int|
            0 <= i < entries.len() ==> #[trigger] entry_models(entries)[i] == (
                entries[i].0@,
                entries[i].1@,
            ),
    decreases entries.len(),
{
    if entries.len() > 0 {
        lemma_entry_models(entries.drop_last());
    }
}

#[verifier::external_type_specification]
#[verifier::external_body]
pub struct ExValue(serde_json::Value);

/// What a JSON value of `serde_json` holds.
pub uninterp spec fn json_of(value: serde_json::Value) -> Json;

/// What a text says as JSON, or why it says nothing.
pub uninterp spec fn json_in(s: Seq<char>) -> Result<Json, Seq<char>>;

/// The outermost layer of a JSON value.
pub enum JsonNode<'a> {
    Null,
    Bool(bool),
    Number(String),
    Text(String),
    List(Vec<&'a serde_json::Value>),
    Object(Vec<(String, &'a serde_json::Value)>),
}

impl<'a> JsonNode<'a> {
    /// What the value is that the layer is of.
    pub open spec fn kind(self) -> JsonKind {
        match self {
            JsonNode::Null => JsonKind::Null,
            JsonNode::Bool(b) => JsonKind::Bool(b),
            JsonNode::Number(n) => JsonKind::Number(n@),
            JsonNode::Text(s) => JsonKind::Text(s@),
            JsonNode::List(items) => JsonKind::List(
                items@.map_values(|v: &serde_json::Value| json_of(*v)),
            ),
            JsonNode::Object(entries) => JsonKind::Object(
                entries@.map_values(|e: (String, &serde_json::Value)| (e.0@, json_of(*e.1))),
            ),
        }
    }
}

/// The variants of `serde_json::Value`: each hands out what it holds, an array
/// its elements and an object its entries, a number as `Number` prints it.
#[verifier::external_body]
fn peel<'a>(value: &'a serde_json::Value) -> (node: JsonNode<'a>)
    ensures
        node.kind() == json_of(*value).kind,
{
    match value {
        serde_json::Value::Null => JsonNode::Null,
        serde_json::Value::Bool(b) => JsonNode::Bool(*b),
        serde_json::Value::Number(n) => JsonNode::Number(n.to_string()),
        serde_json::Value::String(s) => JsonNode::Text(s.clone()),
        serde_json::Value::Array(items) => JsonNode::List(items.iter().collect()),
        serde_json::Value::Object(map) => JsonNode::Object(map.iter().map(|(k, v)| (k.clone(), v)).collect()),
    }
}

/// The `Display` form of `serde_json::Value`: it is part of what the value
/// holds.
#[verifier::external_body]
fn show(value: &serde_json::Value) -> (r: String)
    ensures
        r@ == json_of(*value).shown,
{
    value.to_string()
}

/// `serde_json::from_str` into a `Value`: the outcome has the given name, an
/// error by what it says.
#[verifier::external_body]
fn parse(s: &str) -> (r: Result<serde_json::Value, String>)
    ensures
        match r {
            Ok(value) => json_in(s@) == Ok::<Json, Seq<char>>(json_of(value)),
            Err(message) => json_in(s@) == Err::<Json, Seq<char>>(message@),
        },
{
    serde_json::from_str(s).map_err(|err| err.to_string())
}

impl JsonTree {
    /// The tree of a JSON value.
    pub fn of(value: &serde_json::Value) -> (r: Self)
        ensures
            r@ == json_of(*value),
        decreases json_of(*value),
    {
        let shown = show(value);
        let kind = match peel(value) {
            JsonNode::Null => TreeKind::Null,
            JsonNode::Bool(b) => TreeKind::Bool(b),
            JsonNode::Number(n) => TreeKind::Number(n),
            JsonNode::Text(s) => TreeKind::Text(s),
            JsonNode::List(items) => {
                let ghost all = items@.map_values(|v: &serde_json::Value| json_of(*v));
                let mut trees: Vec<JsonTree> = Vec::new();
                let mut i: usize = 0;
                while i < items.len()
                    invariant
                        i <= items.len(),
                        all == items@.map_values(|v: &serde_json::Value| json_of(*v)),
                        json_of(*value).kind == JsonKind::List(all),
                        list_models(trees@) == all.take(i as int),
                    decreases items.len() - i,
                {
                    proof {
                        assert(decreases_to!(json_of(*value) => json_of(*value).kind));
                        assert(decreases_to!(json_of(*value).kind => json_of(*value).kind->List_0));
                        assert(decreases_to!(all => all[i as int]));
                    }
                    let tree = JsonTree::of(items[i]);
                    proof {
                        assert(trees@.push(tree).drop_last() =~= trees@);
                        assert(all.take(i + 1) =~= all.take(i as int).push(all[i as int]));
                    }
                    trees.push(tree);
                    i = i + 1;
                }
                proof {
                    assert(all.take(i as int) =~= all);
                }
                TreeKind::List(trees)
            },
            JsonNode::Object(entries) => {
                let ghost all = entries@.map_values(
                    |e: (String, &serde_json::Value)| (e.0@, json_of(*e.1)),
                );
                let mut trees: Vec<(String, JsonTree)> = Vec::new();
                let mut i: usize = 0;
                while i < entries.len()
                    invariant
                        i <= entries.len(),
                        all == entries@.map_values(
                            |e: (String, &serde_json::Value)| (e.0@, json_of(*e.1)),
                        ),
                        json_of(*value).kind == JsonKind::Object(all),
                        entry_models(trees@) == all.take(i as int),
                    decreases entries.len() - i,
                {
                    proof {
                        assert(decreases_to!(json_of(*value) => json_of(*value).kind));
                        assert(decreases_to!(json_of(*value).kind => json_of(*value).kind->Object_0));
                        assert(decreases_to!(all => all[i as int]));
                        assert(decreases_to!(all[i as int] => all[i as int].1));
                    }
                    let tree = JsonTree::of(entries[i].1);
                    let entry = (entries[i].0.clone(), tree);
                    proof {
                        assert(trees@.push(entry).drop_last() =~= trees@);
                        assert(all.take(i + 1) =~= all.take(i as int).push(all[i as int]));
                    }
                    trees.push(entry);
                    i = i + 1;
                }
                proof {
                    assert(all.take(i as int) =~= all);
                }
                TreeKind::Object(trees)
            },
        };
        JsonTree { shown, kind }
    }

    /// The tree of the JSON value that a text says.
    pub fn parse(s: &str) -> (r: Result<Self, String>)
        ensures
            match r {
                Ok(tree) => json_in(s@) == Ok::<Json, Seq<char>>(tree@),
                Err(message) => json_in(s@) == Err::<Json, Seq<char>>(message@),
            },
    {
        match parse(s) {
            Ok(value) => Ok(JsonTree::of(&value)),
            Err(message) => Err(message),
        }
    }

    /// What an object has at a key.
    pub fn get(&self, key: &str) -> (r: Option<&JsonTree>)
        ensures
            match r {
                Some(found) => member(self@, key@) == Some(found@),
                None => member(self@, key@) is None,
            },
    {
        match &self.kind {
            TreeKind::Object(entries) => {
                let ghost all = entry_models(entries@);
                let mut i: usize = 0;
                proof {
                    lemma_entry_models(entries@);
                    assert(all.skip(0) =~= all);
                }
                while i < entries.len()
                    invariant
                        i <= entries.len(),
                        all.len() == entries@.len(),
                        forall|j: int|
                            0 <= j < entries@.len() ==> #[trigger] all[j] == (
                                entries@[j].0@,
                                entries@[j].1@,
                            ),
                        self@.kind == JsonKind::Object(all),
                        entry_at(all, key@) == entry_at(all.skip(i as int), key@),
                    decreases entries.len() - i,
                {
                    proof {
                        assert(all.skip(i as int)[0] == all[i as int]);
                        assert(all.skip(i as int).skip(1) =~= all.skip(i + 1));
                    }
                    if text::same(entries[i].0.as_str(), key) {
                        return Some(&entries[i].1);
                    }
                    i = i + 1;
                }
                None
            },
            _ => None,
        }
    }

    /// The text that the value is.
    pub fn as_text(&self) -> (r: Option<&String>)
        ensures
            match r {
                Some(s) => self@.kind == JsonKind::Text(s@),
                None => !(self@.kind is Text),
            },
    {
        match &self.kind {
            TreeKind::Text(s) => Some(s),
            _ => None,
        }
    }

    /// The numbers of the list that the value is, as they print. What is no
    /// number is passed over.
    pub fn numbers(&self) -> (r: Option<Vec<String>>)
        ensures
            texts_model(r) == numbers(self@),
    {
        match &self.kind {
            TreeKind::List(items) => {
                let mut r: Vec<String> = Vec::new();
                let ghost all = list_models(items@);
                let mut i: usize = 0;
                proof {
                    lemma_list_models(items@);
                    assert(all.take(0) =~= Seq::empty());
                    assert(text::texts(r@) =~= Seq::empty());
                }
                while i < items.len()
                    invariant
                        i <= items.len(),
                        all.len() == items@.len(),
                        forall|j: int| 0 <= j < items@.len() ==> #[trigger] all[j] == items@[j]@,
                        text::texts(r@) == numbers_in(all.take(i as int)),
                    decreases items.len() - i,
                {
                    let ghost before = text::texts(r@);
                    proof {
                        assert(all.take(i + 1).drop_last() =~= all.take(i as int));
                        assert(all.take(i + 1).last() == items@[i as int]@);
                    }
                    match &items[i].kind {
                        TreeKind::Number(n) => {
                            r.push(n.clone());
                            proof {
                                assert(text::texts(r@) =~= before.push(n@));
                            }
                        },
                        _ => {},
                    }
                    i = i + 1;
                }
                proof {
                    assert(all.take(i as int) =~= all);
                }
                Some(r)
            },
            _ => None,
        }
    }
}

/// The variant `String` of `serde_json::Value`: it holds the text.
#[verifier::external_body]
pub(crate) fn text_value(s: &str) -> (r: serde_json::Value)
    ensures
        json_of(r).kind == JsonKind::Text(s@),
{
    serde_json::Value::String(s.to_owned())
}

/// The variant `Bool` of `serde_json::Value`: it holds the truth value.
#[verifier::external_body]
pub(crate) fn bool_value(b: bool) -> (r: serde_json::Value)
    ensures
        json_of(r).kind == JsonKind::Bool(b),
{
    serde_json::Value::Bool(b)
}

/// The variant `Null` of `serde_json::Value`.
#[verifier::external_body]
pub(crate) fn null_value() -> (r: serde_json::Value)
    ensures
        json_of(r).kind == JsonKind::Null,
{
    serde_json::Value::Null
}

/// `serde_json::Value::from` for a `usize`: a number that prints in decimal.
#[verifier::external_body]
pub(crate) fn size_value(n: usize) -> (r: serde_json::Value)
    ensures
        json_of(r).kind == JsonKind::Number(text::decimal(n as nat)),
{
    serde_json::Value::from(n)
}

/// Values of `serde_json` by what they hold.
pub open spec fn values_of(items: Seq<serde_json::Value>) -> Seq<Json> {
    items.map_values(|v: serde_json::Value| json_of(v))
}

/// The variant `Array` of `serde_json::Value`: it holds the elements in their
/// order.
#[verifier::external_body]
pub(crate) fn list_value(items: Vec<serde_json::Value>) -> (r: serde_json::Value)
    ensures
        json_of(r).kind == JsonKind::List(values_of(items@)),
{
    serde_json::Value::Array(items)
}

/// Entries of `serde_json` by what they hold.
pub open spec fn entries_of(entries: Seq<(String, serde_json::Value)>) -> Seq<(Seq<char>, Json)> {
    entries.map_values(|e: (String, serde_json::Value)| (e.0@, json_of(e.1)))
}

/// The variant `Object` of `serde_json::Value` with a `serde_json::Map` that is
/// collected from entries with distinct keys: it has those entries and no
/// others.
#[verifier::external_body]
fn object_value(entries: Vec<(String, serde_json::Value)>) -> (r: serde_json::Value)
    requires
        textmap::distinct_keys(entries_of(entries@)),
    ensures
        json_of(r).kind is Object,
        forall|key: Seq<char>| #[trigger]
            member(json_of(r), key) == entry_at(entries_of(entries@), key),
{
    serde_json::Value::Object(entries.into_iter().collect())
}

/// The numbers of a list as they print; what is no number is passed over.
pub open spec fn numbers_in(items: Seq<Json>) -> Seq<Seq<char>>
    decreases items.len(),
{
    if items.len() == 0 {
        Seq::empty()
    } else {
        match items.last().kind {
            JsonKind::Number(n) => numbers_in(items.drop_last()).push(n),
            _ => numbers_in(items.drop_last()),
        }
    }
}

/// The numbers of a list, if the value is a list.
pub open spec fn numbers(json: Json) -> Option<Seq<Seq<char>>> {
    match json.kind {
        JsonKind::List(items) => Some(numbers_in(items)),
        _ => None,
    }
}

/// Some texts that may be there, as values.
pub open spec fn texts_model(v: Option<Vec<String>>) -> Option<Seq<Seq<char>>> {
    match v {
        Some(v) => Some(text::texts(v@)),
        None => None,
    }
}

/// The value of the first entry with a key.
pub open spec fn entry_at(entries: Seq<(Seq<char>, Json)>, key: Seq<char>) -> Option<Json>
    decreases entries.len(),
{
    if entries.len() == 0 {
        None
    } else if entries[0].0 == key {
        Some(entries[0].1)
    } else {
        entry_at(entries.skip(1), key)
    }
}

/// What an object has at a key.
pub open spec fn member(json: Json, key: Seq<char>) -> Option<Json> {
    match json.kind {
        JsonKind::Object(entries) => entry_at(entries, key),
        _ => None,
    }
}

/// Whether a value is an object that says one thing about each of some names,
/// and nothing else.
pub open spec fn says(object: Json, entries: Seq<(Seq<char>, JsonKind)>) -> bool {
    &&& object.kind is Object
    &&& forall|i: int|
        0 <= i < entries.len() ==> (member(object, (#[trigger] entries[i]).0) matches Some(value)
            && value.kind == entries[i].1)
    &&& forall|key: Seq<char>| #[trigger]
        member(object, key) is Some ==> exists|i: int|
            0 <= i < entries.len() && (#[trigger] entries[i]).0 == key
}

proof fn lemma_entry_at(entries: Seq<(Seq<char>, Json)>, key: Seq<char>)
    ensures
        entry_at(entries, key) is None ==> !textmap::has_key(entries, key),
        entry_at(entries, key) matches Some(value) ==> exists|i: int|
            0 <= i < entries.len() && (#[trigger] entries[i]).0 == key && entries[i].1 == value,
    decreases entries.len(),
{
    if entries.len() > 0 {
        let rest = entries.skip(1);
        if entries[0].0 != key {
            lemma_entry_at(rest, key);
            if entry_at(rest, key) is Some {
                let i = choose|i: int|
                    0 <= i < rest.len() && (#[trigger] rest[i]).0 == key && rest[i].1 == entry_at(
                        rest,
                        key,
                    )->0;
                assert(entries[i + 1] == rest[i]);
            }
            if textmap::has_key(entries, key) {
                let i = choose|i: int| 0 <= i < entries.len() && (#[trigger] entries[i]).0 == key;
                assert(rest[i - 1] == entries[i]);
            }
        }
    }
}

proof fn lemma_says(
    object: Json,
    given: Seq<(Seq<char>, Json)>,
    entries: Seq<(Seq<char>, JsonKind)>,
)
    requires
        object.kind is Object,
        forall|key: Seq<char>| #[trigger] member(object, key) == entry_at(given, key),
        given.len() == entries.len(),
        forall|i: int|
            0 <= i < given.len() ==> (#[trigger] given[i]).0 == entries[i].0 && given[i].1.kind
                == entries[i].1,
        textmap::distinct_keys(given),
    ensures
        says(object, entries),
{
    assert forall|i: int| 0 <= i < entries.len() implies (member(
        object,
        (#[trigger] entries[i]).0,
    ) matches Some(value) && value.kind == entries[i].1) by {
        let key = entries[i].0;
        assert(given[i].0 == key);
        assert(textmap::has_key(given, key));
        lemma_entry_at(given, key);
        let k = choose|k: int|
            0 <= k < given.len() && (#[trigger] given[k]).0 == key && given[k].1 == entry_at(
                given,
                key,
            )->0;
        assert(k == i);
    }
    assert forall|key: Seq<char>| #[trigger] member(object, key) is Some implies exists|i: int|
        0 <= i < entries.len() && (#[trigger] entries[i]).0 == key by {
        lemma_entry_at(given, key);
        let k = choose|k: int| 0 <= k < given.len() && (#[trigger] given[k]).0 == key;
        assert(entries[k].0 == key);
    }
}

/// What some entries of `serde_json` say.
pub open spec fn kinds_of(entries: Seq<(String, serde_json::Value)>) -> Seq<
    (Seq<char>, JsonKind),
> {
    entries.map_values(|e: (String, serde_json::Value)| (e.0@, json_of(e.1).kind))
}

/// The object with some entries that have distinct keys.
pub fn object(entries: Vec<(String, serde_json::Value)>) -> (r: serde_json::Value)
    requires
        textmap::distinct_keys(kinds_of(entries@)),
    ensures
        says(json_of(r), kinds_of(entries@)),
{
    let ghost given = entries_of(entries@);
    let ghost kinds = kinds_of(entries@);
    proof {
        assert forall|i: int, j: int| 0 <= i < j < given.len() implies (
        #[trigger] given[i]).0 != (#[trigger] given[j]).0 by {
            assert(kinds[i].0 != kinds[j].0);
        }
    }
    let r = object_value(entries);
    proof {
        lemma_says(json_of(r), given, kinds);
    }
    r
}

} // verus!
