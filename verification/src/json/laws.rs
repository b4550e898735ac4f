//! What JSON values say.

use super::{Json, JsonKind, JsonTree, TreeKind};
use crate::json;
use vstd::prelude::*;

verus! {

/// Whether an object has something of a kind at a key.
pub open spec fn has(object: Json, key: Seq<char>, kind: JsonKind) -> bool {
    json::member(object, key) is Some && json::member(object, key)->0.kind == kind
}

/// An object has at a key what its first entry with the key holds, and nothing
/// where no entry has the key; what is no object has nothing.
pub proof fn law_members(
    object: Json,
    key: Seq<char>,
    value: Json,
    other: Seq<char>,
    rest: Seq<(Seq<char>, Json)>,
)
    ensures
        object.kind == JsonKind::Object(seq![(key, value)] + rest) ==> json::member(object, key)
            == Some(value),
        object.kind == JsonKind::Object(seq![(key, value)] + rest) && other != key ==> json::member(
            object,
            other,
        ) == json::entry_at(rest, other),
        json::entry_at(Seq::empty(), other) is None,
        !(object.kind is Object) ==> json::member(object, key) is None,
{
    let entries = seq![(key, value)] + rest;
    assert(entries.skip(1) =~= rest);
    assert(entries[0] == (key, value));
}

/// What says some things says each of them, and nothing under any other name.
pub proof fn law_says(object: Json, entries: Seq<(Seq<char>, JsonKind)>, i: int, key: Seq<char>)
    requires
        json::says(object, entries),
    ensures
        object.kind is Object,
        0 <= i < entries.len() ==> has(object, entries[i].0, entries[i].1),
        json::member(object, key) is Some ==> exists|j: int|
            0 <= j < entries.len() && (#[trigger] entries[j]).0 == key,
{
    if 0 <= i < entries.len() {
        assert(entries[i] == entries[i]);
    }
}

/// The numbers of a list are those of its elements that are numbers, in order; what
/// is no list has none.
pub proof fn law_numbers(items: Seq<Json>, last: Json, value: Json)
    ensures
        json::numbers_in(Seq::empty()) == Seq::<Seq<char>>::empty(),
        last.kind is Number ==> json::numbers_in(items.push(last)) == json::numbers_in(items).push(
            last.kind->Number_0,
        ),
        !(last.kind is Number) ==> json::numbers_in(items.push(last)) == json::numbers_in(items),
        value.kind is List ==> json::numbers(value) == Some(json::numbers_in(value.kind->List_0)),
        !(value.kind is List) ==> json::numbers(value) is None,
{
    assert(items.push(last).drop_last() =~= items);
}

/// A tree stands for the value that it has the shape of.
pub proof fn law_trees(shown: String, s: String, b: bool, items: Vec<JsonTree>)
    ensures
        (JsonTree { shown, kind: TreeKind::Null })@.kind is Null,
        (JsonTree { shown, kind: TreeKind::Bool(b) })@.kind == JsonKind::Bool(b),
        (JsonTree { shown, kind: TreeKind::Number(s) })@.kind == JsonKind::Number(s@),
        (JsonTree { shown, kind: TreeKind::Text(s) })@.kind == JsonKind::Text(s@),
        (JsonTree { shown, kind: TreeKind::List(items) })@.kind is List,
        (JsonTree { shown, kind: TreeKind::List(items) })@.kind->List_0.len() == items@.len(),
        forall|i: int|
            0 <= i < items@.len() ==> (JsonTree {
                shown,
                kind: TreeKind::List(items),
            })@.kind->List_0[i] == (#[trigger] items@[i])@,
{
    json::lemma_list_models(items@);
}

} // verus!
