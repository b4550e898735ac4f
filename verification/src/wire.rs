//! Payloads as JSON: as the values that are sent and kept, and as their texts.

pub mod laws;

use crate::json;
use crate::json::{Json, JsonKind};
use crate::payload::Payload;
use crate::text;
use crate::textmap;
use vstd::prelude::*;

verus! {

/// Entries of a payload as JSON.
pub open spec fn entries_say(entries: Seq<(Seq<char>, Seq<char>)>) -> Seq<(Seq<char>, JsonKind)> {
    entries.map_values(|e: (Seq<char>, Seq<char>)| (e.0, JsonKind::Text(e.1)))
}

/// The object that a payload is.
pub fn payload_value(payload: &Payload) -> (r: serde_json::Value)
    ensures
        json::says(json::json_of(r), entries_say(payload.entries())),
        payload_in(json::json_of(r)) == Some(payload@),
{
    let n = payload.len();
    let ghost wanted = entries_say(payload.entries());
    let mut entries: Vec<(String, serde_json::Value)> = Vec::new();
    let mut i: usize = 0;
    proof {
        assert(json::kinds_of(entries@) =~= wanted.take(0));
    }
    while i < n
        invariant
            i <= n,
            n == payload.entries().len(),
            wanted == entries_say(payload.entries()),
            json::kinds_of(entries@) == wanted.take(i as int),
        decreases n - i,
    {
        let ghost before = json::kinds_of(entries@);
        entries.push(
            (payload.key_at(i).clone(), json::text_value(payload.value_at(i).as_str())),
        );
        proof {
            assert(json::kinds_of(entries@) =~= before.push(wanted[i as int]));
            assert(wanted.take(i + 1) =~= before.push(wanted[i as int]));
        }
        i = i + 1;
    }
    proof {
        assert(wanted.take(i as int) =~= wanted);
        assert forall|a: int, b: int| 0 <= a < b < wanted.len() implies (
        #[trigger] wanted[a]).0 != (#[trigger] wanted[b]).0 by {
            assert(payload.entries()[a].0 != payload.entries()[b].0);
        }
    }
    let r = json::object(entries);
    proof {
        law_payload_values_read_back(payload.entries(), json::json_of(r));
    }
    r
}

/// The payload that a value is: an object with a text at every key.
pub open spec fn payload_in(value: Json) -> Option<Map<Seq<char>, Seq<char>>> {
    if value.kind is Object && forall|key: Seq<char>|
        (#[trigger] json::member(value, key)) matches Some(member) ==> member.kind is Text {
        Some(
            Map::new(
                |key: Seq<char>| json::member(value, key) is Some,
                |key: Seq<char>| json::member(value, key)->0.kind->Text_0,
            ),
        )
    } else {
        None
    }
}

/// A payload comes back out of the object that it is.
pub proof fn law_payload_values_read_back(entries: Seq<(Seq<char>, Seq<char>)>, value: Json)
    requires
        textmap::distinct_keys(entries),
        json::says(value, entries_say(entries)),
    ensures
        payload_in(value) == Some(textmap::map_of(entries)),
{
    let said = entries_say(entries);
    let map = textmap::map_of(entries);
    assert forall|key: Seq<char>| (#[trigger] json::member(value, key)) is Some implies
        map.contains_key(key) && json::member(value, key)->0.kind == JsonKind::Text(map[key]) by {
        let i = choose|i: int| 0 <= i < said.len() && (#[trigger] said[i]).0 == key;
        assert(entries[i].0 == key);
        textmap::lemma_map_at(entries, i);
    }
    assert forall|key: Seq<char>| #[trigger] map.contains_key(key) implies json::member(
        value,
        key,
    ) is Some by {
        let i = choose|i: int| 0 <= i < entries.len() && (#[trigger] entries[i]).0 == key;
        assert(said[i].0 == key);
    }
    assert(payload_in(value)->0 =~= map);
}

/// What is said of a value that is no payload.
pub uninterp spec fn no_payload(value: Json) -> Seq<char>;

/// `serde_json::from_value` into a map of texts: it takes an object with a text
/// at every key, and hands the entries out in any order. Of any other value it
/// says what has the given name.
#[verifier::external_body]
fn read_value(value: serde_json::Value) -> (r: Result<Vec<(String, String)>, String>)
    ensures
        match r {
            Ok(pairs) => textmap::distinct_keys(text::pairs(pairs@)) && payload_in(
                json::json_of(value),
            ) == Some(textmap::map_of(text::pairs(pairs@))),
            Err(message) => payload_in(json::json_of(value)) is None && message@ == no_payload(
                json::json_of(value),
            ),
        },
{
    serde_json::from_value::<std::collections::HashMap<String, String>>(value)
        .map(|map| map.into_iter().collect())
        .map_err(|err| err.to_string())
}

/// The payload that a value is, or what is said of one that is none.
pub fn payload_of_value(value: serde_json::Value) -> (r: Result<Payload, String>)
    ensures
        match r {
            Ok(payload) => payload_in(json::json_of(value)) == Some(payload@),
            Err(message) => payload_in(json::json_of(value)) is None && message@ == no_payload(
                json::json_of(value),
            ),
        },
{
    match read_value(value) {
        Ok(pairs) => Ok(Payload::from_pairs(pairs)),
        Err(message) => Err(message),
    }
}

/// The payload that a text says as JSON, or why it says none.
pub uninterp spec fn payload_said(s: Seq<char>) -> Result<
    Map<Seq<char>, Seq<char>>,
    Seq<char>,
>;

/// `serde_json::from_str` into a map of texts: the outcome has the given name,
/// an error by what it says. The entries come in any order.
#[verifier::external_body]
fn read_text(s: &str) -> (r: Result<Vec<(String, String)>, String>)
    ensures
        match r {
            Ok(pairs) => textmap::distinct_keys(text::pairs(pairs@)) && payload_said(s@) == Ok::<
                Map<Seq<char>, Seq<char>>,
                Seq<char>,
            >(textmap::map_of(text::pairs(pairs@))),
            Err(message) => payload_said(s@) == Err::<Map<Seq<char>, Seq<char>>, Seq<char>>(
                message@,
            ),
        },
{
    serde_json::from_str::<std::collections::HashMap<String, String>>(s)
        .map(|map| map.into_iter().collect())
        .map_err(|err| err.to_string())
}

/// `serde_json::to_string` of a map of texts: it writes an object from which
/// `serde_json::from_str` reads the map back. In which order the entries stand
/// in the text is not said: it may differ from one call to the next.
#[verifier::external_body]
fn write_text(pairs: Vec<(String, String)>) -> (r: Result<String, String>)
    requires
        textmap::distinct_keys(text::pairs(pairs@)),
    ensures
        r is Ok,
        payload_said(r->Ok_0@) is Ok,
        payload_said(r->Ok_0@)->Ok_0 == textmap::map_of(text::pairs(pairs@)),
{
    let map: std::collections::HashMap<String, String> = pairs.into_iter().collect();
    serde_json::to_string(&map).map_err(|err| err.to_string())
}

/// The payload that a text says as JSON, or why it says none.
pub fn payload_of_text(s: &str) -> (r: Result<Payload, String>)
    ensures
        match r {
            Ok(payload) => payload_said(s@) == Ok::<Map<Seq<char>, Seq<char>>, Seq<char>>(payload@),
            Err(message) => payload_said(s@) == Err::<Map<Seq<char>, Seq<char>>, Seq<char>>(
                message@,
            ),
        },
{
    match read_text(s) {
        Ok(pairs) => Ok(Payload::from_pairs(pairs)),
        Err(message) => Err(message),
    }
}

/// A text that says a payload as JSON.
pub fn payload_text(payload: &Payload) -> (r: Result<String, String>)
    ensures
        r matches Ok(s) && payload_said(s@) == Ok::<Map<Seq<char>, Seq<char>>, Seq<char>>(payload@),
{
    write_text(payload.to_pairs())
}

} // verus!
