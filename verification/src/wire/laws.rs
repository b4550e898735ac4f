//! What payloads are as JSON.

use crate::json;
use crate::json::{Json, JsonKind};
use crate::wire;
use vstd::prelude::*;

verus! {

/// A value is a payload exactly where it is an object with texts alone, and it has
/// the texts of the object.
pub proof fn law_payloads(value: Json, key: Seq<char>)
    ensures
        !(value.kind is Object) ==> wire::payload_in(value) is None,
        json::member(value, key) is Some && !(json::member(value, key)->0.kind is Text)
            ==> wire::payload_in(value) is None,
        value.kind is Object && (forall|k: Seq<char>|
            (#[trigger] json::member(value, k)) is Some ==> json::member(value, k)->0.kind is Text)
            ==> wire::payload_in(value) is Some,
        wire::payload_in(value) is Some ==> {
            let payload = wire::payload_in(value)->0;
            &&& payload.contains_key(key) <==> json::member(value, key) is Some
            &&& payload.contains_key(key) ==> json::member(value, key)->0.kind == JsonKind::Text(
                payload[key],
            )
        },
{
    if value.kind is Object && (forall|k: Seq<char>|
        (#[trigger] json::member(value, k)) is Some ==> json::member(value, k)->0.kind is Text) {
        assert forall|k: Seq<char>|
            (#[trigger] json::member(value, k)) matches Some(member) implies (json::member(value, k)
            ->0.kind is Text) by {}
    }
}

/// The entries of a payload as JSON are the same, with texts.
pub proof fn law_entries(entries: Seq<(Seq<char>, Seq<char>)>, i: int)
    ensures
        wire::entries_say(entries).len() == entries.len(),
        0 <= i < entries.len() ==> wire::entries_say(entries)[i].0 == entries[i].0
            && wire::entries_say(entries)[i].1 == JsonKind::Text(entries[i].1),
{
}

} // verus!
