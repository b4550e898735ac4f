//! What is recorded.

use super::{EntryModel, HistoryEvent};
use crate::history;
use vstd::prelude::*;

verus! {

/// Recording adds one entry at the end of the history that it is about, and
/// changes no other; what was never recorded has an empty history.
pub proof fn law_recording(
    logs: Map<Seq<char>, Seq<EntryModel>>,
    id: Seq<char>,
    event: HistoryEvent,
    content: Seq<char>,
    other: Seq<char>,
)
    ensures
        ({
            let after = history::with_entry(logs, id, event, content);
            &&& after.contains_key(id)
            &&& after[id].len() == history::log_at(logs, id).len() + 1
            &&& after[id].drop_last() == history::log_at(logs, id)
            &&& after[id].last().event == event
            &&& after[id].last().content == content
            &&& other != id ==> after.contains_key(other) == logs.contains_key(other)
            &&& other != id && logs.contains_key(other) ==> after[other] == logs[other]
        }),
        logs.contains_key(id) ==> history::log_at(logs, id) == logs[id],
        !logs.contains_key(id) ==> history::log_at(logs, id).len() == 0,
{
    let after = history::with_entry(logs, id, event, content);
    assert(after[id].drop_last() =~= history::log_at(logs, id));
}

} // verus!
