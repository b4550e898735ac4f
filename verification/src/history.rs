//! What happened to each memory.

pub mod laws;

use crate::rank;
use crate::textmap;
use crate::textmap::TextMap;
use vstd::prelude::*;

verus! {

/// What happened to a memory.
#[derive(Clone, Copy, Debug, PartialEq, Eq, Structural)]
pub enum HistoryEvent {
    Added,
    Deleted,
}

/// What happened to a memory, and what it said then.
#[derive(Debug, PartialEq, Eq)]
pub struct HistoryEntry {
    pub event: HistoryEvent,
    pub content: String,
}

/// An entry of a history as a value.
#[verifier::ext_equal]
pub struct EntryModel {
    pub event: HistoryEvent,
    pub content: Seq<char>,
}

impl View for HistoryEntry {
    type V = EntryModel;

    open spec fn view(&self) -> EntryModel {
        EntryModel { event: self.event, content: self.content@ }
    }
}

impl Clone for HistoryEntry {
    fn clone(&self) -> (r: Self)
        ensures
            r@ == self@,
    {
        HistoryEntry { event: self.event, content: self.content.clone() }
    }
}

/// The histories of all memories, by their ids.
#[derive(Debug)]
pub struct History {
    logs: TextMap<Vec<HistoryEntry>>,
}

/// The history of a memory: empty if nothing was ever recorded of it.
pub open spec fn log_at(logs: Map<Seq<char>, Seq<EntryModel>>, id: Seq<char>) -> Seq<EntryModel> {
    if logs.contains_key(id) {
        logs[id]
    } else {
        Seq::empty()
    }
}

/// Histories with one more entry at the end of one of them.
pub open spec fn with_entry(
    logs: Map<Seq<char>, Seq<EntryModel>>,
    id: Seq<char>,
    event: HistoryEvent,
    content: Seq<char>,
) -> Map<Seq<char>, Seq<EntryModel>> {
    logs.insert(id, log_at(logs, id).push(EntryModel { event, content }))
}

impl View for History {
    type V = Map<Seq<char>, Seq<EntryModel>>;

    closed spec fn view(&self) -> Map<Seq<char>, Seq<EntryModel>> {
        self.logs@.map_values(|log: Vec<HistoryEntry>| rank::views(log@))
    }
}

/// A copy of some entries.
fn copy_entries(entries: &Vec<HistoryEntry>) -> (r: Vec<HistoryEntry>)
    ensures
        rank::views(r@) == rank::views(entries@),
{
    entry_page(entries, 0, entries.len())
}

/// The page of some entries.
pub fn entry_page(entries: &Vec<HistoryEntry>, offset: usize, limit: usize) -> (r: Vec<HistoryEntry>)
    ensures
        rank::views(r@) == rank::page(rank::views(entries@), offset as nat, limit as nat),
        offset == 0 && limit >= entries@.len() ==> rank::views(r@) == rank::views(entries@),
{
    let from: usize = if offset < entries.len() {
        offset
    } else {
        entries.len()
    };
    let to: usize = if limit < entries.len() - from {
        from + limit
    } else {
        entries.len()
    };
    let ghost all = rank::views(entries@);
    let mut r: Vec<HistoryEntry> = Vec::new();
    let mut i: usize = from;
    proof {
        assert(rank::views(r@) =~= all.subrange(from as int, from as int));
    }
    while i < to
        invariant
            from <= i <= to <= entries.len(),
            all == rank::views(entries@),
            rank::views(r@) == all.subrange(from as int, i as int),
        decreases to - i,
    {
        let ghost before = rank::views(r@);
        r.push(entries[i].clone());
        proof {
            assert(rank::views(r@) =~= before.push(all[i as int]));
            assert(all.subrange(from as int, i + 1) =~= before.push(all[i as int]));
        }
        i = i + 1;
    }
    proof {
        if offset == 0 && limit >= entries@.len() {
            assert(all.subrange(0, all.len() as int) =~= all);
        }
    }
    r
}

impl History {
    /// No histories.
    pub fn new() -> (r: Self)
        ensures
            r@ == Map::<Seq<char>, Seq<EntryModel>>::empty(),
    {
        let r = History { logs: TextMap::new() };
        proof {
            assert(r@ =~= Map::empty());
        }
        r
    }

    /// Adds an entry at the end of a memory's history.
    pub fn record(&mut self, id: &str, event: HistoryEvent, content: &str)
        ensures
            final(self)@ == with_entry(old(self)@, id@, event, content@),
    {
        let ghost before = self@;
        let mut log: Vec<HistoryEntry> = match self.logs.remove(id) {
            Some(log) => log,
            None => Vec::new(),
        };
        let ghost earlier = rank::views(log@);
        proof {
            assert(earlier =~= log_at(before, id@));
        }
        log.push(HistoryEntry { event, content: content.to_owned() });
        proof {
            assert(rank::views(log@) =~= earlier.push(EntryModel { event, content: content@ }));
        }
        self.logs.insert(id.to_owned(), log);
        proof {
            assert(self@ =~= with_entry(before, id@, event, content@));
        }
    }

    /// Puts a memory's history in place of what was recorded of it.
    pub fn set(&mut self, id: String, entries: Vec<HistoryEntry>)
        ensures
            final(self)@ == old(self)@.insert(id@, rank::views(entries@)),
    {
        let ghost before = self@;
        self.logs.insert(id, entries);
        proof {
            assert(self@ =~= before.insert(id@, rank::views(entries@)));
        }
    }

    /// A page of a memory's history.
    pub fn entries(&self, id: &str, offset: usize, limit: usize) -> (r: Vec<HistoryEntry>)
        ensures
            rank::views(r@) == rank::page(log_at(self@, id@), offset as nat, limit as nat),
    {
        match self.logs.get(id) {
            Some(log) => entry_page(log, offset, limit),
            None => {
                let r: Vec<HistoryEntry> = Vec::new();
                proof {
                    assert(rank::views(r@) =~= rank::page(
                        log_at(self@, id@),
                        offset as nat,
                        limit as nat,
                    ));
                }
                r
            },
        }
    }

    /// The number of memories with a history.
    pub fn len(&self) -> (n: usize)
        ensures
            n == self.ids().len(),
    {
        self.logs.len()
    }

    /// The ids of the memories with a history.
    pub closed spec fn ids(&self) -> Seq<Seq<char>> {
        self.logs.entries().map_values(|e: (Seq<char>, Vec<HistoryEntry>)| e.0)
    }

    /// The id of a memory with a history, and its history.
    pub fn log(&self, i: usize) -> (r: (&String, &Vec<HistoryEntry>))
        requires
            i < self.ids().len(),
        ensures
            r.0@ == self.ids()[i as int],
            self@.contains_key(r.0@),
            self@[r.0@] == rank::views(r.1@),
    {
        let n = self.logs.len();
        proof {
            textmap::lemma_map_at(self.logs.entries(), i as int);
        }
        (self.logs.key_at(i), self.logs.value_at(i))
    }
}

impl Clone for History {
    fn clone(&self) -> (r: Self)
        ensures
            r@ == self@,
    {
        let n = self.logs.len();
        let ghost entries = self.logs.entries();
        let mut r = History::new();
        let mut i: usize = 0;
        while i < n
            invariant
                i <= n,
                n == entries.len(),
                entries == self.logs.entries(),
                textmap::distinct_keys(entries),
                forall|id: Seq<char>| #[trigger]
                    r@.contains_key(id) <==> exists|j: int| 0 <= j < i && (#[trigger] entries[j]).0 == id,
                forall|j: int|
                    0 <= j < i ==> r@[(#[trigger] entries[j]).0] == rank::views(entries[j].1@),
            decreases n - i,
        {
            let ghost before = r@;
            r.set(self.logs.key_at(i).clone(), copy_entries(self.logs.value_at(i)));
            proof {
                assert forall|id: Seq<char>| #[trigger] r@.contains_key(id) <==> exists|j: int|
                    0 <= j < i + 1 && (#[trigger] entries[j]).0 == id by {
                    if before.contains_key(id) {
                        let j = choose|j: int| 0 <= j < i && (#[trigger] entries[j]).0 == id;
                        assert(entries[j].0 == id);
                    }
                    assert(entries[i as int].0 == entries[i as int].0);
                }
                assert forall|j: int| 0 <= j < i + 1 implies r@[(#[trigger] entries[j]).0]
                    == rank::views(entries[j].1@) by {
                    if j < i {
                        assert(entries[j].0 != entries[i as int].0);
                    }
                }
            }
            i = i + 1;
        }
        proof {
            assert forall|id: Seq<char>| r@.contains_key(id) == self@.contains_key(id) by {
                assert(self@.contains_key(id) == textmap::has_key(entries, id));
            }
            assert forall|id: Seq<char>| r@.contains_key(id) implies r@[id] == self@[id] by {
                let j = choose|j: int| 0 <= j < i && (#[trigger] entries[j]).0 == id;
                textmap::lemma_map_at(entries, j);
            }
            assert(r@ =~= self@);
        }
        r
    }
}

} // verus!
