//! The records of a memory as they are written to a file and read back.

pub mod laws;

use crate::embedding::EmbeddingProvider;
use crate::error::CoreError;
use crate::filter;
use crate::llm::LlmProvider;
use crate::memory::listing;
use crate::memory::{Memory, Stamp};
use crate::number::Reading;
use crate::rank;
use crate::text;
use crate::vector_store;
use crate::vector_store::{
    InMemoryVectorStore, RecordModel, StoreRequest, VectorRecord, VectorStore, VectorStoreError,
};
use vstd::prelude::*;

verus! {

/// What a store holds after some records were put in one after the other. One
/// whose vector has another length than that of the first is passed over.
pub open spec fn loaded(records: Seq<RecordModel>) -> Seq<RecordModel>
    decreases records.len(),
{
    if records.len() == 0 {
        Seq::empty()
    } else {
        let before = loaded(records.drop_last());
        if before.len() == 0 || before[0].vector.len() == records.last().vector.len() {
            vector_store::with_record(before, records.last())
        } else {
            before
        }
    }
}

/// A store with some records, put in one after the other. A record that the
/// store refuses is passed over.
pub fn load_store<D: Fn(&[u32], &[u32]) -> i64>(
    distance: D,
    records: Vec<VectorRecord>,
) -> (r: InMemoryVectorStore<D>)
    requires
        vector_store::measures(distance),
    ensures
        r.metric() == distance,
        r.listed() == loaded(rank::views(records@)),
        vector_store::lists_records(r.listed(), r.records()),
{
    let ghost all = rank::views(records@);
    let mut store = InMemoryVectorStore::new(distance);
    let mut i: usize = 0;
    proof {
        assert(all.take(0) =~= Seq::empty());
    }
    while i < records.len()
        invariant
            i <= records.len(),
            all == rank::views(records@),
            store.metric() == distance,
            store.listed() == loaded(all.take(i as int)),
            vector_store::lists_records(store.listed(), store.records()),
        decreases records.len() - i,
    {
        proof {
            assert(all.take(i + 1).drop_last() =~= all.take(i as int));
            assert(all.take(i + 1).last() == records@[i as int]@);
        }
        match store.insert(records[i].clone()) {
            Ok(()) => {},
            Err(_) => {},
        }
        i = i + 1;
    }
    proof {
        assert(all.take(i as int) =~= all);
    }
    store
}

/// Records with distinct ids and vectors of one length come back as they were
/// saved, in their order.
pub proof fn law_snapshot_round_trip(records: Seq<RecordModel>)
    requires
        forall|i: int, j: int|
            0 <= i < j < records.len() ==> (#[trigger] records[i]).id != (
            #[trigger] records[j]).id,
        forall|i: int, j: int|
            0 <= i < records.len() && 0 <= j < records.len() ==> (
            #[trigger] records[i]).vector.len() == (#[trigger] records[j]).vector.len(),
    ensures
        loaded(records) == records,
    decreases records.len(),
{
    if records.len() > 0 {
        let before = records.drop_last();
        assert forall|i: int, j: int| 0 <= i < j < before.len() implies (
        #[trigger] before[i]).id != (#[trigger] before[j]).id by {
            assert(records[i].id != records[j].id);
        }
        assert forall|i: int, j: int|
            0 <= i < before.len() && 0 <= j < before.len() implies (
        #[trigger] before[i]).vector.len() == (#[trigger] before[j]).vector.len() by {
            assert(records[i].vector.len() == records[j].vector.len());
        }
        law_snapshot_round_trip(before);
        let last = records[records.len() - 1];
        if vector_store::has_id(before, last.id) {
            let i = choose|i: int| 0 <= i < before.len() && (#[trigger] before[i]).id == last.id;
            assert(records[i].id != records[records.len() - 1].id);
        }
        if before.len() > 0 {
            assert(records[0].vector.len() == last.vector.len());
        }
        assert(records =~= before.push(last));
    } else {
        assert(records =~= Seq::empty());
    }
}

/// Whether a record may be passed over: it is not there, or the store refuses to
/// hand it out.
pub open spec fn may_skip<V: VectorStore>(store: V, id: Seq<char>) -> bool {
    ||| !store.records().contains_key(id)
    ||| exists|err: VectorStoreError| #[trigger] store.may_refuse(StoreRequest::Get(id), err)
}

/// Those of some records that are marked.
pub open spec fn picked(
    records: Map<Seq<char>, RecordModel>,
    ids: Seq<Seq<char>>,
    marks: Seq<bool>,
) -> Seq<RecordModel>
    decreases ids.len(),
{
    if ids.len() == 0 {
        Seq::empty()
    } else {
        let before = picked(records, ids.drop_last(), marks.drop_last());
        if marks.last() {
            before.push(records[ids.last()])
        } else {
            before
        }
    }
}

/// Whether marks tell which records were handed out.
pub open spec fn may_mark<V: VectorStore>(
    store: V,
    ids: Seq<Seq<char>>,
    marks: Seq<bool>,
) -> bool {
    &&& marks.len() == ids.len()
    &&& forall|i: int|
        0 <= i < ids.len() ==> if marks[i] {
            store.records().contains_key(#[trigger] ids[i])
        } else {
            may_skip(store, ids[i])
        }
}

/// Whether these records may be handed out for some ids: each that can be read,
/// in the order of the ids.
pub open spec fn may_read_out<V: VectorStore>(
    store: V,
    ids: Seq<Seq<char>>,
    out: Seq<RecordModel>,
) -> bool {
    exists|marks: Seq<bool>| #[trigger]
        may_mark(store, ids, marks) && out == picked(store.records(), ids, marks)
}

/// The records with some ids; one that cannot be read is passed over.
pub fn read_records<L: LlmProvider, E: EmbeddingProvider, V: VectorStore>(
    memory: &Memory<L, E, V>,
    ids: &Vec<String>,
) -> (r: Vec<VectorRecord>)
    ensures
        may_read_out(memory.store(), text::texts(ids@), rank::views(r@)),
{
    let ghost all = text::texts(ids@);
    let ghost store = memory.store();
    let ghost mut marks: Seq<bool> = Seq::empty();
    let mut r: Vec<VectorRecord> = Vec::new();
    let mut i: usize = 0;
    proof {
        assert(rank::views(r@) =~= picked(store.records(), all.take(0), marks));
    }
    while i < ids.len()
        invariant
            i <= ids.len(),
            all == text::texts(ids@),
            store == memory.store(),
            may_mark(store, all.take(i as int), marks),
            rank::views(r@) == picked(store.records(), all.take(i as int), marks),
        decreases ids.len() - i,
    {
        let ghost before = rank::views(r@);
        let ghost earlier = marks;
        let ghost id = all[i as int];
        proof {
            assert(all.take(i + 1).drop_last() =~= all.take(i as int));
            assert(all.take(i + 1).last() == id);
            assert(id == ids@[i as int]@);
        }
        let found = memory.get(ids[i].as_str());
        let ghost mut mark: bool = false;
        match found {
            Ok(Some(record)) => {
                proof {
                    mark = true;
                }
                r.push(record);
                proof {
                    assert(rank::views(r@) =~= before.push(store.records()[id]));
                }
            },
            Ok(None) => {},
            Err(err) => {
                proof {
                    let cause = choose|cause: VectorStoreError| #[trigger]
                        store.may_refuse(StoreRequest::Get(id), cause) && err.reports_store(cause);
                    assert(store.may_refuse(StoreRequest::Get(id), cause));
                }
            },
        }
        proof {
            marks = marks.push(mark);
            assert(marks.drop_last() =~= earlier);
            assert forall|j: int| 0 <= j < i + 1 implies if marks[j] {
                store.records().contains_key(#[trigger] all.take(i + 1)[j])
            } else {
                may_skip(store, all.take(i + 1)[j])
            } by {
                if j < i {
                    assert(all.take(i as int)[j] == all.take(i + 1)[j]);
                    assert(marks[j] == earlier[j]);
                }
            }
        }
        i = i + 1;
    }
    proof {
        assert(all.take(i as int) =~= all);
    }
    r
}

/// Whether these records may be saved: those of all memories that are listed and
/// can be read. A list that fails gives none.
pub open spec fn may_save<N: Fn(&str) -> Reading, V: VectorStore>(
    read: N,
    store: V,
    stamp: Stamp,
    out: Option<Seq<RecordModel>>,
) -> bool {
    exists|r: Result<Vec<String>, CoreError>| #[trigger]
        listing::may_list_page(read, store, None, 0, usize::MAX, true, None, stamp, r) && match r {
            Ok(ids) => out matches Some(records) && may_read_out(
                store,
                text::texts(ids@),
                records,
            ),
            Err(_) => out is None,
        }
}

/// Records that may be there, as values.
pub open spec fn records_model(records: Option<Vec<VectorRecord>>) -> Option<Seq<RecordModel>> {
    match records {
        Some(records) => Some(rank::views(records@)),
        None => None,
    }
}

/// The records to save: those of all memories, expired ones too. If they cannot
/// be listed there is nothing to save.
pub fn records_to_save<
    L: LlmProvider,
    E: EmbeddingProvider,
    V: VectorStore,
    N: Fn(&str) -> Reading,
>(memory: &Memory<L, E, V>, stamp: Stamp, read: &N) -> (r: Option<Vec<VectorRecord>>)
    requires
        filter::reads(*read),
    ensures
        may_save(*read, memory.store(), stamp, records_model(r)),
{
    let outcome = memory.list_all(0, usize::MAX, true, None, stamp, read);
    proof {
        assert(listing::may_list_page(
            *read,
            memory.store(),
            None,
            0,
            usize::MAX,
            true,
            None,
            stamp,
            outcome,
        ));
    }
    match &outcome {
        Ok(ids) => {
            let records = read_records(memory, ids);
            Some(records)
        },
        Err(_) => None,
    }
}

} // verus!
