//! What is loaded and what is saved.

use crate::error::CoreError;
use crate::memory::laws as memories;
use crate::memory::listing;
use crate::memory::listing::Selection;
use crate::memory::Stamp;
use crate::number::Reading;
use crate::rank;
use crate::snapshot;
use crate::text;
use crate::vector_store;
use crate::vector_store::{
    InMemoryVectorStore, RecordModel, StoreRequest, VectorStore, VectorStoreError,
};
use vstd::prelude::*;

verus! {

/// Records are loaded one after another: each is put in if its vector is as long as
/// that of the first, and passed over if it is not.
pub proof fn law_loading(records: Seq<RecordModel>, last: RecordModel)
    ensures
        snapshot::loaded(Seq::empty()) == Seq::<RecordModel>::empty(),
        ({
            let before = snapshot::loaded(records);
            let fits = before.len() == 0 || before[0].vector.len() == last.vector.len();
            &&& fits ==> snapshot::loaded(records.push(last)) == vector_store::with_record(
                before,
                last,
            )
            &&& !fits ==> snapshot::loaded(records.push(last)) == before
        }),
{
    assert(records.push(last).drop_last() =~= records);
}

/// The records that are picked are those with a mark, in the order of their ids.
pub proof fn law_picked(
    records: Map<Seq<char>, RecordModel>,
    ids: Seq<Seq<char>>,
    marks: Seq<bool>,
    id: Seq<char>,
    mark: bool,
)
    requires
        marks.len() == ids.len(),
    ensures
        snapshot::picked(records, Seq::empty(), Seq::empty()) == Seq::<RecordModel>::empty(),
        mark ==> snapshot::picked(records, ids.push(id), marks.push(mark)) == snapshot::picked(
            records,
            ids,
            marks,
        ).push(records[id]),
        !mark ==> snapshot::picked(records, ids.push(id), marks.push(mark)) == snapshot::picked(
            records,
            ids,
            marks,
        ),
{
    assert(ids.push(id).drop_last() =~= ids);
    assert(marks.push(mark).drop_last() =~= marks);
}

pub proof fn lemma_all_picked(
    records: Map<Seq<char>, RecordModel>,
    ids: Seq<Seq<char>>,
    marks: Seq<bool>,
)
    requires
        marks.len() == ids.len(),
        forall|i: int| 0 <= i < ids.len() ==> marks[i],
    ensures
        snapshot::picked(records, ids, marks) == ids.map_values(|id: Seq<char>| records[id]),
    decreases ids.len(),
{
    if ids.len() > 0 {
        lemma_all_picked(records, ids.drop_last(), marks.drop_last());
        assert(ids.drop_last().map_values(|id: Seq<char>| records[id]).push(records[ids.last()])
            =~= ids.map_values(|id: Seq<char>| records[id]));
    } else {
        assert(Seq::<RecordModel>::empty() =~= ids.map_values(|id: Seq<char>| records[id]));
    }
}

/// The records of a store in memory that are saved are those of all memories,
/// expired ones too, in the order of the store, each once; the records of entities
/// are not among them. A store with more records than a list can hold is left out.
pub proof fn law_saving<N: Fn(&str) -> Reading, D: Fn(&[u32], &[u32]) -> i64>(
    read: N,
    store: InMemoryVectorStore<D>,
    stamp: Stamp,
    out: Option<Seq<RecordModel>>,
)
    requires
        snapshot::may_save(read, store, stamp, out),
        store.order().len() <= usize::MAX,
    ensures
        out is Some,
        out->0 == store.order().filter(
            |id: Seq<char>| memories::is_memory(store.records()[id].payload),
        ).map_values(|id: Seq<char>| store.records()[id]),
{
    let records = store.records();
    let r = choose|r: Result<Vec<String>, CoreError>| #[trigger]
        listing::may_list_page(read, store, None, 0, usize::MAX, true, None, stamp, r) && match r {
            Ok(ids) => out matches Some(records) && snapshot::may_read_out(
                store,
                text::texts(ids@),
                records,
            ),
            Err(_) => out is None,
        };
    if r is Err {
        let err = r->Err_0;
        let cause = choose|cause: VectorStoreError| #[trigger]
            store.may_refuse(StoreRequest::List, cause) && err.reports_store(cause);
        assert(store.may_refuse(StoreRequest::List, cause));
    } else {
        let ids = text::texts(r->Ok_0@);
        let (unread, selection) = choose|unread: Set<Seq<char>>, selection: Selection|
            {
                &&& #[trigger] listing::may_list(
                    read,
                    store,
                    unread,
                    selection,
                    0,
                    usize::MAX as nat,
                    ids,
                )
                &&& selection.asks(None, true, stamp, None)
            };
        let order = vector_store::all_ids(store);
        vector_store::lemma_all_ids(store);
        let keep = |x: Seq<char>| listing::is_listed(read, records, unread, selection, x);
        let wanted = |id: Seq<char>| memories::is_memory(records[id].payload);
        assert forall|x: Seq<char>| !#[trigger] unread.contains(x) by {}
        assert forall|x: Seq<char>| #[trigger] keep(x) == wanted(x) by {}
        assert(keep =~= wanted);
        order.lemma_filter_len(keep);
        let kept = order.filter(keep);
        assert(rank::page(kept, 0, usize::MAX as nat) =~= kept);
        assert(ids == kept);
        let marks = choose|marks: Seq<bool>| #[trigger]
            snapshot::may_mark(store, ids, marks) && out->0 == snapshot::picked(
                records,
                ids,
                marks,
            );
        rank::laws::lemma_filtered(order, keep);
        assert forall|i: int| 0 <= i < ids.len() implies marks[i] by {
            assert(ids.contains(ids[i]));
            assert(records.contains_key(ids[i]));
            if !marks[i] {
                assert(snapshot::may_skip(store, ids[i]));
            }
        }
        lemma_all_picked(records, ids, marks);
    }
}

} // verus!
