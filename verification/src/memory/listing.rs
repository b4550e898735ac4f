//! Listing memories, deleting many of them, and counting whom they belong to.

use super::adding::State;
use super::{has_scope_id, is_visible, Memory, Stamp, SCOPE_REQUIRED};
use crate::calendar;
use crate::embedding::EmbeddingProvider;
use crate::error::CoreError;
use crate::filter;
use crate::filter::{ExprModel, FilterExpr};
use crate::history;
use crate::history::{EntryModel, HistoryEvent};
use crate::llm::LlmProvider;
use crate::number::Reading;
use crate::payload;
use crate::payload::Payload;
use crate::rank;
use crate::rank::Ranked;
use crate::text;
use crate::vector_store;
use crate::vector_store::{
    InMemoryVectorStore, RecordModel, StoreRequest, VectorStore, VectorStoreError,
};
use vstd::prelude::*;

verus! {

/// What is listed.
#[verifier::ext_equal]
pub struct Selection {
    pub scope: Option<Map<Seq<char>, Seq<char>>>,
    pub show_expired: bool,
    pub today: Seq<char>,
    pub filter: Option<ExprModel>,
}

impl Selection {
    /// Whether this is what is listed on the day of a stamp.
    pub open spec fn asks(
        self,
        scope: Option<Map<Seq<char>, Seq<char>>>,
        show_expired: bool,
        stamp: Stamp,
        filter: Option<ExprModel>,
    ) -> bool {
        &&& self.scope == scope
        &&& self.show_expired == show_expired
        &&& stamp.is_today(self.today)
        &&& self.filter == filter
    }
}

/// Whether the record with an id is listed: it could not be read, or it is
/// shown.
pub open spec fn is_listed<N: Fn(&str) -> Reading>(
    read: N,
    records: Map<Seq<char>, RecordModel>,
    unread: Set<Seq<char>>,
    selection: Selection,
    id: Seq<char>,
) -> bool {
    unread.contains(id) || super::visible(
        read,
        records[id].payload,
        selection.scope,
        selection.show_expired,
        selection.today,
        selection.filter,
    )
}

/// The ids that are listed, in the order of the store.
pub open spec fn listed_ids<N: Fn(&str) -> Reading>(
    read: N,
    records: Map<Seq<char>, RecordModel>,
    order: Seq<Seq<char>>,
    unread: Set<Seq<char>>,
    selection: Selection,
) -> Seq<Seq<char>> {
    order.filter(|id: Seq<char>| is_listed(read, records, unread, selection, id))
}

/// Whether each of some records may fail to be read.
pub open spec fn unreadable<V: VectorStore>(store: V, unread: Set<Seq<char>>) -> bool {
    forall|id: Seq<char>| #[trigger]
        unread.contains(id) ==> exists|err: VectorStoreError| #[trigger]
            store.may_refuse(StoreRequest::Get(id), err)
}

/// Whether a list may come out: a page of what is selected on the day, along
/// with what could not be read.
pub open spec fn may_list<N: Fn(&str) -> Reading, V: VectorStore>(
    read: N,
    store: V,
    unread: Set<Seq<char>>,
    selection: Selection,
    offset: nat,
    limit: nat,
    ids: Seq<Seq<char>>,
) -> bool {
    &&& vector_store::orders_records(store)
    &&& unreadable(store, unread)
    &&& ids == rank::page(
        listed_ids(read, store.records(), vector_store::all_ids(store), unread, selection),
        offset,
        limit,
    )
}

/// Whether a list may come out on the day of a stamp.
pub open spec fn lists<N: Fn(&str) -> Reading, V: VectorStore>(
    read: N,
    store: V,
    scope: Option<Map<Seq<char>, Seq<char>>>,
    show_expired: bool,
    stamp: Stamp,
    filter: Option<ExprModel>,
    offset: nat,
    limit: nat,
    ids: Seq<Seq<char>>,
) -> bool {
    exists|unread: Set<Seq<char>>, selection: Selection|
        {
            &&& #[trigger] may_list(read, store, unread, selection, offset, limit, ids)
            &&& selection.asks(scope, show_expired, stamp, filter)
        }
}

/// Whether listing the memories in a scope may have an outcome. The scope must
/// name someone.
pub open spec fn may_list_scope<N: Fn(&str) -> Reading, V: VectorStore>(
    read: N,
    store: V,
    scope: Map<Seq<char>, Seq<char>>,
    offset: usize,
    limit: usize,
    show_expired: bool,
    filter: Option<ExprModel>,
    stamp: Stamp,
    r: Result<Vec<String>, CoreError>,
) -> bool {
    if !super::names_someone(scope) {
        r matches Err(err) && err.is_validation(SCOPE_REQUIRED@)
    } else {
        may_list_page(read, store, Some(scope), offset, limit, show_expired, filter, stamp, r)
    }
}

/// Whether listing memories may have an outcome.
pub open spec fn may_list_page<N: Fn(&str) -> Reading, V: VectorStore>(
    read: N,
    store: V,
    scope: Option<Map<Seq<char>, Seq<char>>>,
    offset: usize,
    limit: usize,
    show_expired: bool,
    filter: Option<ExprModel>,
    stamp: Stamp,
    r: Result<Vec<String>, CoreError>,
) -> bool {
    match r {
        Ok(ids) => lists(
            read,
            store,
            scope,
            show_expired,
            stamp,
            filter,
            offset as nat,
            limit as nat,
            text::texts(ids@),
        ),
        Err(err) => super::reports_refusal(store, StoreRequest::List, err),
    }
}

impl<L: LlmProvider, E: EmbeddingProvider, V: VectorStore> Memory<L, E, V> {
    fn list_ids<N: Fn(&str) -> Reading>(
        &self,
        scope: Option<&Payload>,
        offset: usize,
        limit: usize,
        show_expired: bool,
        filter: Option<&FilterExpr>,
        stamp: Stamp,
        read: &N,
    ) -> (r: Result<Vec<String>, CoreError>)
        requires
            filter::reads(*read),
        ensures
            match r {
                Ok(ids) => lists(
                    *read,
                    self.store(),
                    super::scope_model(scope),
                    show_expired,
                    stamp,
                    super::filter_model(filter),
                    offset as nat,
                    limit as nat,
                    text::texts(ids@),
                ),
                Err(err) => super::reports_refusal(self.store(), StoreRequest::List, err),
            },
    {
        let today = calendar::unix_seconds_to_ymd_string(stamp.seconds);
        let all = match self.vector_store.list(0, usize::MAX) {
            Ok(ids) => ids,
            Err(err) => {
                let report = CoreError::from(err);
                proof {
                    assert(report.reports_store(err));
                }
                return Err(report);
            },
        };
        let ghost order = vector_store::all_ids(self.vector_store);
        let ghost records = self.vector_store.records();
        let ghost selection = Selection {
            scope: super::scope_model(scope),
            show_expired,
            today: today@,
            filter: super::filter_model(filter),
        };
        proof {
            vector_store::lemma_all_ids(self.vector_store);
        }
        let ghost mut unread: Set<Seq<char>> = Set::empty();
        let mut kept: Vec<String> = Vec::new();
        let mut i: usize = 0;
        proof {
            reveal(Seq::filter);
            assert(text::texts(kept@) =~= listed_ids(*read, records, order.take(0), unread, selection));
        }
        while i < all.len()
            invariant
                i <= all.len(),
                filter::reads(*read),
                text::texts(all@) == order,
                order == vector_store::all_ids(self.vector_store),
                records == self.vector_store.records(),
                vector_store::orders_records(self.vector_store),
                vector_store::ids_of_records(order, records),
                selection == (Selection {
                    scope: super::scope_model(scope),
                    show_expired,
                    today: today@,
                    filter: super::filter_model(filter),
                }),
                unreadable(self.vector_store, unread),
                forall|id: Seq<char>| #[trigger] unread.contains(id) ==> order.take(i as int).contains(id),
                text::texts(kept@) == listed_ids(
                    *read,
                    records,
                    order.take(i as int),
                    unread,
                    selection,
                ),
            decreases all.len() - i,
        {
            let ghost id = order[i as int];
            let ghost before = order.take(i as int);
            let ghost kept_before = text::texts(kept@);
            let ghost unread_before = unread;
            proof {
                reveal(Seq::filter);
                assert(order.take(i + 1).drop_last() =~= before);
                assert(order.take(i + 1).last() == id);
                assert(all@[i as int]@ == id);
                assert(order.contains(id));
                assert(records.contains_key(id));
                assert(!before.contains(id)) by {
                    if before.contains(id) {
                        let k = choose|k: int| 0 <= k < before.len() && before[k] == id;
                        assert(order[k] == order[i as int]);
                    }
                }
            }
            let keep = match self.vector_store.get(all[i].as_str()) {
                Ok(Some(record)) => is_visible(
                    &record.payload,
                    scope,
                    show_expired,
                    today.as_str(),
                    filter,
                    read,
                ),
                Ok(None) => true,
                Err(err) => {
                    proof {
                        assert(self.vector_store.may_refuse(StoreRequest::Get(id), err));
                        unread = unread.insert(id);
                    }
                    true
                },
            };
            proof {
                lemma_listed_stays(*read, records, before, unread_before, unread, selection, id);
                assert(keep == is_listed(*read, records, unread, selection, id));
                assert forall|other: Seq<char>| #[trigger] unread.contains(other) implies order.take(
                    i + 1,
                ).contains(other) by {
                    if other == id {
                        assert(order.take(i + 1)[i as int] == id);
                    } else {
                        assert(unread_before.contains(other));
                        let k = choose|k: int| 0 <= k < before.len() && before[k] == other;
                        assert(order.take(i + 1)[k] == other);
                    }
                }
            }
            if keep {
                kept.push(all[i].clone());
                proof {
                    assert(text::texts(kept@) =~= kept_before.push(id));
                }
            }
            i = i + 1;
        }
        let page = rank::text_page(&kept, offset, limit);
        proof {
            assert(order.take(i as int) =~= order);
            assert(text::texts(page@) =~= rank::page(
                text::texts(kept@),
                offset as nat,
                limit as nat,
            ));
            assert(selection.asks(
                super::scope_model(scope),
                show_expired,
                stamp,
                super::filter_model(filter),
            ));
            assert(may_list(
                *read,
                self.store(),
                unread,
                selection,
                offset as nat,
                limit as nat,
                text::texts(page@),
            ));
        }
        Ok(page)
    }

    /// A page of the ids of the memories in a scope.
    pub fn list<N: Fn(&str) -> Reading>(
        &self,
        scope: &Payload,
        offset: usize,
        limit: usize,
        show_expired: bool,
        filter: Option<&FilterExpr>,
        stamp: Stamp,
        read: &N,
    ) -> (r: Result<Vec<String>, CoreError>)
        requires
            filter::reads(*read),
        ensures
            may_list_scope(
                *read,
                self.store(),
                scope@,
                offset,
                limit,
                show_expired,
                super::filter_model(filter),
                stamp,
                r,
            ),
    {
        if !has_scope_id(scope) {
            return Err(CoreError::Validation(SCOPE_REQUIRED.to_owned()));
        }
        self.list_ids(Some(scope), offset, limit, show_expired, filter, stamp, read)
    }

    /// A page of the ids of all memories.
    pub fn list_all<N: Fn(&str) -> Reading>(
        &self,
        offset: usize,
        limit: usize,
        show_expired: bool,
        filter: Option<&FilterExpr>,
        stamp: Stamp,
        read: &N,
    ) -> (r: Result<Vec<String>, CoreError>)
        requires
            filter::reads(*read),
        ensures
            may_list_page(
                *read,
                self.store(),
                None,
                offset,
                limit,
                show_expired,
                super::filter_model(filter),
                stamp,
                r,
            ),
    {
        self.list_ids(None, offset, limit, show_expired, filter, stamp, read)
    }
}

/// Reading more does not change what was listed before.
proof fn lemma_listed_stays<N: Fn(&str) -> Reading>(
    read: N,
    records: Map<Seq<char>, RecordModel>,
    order: Seq<Seq<char>>,
    unread: Set<Seq<char>>,
    more: Set<Seq<char>>,
    selection: Selection,
    id: Seq<char>,
)
    requires
        !order.contains(id),
        more == unread || more == unread.insert(id),
    ensures
        listed_ids(read, records, order, unread, selection) == listed_ids(
            read,
            records,
            order,
            more,
            selection,
        ),
    decreases order.len(),
{
    reveal(Seq::filter);
    if order.len() > 0 {
        let rest = order.drop_last();
        assert(!rest.contains(id)) by {
            if rest.contains(id) {
                let k = choose|k: int| 0 <= k < rest.len() && rest[k] == id;
                assert(order[k] == id);
            }
        }
        assert(order[order.len() - 1] != id);
        lemma_listed_stays(read, records, rest, unread, more, selection, id);
    }
}

/// Whether a record is in a scope and passes a filter.
pub open spec fn is_doomed<N: Fn(&str) -> Reading>(
    read: N,
    payload: Map<Seq<char>, Seq<char>>,
    scope: Map<Seq<char>, Seq<char>>,
    filter: Option<ExprModel>,
) -> bool {
    &&& payload::covers(payload, scope)
    &&& filter matches Some(expr) ==> filter::passes(read, expr, payload)
}

/// The ids of the records that are in a scope and pass a filter.
pub open spec fn doomed<N: Fn(&str) -> Reading>(
    read: N,
    records: Map<Seq<char>, RecordModel>,
    ids: Seq<Seq<char>>,
    scope: Map<Seq<char>, Seq<char>>,
    filter: Option<ExprModel>,
) -> Seq<Seq<char>> {
    ids.filter(|id: Seq<char>| is_doomed(read, records[id].payload, scope, filter))
}

/// Records without those with some ids.
pub open spec fn without(
    records: Map<Seq<char>, RecordModel>,
    ids: Seq<Seq<char>>,
) -> Map<Seq<char>, RecordModel>
    decreases ids.len(),
{
    if ids.len() == 0 {
        records
    } else {
        without(records, ids.drop_last()).remove(ids.last())
    }
}

/// The histories after records with some ids are deleted.
pub open spec fn log_after_deletes(
    log: Map<Seq<char>, Seq<EntryModel>>,
    records: Map<Seq<char>, RecordModel>,
    ids: Seq<Seq<char>>,
) -> Map<Seq<char>, Seq<EntryModel>>
    decreases ids.len(),
{
    if ids.len() == 0 {
        log
    } else {
        super::log_after_delete(
            log_after_deletes(log, records, ids.drop_last()),
            records,
            ids.last(),
        )
    }
}

/// A record is left exactly if it was there and is not taken out.
pub proof fn lemma_without(
    records: Map<Seq<char>, RecordModel>,
    ids: Seq<Seq<char>>,
    id: Seq<char>,
)
    ensures
        without(records, ids).contains_key(id) == (records.contains_key(id) && !ids.contains(id)),
        without(records, ids).contains_key(id) ==> without(records, ids)[id] == records[id],
    decreases ids.len(),
{
    if ids.len() > 0 {
        lemma_without(records, ids.drop_last(), id);
        if ids.contains(id) && ids.last() != id {
            let k = choose|k: int| 0 <= k < ids.len() && ids[k] == id;
            assert(ids.drop_last()[k] == id);
        }
        if ids.drop_last().contains(id) {
            let k = choose|k: int| 0 <= k < ids.drop_last().len() && ids.drop_last()[k] == id;
            assert(ids[k] == id);
        }
        assert(ids[ids.len() - 1] == ids.last());
    }
}

/// Whether deleting records may stop with an error, and leave a state: those
/// before one of them are deleted, and the store refuses to hand that one out or
/// to delete it.
pub open spec fn stops_at<N: Fn(&str) -> Reading, V: VectorStore>(
    read: N,
    before: State<V>,
    after: State<V>,
    scope: Map<Seq<char>, Seq<char>>,
    filter: Option<ExprModel>,
    k: int,
    store: V,
    err: CoreError,
) -> bool {
    let order = vector_store::all_ids(before.store);
    let records = before.store.records();
    let gone = doomed(read, records, order.take(k), scope, filter);
    &&& 0 <= k < order.len()
    &&& store.records() == without(records, gone)
    &&& after.log == log_after_deletes(before.log, records, gone)
    &&& {
        ||| after.store == store && super::reports_refusal(store, StoreRequest::Get(order[k]), err)
        ||| is_doomed(read, records[order[k]].payload, scope, filter) && super::refuses_change(
            store,
            StoreRequest::Delete(order[k]),
            err,
            after.store.records(),
        )
    }
}

/// Whether deleting the records in a scope that pass a filter may turn one state
/// into another, with an outcome: how many there were, or why it stopped.
pub open spec fn may_reset<N: Fn(&str) -> Reading, V: VectorStore>(
    read: N,
    before: State<V>,
    after: State<V>,
    scope: Map<Seq<char>, Seq<char>>,
    filter: Option<ExprModel>,
    r: Result<usize, CoreError>,
) -> bool {
    let records = before.store.records();
    let ids = doomed(read, records, vector_store::all_ids(before.store), scope, filter);
    &&& after.counter == before.counter
    &&& match r {
        Ok(n) => {
            &&& vector_store::orders_records(before.store)
            &&& n == ids.len()
            &&& after.store.records() == without(records, ids)
            &&& after.log == log_after_deletes(before.log, records, ids)
        },
        Err(err) => {
            ||| after == before && super::reports_refusal(before.store, StoreRequest::List, err)
            ||| may_stop(read, before, after, scope, filter, err)
        },
    }
}

/// Whether deleting the records in a scope may stop with an error, and leave a
/// state.
pub open spec fn may_stop<N: Fn(&str) -> Reading, V: VectorStore>(
    read: N,
    before: State<V>,
    after: State<V>,
    scope: Map<Seq<char>, Seq<char>>,
    filter: Option<ExprModel>,
    err: CoreError,
) -> bool {
    &&& vector_store::orders_records(before.store)
    &&& exists|k: int, store: V| #[trigger]
        stops_at(read, before, after, scope, filter, k, store, err)
}

proof fn lemma_doomed_member<N: Fn(&str) -> Reading>(
    read: N,
    records: Map<Seq<char>, RecordModel>,
    ids: Seq<Seq<char>>,
    scope: Map<Seq<char>, Seq<char>>,
    filter: Option<ExprModel>,
    id: Seq<char>,
)
    ensures
        doomed(read, records, ids, scope, filter).contains(id) == (ids.contains(id) && is_doomed(
            read,
            records[id].payload,
            scope,
            filter,
        )),
    decreases ids.len(),
{
    reveal(Seq::filter);
    let all = doomed(read, records, ids, scope, filter);
    if ids.len() > 0 {
        let rest = ids.drop_last();
        let last = ids.last();
        lemma_doomed_member(read, records, rest, scope, filter, id);
        assert(ids[ids.len() - 1] == last);
        assert(ids.contains(id) == (rest.contains(id) || id == last)) by {
            if ids.contains(id) {
                let k = choose|k: int| 0 <= k < ids.len() && ids[k] == id;
                if k < rest.len() {
                    assert(rest[k] == id);
                }
            }
            if rest.contains(id) {
                let k = choose|k: int| 0 <= k < rest.len() && rest[k] == id;
                assert(ids[k] == id);
            }
        }
        let before = doomed(read, records, rest, scope, filter);
        if is_doomed(read, records[last].payload, scope, filter) {
            assert(all =~= before.push(last));
            assert(all[all.len() - 1] == last);
            assert(all.contains(id) == (before.contains(id) || id == last)) by {
                if all.contains(id) {
                    let k = choose|k: int| 0 <= k < all.len() && all[k] == id;
                    if k < before.len() {
                        assert(before[k] == id);
                    }
                }
                if before.contains(id) {
                    let k = choose|k: int| 0 <= k < before.len() && before[k] == id;
                    assert(all[k] == id);
                }
            }
        }
    }
}

/// Deleting the records in a scope leaves exactly the others, as they were. A
/// store with more records than a list can hold is left out.
pub proof fn law_reset_leaves_the_others<N: Fn(&str) -> Reading, V: VectorStore>(
    read: N,
    before: State<V>,
    after: State<V>,
    scope: Map<Seq<char>, Seq<char>>,
    filter: Option<ExprModel>,
    n: usize,
    id: Seq<char>,
)
    requires
        may_reset(read, before, after, scope, filter, Ok(n)),
        before.store.order().len() <= usize::MAX,
    ensures
        after.store.records().contains_key(id) <==> (before.store.records().contains_key(id)
            && !is_doomed(read, before.store.records()[id].payload, scope, filter)),
        after.store.records().contains_key(id) ==> after.store.records()[id]
            == before.store.records()[id],
{
    let records = before.store.records();
    let ids = vector_store::all_ids(before.store);
    vector_store::lemma_all_ids(before.store);
    lemma_without(records, doomed(read, records, ids, scope, filter), id);
    lemma_doomed_member(read, records, ids, scope, filter, id);
}

impl<L: LlmProvider, E: EmbeddingProvider, V: VectorStore> Memory<L, E, V> {
    /// Deletes the records in a scope that pass a filter, and says how many
    /// there were.
    pub fn reset<N: Fn(&str) -> Reading>(
        &mut self,
        scope: &Payload,
        filter: Option<&FilterExpr>,
        read: &N,
    ) -> (r: Result<usize, CoreError>)
        requires
            filter::reads(*read),
        ensures
            final(self).setup() == old(self).setup(),
            final(self).store().measure() == old(self).store().measure(),
            may_reset(
                *read,
                old(self).state(),
                final(self).state(),
                scope@,
                super::filter_model(filter),
                r,
            ),
    {
        let all = match self.vector_store.list(0, usize::MAX) {
            Ok(ids) => ids,
            Err(err) => {
                let report = CoreError::from(err);
                proof {
                    assert(report.reports_store(err));
                    assert(super::reports_refusal(self.vector_store, StoreRequest::List, report));
                }
                return Err(report);
            },
        };
        let ghost start = self.vector_store;
        let ghost order = vector_store::all_ids(start);
        let ghost records = start.records();
        let ghost wanted = super::filter_model(filter);
        let ghost log = self.log();
        proof {
            vector_store::lemma_all_ids(self.vector_store);
            reveal(Seq::filter);
            assert(doomed(*read, records, order.take(0), scope@, wanted) =~= Seq::empty());
        }
        let mut deleted: usize = 0;
        let mut i: usize = 0;
        while i < all.len()
            invariant
                i <= all.len(),
                filter::reads(*read),
                text::texts(all@) == order,
                start == old(self).store(),
                order == vector_store::all_ids(start),
                records == start.records(),
                log == old(self).log(),
                vector_store::orders_records(start),
                vector_store::ids_of_records(order, records),
                wanted == super::filter_model(filter),
                self.setup() == old(self).setup(),
                self.store().measure() == old(self).store().measure(),
                self.counter() == old(self).counter(),
                deleted <= i,
                deleted == doomed(*read, records, order.take(i as int), scope@, wanted).len(),
                self.store().records() == without(
                    records,
                    doomed(*read, records, order.take(i as int), scope@, wanted),
                ),
                self.log() == log_after_deletes(
                    log,
                    records,
                    doomed(*read, records, order.take(i as int), scope@, wanted),
                ),
            decreases all.len() - i,
        {
            let ghost id = order[i as int];
            let ghost before = order.take(i as int);
            let ghost gone = doomed(*read, records, before, scope@, wanted);
            proof {
                reveal(Seq::filter);
                assert(order.take(i + 1).drop_last() =~= before);
                assert(order.take(i + 1).last() == id);
                assert(all@[i as int]@ == id);
                assert(order.contains(id));
                assert(!before.contains(id)) by {
                    if before.contains(id) {
                        let k = choose|k: int| 0 <= k < before.len() && before[k] == id;
                        assert(order[k] == order[i as int]);
                    }
                }
                lemma_doomed_member(*read, records, before, scope@, wanted, id);
                lemma_without(records, gone, id);
            }
            let record = match self.vector_store.get(all[i].as_str()) {
                Ok(Some(record)) => record,
                Ok(None) => {
                    proof {
                        assert(false);
                    }
                    i = i + 1;
                    continue;
                },
                Err(err) => {
                    let report = CoreError::from(err);
                    proof {
                        assert(report.reports_store(err));
                        assert(super::reports_refusal(
                            self.vector_store,
                            StoreRequest::Get(id),
                            report,
                        ));
                        assert(stops_at(
                            *read,
                            old(self).state(),
                            self.state(),
                            scope@,
                            wanted,
                            i as int,
                            self.vector_store,
                            report,
                        ));
                    }
                    return Err(report);
                },
            };
            let matches = record.payload.matches(scope) && match filter {
                Some(expr) => filter::evaluate(expr, &record.payload, read),
                None => true,
            };
            proof {
                assert(matches == is_doomed(*read, records[id].payload, scope@, wanted));
            }
            if matches {
                let ghost store = self.store();
                let outcome = self.delete(all[i].as_str());
                match outcome {
                    Ok(()) => {},
                    Err(err) => {
                        proof {
                            assert(stops_at(
                                *read,
                                old(self).state(),
                                self.state(),
                                scope@,
                                wanted,
                                i as int,
                                store,
                                err,
                            ));
                        }
                        return Err(err);
                    },
                }
                deleted = deleted + 1;
                proof {
                    let more = doomed(*read, records, order.take(i + 1), scope@, wanted);
                    assert(more =~= gone.push(id));
                    assert(more.drop_last() =~= gone);
                    assert(super::content_of(store.records(), id) == super::content_of(
                        records,
                        id,
                    ));
                }
            }
            i = i + 1;
        }
        proof {
            assert(order.take(i as int) =~= order);
        }
        Ok(deleted)
    }
}

/// Someone whom memories belong to, and how many memories do.
#[derive(Clone, Debug, PartialEq, Eq)]
pub struct EntitySummary {
    pub entity_type: String,
    pub entity_id: String,
    pub memory_count: usize,
}

/// A summary as a value.
#[verifier::ext_equal]
pub struct SummaryModel {
    pub entity_type: Seq<char>,
    pub entity_id: Seq<char>,
    pub memory_count: nat,
}

impl View for EntitySummary {
    type V = SummaryModel;

    open spec fn view(&self) -> SummaryModel {
        SummaryModel {
            entity_type: self.entity_type@,
            entity_id: self.entity_id@,
            memory_count: self.memory_count as nat,
        }
    }
}

impl Ranked for EntitySummary {
    open spec fn may_precede(a: SummaryModel, b: SummaryModel) -> bool {
        text::precedes(a.entity_type, b.entity_type) || a.entity_type == b.entity_type
            && !text::precedes(b.entity_id, a.entity_id)
    }

    fn is_not_after(&self, other: &Self) -> (b: bool) {
        text::less(self.entity_type.as_str(), other.entity_type.as_str()) || text::same(
            self.entity_type.as_str(),
            other.entity_type.as_str(),
        ) && !text::less(other.entity_id.as_str(), self.entity_id.as_str())
    }
}

/// The scope fields of a payload with what they say.
pub open spec fn owners(payload: Map<Seq<char>, Seq<char>>) -> Seq<(Seq<char>, Seq<char>)> {
    owner(payload, "user_id"@) + owner(payload, "agent_id"@) + owner(payload, "run_id"@)
}

/// A field of a payload with what it says, if it is there.
pub open spec fn owner(payload: Map<Seq<char>, Seq<char>>, field: Seq<char>) -> Seq<
    (Seq<char>, Seq<char>),
> {
    if payload.contains_key(field) {
        seq![(field, payload[field])]
    } else {
        Seq::empty()
    }
}

/// The scope fields of a record with what they say, if the record is there.
pub open spec fn owners_at(records: Map<Seq<char>, RecordModel>, id: Seq<char>) -> Seq<
    (Seq<char>, Seq<char>),
> {
    if records.contains_key(id) {
        owners(records[id].payload)
    } else {
        Seq::empty()
    }
}

/// The scope fields of some records with what they say.
pub open spec fn all_owners(
    records: Map<Seq<char>, RecordModel>,
    ids: Seq<Seq<char>>,
) -> Seq<(Seq<char>, Seq<char>)>
    decreases ids.len(),
{
    if ids.len() == 0 {
        Seq::empty()
    } else {
        all_owners(records, ids.drop_last()) + owners_at(records, ids.last())
    }
}

/// How often a pair occurs.
pub open spec fn tally(
    pairs: Seq<(Seq<char>, Seq<char>)>,
    kind: Seq<char>,
    name: Seq<char>,
) -> nat
    decreases pairs.len(),
{
    if pairs.len() == 0 {
        0
    } else if pairs.last() == (kind, name) {
        tally(pairs.drop_last(), kind, name) + 1
    } else {
        tally(pairs.drop_last(), kind, name)
    }
}

/// Whether a table has one row for each pair, with how often it occurs.
pub open spec fn counts(table: Seq<SummaryModel>, pairs: Seq<(Seq<char>, Seq<char>)>) -> bool {
    &&& forall|i: int|
        0 <= i < table.len() ==> {
            &&& (#[trigger] table[i]).memory_count > 0
            &&& table[i].memory_count == tally(pairs, table[i].entity_type, table[i].entity_id)
        }
    &&& forall|i: int, j: int|
        0 <= i < j < table.len() ==> (#[trigger] table[i]).entity_type != (
        #[trigger] table[j]).entity_type || table[i].entity_id != table[j].entity_id
    &&& forall|kind: Seq<char>, name: Seq<char>|
        #[trigger] tally(pairs, kind, name) > 0 ==> exists|i: int|
            0 <= i < table.len() && (#[trigger] table[i]).entity_type == kind && table[i].entity_id
                == name
}

/// Whether a table says how many of some records belong to whom, in the order
/// of the fields and of what they say.
pub open spec fn summarizes(
    table: Seq<SummaryModel>,
    records: Map<Seq<char>, RecordModel>,
    ids: Seq<Seq<char>>,
) -> bool {
    counts(table, all_owners(records, ids)) && rank::in_order::<EntitySummary>(table)
}

/// Some pairs as values.
pub open spec fn pair_models(pairs: Seq<(String, String)>) -> Seq<(Seq<char>, Seq<char>)> {
    pairs.map_values(|p: (String, String)| (p.0@, p.1@))
}

fn push_owner(pairs: &mut Vec<(String, String)>, payload: &Payload, field: &str)
    ensures
        pair_models(final(pairs)@) == pair_models(old(pairs)@) + owner(payload@, field@),
{
    let ghost before = pair_models(pairs@);
    match payload.get(field) {
        Some(value) => {
            pairs.push((field.to_owned(), value.clone()));
            proof {
                assert(pair_models(pairs@) =~= before.push((field@, payload@[field@])));
            }
        },
        None => {},
    }
    proof {
        assert(pair_models(pairs@) =~= before + owner(payload@, field@));
    }
}

proof fn lemma_tally_bound(pairs: Seq<(Seq<char>, Seq<char>)>, kind: Seq<char>, name: Seq<char>)
    ensures
        tally(pairs, kind, name) <= pairs.len(),
    decreases pairs.len(),
{
    if pairs.len() > 0 {
        lemma_tally_bound(pairs.drop_last(), kind, name);
    }
}

fn find_row(table: &Vec<EntitySummary>, kind: &str, name: &str) -> (r: Option<usize>)
    ensures
        match r {
            Some(i) => i < table@.len() && table@[i as int].entity_type@ == kind@
                && table@[i as int].entity_id@ == name@,
            None => forall|i: int|
                0 <= i < table@.len() ==> (#[trigger] table@[i]).entity_type@ != kind@
                    || table@[i].entity_id@ != name@,
        },
{
    let mut i: usize = 0;
    while i < table.len()
        invariant
            i <= table.len(),
            forall|j: int|
                0 <= j < i ==> (#[trigger] table@[j]).entity_type@ != kind@
                    || table@[j].entity_id@ != name@,
        decreases table.len() - i,
    {
        if text::same(table[i].entity_type.as_str(), kind) && text::same(
            table[i].entity_id.as_str(),
            name,
        ) {
            return Some(i);
        }
        i = i + 1;
    }
    None
}

/// Counts how often each pair occurs.
fn count_pairs(pairs: &Vec<(String, String)>) -> (r: Vec<EntitySummary>)
    ensures
        counts(rank::views(r@), pair_models(pairs@)),
{
    let ghost all = pair_models(pairs@);
    let mut table: Vec<EntitySummary> = Vec::new();
    let mut i: usize = 0;
    proof {
        assert(all.take(0) =~= Seq::empty());
    }
    while i < pairs.len()
        invariant
            i <= pairs.len(),
            all == pair_models(pairs@),
            counts(rank::views(table@), all.take(i as int)),
        decreases pairs.len() - i,
    {
        let ghost rows = rank::views(table@);
        let ghost done = all.take(i as int);
        let ghost more = all.take(i + 1);
        let kind = pairs[i].0.as_str();
        let name = pairs[i].1.as_str();
        proof {
            assert(more.drop_last() =~= done);
            assert(more.last() == (kind@, name@));
            lemma_tally_bound(done, kind@, name@);
        }
        match find_row(&table, kind, name) {
            Some(k) => {
                proof {
                    assert(rows[k as int] == table@[k as int]@);
                }
                let count: usize = table[k].memory_count;
                let row = EntitySummary {
                    entity_type: kind.to_owned(),
                    entity_id: name.to_owned(),
                    memory_count: count + 1,
                };
                table.set(k, row);
                proof {
                    let new = rank::views(table@);
                    assert(new =~= rows.update(k as int, row@));
                    assert forall|j: int| 0 <= j < new.len() implies {
                        &&& (#[trigger] new[j]).memory_count > 0
                        &&& new[j].memory_count == tally(more, new[j].entity_type, new[j].entity_id)
                    } by {
                        assert(rows[j].memory_count > 0);
                    }
                    assert forall|a: int, b: int| 0 <= a < b < new.len() implies (
                    #[trigger] new[a]).entity_type != (#[trigger] new[b]).entity_type
                        || new[a].entity_id != new[b].entity_id by {
                        assert(rows[a].entity_type != rows[b].entity_type || rows[a].entity_id
                            != rows[b].entity_id);
                    }
                    assert forall|x: Seq<char>, y: Seq<char>| #[trigger] tally(more, x, y) > 0 implies exists|
                        j: int,
                    |
                        0 <= j < new.len() && (#[trigger] new[j]).entity_type == x
                            && new[j].entity_id == y by {
                        if x == kind@ && y == name@ {
                            assert(new[k as int].entity_type == x);
                        } else {
                            assert(tally(done, x, y) > 0);
                            let j = choose|j: int|
                                0 <= j < rows.len() && (#[trigger] rows[j]).entity_type == x
                                    && rows[j].entity_id == y;
                            assert(new[j] == rows[j]);
                        }
                    }
                }
            },
            None => {
                proof {
                    if tally(done, kind@, name@) > 0 {
                        let j = choose|j: int|
                            0 <= j < rows.len() && (#[trigger] rows[j]).entity_type == kind@
                                && rows[j].entity_id == name@;
                        assert(table@[j]@ == rows[j]);
                        assert(false);
                    }
                    assert forall|j: int| 0 <= j < rows.len() implies (#[trigger] rows[j]).entity_type
                        != kind@ || rows[j].entity_id != name@ by {
                        assert(table@[j]@ == rows[j]);
                    }
                }
                let row = EntitySummary {
                    entity_type: kind.to_owned(),
                    entity_id: name.to_owned(),
                    memory_count: 1,
                };
                table.push(row);
                proof {
                    let new = rank::views(table@);
                    assert(new =~= rows.push(row@));
                    assert forall|x: Seq<char>, y: Seq<char>| #[trigger] tally(more, x, y) > 0 implies exists|
                        j: int,
                    |
                        0 <= j < new.len() && (#[trigger] new[j]).entity_type == x
                            && new[j].entity_id == y by {
                        if x == kind@ && y == name@ {
                            assert(new[rows.len() as int].entity_type == x);
                        } else {
                            assert(tally(done, x, y) > 0);
                            let j = choose|j: int|
                                0 <= j < rows.len() && (#[trigger] rows[j]).entity_type == x
                                    && rows[j].entity_id == y;
                            assert(new[j] == rows[j]);
                        }
                    }
                }
            },
        }
        i = i + 1;
    }
    proof {
        assert(all.take(i as int) =~= all);
    }
    table
}

proof fn lemma_summaries_are_ordered()
    ensures
        rank::ordering::<EntitySummary>(),
{
    assert forall|a: SummaryModel, b: SummaryModel| #[trigger]
        EntitySummary::may_precede(a, b) || EntitySummary::may_precede(b, a) by {
        text::lemma_precedes_total(a.entity_type, b.entity_type);
        text::lemma_precedes_total(a.entity_id, b.entity_id);
    }
    assert forall|a: SummaryModel, b: SummaryModel, c: SummaryModel| #[trigger]
        EntitySummary::may_precede(a, b) && #[trigger] EntitySummary::may_precede(
            b,
            c,
        ) implies EntitySummary::may_precede(a, c) by {
        text::lemma_precedes_total(a.entity_id, b.entity_id);
        text::lemma_precedes_total(b.entity_id, c.entity_id);
        text::lemma_precedes_total(a.entity_id, c.entity_id);
        if text::precedes(a.entity_type, b.entity_type) && text::precedes(
            b.entity_type,
            c.entity_type,
        ) {
            text::lemma_precedes_transitive(a.entity_type, b.entity_type, c.entity_type);
        }
        if text::precedes(c.entity_id, a.entity_id) && text::precedes(a.entity_id, b.entity_id) {
            text::lemma_precedes_transitive(c.entity_id, a.entity_id, b.entity_id);
        }
    }
}

proof fn lemma_counts_reordered(
    table: Seq<SummaryModel>,
    other: Seq<SummaryModel>,
    pairs: Seq<(Seq<char>, Seq<char>)>,
)
    requires
        counts(table, pairs),
        other.to_multiset() == table.to_multiset(),
    ensures
        counts(other, pairs),
{
    broadcast use vstd::seq_lib::group_to_multiset_ensures;

    assert forall|i: int| 0 <= i < other.len() implies {
        &&& (#[trigger] other[i]).memory_count > 0
        &&& other[i].memory_count == tally(pairs, other[i].entity_type, other[i].entity_id)
    } by {
        assert(other.to_multiset().count(other[i]) > 0);
        assert(table.to_multiset().count(other[i]) > 0);
        assert(table.contains(other[i]));
        let k = choose|k: int| 0 <= k < table.len() && table[k] == other[i];
        assert(table[k].memory_count > 0);
    }
    assert(table.no_duplicates()) by {
        assert forall|a: int, b: int| 0 <= a < b < table.len() implies table[a] != table[b] by {
            assert(table[a].entity_type != table[b].entity_type || table[a].entity_id
                != table[b].entity_id);
        }
    }
    table.lemma_multiset_has_no_duplicates();
    other.lemma_multiset_has_no_duplicates_conv();
    assert forall|i: int, j: int| 0 <= i < j < other.len() implies (#[trigger] other[i]).entity_type
        != (#[trigger] other[j]).entity_type || other[i].entity_id != other[j].entity_id by {
        assert(other[i] != other[j]);
        assert(other[i].memory_count == tally(pairs, other[i].entity_type, other[i].entity_id));
        assert(other[j].memory_count == tally(pairs, other[j].entity_type, other[j].entity_id));
    }
    assert forall|kind: Seq<char>, name: Seq<char>| #[trigger] tally(pairs, kind, name) > 0 implies exists|
        i: int,
    |
        0 <= i < other.len() && (#[trigger] other[i]).entity_type == kind && other[i].entity_id
            == name by {
        let k = choose|k: int|
            0 <= k < table.len() && (#[trigger] table[k]).entity_type == kind && table[k].entity_id
                == name;
        assert(table.to_multiset().count(table[k]) > 0);
        assert(other.contains(table[k]));
        let i = choose|i: int| 0 <= i < other.len() && other[i] == table[k];
        assert(other[i].entity_type == kind);
    }
}

/// Whether a table may come out: it summarizes the memories of a store, along
/// with what could not be read when they were listed.
pub open spec fn may_summarize<V: VectorStore>(store: V, table: Seq<SummaryModel>) -> bool {
    &&& vector_store::orders_records(store)
    &&& exists|unread: Set<Seq<char>>|
        #[trigger] unreadable(store, unread) && summarizes(
            table,
            store.records(),
            memories_of(store, unread),
        )
}

/// The ids of the memories in a store, and of what cannot be read.
pub open spec fn memories_of<V: VectorStore>(store: V, unread: Set<Seq<char>>) -> Seq<Seq<char>> {
    vector_store::all_ids(store).filter(
        |id: Seq<char>| unread.contains(id) || !super::is_entity(store.records()[id].payload),
    )
}

fn read_nothing(s: &str) -> (r: Reading)
    ensures
        r == Reading::Words,
{
    Reading::Words
}

/// Whether counting whom the memories belong to may have an outcome.
pub open spec fn may_list_entities<V: VectorStore>(
    store: V,
    r: Result<Vec<EntitySummary>, CoreError>,
) -> bool {
    match r {
        Ok(table) => may_summarize(store, rank::views(table@)),
        Err(err) => {
            ||| super::reports_refusal(store, StoreRequest::List, err)
            ||| exists|id: Seq<char>| #[trigger]
                super::reports_refusal(store, StoreRequest::Get(id), err)
        },
    }
}

impl<L: LlmProvider, E: EmbeddingProvider, V: VectorStore> Memory<L, E, V> {
    /// Whom the memories belong to, and how many belong to each.
    pub fn list_entities(&self) -> (r: Result<Vec<EntitySummary>, CoreError>)
        ensures
            may_list_entities(self.store(), r),
    {
        let stamp = Stamp { seconds: 0, subsec_nanos: 0, process_id: 0 };
        let ids = match self.list_all(0, usize::MAX, true, None, stamp, &read_nothing) {
            Ok(ids) => ids,
            Err(err) => {
                return Err(err);
            },
        };
        let ghost listed = text::texts(ids@);
        let ghost records = self.store().records();
        let ghost (unread, selection) = choose|unread: Set<Seq<char>>, selection: Selection|
            {
                &&& #[trigger] may_list(
                    read_nothing,
                    self.store(),
                    unread,
                    selection,
                    0,
                    usize::MAX as nat,
                    listed,
                )
                &&& selection.asks(None, true, stamp, None)
            };
        proof {
            let all = vector_store::all_ids(self.store());
            let kept = listed_ids(read_nothing, records, all, unread, selection);
            assert(kept == memories_of(self.store(), unread)) by {
                let keep = |id: Seq<char>| is_listed(read_nothing, records, unread, selection, id);
                let other = |id: Seq<char>|
                    unread.contains(id) || !super::is_entity(self.store().records()[id].payload);
                assert(keep =~= other);
            }
            assert(all.len() <= usize::MAX);
            all.lemma_filter_len(
                |id: Seq<char>| is_listed(read_nothing, records, unread, selection, id),
            );
            assert(rank::page(kept, 0, usize::MAX as nat) =~= kept);
        }
        let mut pairs: Vec<(String, String)> = Vec::new();
        let mut i: usize = 0;
        proof {
            assert(pair_models(pairs@) =~= all_owners(records, listed.take(0)));
        }
        while i < ids.len()
            invariant
                i <= ids.len(),
                listed == text::texts(ids@),
                records == self.store().records(),
                pair_models(pairs@) == all_owners(records, listed.take(i as int)),
            decreases ids.len() - i,
        {
            let ghost before = pair_models(pairs@);
            proof {
                assert(listed.take(i + 1).drop_last() =~= listed.take(i as int));
                assert(listed.take(i + 1).last() == ids@[i as int]@);
                assert(before + Seq::empty() =~= before);
            }
            let found = self.get(ids[i].as_str());
            match found {
                Ok(Some(record)) => {
                    push_owner(&mut pairs, &record.payload, "user_id");
                    push_owner(&mut pairs, &record.payload, "agent_id");
                    push_owner(&mut pairs, &record.payload, "run_id");
                    proof {
                        assert(pair_models(pairs@) =~= before + owners(record.payload@));
                    }
                },
                Ok(None) => {},
                Err(err) => {
                    proof {
                        assert(super::reports_refusal(
                            self.store(),
                            StoreRequest::Get(ids@[i as int]@),
                            err,
                        ));
                    }
                    return Err(err);
                },
            }
            i = i + 1;
        }
        let table = count_pairs(&pairs);
        let ghost rows = rank::views(table@);
        let sorted = rank::sort(table);
        proof {
            assert(listed.take(i as int) =~= listed);
            rank::law_ranked::<EntitySummary>(rows);
            lemma_summaries_are_ordered();
            lemma_counts_reordered(rows, rank::views(sorted@), all_owners(records, listed));
            assert(summarizes(rank::views(sorted@), records, memories_of(self.store(), unread)));
            assert(unreadable(self.store(), unread));
        }
        Ok(sorted)
    }
}

/// What is listed is in the store, is no entity's record, is in the scope, has
/// not expired unless that does not matter, and passes the filter; or it could
/// not be read.
pub proof fn law_listed_is_visible<N: Fn(&str) -> Reading, V: VectorStore>(
    read: N,
    store: V,
    unread: Set<Seq<char>>,
    selection: Selection,
    offset: nat,
    limit: nat,
    ids: Seq<Seq<char>>,
    i: int,
)
    requires
        may_list(read, store, unread, selection, offset, limit, ids),
        0 <= i < ids.len(),
    ensures
        store.records().contains_key(ids[i]),
        unread.contains(ids[i]) || super::visible(
            read,
            store.records()[ids[i]].payload,
            selection.scope,
            selection.show_expired,
            selection.today,
            selection.filter,
        ),
        !unread.contains(ids[i]) ==> !super::is_entity(store.records()[ids[i]].payload),
{
    let all = vector_store::all_ids(store);
    vector_store::lemma_all_ids(store);
    let kept = listed_ids(read, store.records(), all, unread, selection);
    let from = if offset < kept.len() { offset as int } else { kept.len() as int };
    assert(ids[i] == kept[from + i]);
    lemma_kept(
        all,
        |id: Seq<char>| is_listed(read, store.records(), unread, selection, id),
        from + i,
    );
}

proof fn lemma_kept<A>(s: Seq<A>, keep: spec_fn(A) -> bool, i: int)
    requires
        0 <= i < s.filter(keep).len(),
    ensures
        keep(s.filter(keep)[i]),
        s.contains(s.filter(keep)[i]),
    decreases s.len(),
{
    reveal(Seq::filter);
    if s.len() > 0 {
        let rest = s.drop_last();
        if i < rest.filter(keep).len() {
            lemma_kept(rest, keep, i);
            let k = choose|k: int| 0 <= k < rest.len() && rest[k] == rest.filter(keep)[i];
            assert(s[k] == s.filter(keep)[i]);
        } else {
            assert(s[s.len() - 1] == s.filter(keep)[i]);
        }
    }
}

/// All that is visible is listed when as many ids are asked for as there can
/// be. A store with more records than a list can hold is left out.
pub proof fn law_visible_is_listed<N: Fn(&str) -> Reading, V: VectorStore>(
    read: N,
    store: V,
    unread: Set<Seq<char>>,
    selection: Selection,
    ids: Seq<Seq<char>>,
    id: Seq<char>,
)
    requires
        may_list(read, store, unread, selection, 0, usize::MAX as nat, ids),
        store.order().len() <= usize::MAX,
        store.records().contains_key(id),
        super::visible(
            read,
            store.records()[id].payload,
            selection.scope,
            selection.show_expired,
            selection.today,
            selection.filter,
        ),
    ensures
        ids.contains(id),
{
    let all = vector_store::all_ids(store);
    vector_store::lemma_all_ids(store);
    let keep = |id: Seq<char>| is_listed(read, store.records(), unread, selection, id);
    let kept = all.filter(keep);
    lemma_keeps(all, keep, id);
    all.lemma_filter_len(keep);
    assert(rank::page(kept, 0, usize::MAX as nat) =~= kept);
}

proof fn lemma_keeps<A>(s: Seq<A>, keep: spec_fn(A) -> bool, x: A)
    requires
        s.contains(x),
        keep(x),
    ensures
        s.filter(keep).contains(x),
    decreases s.len(),
{
    reveal(Seq::filter);
    let rest = s.drop_last();
    if s.last() == x {
        assert(s.filter(keep).last() == x);
    } else {
        let k = choose|k: int| 0 <= k < s.len() && s[k] == x;
        assert(rest[k] == x);
        lemma_keeps(rest, keep, x);
        let j = choose|j: int| 0 <= j < rest.filter(keep).len() && rest.filter(keep)[j] == x;
        assert(s.filter(keep)[j] == x);
    }
}

/// Listing the memories of a scope on a store in memory: it is refused exactly
/// where the scope names no one. Else the whole list has the ids of the records
/// that are visible in the scope, each once and no others, and a page of it is
/// what is listed from the offset on, up to the limit.
pub proof fn law_list<N: Fn(&str) -> Reading, D: Fn(&[u32], &[u32]) -> i64>(
    read: N,
    store: InMemoryVectorStore<D>,
    scope: Map<Seq<char>, Seq<char>>,
    offset: usize,
    limit: usize,
    show_expired: bool,
    filter: Option<ExprModel>,
    stamp: Stamp,
    today: Seq<char>,
    all: Result<Vec<String>, CoreError>,
    page: Result<Vec<String>, CoreError>,
    id: Seq<char>,
)
    requires
        may_list_scope(read, store, scope, 0, usize::MAX, show_expired, filter, stamp, all),
        may_list_scope(read, store, scope, offset, limit, show_expired, filter, stamp, page),
        stamp.is_today(today),
        store.order().len() <= usize::MAX,
    ensures
        all is Ok == super::names_someone(scope),
        page is Ok == super::names_someone(scope),
        page matches Err(err) ==> err.is_validation(SCOPE_REQUIRED@),
        super::names_someone(scope) ==> {
            let ids = text::texts(all->Ok_0@);
            &&& text::texts(page->Ok_0@) == rank::page(ids, offset as nat, limit as nat)
            &&& ids.no_duplicates()
            &&& ids.contains(id) <==> store.records().contains_key(id) && super::visible(
                read,
                store.records()[id].payload,
                Some(scope),
                show_expired,
                today,
                filter,
            )
        },
{
    if super::names_someone(scope) {
        let records = store.records();
        let order = vector_store::all_ids(store);
        let ids = text::texts(all->Ok_0@);
        let (unread, selection) = choose|unread: Set<Seq<char>>, selection: Selection|
            {
                &&& #[trigger] may_list(
                    read,
                    store,
                    unread,
                    selection,
                    0,
                    usize::MAX as nat,
                    ids,
                )
                &&& selection.asks(Some(scope), show_expired, stamp, filter)
            };
        let (unread2, selection2) = choose|unread: Set<Seq<char>>, selection: Selection|
            {
                &&& #[trigger] may_list(
                    read,
                    store,
                    unread,
                    selection,
                    offset as nat,
                    limit as nat,
                    text::texts(page->Ok_0@),
                )
                &&& selection.asks(Some(scope), show_expired, stamp, filter)
            };
        let days = stamp.seconds as int / 86_400;
        calendar::law_one_text_of_day(selection.today, today, days);
        calendar::law_one_text_of_day(selection2.today, today, days);
        assert(selection =~= selection2);
        assert(unread =~= Set::empty()) by {
            assert forall|x: Seq<char>| !unread.contains(x) by {}
        }
        assert(unread2 =~= Set::empty()) by {
            assert forall|x: Seq<char>| !unread2.contains(x) by {}
        }
        let keep = |x: Seq<char>| is_listed(read, records, unread, selection, x);
        let kept = order.filter(keep);
        vector_store::lemma_all_ids(store);
        order.lemma_filter_len(keep);
        assert(rank::page(kept, 0, usize::MAX as nat) =~= kept);
        assert(ids == kept);
        vector_store::lemma_filter_no_duplicates(order, keep);
        if ids.contains(id) {
            let i = choose|i: int| 0 <= i < ids.len() && ids[i] == id;
            lemma_kept(order, keep, i);
        }
        if records.contains_key(id) && keep(id) {
            lemma_keeps(order, keep, id);
        }
    }
}

} // verus!
