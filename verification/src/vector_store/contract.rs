//! Checks that hold of every vector store of its kind.

use super::{
    RecordModel, ResultModel, SearchResult, StoreRequest, VectorRecord, VectorStore,
    VectorStoreError,
};
use crate::embedding;
use crate::payload::Payload;
use crate::rank;
use crate::text;
use vstd::prelude::*;

verus! {

/// The single-precision bits of one, and of the numbers after it.
pub const ONE: u32 = 0x3f80_0000;

pub const TWO: u32 = 0x4000_0000;

pub const THREE: u32 = 0x4040_0000;

pub const FOUR: u32 = 0x4080_0000;

pub const FIVE: u32 = 0x40a0_0000;

pub const SIX: u32 = 0x40c0_0000;

pub const FIFTY: u32 = 0x4248_0000;

/// The single-precision bits of a number a little above one.
pub const ABOVE_ONE: u32 = 0x3f8c_cccd;

/// The order key of one.
pub const ONE_KEY: i64 = 0x3ff0_0000_0000_0000;

/// A record with a vector of two components and no payload.
pub open spec fn point(id: Seq<char>, x: u32, y: u32) -> RecordModel {
    RecordModel { id, vector: seq![x, y], payload: Map::empty() }
}

/// A record with a vector of two components and one entry in its payload.
pub open spec fn tagged_point(
    id: Seq<char>,
    x: u32,
    y: u32,
    key: Seq<char>,
    value: Seq<char>,
) -> RecordModel {
    RecordModel { id, vector: seq![x, y], payload: Map::empty().insert(key, value) }
}

fn make_vector(x: u32, y: u32) -> (r: Vec<u32>)
    ensures
        r@ == seq![x, y],
{
    let mut vector: Vec<u32> = Vec::new();
    vector.push(x);
    vector.push(y);
    proof {
        assert(vector@ =~= seq![x, y]);
    }
    vector
}

fn make_point(id: &str, x: u32, y: u32) -> (r: VectorRecord)
    ensures
        r@ == point(id@, x, y),
        r.id@ == id@,
{
    VectorRecord::new(id, make_vector(x, y), Payload::new())
}

fn make_tagged_point(id: &str, x: u32, y: u32, key: &str, value: &str) -> (r: VectorRecord)
    ensures
        r@ == tagged_point(id@, x, y, key@, value@),
        r.id@ == id@,
{
    let mut payload = Payload::new();
    payload.insert(key.to_owned(), value.to_owned());
    VectorRecord::new(id, make_vector(x, y), payload)
}

/// Whether two records are equal.
pub fn same_record(a: &VectorRecord, b: &VectorRecord) -> (r: bool)
    ensures
        r == (a@ == b@),
{
    let r = text::same(a.id.as_str(), b.id.as_str()) && embedding::same_vector(&a.vector, &b.vector)
        && a.payload.same(&b.payload);
    proof {
        if r {
            assert(a@ =~= b@);
        }
    }
    r
}

/// Some records with others put in, one after the other.
pub open spec fn with_all(
    records: Map<Seq<char>, RecordModel>,
    new: Seq<RecordModel>,
) -> Map<Seq<char>, RecordModel>
    decreases new.len(),
{
    if new.len() == 0 {
        records
    } else {
        with_all(records, new.drop_last()).insert(new.last().id, new.last())
    }
}

/// Whether a store of a kind that holds some records may refuse a request.
pub open spec fn refuses<S: VectorStore>(
    records: Map<Seq<char>, RecordModel>,
    request: StoreRequest,
) -> bool {
    exists|store: S, err: VectorStoreError|
        store.records() == records && #[trigger] store.may_refuse(request, err)
}

/// Whether a store of a kind may refuse one of some records, after those before
/// it were put in.
pub open spec fn refuses_one<S: VectorStore>(
    records: Map<Seq<char>, RecordModel>,
    new: Seq<RecordModel>,
) -> bool {
    exists|i: int|
        0 <= i < new.len() && #[trigger] refuses::<S>(
            with_all(records, new.take(i)),
            StoreRequest::Insert(new[i]),
        )
}

fn insert_all<S: VectorStore>(store: &mut S, records: Vec<VectorRecord>) -> (r: bool)
    ensures
        r ==> final(store).records() == with_all(old(store).records(), rank::views(records@)),
        !r ==> refuses_one::<S>(old(store).records(), rank::views(records@)),
{
    let ghost all = rank::views(records@);
    let mut i: usize = 0;
    proof {
        assert(with_all(store.records(), all.take(0)) == store.records());
    }
    while i < records.len()
        invariant
            i <= records.len(),
            all == rank::views(records@),
            store.records() == with_all(old(store).records(), all.take(i as int)),
        decreases records.len() - i,
    {
        let ghost before = *store;
        let record = records[i].clone();
        proof {
            assert(all[i as int] == record@);
            assert(all.take(i + 1).drop_last() =~= all.take(i as int));
        }
        match store.insert(record) {
            Ok(()) => {},
            Err(err) => {
                proof {
                    assert(before.may_refuse(StoreRequest::Insert(all[i as int]), err));
                    assert(refuses::<S>(
                        with_all(old(store).records(), all.take(i as int)),
                        StoreRequest::Insert(all[i as int]),
                    ));
                }
                return false;
            },
        }
        i = i + 1;
    }
    proof {
        assert(all.take(i as int) =~= all);
    }
    true
}

/// Whether a check that searches a store comes out as it does: some records are
/// put in first, and a search with an outcome decides.
pub open spec fn decided_by_search<S: VectorStore>(
    before: Map<Seq<char>, RecordModel>,
    after: S,
    new: Seq<RecordModel>,
    vector: Seq<u32>,
    top_k: nat,
    filters: Map<Seq<char>, Seq<char>>,
    threshold: Option<i64>,
    accepts: spec_fn(Seq<ResultModel>) -> bool,
    r: bool,
) -> bool {
    ||| !r && refuses_one::<S>(before, new)
    ||| {
        &&& after.records() == with_all(before, new)
        &&& exists|outcome: Result<Seq<ResultModel>, VectorStoreError>| #[trigger]
            after.may_find(vector, top_k, filters, threshold, outcome) && r == (outcome matches Ok(
                found,
            ) && accepts(found))
    }
}

/// Whether the first of some results has an id.
pub open spec fn starts_with(found: Seq<ResultModel>, id: Seq<char>) -> bool {
    found.len() > 0 && found[0].id == id
}

/// Whether some results are one with an id.
pub open spec fn is_only(found: Seq<ResultModel>, id: Seq<char>) -> bool {
    found.len() == 1 && found[0].id == id
}

fn has_only(found: &Vec<SearchResult>, id: &str) -> (r: bool)
    ensures
        r == is_only(rank::views(found@), id@),
{
    found.len() == 1 && text::same(found[0].id.as_str(), id)
}

/// The records that the check of the number of results puts in.
pub open spec fn four_points() -> Seq<RecordModel> {
    seq![
        point("a"@, ONE, 0),
        point("b"@, 0, ONE),
        point("c"@, ONE, ONE),
        point("d"@, TWO, 0),
    ]
}

/// The records that the check of the order of results puts in.
pub open spec fn three_points() -> Seq<RecordModel> {
    seq![point("a"@, ONE, 0), point("b"@, 0, ONE), point("c"@, FIVE, FIVE)]
}

/// The records that the checks of the threshold put in.
pub open spec fn near_and_far() -> Seq<RecordModel> {
    seq![point("close"@, ONE, 0), point("far"@, FIFTY, FIFTY)]
}

/// The records that a check of the filters puts in.
pub open spec fn two_tagged(
    key: Seq<char>,
    id: Seq<char>,
    value: Seq<char>,
    other_id: Seq<char>,
    other_value: Seq<char>,
) -> Seq<RecordModel> {
    seq![
        tagged_point(id, ONE, 0, key, value),
        tagged_point(other_id, ONE, 0, key, other_value),
    ]
}

/// The records that the check of the list puts in.
pub open spec fn corners() -> Seq<RecordModel> {
    seq![point("a"@, ONE, 0), point("b"@, 0, ONE), point("c"@, ONE, ONE)]
}

/// The records that the check of the pages puts in.
pub open spec fn five_points() -> Seq<RecordModel> {
    seq![
        point("a"@, ONE, 0),
        point("b"@, 0, ONE),
        point("c"@, ONE, ONE),
        point("d"@, TWO, 0),
        point("e"@, THREE, 0),
    ]
}

/// The ids of some records.
pub open spec fn ids_of(records: Seq<RecordModel>) -> Seq<Seq<char>> {
    records.map_values(|r: RecordModel| r.id)
}

/// Whether some ids are others, in any order.
pub open spec fn same_ids(ids: Seq<Seq<char>>, others: Seq<Seq<char>>) -> bool {
    &&& ids.len() == others.len()
    &&& forall|i: int| 0 <= i < others.len() ==> ids.contains(#[trigger] others[i])
}

/// Whether a search that is filtered by an entry finds the record with it, and
/// not the one with another value.
fn filters_by<S: VectorStore>(
    store: &mut S,
    key: &str,
    id: &str,
    value: &str,
    other_id: &str,
    other_value: &str,
) -> (r: bool)
    ensures
        decided_by_search(
            old(store).records(),
            *final(store),
            two_tagged(key@, id@, value@, other_id@, other_value@),
            seq![0u32, 0],
            10,
            Map::empty().insert(key@, value@),
            None,
            |found: Seq<ResultModel>| is_only(found, id@),
            r,
        ),
{
    let mut records: Vec<VectorRecord> = Vec::new();
    records.push(make_tagged_point(id, ONE, 0, key, value));
    records.push(make_tagged_point(other_id, ONE, 0, key, other_value));
    proof {
        assert(rank::views(records@) =~= two_tagged(
            key@,
            id@,
            value@,
            other_id@,
            other_value@,
        ));
    }
    if !insert_all(store, records) {
        return false;
    }
    let mut filters = Payload::new();
    filters.insert(key.to_owned(), value.to_owned());
    let vector = make_vector(0, 0);
    let outcome = store.search(vector.as_slice(), 10, &filters, None);
    proof {
        assert(store.may_find(
            seq![0u32, 0],
            10,
            Map::empty().insert(key@, value@),
            None,
            super::found_in(outcome),
        ));
    }
    match outcome {
        Ok(found) => has_only(&found, id),
        Err(_) => false,
    }
}

/// Whether a store may list these ids as its first two and its next two.
pub open spec fn may_page_twice<V: VectorStore>(
    store: V,
    first: Seq<Seq<char>>,
    second: Seq<Seq<char>>,
) -> bool {
    store.may_page(0, 2, first) && store.may_page(2, 2, second)
}

/// Whether some ids have one in common.
pub open spec fn share(first: Seq<Seq<char>>, second: Seq<Seq<char>>) -> bool {
    exists|id: Seq<char>| first.contains(id) && #[trigger] second.contains(id)
}

/// Checks that hold of every vector store of its kind. A check that fails says
/// so; it leaves the records that it made where they are.
pub trait VectorStoreContractTests: VectorStore + Sized {
    /// Whether a record that is put in can be read.
    fn contract_insert_then_get_round_trips(&mut self) -> (r: bool)
        ensures
            ({
                let before = old(self).records();
                let record = point("a"@, ONE, TWO);
                let after = before.insert("a"@, record);
                &&& r ==> final(self).records() == after
                &&& !r ==> refuses::<Self>(before, StoreRequest::Insert(record)) || refuses::<Self>(
                    after,
                    StoreRequest::Get("a"@),
                )
            }),
    {
        let ghost before = *self;
        let record = make_point("a", ONE, TWO);
        let kept = record.clone();
        match self.insert(record) {
            Ok(()) => {},
            Err(err) => {
                proof {
                    assert(before.may_refuse(StoreRequest::Insert(point("a"@, ONE, TWO)), err));
                }
                return false;
            },
        }
        match self.get("a") {
            Ok(Some(found)) => same_record(&found, &kept),
            Ok(None) => false,
            Err(err) => {
                proof {
                    assert(self.may_refuse(StoreRequest::Get("a"@), err));
                }
                false
            },
        }
    }

    /// Whether a record that is deleted cannot be read.
    fn contract_delete_then_get_returns_none(&mut self) -> (r: bool)
        ensures
            ({
                let before = old(self).records();
                let record = point("b"@, THREE, FOUR);
                let between = before.insert("b"@, record);
                let after = between.remove("b"@);
                &&& r ==> final(self).records() == after
                &&& !r ==> {
                    ||| refuses::<Self>(before, StoreRequest::Insert(record))
                    ||| refuses::<Self>(between, StoreRequest::Delete("b"@))
                    ||| refuses::<Self>(after, StoreRequest::Get("b"@))
                }
            }),
    {
        let ghost before = *self;
        match self.insert(make_point("b", THREE, FOUR)) {
            Ok(()) => {},
            Err(err) => {
                proof {
                    assert(before.may_refuse(StoreRequest::Insert(point("b"@, THREE, FOUR)), err));
                }
                return false;
            },
        }
        let ghost between = *self;
        match self.delete("b") {
            Ok(()) => {},
            Err(err) => {
                proof {
                    assert(between.may_refuse(StoreRequest::Delete("b"@), err));
                }
                return false;
            },
        }
        match self.get("b") {
            Ok(found) => found.is_none(),
            Err(err) => {
                proof {
                    assert(self.may_refuse(StoreRequest::Get("b"@), err));
                }
                false
            },
        }
    }

    /// Whether a store that is reset lists nothing.
    fn contract_reset_clears_everything(&mut self) -> (r: bool)
        ensures
            ({
                let before = old(self).records();
                let record = point("c"@, FIVE, SIX);
                let between = before.insert("c"@, record);
                let after = Map::<Seq<char>, RecordModel>::empty();
                &&& r ==> final(self).records() == after
                &&& !r ==> {
                    ||| refuses::<Self>(before, StoreRequest::Insert(record))
                    ||| refuses::<Self>(between, StoreRequest::Reset)
                    ||| refuses::<Self>(after, StoreRequest::List)
                }
            }),
    {
        let ghost before = *self;
        match self.insert(make_point("c", FIVE, SIX)) {
            Ok(()) => {},
            Err(err) => {
                proof {
                    assert(before.may_refuse(StoreRequest::Insert(point("c"@, FIVE, SIX)), err));
                }
                return false;
            },
        }
        let ghost between = *self;
        match self.reset() {
            Ok(()) => {},
            Err(err) => {
                proof {
                    assert(between.may_refuse(StoreRequest::Reset, err));
                }
                return false;
            },
        }
        match self.list(0, usize::MAX) {
            Ok(ids) => {
                proof {
                    lemma_empty_order(*self);
                    assert(text::texts(ids@).len() == ids@.len());
                }
                ids.len() == 0
            },
            Err(err) => {
                proof {
                    assert(self.may_refuse(StoreRequest::List, err));
                }
                false
            },
        }
    }

    /// Whether a search hands out as many results as were asked for.
    fn contract_search_respects_top_k(&mut self) -> (r: bool)
        ensures
            decided_by_search(
                old(self).records(),
                *final(self),
                four_points(),
                seq![0u32, 0],
                2,
                Map::empty(),
                None,
                |found: Seq<ResultModel>| found.len() == 2,
                r,
            ),
    {
        let mut records: Vec<VectorRecord> = Vec::new();
        records.push(make_point("a", ONE, 0));
        records.push(make_point("b", 0, ONE));
        records.push(make_point("c", ONE, ONE));
        records.push(make_point("d", TWO, 0));
        proof {
            assert(rank::views(records@) =~= four_points());
        }
        if !insert_all(self, records) {
            return false;
        }
        let vector = make_vector(0, 0);
        let outcome = self.search(vector.as_slice(), 2, &Payload::new(), None);
        proof {
            assert(self.may_find(seq![0u32, 0], 2, Map::empty(), None, super::found_in(outcome)));
        }
        match outcome {
            Ok(found) => found.len() == 2,
            Err(_) => false,
        }
    }

    /// Whether a record that is updated can be read as it is then.
    fn contract_update_then_get_reflects_change(&mut self) -> (r: bool)
        ensures
            ({
                let before = old(self).records();
                let record = point("a"@, ONE, TWO);
                let between = before.insert("a"@, record);
                let changed = point("a"@, THREE, FOUR);
                let after = between.insert("a"@, changed);
                &&& r ==> final(self).records() == after
                &&& !r ==> {
                    ||| refuses::<Self>(before, StoreRequest::Insert(record))
                    ||| refuses::<Self>(between, StoreRequest::Update(changed))
                    ||| refuses::<Self>(after, StoreRequest::Get("a"@))
                }
            }),
    {
        let ghost before = *self;
        match self.insert(make_point("a", ONE, TWO)) {
            Ok(()) => {},
            Err(err) => {
                proof {
                    assert(before.may_refuse(StoreRequest::Insert(point("a"@, ONE, TWO)), err));
                }
                return false;
            },
        }
        let ghost between = *self;
        let changed = make_point("a", THREE, FOUR);
        let kept = changed.clone();
        match self.update(changed) {
            Ok(()) => {},
            Err(err) => {
                proof {
                    assert(between.may_refuse(StoreRequest::Update(point("a"@, THREE, FOUR)), err));
                }
                return false;
            },
        }
        match self.get("a") {
            Ok(Some(found)) => same_record(&found, &kept),
            Ok(None) => false,
            Err(err) => {
                proof {
                    assert(self.may_refuse(StoreRequest::Get("a"@), err));
                }
                false
            },
        }
    }

    /// Whether a record that was never put in can be deleted.
    fn contract_delete_nonexistent_is_idempotent(&mut self) -> (r: bool)
        ensures
            r ==> final(self).records() == old(self).records().remove("never-inserted"@),
            !r ==> refuses::<Self>(old(self).records(), StoreRequest::Delete("never-inserted"@)),
    {
        let ghost before = *self;
        match self.delete("never-inserted") {
            Ok(()) => true,
            Err(err) => {
                proof {
                    assert(before.may_refuse(StoreRequest::Delete("never-inserted"@), err));
                }
                false
            },
        }
    }

    /// Whether a record that was never put in cannot be updated.
    fn contract_update_nonexistent_returns_not_found(&mut self) -> (r: bool)
        ensures
            ({
                let request = StoreRequest::Update(point("missing"@, ONE, TWO));
                &&& r ==> old(self).may_refuse(request, VectorStoreError::NotFound)
                &&& !r ==> old(self).records().contains_key("missing"@) || exists|
                    err: VectorStoreError,
                |
                    err != VectorStoreError::NotFound && #[trigger] old(self).may_refuse(
                        request,
                        err,
                    )
            }),
    {
        match self.update(make_point("missing", ONE, TWO)) {
            Err(VectorStoreError::NotFound) => true,
            _ => false,
        }
    }

    /// Whether a store lists every record that was put in, and no other.
    fn contract_list_returns_all_inserted_ids(&mut self) -> (r: bool)
        ensures
            ({
                let before = old(self).records();
                let after = with_all(before, corners());
                &&& r ==> final(self).records() == after && same_ids(
                    super::all_ids(*final(self)),
                    ids_of(corners()),
                )
                &&& !r ==> {
                    ||| refuses_one::<Self>(before, corners())
                    ||| refuses::<Self>(after, StoreRequest::List)
                    ||| before != Map::<Seq<char>, RecordModel>::empty()
                }
            }),
    {
        let mut records: Vec<VectorRecord> = Vec::new();
        records.push(make_point("a", ONE, 0));
        records.push(make_point("b", 0, ONE));
        records.push(make_point("c", ONE, ONE));
        proof {
            assert(rank::views(records@) =~= corners());
        }
        if !insert_all(self, records) {
            return false;
        }
        match self.list(0, usize::MAX) {
            Ok(ids) => {
                let ghost listed = text::texts(ids@);
                proof {
                    assert(ids_of(corners()) =~= seq!["a"@, "b"@, "c"@]);
                    assert(ids_of(corners())[0] == "a"@);
                    assert(ids_of(corners())[1] == "b"@);
                    assert(ids_of(corners())[2] == "c"@);
                    super::lemma_all_ids(*self);
                    if old(self).records() == Map::<Seq<char>, RecordModel>::empty() {
                        lemma_corners(*self);
                    }
                }
                ids.len() == 3 && text::is_among("a", &ids) && text::is_among("b", &ids)
                    && text::is_among("c", &ids)
            },
            Err(err) => {
                proof {
                    assert(self.may_refuse(StoreRequest::List, err));
                }
                false
            },
        }
    }

    /// Whether two pages of a list are as long as was asked for, with nothing in
    /// common.
    fn contract_list_pagination_respects_offset_and_limit(&mut self) -> (r: bool)
        ensures
            ({
                let before = old(self).records();
                let after = with_all(before, five_points());
                &&& r ==> {
                    &&& final(self).records() == after
                    &&& final(self).order().len() >= 4
                    &&& exists|first: Seq<Seq<char>>, second: Seq<Seq<char>>| #[trigger]
                        may_page_twice(*final(self), first, second) && !share(first, second)
                }
                &&& !r ==> {
                    ||| refuses_one::<Self>(before, five_points())
                    ||| refuses::<Self>(after, StoreRequest::List)
                    ||| final(self).order().len() < 4
                    ||| exists|first: Seq<Seq<char>>, second: Seq<Seq<char>>| #[trigger]
                        may_page_twice(*final(self), first, second) && share(first, second)
                }
            }),
    {
        let mut records: Vec<VectorRecord> = Vec::new();
        records.push(make_point("a", ONE, 0));
        records.push(make_point("b", 0, ONE));
        records.push(make_point("c", ONE, ONE));
        records.push(make_point("d", TWO, 0));
        records.push(make_point("e", THREE, 0));
        proof {
            assert(rank::views(records@) =~= five_points());
        }
        if !insert_all(self, records) {
            return false;
        }
        let first = match self.list(0, 2) {
            Ok(ids) => ids,
            Err(err) => {
                proof {
                    assert(self.may_refuse(StoreRequest::List, err));
                }
                return false;
            },
        };
        let second = match self.list(2, 2) {
            Ok(ids) => ids,
            Err(err) => {
                proof {
                    assert(self.may_refuse(StoreRequest::List, err));
                }
                return false;
            },
        };
        proof {
            rank::law_page_length(self.order(), 0, 2);
            rank::law_page_length(self.order(), 2, 2);
            assert(text::texts(first@).len() == first@.len());
            assert(text::texts(second@).len() == second@.len());
        }
        if first.len() != 2 || second.len() != 2 {
            return false;
        }
        proof {
            let one = text::texts(first@);
            let other = text::texts(second@);
            assert(may_page_twice(*self, one, other));
            assert(one[0] == first@[0]@ && one[1] == first@[1]@);
            if other.contains(one[0]) {
                assert(share(one, other));
            }
            if other.contains(one[1]) {
                assert(share(one, other));
            }
            if share(one, other) {
                let id = choose|id: Seq<char>| one.contains(id) && #[trigger] other.contains(id);
                let k = choose|k: int| 0 <= k < one.len() && one[k] == id;
                assert(k == 0 || k == 1);
            }
        }
        !text::is_among(first[0].as_str(), &second) && !text::is_among(first[1].as_str(), &second)
    }

    /// Whether a store without records lists none.
    fn contract_list_on_empty_store_returns_empty(&mut self) -> (r: bool)
        ensures
            *final(self) == *old(self),
            r ==> old(self).order().len() == 0,
            !r ==> old(self).order().len() > 0 || refuses::<Self>(
                old(self).records(),
                StoreRequest::List,
            ),
    {
        match self.list(0, usize::MAX) {
            Ok(ids) => {
                proof {
                    assert(text::texts(ids@).len() == ids@.len());
                    rank::law_page_length(self.order(), 0, usize::MAX as nat);
                }
                ids.len() == 0
            },
            Err(err) => {
                proof {
                    assert(self.may_refuse(StoreRequest::List, err));
                }
                false
            },
        }
    }

    /// Whether a record is refused whose vector has another length.
    fn contract_insert_rejects_mismatched_dimension(&mut self) -> (r: bool)
        ensures
            ({
                let before = old(self).records();
                let record = point("a"@, ONE, TWO);
                let between = before.insert("a"@, record);
                let wrong = RecordModel { id: "b"@, vector: seq![ONE], payload: Map::empty() };
                let mismatch = VectorStoreError::DimensionMismatch { expected: 2, actual: 1 };
                &&& r ==> exists|store: Self|
                    store.records() == between && #[trigger] store.may_refuse(
                        StoreRequest::Insert(wrong),
                        mismatch,
                    )
                &&& !r ==> {
                    ||| refuses::<Self>(before, StoreRequest::Insert(record))
                    ||| final(self).records() == between.insert("b"@, wrong)
                    ||| exists|store: Self, err: VectorStoreError|
                        {
                            &&& store.records() == between
                            &&& #[trigger] store.may_refuse(StoreRequest::Insert(wrong), err)
                            &&& err != mismatch
                        }
                }
            }),
    {
        let ghost before = *self;
        match self.insert(make_point("a", ONE, TWO)) {
            Ok(()) => {},
            Err(err) => {
                proof {
                    assert(before.may_refuse(StoreRequest::Insert(point("a"@, ONE, TWO)), err));
                }
                return false;
            },
        }
        let ghost between = *self;
        let mut vector: Vec<u32> = Vec::new();
        vector.push(ONE);
        proof {
            assert(vector@ =~= seq![ONE]);
        }
        let wrong = VectorRecord::new("b", vector, Payload::new());
        let ghost model = wrong@;
        match self.insert(wrong) {
            Err(err) => {
                proof {
                    assert(between.may_refuse(StoreRequest::Insert(model), err));
                }
                match err {
                    VectorStoreError::DimensionMismatch { expected, actual } => expected == 2
                        && actual == 1,
                    _ => false,
                }
            },
            Ok(()) => false,
        }
    }

    /// Whether the closest record comes first.
    fn contract_search_orders_by_score(&mut self) -> (r: bool)
        ensures
            decided_by_search(
                old(self).records(),
                *final(self),
                three_points(),
                seq![ABOVE_ONE, 0],
                3,
                Map::empty(),
                None,
                |found: Seq<ResultModel>| starts_with(found, "a"@),
                r,
            ),
    {
        let mut records: Vec<VectorRecord> = Vec::new();
        records.push(make_point("a", ONE, 0));
        records.push(make_point("b", 0, ONE));
        records.push(make_point("c", FIVE, FIVE));
        proof {
            assert(rank::views(records@) =~= three_points());
        }
        if !insert_all(self, records) {
            return false;
        }
        let vector = make_vector(ABOVE_ONE, 0);
        let outcome = self.search(vector.as_slice(), 3, &Payload::new(), None);
        proof {
            assert(self.may_find(
                seq![ABOVE_ONE, 0],
                3,
                Map::empty(),
                None,
                super::found_in(outcome),
            ));
        }
        match outcome {
            Ok(found) => found.len() > 0 && text::same(found[0].id.as_str(), "a"),
            Err(_) => false,
        }
    }

    /// Whether a threshold leaves out what is too far away.
    fn contract_search_respects_threshold(&mut self) -> (r: bool)
        ensures
            decided_by_search(
                old(self).records(),
                *final(self),
                near_and_far(),
                seq![ONE, 0],
                10,
                Map::empty(),
                Some(ONE_KEY),
                |found: Seq<ResultModel>| is_only(found, "close"@),
                r,
            ),
    {
        let mut records: Vec<VectorRecord> = Vec::new();
        records.push(make_point("close", ONE, 0));
        records.push(make_point("far", FIFTY, FIFTY));
        proof {
            assert(rank::views(records@) =~= near_and_far());
        }
        if !insert_all(self, records) {
            return false;
        }
        let vector = make_vector(ONE, 0);
        let outcome = self.search(vector.as_slice(), 10, &Payload::new(), Some(ONE_KEY));
        proof {
            assert(self.may_find(
                seq![ONE, 0],
                10,
                Map::empty(),
                Some(ONE_KEY),
                super::found_in(outcome),
            ));
        }
        match outcome {
            Ok(found) => has_only(&found, "close"),
            Err(_) => false,
        }
    }

    /// Whether nothing is left out where there is no threshold.
    fn contract_search_with_no_threshold_returns_everything_up_to_top_k(&mut self) -> (r: bool)
        ensures
            decided_by_search(
                old(self).records(),
                *final(self),
                near_and_far(),
                seq![ONE, 0],
                10,
                Map::empty(),
                None,
                |found: Seq<ResultModel>| found.len() == 2,
                r,
            ),
    {
        let mut records: Vec<VectorRecord> = Vec::new();
        records.push(make_point("close", ONE, 0));
        records.push(make_point("far", FIFTY, FIFTY));
        proof {
            assert(rank::views(records@) =~= near_and_far());
        }
        if !insert_all(self, records) {
            return false;
        }
        let vector = make_vector(ONE, 0);
        let outcome = self.search(vector.as_slice(), 10, &Payload::new(), None);
        proof {
            assert(self.may_find(seq![ONE, 0], 10, Map::empty(), None, super::found_in(outcome)));
        }
        match outcome {
            Ok(found) => found.len() == 2,
            Err(_) => false,
        }
    }

    /// Whether a search sees the records of one user alone.
    fn contract_search_filters_by_metadata_key(&mut self) -> (r: bool)
        ensures
            decided_by_search(
                old(self).records(),
                *final(self),
                two_tagged("user_id"@, "alice-1"@, "alice"@, "bob-1"@, "bob"@),
                seq![0u32, 0],
                10,
                Map::empty().insert("user_id"@, "alice"@),
                None,
                |found: Seq<ResultModel>| is_only(found, "alice-1"@),
                r,
            ),
    {
        filters_by(self, "user_id", "alice-1", "alice", "bob-1", "bob")
    }

    /// Whether a search sees the records of one agent alone.
    fn contract_search_filters_by_agent_id(&mut self) -> (r: bool)
        ensures
            decided_by_search(
                old(self).records(),
                *final(self),
                two_tagged("agent_id"@, "agent-a-1"@, "agent-a"@, "agent-b-1"@, "agent-b"@),
                seq![0u32, 0],
                10,
                Map::empty().insert("agent_id"@, "agent-a"@),
                None,
                |found: Seq<ResultModel>| is_only(found, "agent-a-1"@),
                r,
            ),
    {
        filters_by(self, "agent_id", "agent-a-1", "agent-a", "agent-b-1", "agent-b")
    }

    /// Whether a search sees the records of one run alone.
    fn contract_search_filters_by_run_id(&mut self) -> (r: bool)
        ensures
            decided_by_search(
                old(self).records(),
                *final(self),
                two_tagged("run_id"@, "run-1-1"@, "run-1"@, "run-2-1"@, "run-2"@),
                seq![0u32, 0],
                10,
                Map::empty().insert("run_id"@, "run-1"@),
                None,
                |found: Seq<ResultModel>| is_only(found, "run-1-1"@),
                r,
            ),
    {
        filters_by(self, "run_id", "run-1-1", "run-1", "run-2-1", "run-2")
    }
}

impl<T: VectorStore> VectorStoreContractTests for T {

}

proof fn lemma_corners<S: VectorStore>(store: S)
    requires
        store.records() == with_all(Map::empty(), corners()),
        store.order().no_duplicates(),
        forall|id: Seq<char>|
            store.order().contains(id) <==> #[trigger] store.records().contains_key(id),
    ensures
        super::all_ids(store).len() == 3,
        super::all_ids(store).contains("a"@),
        super::all_ids(store).contains("b"@),
        super::all_ids(store).contains("c"@),
{
    reveal_strlit("a");
    reveal_strlit("b");
    reveal_strlit("c");
    assert("a"@[0] == 'a');
    assert("b"@[0] == 'b');
    assert("c"@[0] == 'c');
    let all = corners();
    reveal_with_fuel(with_all, 4);
    assert(all.drop_last() =~= seq![all[0], all[1]]);
    assert(all.drop_last().drop_last() =~= seq![all[0]]);
    assert(all.drop_last().drop_last().drop_last() =~= Seq::empty());
    let records = Map::empty().insert("a"@, all[0]).insert("b"@, all[1]).insert("c"@, all[2]);
    assert(store.records() =~= records);
    let order = store.order();
    let ids = set!["a"@, "b"@, "c"@];
    assert(order.to_set() =~= ids) by {
        assert forall|id: Seq<char>| order.to_set().contains(id) == ids.contains(id) by {
            assert(order.contains(id) == records.contains_key(id));
        }
    }
    order.unique_seq_to_set();
    assert(ids.len() == 3);
    assert(super::all_ids(store) =~= order);
    assert(order.contains("a"@) && order.contains("b"@) && order.contains("c"@)) by {
        assert(records.contains_key("a"@));
        assert(records.contains_key("b"@));
        assert(records.contains_key("c"@));
    }
}

proof fn lemma_empty_order<S: VectorStore>(store: S)
    requires
        store.records() == Map::<Seq<char>, RecordModel>::empty(),
        forall|id: Seq<char>|
            store.order().contains(id) <==> #[trigger] store.records().contains_key(id),
    ensures
        store.order().len() == 0,
{
    if store.order().len() > 0 {
        assert(store.order().contains(store.order()[0]));
        assert(store.records().contains_key(store.order()[0]));
    }
}

} // verus!
