//! Records with their vectors, and the stores that keep and search them.
//!
//! A vector is held by the single-precision bits of its components. A score is
//! held by its order key (see `number`): the smaller it is, the closer the
//! record.

pub mod contract;
pub mod laws;

pub use contract::VectorStoreContractTests;

use crate::error::CoreError;
use crate::number;
use crate::number::is_comparable;
use crate::payload;
use crate::payload::Payload;
use crate::rank;
use crate::rank::Ranked;
use crate::text;
use crate::text::CharClass;
use crate::textmap;
use crate::textmap::TextMap;
use vstd::prelude::*;

verus! {

/// Why a vector store could not do what it was asked.
#[derive(Clone, Debug, PartialEq, Eq)]
pub enum VectorStoreError {
    NotFound,
    DimensionMismatch { expected: usize, actual: usize },
    Backend(String),
}

impl VectorStoreError {
    /// What the error says.
    pub open spec fn shown(self) -> Seq<char> {
        match self {
            VectorStoreError::NotFound => "record not found"@,
            VectorStoreError::DimensionMismatch { expected, actual } => {
                "vector dimension mismatch: expected "@ + text::decimal(expected as nat) + ", got "@
                    + text::decimal(actual as nat)
            },
            VectorStoreError::Backend(reason) => "backend error: "@ + reason@,
        }
    }

    /// What the error says.
    pub fn to_string(&self) -> (r: String)
        ensures
            r@ == self.shown(),
    {
        match self {
            VectorStoreError::NotFound => "record not found".to_owned(),
            VectorStoreError::DimensionMismatch { expected, actual } => {
                let mut r = text::concat(
                    "vector dimension mismatch: expected ",
                    text::to_decimal(*expected as u128).as_str(),
                );
                r.append(", got ");
                r.append(text::to_decimal(*actual as u128).as_str());
                r
            },
            VectorStoreError::Backend(reason) => text::concat("backend error: ", reason.as_str()),
        }
    }
}

/// A record: its id, its vector and what it says.
#[derive(Debug, PartialEq)]
pub struct VectorRecord {
    pub id: String,
    pub vector: Vec<u32>,
    pub payload: Payload,
}

/// A record as a value.
#[verifier::ext_equal]
pub struct RecordModel {
    pub id: Seq<char>,
    pub vector: Seq<u32>,
    pub payload: Map<Seq<char>, Seq<char>>,
}

impl View for VectorRecord {
    type V = RecordModel;

    open spec fn view(&self) -> RecordModel {
        RecordModel { id: self.id@, vector: self.vector@, payload: self.payload@ }
    }
}

impl VectorRecord {
    pub fn new(id: &str, vector: Vec<u32>, payload: Payload) -> (r: Self)
        ensures
            r@ == (RecordModel { id: id@, vector: vector@, payload: payload@ }),
            r.vector == vector,
            r.payload == payload,
    {
        VectorRecord { id: id.to_owned(), vector, payload }
    }
}

/// A copy of a vector.
pub fn copy_vector(v: &Vec<u32>) -> (r: Vec<u32>)
    ensures
        r@ == v@,
{
    let mut r: Vec<u32> = Vec::new();
    let mut i: usize = 0;
    while i < v.len()
        invariant
            i <= v.len(),
            r@ == v@.take(i as int),
        decreases v.len() - i,
    {
        r.push(v[i]);
        i = i + 1;
    }
    proof {
        assert(v@.take(i as int) =~= v@);
    }
    r
}

impl Clone for VectorRecord {
    fn clone(&self) -> (r: Self)
        ensures
            r@ == self@,
    {
        VectorRecord {
            id: self.id.clone(),
            vector: copy_vector(&self.vector),
            payload: self.payload.clone(),
        }
    }
}

/// How a score came about.
#[derive(Clone, Copy, Debug, PartialEq, Eq, Structural)]
pub struct ScoreDetails {
    pub semantic_score: i64,
    pub bm25_score: Option<i64>,
    pub entity_boost: Option<i64>,
    pub raw_score: i64,
    pub final_score: i64,
}

/// A record that a search found, with its score.
#[derive(Debug, PartialEq)]
pub struct SearchResult {
    pub id: String,
    pub score: i64,
    pub payload: Payload,
    pub score_details: Option<ScoreDetails>,
}

/// A search result as a value.
#[verifier::ext_equal]
pub struct ResultModel {
    pub id: Seq<char>,
    pub score: i64,
    pub payload: Map<Seq<char>, Seq<char>>,
    pub score_details: Option<ScoreDetails>,
}

impl View for SearchResult {
    type V = ResultModel;

    open spec fn view(&self) -> ResultModel {
        ResultModel {
            id: self.id@,
            score: self.score,
            payload: self.payload@,
            score_details: self.score_details,
        }
    }
}

impl Clone for SearchResult {
    fn clone(&self) -> (r: Self)
        ensures
            r@ == self@,
    {
        SearchResult {
            id: self.id.clone(),
            score: self.score,
            payload: self.payload.clone(),
            score_details: self.score_details,
        }
    }
}

impl Ranked for SearchResult {
    open spec fn may_precede(a: ResultModel, b: ResultModel) -> bool {
        a.score <= b.score
    }

    fn is_not_after(&self, other: &Self) -> (b: bool) {
        self.score <= other.score
    }
}

/// Where a vector store is, and what it holds.
#[derive(Clone, Debug, PartialEq, Eq)]
pub struct VectorStoreConfig {
    pub collection_name: String,
    pub url: Option<String>,
    pub api_key: Option<String>,
    pub dimension: Option<usize>,
}

impl VectorStoreConfig {
    /// What is wrong with the configuration, if anything is.
    pub open spec fn problem(self) -> Option<Seq<char>> {
        if text::trimmed(self.collection_name@, CharClass::Space).len() == 0 {
            Some("collection_name must not be empty"@)
        } else if self.dimension == Some(0usize) {
            Some("dimension must be greater than zero"@)
        } else {
            None
        }
    }

    /// Accepts a configuration whose collection has a name and whose dimension,
    /// if it is set, is not zero.
    pub fn validate(&self) -> (r: Result<(), CoreError>)
        ensures
            match self.problem() {
                None => r is Ok,
                Some(message) => r matches Err(err) && err.is_config(message),
            },
    {
        if text::trim(self.collection_name.as_str(), CharClass::Space).as_str().is_empty() {
            return Err(CoreError::Config("collection_name must not be empty".to_owned()));
        }
        match self.dimension {
            Some(n) => {
                if n == 0 {
                    return Err(CoreError::Config("dimension must be greater than zero".to_owned()));
                }
            },
            None => {},
        }
        Ok(())
    }
}

/// What holds of the results of a search, whatever the vector: each is a record
/// of the store that has the filters' entries, none is above the threshold if
/// that is a number, no record comes twice, the closer ones come first, and there
/// are not more than were asked for.
pub open spec fn sound_results(
    records: Map<Seq<char>, RecordModel>,
    top_k: nat,
    filters: Map<Seq<char>, Seq<char>>,
    threshold: Option<i64>,
    found: Seq<ResultModel>,
) -> bool {
    &&& top_k > 0 ==> found.len() <= top_k
    &&& rank::in_order::<SearchResult>(found)
    &&& forall|i: int, j: int|
        0 <= i < j < found.len() ==> (#[trigger] found[i]).id != (#[trigger] found[j]).id
    &&& forall|i: int|
        0 <= i < found.len() ==> {
            let r = #[trigger] found[i];
            &&& records.contains_key(r.id)
            &&& r.payload == records[r.id].payload
            &&& payload::covers(r.payload, filters)
            &&& threshold matches Some(t) ==> number::compares(t) ==> within(threshold, r.score)
            &&& r.score_details is None
        }
}

/// What a store is asked to do.
pub enum StoreRequest {
    Insert(RecordModel),
    Get(Seq<char>),
    Update(RecordModel),
    Delete(Seq<char>),
    List,
    Reset,
}

/// A place for records.
///
/// A store may fail at any time. What it says when it does not fail is about
/// the records that it holds.
pub trait VectorStore {
    /// The records by their ids; unless the store says more, nothing is known of
    /// them.
    open spec fn records(&self) -> Map<Seq<char>, RecordModel> {
        arbitrary()
    }

    /// The ids in the order in which all of them are listed; unless the store says
    /// more, nothing is known of it.
    open spec fn order(&self) -> Seq<Seq<char>> {
        arbitrary()
    }

    /// Whether these ids may be listed from an offset on, up to a limit; unless the
    /// store says more, any.
    open spec fn may_page(&self, offset: nat, limit: nat, ids: Seq<Seq<char>>) -> bool {
        true
    }

    /// Whether the ids may be listed in an order after a record with an id was put
    /// in; unless the store says more, in any.
    open spec fn may_order(&self, id: Seq<char>, order: Seq<Seq<char>>) -> bool {
        true
    }

    /// Which scores the store may give two vectors; unless the store says more,
    /// nothing is known of it. No change of the records changes it.
    open spec fn measure(&self) -> spec_fn(Seq<u32>, Seq<u32>, i64) -> bool {
        arbitrary()
    }

    /// Whether a search may have an outcome; unless the store says more, any.
    open spec fn may_find(
        &self,
        vector: Seq<u32>,
        top_k: nat,
        filters: Map<Seq<char>, Seq<char>>,
        threshold: Option<i64>,
        outcome: Result<Seq<ResultModel>, VectorStoreError>,
    ) -> bool {
        true
    }

    /// Whether a search by keywords may have an outcome; unless the store says
    /// more, any.
    open spec fn may_match(
        &self,
        query: Seq<char>,
        top_k: nat,
        filters: Map<Seq<char>, Seq<char>>,
        outcome: Result<Option<Seq<ResultModel>>, VectorStoreError>,
    ) -> bool {
        true
    }

    /// Whether the store may answer a request with an error; unless the store
    /// says more, with any.
    open spec fn may_refuse(&self, request: StoreRequest, err: VectorStoreError) -> bool {
        true
    }

    /// Whether the store may hold some records after it answered a request to
    /// change something with an error; unless the store says more, any.
    open spec fn may_leave(
        &self,
        request: StoreRequest,
        err: VectorStoreError,
        records: Map<Seq<char>, RecordModel>,
    ) -> bool {
        true
    }

    /// Adds a record, or puts it in the place of the one with the same id.
    fn insert(&mut self, record: VectorRecord) -> (r: Result<(), VectorStoreError>)
        ensures
            final(self).measure() == old(self).measure(),
            r is Ok ==> old(self).may_order(record.id@, final(self).order()),
            r is Ok ==> final(self).records() == old(self).records().insert(record.id@, record@),
            r matches Err(err) ==> {
                &&& old(self).may_refuse(StoreRequest::Insert(record@), err)
                &&& old(self).may_leave(StoreRequest::Insert(record@), err, final(self).records())
            },
    ;

    /// The records closest to a vector among those that have the filters'
    /// entries.
    fn search(
        &self,
        vector: &[u32],
        top_k: usize,
        filters: &Payload,
        threshold: Option<i64>,
    ) -> (r: Result<Vec<SearchResult>, VectorStoreError>)
        ensures
            self.may_find(vector@, top_k as nat, filters@, threshold, found_in(r)),
            r matches Ok(found) ==> sound_results(
                self.records(),
                top_k as nat,
                filters@,
                threshold,
                rank::views(found@),
            ),
    ;

    /// The record with an id.
    fn get(&self, id: &str) -> (r: Result<Option<VectorRecord>, VectorStoreError>)
        ensures
            match r {
                Ok(Some(record)) => self.records().contains_key(id@) && self.records()[id@]
                    == record@ && record.id@ == id@,
                Ok(None) => !self.records().contains_key(id@),
                Err(err) => self.may_refuse(StoreRequest::Get(id@), err),
            },
    ;

    /// Puts a record in the place of the one with the same id.
    fn update(&mut self, record: VectorRecord) -> (r: Result<(), VectorStoreError>)
        ensures
            final(self).measure() == old(self).measure(),
            r is Ok ==> old(self).may_order(record.id@, final(self).order()),
            r is Ok ==> old(self).records().contains_key(record.id@) && final(self).records()
                == old(self).records().insert(record.id@, record@),
            r matches Err(err) ==> {
                &&& old(self).may_refuse(StoreRequest::Update(record@), err)
                &&& old(self).may_leave(StoreRequest::Update(record@), err, final(self).records())
            },
    ;

    /// Takes out the record with an id, if there is one.
    fn delete(&mut self, id: &str) -> (r: Result<(), VectorStoreError>)
        ensures
            final(self).measure() == old(self).measure(),
            r is Ok ==> final(self).records() == old(self).records().remove(id@),
            r matches Err(err) ==> {
                &&& old(self).may_refuse(StoreRequest::Delete(id@), err)
                &&& old(self).may_leave(StoreRequest::Delete(id@), err, final(self).records())
            },
    ;

    /// The ids from an offset on, up to a limit. All of them come in one order; a
    /// part of them may come in an order of its own.
    fn list(&self, offset: usize, limit: usize) -> (r: Result<Vec<String>, VectorStoreError>)
        ensures
            r matches Ok(ids) ==> {
                &&& self.may_page(offset as nat, limit as nat, text::texts(ids@))
                &&& offset == 0 && limit == usize::MAX ==> text::texts(ids@) == rank::page(
                    self.order(),
                    0,
                    usize::MAX as nat,
                )
                &&& offset <= u32::MAX && limit <= u32::MAX ==> ids@.len() == rank::page(
                    self.order(),
                    offset as nat,
                    limit as nat,
                ).len()
                &&& ids@.len() <= limit
                &&& text::texts(ids@).no_duplicates()
                &&& forall|id: Seq<char>| #[trigger]
                    text::texts(ids@).contains(id) ==> self.records().contains_key(id)
                &&& self.order().no_duplicates()
                &&& forall|id: Seq<char>|
                    self.order().contains(id) <==> #[trigger] self.records().contains_key(id)
            },
            r matches Err(err) ==> self.may_refuse(StoreRequest::List, err),
    ;

    /// Takes out all records.
    fn reset(&mut self) -> (r: Result<(), VectorStoreError>)
        ensures
            final(self).measure() == old(self).measure(),
            r is Ok ==> final(self).records() == Map::<Seq<char>, RecordModel>::empty(),
            r matches Err(err) ==> {
                &&& old(self).may_refuse(StoreRequest::Reset, err)
                &&& old(self).may_leave(StoreRequest::Reset, err, final(self).records())
            },
    ;

    /// The records whose content has words of the query, with their scores; a
    /// store that cannot search by keywords answers `None`.
    fn keyword_search(&self, query: &str, top_k: usize, filters: &Payload) -> (r: Result<
        Option<Vec<SearchResult>>,
        VectorStoreError,
    >)
        ensures
            self.may_match(query@, top_k as nat, filters@, matched_in(r)),
    ;
}

/// The ids that a store lists when it is asked for as many as there can be.
pub open spec fn all_ids<V: VectorStore>(store: V) -> Seq<Seq<char>> {
    rank::page(store.order(), 0, usize::MAX as nat)
}

/// Whether the order of a store has the ids of its records, each once.
pub open spec fn orders_records<V: VectorStore>(store: V) -> bool {
    &&& store.order().no_duplicates()
    &&& forall|id: Seq<char>|
        store.order().contains(id) <==> #[trigger] store.records().contains_key(id)
}

/// The ids of a store are those of its records, each once.
pub open spec fn ids_of_records(
    ids: Seq<Seq<char>>,
    records: Map<Seq<char>, RecordModel>,
) -> bool {
    &&& ids.no_duplicates()
    &&& forall|id: Seq<char>| #[trigger] ids.contains(id) ==> records.contains_key(id)
}

/// What a store says of its order holds of the ids that it lists.
pub proof fn lemma_all_ids<V: VectorStore>(store: V)
    requires
        orders_records(store),
    ensures
        ids_of_records(all_ids(store), store.records()),
        store.order().len() <= usize::MAX ==> all_ids(store) == store.order(),
{
    let ids = all_ids(store);
    assert forall|i: int| 0 <= i < ids.len() implies #[trigger] ids[i] == store.order()[i] by {}
    assert forall|id: Seq<char>| #[trigger] ids.contains(id) implies store.records().contains_key(id) by {
        let k = choose|k: int| 0 <= k < ids.len() && ids[k] == id;
        assert(store.order()[k] == id);
    }
    if store.order().len() <= usize::MAX {
        assert(ids =~= store.order());
    }
}

/// The outcome of a search as a value.
pub open spec fn found_in(r: Result<Vec<SearchResult>, VectorStoreError>) -> Result<
    Seq<ResultModel>,
    VectorStoreError,
> {
    match r {
        Ok(found) => Ok(rank::views(found@)),
        Err(err) => Err(err),
    }
}

/// The outcome of a search by keywords as a value.
pub open spec fn matched_in(r: Result<Option<Vec<SearchResult>>, VectorStoreError>) -> Result<
    Option<Seq<ResultModel>>,
    VectorStoreError,
> {
    match r {
        Ok(Some(found)) => Ok(Some(rank::views(found@))),
        Ok(None) => Ok(None),
        Err(err) => Err(err),
    }
}

impl<T: VectorStore + ?Sized> VectorStore for Box<T> {
    open spec fn records(&self) -> Map<Seq<char>, RecordModel> {
        (**self).records()
    }

    open spec fn order(&self) -> Seq<Seq<char>> {
        (**self).order()
    }

    open spec fn may_page(&self, offset: nat, limit: nat, ids: Seq<Seq<char>>) -> bool {
        (**self).may_page(offset, limit, ids)
    }

    open spec fn may_order(&self, id: Seq<char>, order: Seq<Seq<char>>) -> bool {
        (**self).may_order(id, order)
    }

    open spec fn measure(&self) -> spec_fn(Seq<u32>, Seq<u32>, i64) -> bool {
        (**self).measure()
    }

    open spec fn may_find(
        &self,
        vector: Seq<u32>,
        top_k: nat,
        filters: Map<Seq<char>, Seq<char>>,
        threshold: Option<i64>,
        outcome: Result<Seq<ResultModel>, VectorStoreError>,
    ) -> bool {
        (**self).may_find(vector, top_k, filters, threshold, outcome)
    }

    open spec fn may_match(
        &self,
        query: Seq<char>,
        top_k: nat,
        filters: Map<Seq<char>, Seq<char>>,
        outcome: Result<Option<Seq<ResultModel>>, VectorStoreError>,
    ) -> bool {
        (**self).may_match(query, top_k, filters, outcome)
    }

    open spec fn may_refuse(&self, request: StoreRequest, err: VectorStoreError) -> bool {
        (**self).may_refuse(request, err)
    }

    open spec fn may_leave(
        &self,
        request: StoreRequest,
        err: VectorStoreError,
        records: Map<Seq<char>, RecordModel>,
    ) -> bool {
        (**self).may_leave(request, err, records)
    }

    fn insert(&mut self, record: VectorRecord) -> (r: Result<(), VectorStoreError>) {
        (**self).insert(record)
    }

    fn search(
        &self,
        vector: &[u32],
        top_k: usize,
        filters: &Payload,
        threshold: Option<i64>,
    ) -> (r: Result<Vec<SearchResult>, VectorStoreError>) {
        (**self).search(vector, top_k, filters, threshold)
    }

    fn get(&self, id: &str) -> (r: Result<Option<VectorRecord>, VectorStoreError>) {
        (**self).get(id)
    }

    fn update(&mut self, record: VectorRecord) -> (r: Result<(), VectorStoreError>) {
        (**self).update(record)
    }

    fn delete(&mut self, id: &str) -> (r: Result<(), VectorStoreError>) {
        (**self).delete(id)
    }

    fn list(&self, offset: usize, limit: usize) -> (r: Result<Vec<String>, VectorStoreError>) {
        (**self).list(offset, limit)
    }

    fn reset(&mut self) -> (r: Result<(), VectorStoreError>) {
        (**self).reset()
    }

    fn keyword_search(&self, query: &str, top_k: usize, filters: &Payload) -> (r: Result<
        Option<Vec<SearchResult>>,
        VectorStoreError,
    >) {
        (**self).keyword_search(query, top_k, filters)
    }
}

/// A distance between vectors that is defined on all of them.
pub open spec fn measures<D: Fn(&[u32], &[u32]) -> i64>(distance: D) -> bool {
    forall|a: &[u32], b: &[u32]| #[trigger] call_requires(distance, (a, b))
}

/// Whether a distance may give a score to two vectors.
pub open spec fn may_measure<D: Fn(&[u32], &[u32]) -> i64>(
    distance: D,
    a: Seq<u32>,
    b: Seq<u32>,
    score: i64,
) -> bool {
    exists|x: &[u32], y: &[u32]| x@ == a && y@ == b && #[trigger] call_ensures(distance, (x, y), score)
}

/// Whether a distance may give these scores to these records for a vector.
pub open spec fn may_score<D: Fn(&[u32], &[u32]) -> i64>(
    distance: D,
    candidates: Seq<RecordModel>,
    vector: Seq<u32>,
    scores: Seq<i64>,
) -> bool {
    &&& scores.len() == candidates.len()
    &&& forall|i: int|
        0 <= i < scores.len() ==> may_measure(
            distance,
            (#[trigger] candidates[i]).vector,
            vector,
            scores[i],
        )
}

/// Some records with their scores as search results.
pub open spec fn scored(candidates: Seq<RecordModel>, scores: Seq<i64>) -> Seq<ResultModel> {
    Seq::new(
        candidates.len(),
        |i: int|
            ResultModel {
                id: candidates[i].id,
                score: scores[i],
                payload: candidates[i].payload,
                score_details: None,
            },
    )
}

/// Whether a score passes a threshold. What no number compares with passes none,
/// and nothing passes a threshold of that kind.
pub open spec fn within(threshold: Option<i64>, score: i64) -> bool {
    threshold matches Some(t) ==> number::compares(score) && number::compares(t) && score <= t
}

/// The results that pass a threshold.
pub open spec fn passing(results: Seq<ResultModel>, threshold: Option<i64>) -> Seq<ResultModel> {
    results.filter(|r: ResultModel| within(threshold, r.score))
}

/// The first elements of a sequence, up to a number of them.
pub open spec fn first<A>(s: Seq<A>, n: nat) -> Seq<A> {
    rank::page(s, 0, n)
}

/// The closest of some results among those that pass a threshold.
pub open spec fn closest(
    results: Seq<ResultModel>,
    top_k: nat,
    threshold: Option<i64>,
) -> Seq<ResultModel> {
    first(rank::ranked::<SearchResult>(passing(results, threshold)), top_k)
}

/// The records that have the filters' entries.
pub open spec fn having(
    records: Seq<RecordModel>,
    filters: Map<Seq<char>, Seq<char>>,
) -> Seq<RecordModel> {
    records.filter(|r: RecordModel| payload::covers(r.payload, filters))
}

/// Keeps the results that pass a threshold.
pub fn keep_within(results: Vec<SearchResult>, threshold: Option<i64>) -> (r: Vec<SearchResult>)
    ensures
        rank::views(r@) == passing(rank::views(results@), threshold),
{
    let ghost all = rank::views(results@);
    let mut r: Vec<SearchResult> = Vec::new();
    let mut i: usize = 0;
    proof {
        reveal(Seq::filter);
        assert(rank::views(r@) =~= passing(all.take(0), threshold));
    }
    while i < results.len()
        invariant
            i <= results.len(),
            all == rank::views(results@),
            rank::views(r@) == passing(all.take(i as int), threshold),
        decreases results.len() - i,
    {
        let ghost before = rank::views(r@);
        proof {
            reveal(Seq::filter);
            assert(all.take(i + 1).drop_last() =~= all.take(i as int));
            assert(all.take(i + 1).last() == results@[i as int]@);
        }
        let passes = match threshold {
            Some(t) => is_comparable(results[i].score) && is_comparable(t) && results[i].score <= t,
            None => true,
        };
        if passes {
            r.push(results[i].clone());
            proof {
                assert(rank::views(r@) =~= before.push(results@[i as int]@));
            }
        }
        i = i + 1;
    }
    proof {
        assert(all.take(i as int) =~= all);
    }
    r
}

/// Cuts results down to a number of them.
pub fn keep_first(results: Vec<SearchResult>, top_k: usize) -> (r: Vec<SearchResult>)
    ensures
        rank::views(r@) == first(rank::views(results@), top_k as nat),
{
    let mut r = results;
    let ghost all = rank::views(r@);
    r.truncate(top_k);
    proof {
        assert(rank::views(r@) =~= first(all, top_k as nat));
    }
    r
}

/// The closest of some results among those that pass a threshold.
pub fn select_closest(
    results: Vec<SearchResult>,
    top_k: usize,
    threshold: Option<i64>,
) -> (r: Vec<SearchResult>)
    ensures
        rank::views(r@) == closest(rank::views(results@), top_k as nat, threshold),
{
    keep_first(rank::sort(keep_within(results, threshold)), top_k)
}

proof fn lemma_filter_from<A>(s: Seq<A>, keep: spec_fn(A) -> bool, i: int)
    requires
        0 <= i < s.filter(keep).len(),
    ensures
        keep(s.filter(keep)[i]),
        s.contains(s.filter(keep)[i]),
    decreases s.len(),
{
    reveal(Seq::filter);
    if s.len() > 0 {
        let rest = s.drop_last();
        if i < rest.filter(keep).len() {
            lemma_filter_from(rest, keep, i);
            assert(s.filter(keep)[i] == rest.filter(keep)[i]);
            let k = choose|k: int| 0 <= k < rest.len() && rest[k] == rest.filter(keep)[i];
            assert(s[k] == rest.filter(keep)[i]);
        } else {
            assert(s.filter(keep)[i] == s.last());
            assert(s[s.len() - 1] == s.last());
        }
    }
}

pub proof fn lemma_filter_no_duplicates<A>(s: Seq<A>, keep: spec_fn(A) -> bool)
    requires
        s.no_duplicates(),
    ensures
        s.filter(keep).no_duplicates(),
    decreases s.len(),
{
    reveal(Seq::filter);
    if s.len() > 0 {
        let rest = s.drop_last();
        assert(rest.no_duplicates());
        lemma_filter_no_duplicates(rest, keep);
        let kept = rest.filter(keep);
        if keep(s.last()) {
            assert forall|i: int, j: int|
                0 <= i < s.filter(keep).len() && 0 <= j < s.filter(keep).len() && i != j implies s.filter(
                keep,
            )[i] != s.filter(keep)[j] by {
                if i < kept.len() {
                    lemma_filter_from(rest, keep, i);
                }
                if j < kept.len() {
                    lemma_filter_from(rest, keep, j);
                }
            }
        }
    }
}

/// The closest of some records with distinct ids are sound results.
proof fn lemma_closest_sound(
    records: Map<Seq<char>, RecordModel>,
    candidates: Seq<RecordModel>,
    scores: Seq<i64>,
    top_k: nat,
    filters: Map<Seq<char>, Seq<char>>,
    threshold: Option<i64>,
)
    requires
        scores.len() == candidates.len(),
        forall|i: int, j: int|
            0 <= i < j < candidates.len() ==> (#[trigger] candidates[i]).id != (
            #[trigger] candidates[j]).id,
        forall|i: int|
            0 <= i < candidates.len() ==> {
                let r = #[trigger] candidates[i];
                records.contains_key(r.id) && records[r.id] == r && payload::covers(
                    r.payload,
                    filters,
                )
            },
    ensures
        sound_results(
            records,
            top_k,
            filters,
            threshold,
            closest(scored(candidates, scores), top_k, threshold),
        ),
{
    broadcast use vstd::seq_lib::group_to_multiset_ensures;

    let all = scored(candidates, scores);
    let keep = |r: ResultModel| within(threshold, r.score);
    let passed = passing(all, threshold);
    let sorted = rank::ranked::<SearchResult>(passed);
    let found = first(sorted, top_k);
    rank::law_ranked::<SearchResult>(passed);
    assert(all.no_duplicates()) by {
        assert forall|i: int, j: int| 0 <= i < all.len() && 0 <= j < all.len() && i != j implies all[i]
            != all[j] by {
            if i < j {
                assert(candidates[i].id != candidates[j].id);
            } else {
                assert(candidates[j].id != candidates[i].id);
            }
        }
    }
    lemma_filter_no_duplicates(all, keep);
    passed.lemma_multiset_has_no_duplicates();
    sorted.lemma_multiset_has_no_duplicates_conv();
    assert forall|i: int| 0 <= i < sorted.len() implies all.contains(#[trigger] sorted[i]) && within(
        threshold,
        sorted[i].score,
    ) by {
        assert(sorted.contains(sorted[i]));
        assert(passed.to_multiset().contains(sorted[i]));
        assert(passed.contains(sorted[i]));
        let k = choose|k: int| 0 <= k < passed.len() && passed[k] == sorted[i];
        lemma_filter_from(all, keep, k);
    }
    assert forall|i: int| 0 <= i < found.len() implies {
        let r = #[trigger] found[i];
        &&& records.contains_key(r.id)
        &&& r.payload == records[r.id].payload
        &&& payload::covers(r.payload, filters)
        &&& threshold matches Some(t) ==> number::compares(t) ==> within(threshold, r.score)
        &&& r.score_details is None
    } by {
        assert(found[i] == sorted[i]);
        let k = choose|k: int| 0 <= k < all.len() && all[k] == sorted[i];
        assert(candidates[k].id == found[i].id);
    }
    assert forall|i: int, j: int| 0 <= i < j < found.len() implies (#[trigger] found[i]).id != (
    #[trigger] found[j]).id by {
        assert(found[i] == sorted[i]);
        assert(found[j] == sorted[j]);
        let x = choose|k: int| 0 <= k < all.len() && all[k] == sorted[i];
        let y = choose|k: int| 0 <= k < all.len() && all[k] == sorted[j];
        assert(sorted[i] != sorted[j]);
        if x < y {
            assert(candidates[x].id != candidates[y].id);
        } else {
            assert(x != y);
            assert(candidates[y].id != candidates[x].id);
        }
    }
    assert forall|i: int, j: int| 0 <= i < j < found.len() implies SearchResult::may_precede(
        #[trigger] found[i],
        #[trigger] found[j],
    ) by {
        assert(found[i] == sorted[i]);
        assert(found[j] == sorted[j]);
    }
}

/// Whether these may be the closest of some records.
pub open spec fn may_be_nearest<D: Fn(&[u32], &[u32]) -> i64>(
    distance: D,
    records: Seq<RecordModel>,
    vector: Seq<u32>,
    top_k: nat,
    filters: Map<Seq<char>, Seq<char>>,
    threshold: Option<i64>,
    found: Seq<ResultModel>,
) -> bool {
    exists|scores: Seq<i64>| #[trigger]
        may_score(distance, having(records, filters), vector, scores) && found == closest(
            scored(having(records, filters), scores),
            top_k,
            threshold,
        )
}

/// The closest of some records to a vector, among those that have the filters'
/// entries.
pub fn nearest<D: Fn(&[u32], &[u32]) -> i64>(
    records: &Vec<&VectorRecord>,
    vector: &[u32],
    top_k: usize,
    filters: &Payload,
    threshold: Option<i64>,
    distance: &D,
) -> (r: Vec<SearchResult>)
    requires
        measures(*distance),
    ensures
        may_be_nearest(
            *distance,
            rank::views(records@),
            vector@,
            top_k as nat,
            filters@,
            threshold,
            rank::views(r@),
        ),
{
    let ghost all = rank::views(records@);
    let mut results: Vec<SearchResult> = Vec::new();
    let ghost mut scores: Seq<i64> = Seq::empty();
    let mut i: usize = 0;
    proof {
        reveal(Seq::filter);
        assert(rank::views(results@) =~= scored(having(all.take(0), filters@), scores));
    }
    while i < records.len()
        invariant
            i <= records.len(),
            all == rank::views(records@),
            measures(*distance),
            may_score(*distance, having(all.take(i as int), filters@), vector@, scores),
            rank::views(results@) == scored(having(all.take(i as int), filters@), scores),
        decreases records.len() - i,
    {
        let ghost kept = having(all.take(i as int), filters@);
        let ghost before = rank::views(results@);
        let record = records[i];
        proof {
            reveal(Seq::filter);
            assert(all.take(i + 1).drop_last() =~= all.take(i as int));
            assert(all.take(i + 1).last() == record@);
        }
        if record.payload.matches(filters) {
            let stored = record.vector.as_slice();
            let score = distance(stored, vector);
            proof {
                assert(stored@ == record.vector@);
                assert(call_ensures(*distance, (stored, vector), score));
                assert(may_measure(*distance, record.vector@, vector@, score));
                let more = kept.push(record@);
                assert(having(all.take(i + 1), filters@) =~= more);
                let longer = scores.push(score);
                assert forall|j: int| 0 <= j < longer.len() implies may_measure(
                    *distance,
                    (#[trigger] more[j]).vector,
                    vector@,
                    longer[j],
                ) by {
                    if j < scores.len() {
                        assert(more[j] == kept[j]);
                    }
                }
                scores = longer;
            }
            results.push(
                SearchResult {
                    id: record.id.clone(),
                    score,
                    payload: record.payload.clone(),
                    score_details: None,
                },
            );
            proof {
                let more = having(all.take(i + 1), filters@);
                let next = scored(more, scores);
                assert(rank::views(results@) =~= before.push(results@.last()@));
                assert(results@.last()@ =~= next.last());
                assert forall|j: int| 0 <= j < before.len() implies before[j] == next[j] by {
                    assert(more[j] == kept[j]);
                }
                assert(rank::views(results@) =~= next);
            }
        }
        i = i + 1;
    }
    proof {
        assert(all.take(i as int) =~= all);
        assert(may_score(*distance, having(all, filters@), vector@, scores));
    }
    select_closest(results, top_k, threshold)
}

/// Some ids with one more at the end, unless it is there.
pub open spec fn with_id(ids: Seq<Seq<char>>, id: Seq<char>) -> Seq<Seq<char>> {
    if ids.contains(id) {
        ids
    } else {
        ids.push(id)
    }
}

/// Whether some record has an id.
pub open spec fn has_id(records: Seq<RecordModel>, id: Seq<char>) -> bool {
    exists|i: int| 0 <= i < records.len() && (#[trigger] records[i]).id == id
}

/// Some records with one put in: in the place of the one with its id, or at the
/// end.
pub open spec fn with_record(records: Seq<RecordModel>, record: RecordModel) -> Seq<RecordModel> {
    if has_id(records, record.id) {
        records.map_values(
            |r: RecordModel|
                if r.id == record.id {
                    record
                } else {
                    r
                },
        )
    } else {
        records.push(record)
    }
}

/// Some records without the one with an id.
pub open spec fn without_record(records: Seq<RecordModel>, id: Seq<char>) -> Seq<RecordModel> {
    records.filter(|r: RecordModel| r.id != id)
}

/// Whether some records are those of a map, each once.
pub open spec fn lists_records(
    listed: Seq<RecordModel>,
    records: Map<Seq<char>, RecordModel>,
) -> bool {
    &&& forall|id: Seq<char>| has_id(listed, id) <==> #[trigger] records.contains_key(id)
    &&& forall|i: int| 0 <= i < listed.len() ==> records[(#[trigger] listed[i]).id] == listed[i]
    &&& forall|i: int, j: int|
        0 <= i < j < listed.len() ==> (#[trigger] listed[i]).id != (#[trigger] listed[j]).id
}

proof fn lemma_without_one(records: Seq<RecordModel>, i: int)
    requires
        0 <= i < records.len(),
        forall|a: int, b: int|
            0 <= a < b < records.len() ==> (#[trigger] records[a]).id != (#[trigger] records[b]).id,
    ensures
        without_record(records, records[i].id) == records.remove(i),
{
    let id = records[i].id;
    let keep = |r: RecordModel| r.id != id;
    let left = records.take(i);
    let right = records.skip(i + 1);
    assert(records =~= left + seq![records[i]] + right);
    Seq::filter_distributes_over_add(left + seq![records[i]], right, keep);
    Seq::filter_distributes_over_add(left, seq![records[i]], keep);
    lemma_filter_all(left, keep);
    assert forall|k: int| 0 <= k < right.len() implies keep(#[trigger] right[k]) by {
        assert(right[k] == records[k + i + 1]);
    }
    lemma_filter_all(right, keep);
    assert(seq![records[i]].filter(keep) =~= Seq::empty()) by {
        reveal_with_fuel(Seq::filter, 2);
        assert(!keep(records[i]));
        assert(seq![records[i]].drop_last() =~= Seq::empty());
        assert(seq![records[i]].last() == records[i]);
    }
    assert(records.remove(i) =~= left + right);
    assert(left + Seq::<RecordModel>::empty() =~= left);
}

proof fn lemma_filter_all<A>(s: Seq<A>, keep: spec_fn(A) -> bool)
    requires
        forall|i: int| 0 <= i < s.len() ==> keep(#[trigger] s[i]),
    ensures
        s.filter(keep) == s,
    decreases s.len(),
{
    reveal(Seq::filter);
    if s.len() > 0 {
        let rest = s.drop_last();
        assert forall|i: int| 0 <= i < rest.len() implies keep(#[trigger] rest[i]) by {
            assert(rest[i] == s[i]);
        }
        lemma_filter_all(rest, keep);
        assert(keep(s[s.len() - 1]));
        assert(rest.push(s.last()) =~= s);
    }
}

proof fn lemma_lists(entries: Seq<(Seq<char>, VectorRecord)>)
    requires
        textmap::distinct_keys(entries),
        keyed_by_id(entries),
    ensures
        lists_records(
            record_models(entries),
            textmap::map_of(entries).map_values(|r: VectorRecord| r@),
        ),
{
    let listed = record_models(entries);
    let records = textmap::map_of(entries).map_values(|r: VectorRecord| r@);
    assert forall|id: Seq<char>| has_id(listed, id) <==> #[trigger] records.contains_key(id) by {
        if has_id(listed, id) {
            let i = choose|i: int| 0 <= i < listed.len() && (#[trigger] listed[i]).id == id;
            assert(entries[i].0 == id);
            textmap::lemma_map_at(entries, i);
        }
        if records.contains_key(id) {
            assert(textmap::has_key(entries, id));
            let k = choose|k: int| 0 <= k < entries.len() && (#[trigger] entries[k]).0 == id;
            assert(listed[k].id == id);
        }
    }
    assert forall|i: int| 0 <= i < listed.len() implies records[(#[trigger] listed[i]).id] == listed[i] by {
        assert(entries[i].0 == listed[i].id);
        textmap::lemma_map_at(entries, i);
    }
    assert forall|i: int, j: int| 0 <= i < j < listed.len() implies (#[trigger] listed[i]).id != (
    #[trigger] listed[j]).id by {
        assert(entries[i].0 != entries[j].0);
    }
}

proof fn lemma_with_record(
    before: Seq<(Seq<char>, VectorRecord)>,
    after: Seq<(Seq<char>, VectorRecord)>,
    record: VectorRecord,
)
    requires
        textmap::distinct_keys(before),
        keyed_by_id(before),
        !textmap::map_of(before).contains_key(record.id@) ==> after == before.push(
            (record.id@, record),
        ),
        forall|i: int|
            0 <= i < before.len() && (#[trigger] before[i]).0 == record.id@ ==> after
                == before.update(i, (record.id@, record)),
    ensures
        record_models(after) == with_record(record_models(before), record@),
        keys_of(after) == with_id(keys_of(before), record.id@),
{
    let listed = record_models(before);
    lemma_lists(before);
    if has_id(listed, record.id@) {
        let i = choose|i: int| 0 <= i < listed.len() && (#[trigger] listed[i]).id == record.id@;
        assert(before[i].0 == record.id@);
        assert(after == before.update(i, (record.id@, record)));
        assert forall|j: int| 0 <= j < listed.len() && j != i implies listed[j].id != record.id@ by {
            if i < j {
                assert(listed[i].id != listed[j].id);
            } else {
                assert(listed[j].id != listed[i].id);
            }
        }
        assert(record_models(after) =~= with_record(listed, record@));
        assert(keys_of(before)[i] == record.id@);
        assert(keys_of(after) =~= keys_of(before));
    } else {
        let records = textmap::map_of(before).map_values(|r: VectorRecord| r@);
        assert(!records.contains_key(record.id@));
        assert(record_models(after) =~= with_record(listed, record@));
        if keys_of(before).contains(record.id@) {
            let k = choose|k: int| 0 <= k < before.len() && keys_of(before)[k] == record.id@;
            assert(listed[k].id == before[k].0);
        }
        assert(keys_of(after) =~= keys_of(before).push(record.id@));
    }
}

/// A store that keeps its records in memory and compares vectors with a given
/// distance.
pub struct InMemoryVectorStore<D: Fn(&[u32], &[u32]) -> i64> {
    held: TextMap<VectorRecord>,
    distance: D,
}

/// The records that some entries hold.
pub open spec fn record_models(entries: Seq<(Seq<char>, VectorRecord)>) -> Seq<RecordModel> {
    entries.map_values(|e: (Seq<char>, VectorRecord)| e.1@)
}

/// The keys of some entries.
pub open spec fn keys_of(entries: Seq<(Seq<char>, VectorRecord)>) -> Seq<Seq<char>> {
    entries.map_values(|e: (Seq<char>, VectorRecord)| e.0)
}

/// Whether each entry's key is the id of its record.
pub open spec fn keyed_by_id(entries: Seq<(Seq<char>, VectorRecord)>) -> bool {
    forall|i: int| 0 <= i < entries.len() ==> (#[trigger] entries[i]).0 == entries[i].1.id@
}

impl<D: Fn(&[u32], &[u32]) -> i64> InMemoryVectorStore<D> {
    /// The records in the order in which their ids were first inserted.
    pub closed spec fn listed(&self) -> Seq<RecordModel> {
        record_models(self.held.entries())
    }

    /// The distance that the store compares vectors with.
    pub closed spec fn metric(&self) -> D {
        self.distance
    }

    #[verifier::type_invariant]
    spec fn well_formed(&self) -> bool {
        &&& measures(self.distance)
        &&& keyed_by_id(self.held.entries())
    }

    /// A store without records.
    pub fn new(distance: D) -> (r: Self)
        requires
            measures(distance),
        ensures
            r.listed() == Seq::<RecordModel>::empty(),
            r.records() == Map::<Seq<char>, RecordModel>::empty(),
            r.metric() == distance,
    {
        let r = InMemoryVectorStore { held: TextMap::new(), distance };
        proof {
            assert(r.listed() =~= Seq::empty());
            assert(r.records() =~= Map::empty());
        }
        r
    }
}

impl<D: Fn(&[u32], &[u32]) -> i64> VectorStore for InMemoryVectorStore<D> {
    closed spec fn records(&self) -> Map<Seq<char>, RecordModel> {
        self.held@.map_values(|r: VectorRecord| r@)
    }

    closed spec fn order(&self) -> Seq<Seq<char>> {
        keys_of(self.held.entries())
    }

    /// A part of the ids comes in the order of all of them.
    open spec fn may_page(&self, offset: nat, limit: nat, ids: Seq<Seq<char>>) -> bool {
        ids == rank::page(self.order(), offset, limit)
    }

    /// A new id comes last, and the others stay where they are.
    open spec fn may_order(&self, id: Seq<char>, order: Seq<Seq<char>>) -> bool {
        order == with_id(self.order(), id)
    }

    open spec fn measure(&self) -> spec_fn(Seq<u32>, Seq<u32>, i64) -> bool {
        |a: Seq<u32>, b: Seq<u32>, score: i64| may_measure(self.metric(), a, b, score)
    }

    /// The outcome is the closest of the records that have the filters'
    /// entries, by the scores that the distance gives them.
    open spec fn may_find(
        &self,
        vector: Seq<u32>,
        top_k: nat,
        filters: Map<Seq<char>, Seq<char>>,
        threshold: Option<i64>,
        outcome: Result<Seq<ResultModel>, VectorStoreError>,
    ) -> bool {
        &&& lists_records(self.listed(), self.records())
        &&& outcome matches Ok(found)
        &&& may_be_nearest(
            self.metric(),
            self.listed(),
            vector,
            top_k,
            filters,
            threshold,
            found,
        )
    }

    open spec fn may_match(
        &self,
        query: Seq<char>,
        top_k: nat,
        filters: Map<Seq<char>, Seq<char>>,
        outcome: Result<Option<Seq<ResultModel>>, VectorStoreError>,
    ) -> bool {
        outcome == Ok::<Option<Seq<ResultModel>>, VectorStoreError>(None)
    }

    /// A record is refused whose vector has another length than that of the
    /// first record, and an update of a record that is not there.
    open spec fn may_refuse(&self, request: StoreRequest, err: VectorStoreError) -> bool {
        match request {
            StoreRequest::Insert(record) => {
                &&& self.listed().len() > 0
                &&& self.listed()[0].vector.len() != record.vector.len()
                &&& err == VectorStoreError::DimensionMismatch {
                    expected: self.listed()[0].vector.len() as usize,
                    actual: record.vector.len() as usize,
                }
            },
            StoreRequest::Update(record) => !self.records().contains_key(record.id) && err
                == VectorStoreError::NotFound,
            _ => false,
        }
    }

    /// What is refused changes nothing.
    open spec fn may_leave(
        &self,
        request: StoreRequest,
        err: VectorStoreError,
        records: Map<Seq<char>, RecordModel>,
    ) -> bool {
        records == self.records()
    }

    fn insert(&mut self, record: VectorRecord) -> (r: Result<(), VectorStoreError>)
        ensures
            final(self).metric() == old(self).metric(),
            r is Ok ==> old(self).listed().len() == 0 || old(self).listed()[0].vector.len()
                == record.vector@.len(),
            r is Ok ==> final(self).listed() == with_record(old(self).listed(), record@),
            lists_records(final(self).listed(), final(self).records()),
            r is Err ==> final(self).listed() == old(self).listed() && final(self).records() == old(
                self,
            ).records(),
    {
        proof {
            use_type_invariant(&*self);
        }
        let ghost before = self.held.entries();
        let count = self.held.len();
        proof {
            lemma_lists(before);
        }
        if count > 0 {
            let expected: usize = self.held.value_at(0).vector.len();
            let actual: usize = record.vector.len();
            if expected != actual {
                return Err(VectorStoreError::DimensionMismatch { expected, actual });
            }
        }
        let id = record.id.clone();
        let ghost kept = record@;
        let mut held: TextMap<VectorRecord> = TextMap::new();
        std::mem::swap(&mut held, &mut self.held);
        let ghost map_before = held@;
        held.insert(id, record);
        proof {
            lemma_still_keyed(before, held.entries(), record);
            lemma_with_record(before, held.entries(), record);
            lemma_lists(held.entries());
        }
        self.held = held;
        proof {
            assert(self.records() =~= old(self).records().insert(record.id@, kept));
        }
        Ok(())
    }

    fn search(
        &self,
        vector: &[u32],
        top_k: usize,
        filters: &Payload,
        threshold: Option<i64>,
    ) -> (r: Result<Vec<SearchResult>, VectorStoreError>)
        ensures
            r is Ok,
    {
        proof {
            use_type_invariant(self);
        }
        let n = self.held.len();
        let ghost all = self.listed();
        let ghost entries = self.held.entries();
        let mut records: Vec<&VectorRecord> = Vec::new();
        let mut i: usize = 0;
        while i < n
            invariant
                i <= n,
                n == entries.len(),
                entries == self.held.entries(),
                all == record_models(entries),
                rank::views(records@) == all.take(i as int),
            decreases n - i,
        {
            let ghost before = rank::views(records@);
            records.push(self.held.value_at(i));
            proof {
                assert(rank::views(records@) =~= before.push(all[i as int]));
                assert(all.take(i + 1) =~= before.push(all[i as int]));
            }
            i = i + 1;
        }
        let found = nearest(&records, vector, top_k, filters, threshold, &self.distance);
        proof {
            assert(all.take(i as int) =~= all);
            let scores = choose|scores: Seq<i64>| #[trigger]
                may_score(self.distance, having(all, filters@), vector@, scores) && rank::views(
                    found@,
                ) == closest(scored(having(all, filters@), scores), top_k as nat, threshold);
            lemma_having_candidates(entries, filters@);
            lemma_lists(entries);
            lemma_closest_sound(
                self.records(),
                having(all, filters@),
                scores,
                top_k as nat,
                filters@,
                threshold,
            );
        }
        Ok(found)
    }

    fn get(&self, id: &str) -> (r: Result<Option<VectorRecord>, VectorStoreError>)
        ensures
            r is Ok,
    {
        proof {
            use_type_invariant(self);
        }
        match self.held.position(id) {
            Some(i) => {
                let record = self.held.value_at(i);
                proof {
                    assert(self.held.entries()[i as int].0 == record.id@);
                }
                Ok(Some(record.clone()))
            },
            None => Ok(None),
        }
    }

    fn update(&mut self, record: VectorRecord) -> (r: Result<(), VectorStoreError>)
        ensures
            final(self).metric() == old(self).metric(),
            r is Ok <==> old(self).records().contains_key(record.id@),
            r is Ok ==> final(self).listed() == with_record(old(self).listed(), record@),
            lists_records(final(self).listed(), final(self).records()),
            r is Err ==> final(self).listed() == old(self).listed() && final(self).records() == old(
                self,
            ).records(),
    {
        proof {
            use_type_invariant(&*self);
        }
        let ghost before = self.held.entries();
        let at = self.held.position(record.id.as_str());
        proof {
            lemma_lists(before);
        }
        if at.is_none() {
            return Err(VectorStoreError::NotFound);
        }
        let id = record.id.clone();
        let ghost kept = record@;
        let mut held: TextMap<VectorRecord> = TextMap::new();
        std::mem::swap(&mut held, &mut self.held);
        held.insert(id, record);
        proof {
            lemma_still_keyed(before, held.entries(), record);
            lemma_with_record(before, held.entries(), record);
            lemma_lists(held.entries());
        }
        self.held = held;
        proof {
            assert(self.records() =~= old(self).records().insert(record.id@, kept));
        }
        Ok(())
    }

    fn delete(&mut self, id: &str) -> (r: Result<(), VectorStoreError>)
        ensures
            final(self).metric() == old(self).metric(),
            r is Ok,
            final(self).listed() == without_record(old(self).listed(), id@),
            lists_records(final(self).listed(), final(self).records()),
    {
        proof {
            use_type_invariant(&*self);
        }
        let ghost before = self.held.entries();
        let mut held: TextMap<VectorRecord> = TextMap::new();
        std::mem::swap(&mut held, &mut self.held);
        let at = held.position(id);
        let taken = held.remove(id);
        proof {
            match at {
                Some(i) => {
                    let after = held.entries();
                    assert(before[i as int].0 == id@);
                    assert(after == before.remove(i as int));
                    assert forall|j: int| 0 <= j < after.len() implies (#[trigger] after[j]).0
                        == after[j].1.id@ by {
                        let k = if j < i { j } else { j + 1 };
                        assert(after[j] == before[k]);
                    }
                    lemma_lists(before);
                    lemma_without_one(record_models(before), i as int);
                    assert(record_models(before)[i as int].id == id@);
                    assert(record_models(after) =~= record_models(before).remove(i as int));
                },
                None => {
                    assert(held.entries() == before);
                    let listed = record_models(before);
                    lemma_lists(before);
                    let records = textmap::map_of(before).map_values(|r: VectorRecord| r@);
                    assert(!records.contains_key(id@));
                    assert forall|j: int| 0 <= j < listed.len() implies (#[trigger] listed[j]).id
                        != id@ by {
                        if listed[j].id == id@ {
                            assert(has_id(listed, id@));
                        }
                    }
                    lemma_filter_all(listed, |r: RecordModel| r.id != id@);
                },
            }
            lemma_lists(held.entries());
        }
        self.held = held;
        proof {
            assert(self.records() =~= old(self).records().remove(id@));
        }
        Ok(())
    }

    fn list(&self, offset: usize, limit: usize) -> (r: Result<Vec<String>, VectorStoreError>)
        ensures
            r is Ok,
    {
        let n = self.held.len();
        let mut ids: Vec<String> = Vec::new();
        let mut i: usize = 0;
        while i < n
            invariant
                i <= n,
                n == self.held.entries().len(),
                text::texts(ids@) == self.order().take(i as int),
            decreases n - i,
        {
            let ghost before = text::texts(ids@);
            ids.push(self.held.key_at(i).clone());
            proof {
                assert(text::texts(ids@) =~= before.push(self.order()[i as int]));
                assert(self.order().take(i + 1) =~= before.push(self.order()[i as int]));
            }
            i = i + 1;
        }
        let r = rank::text_page(&ids, offset, limit);
        proof {
            assert(self.order().take(i as int) =~= self.order());
            assert(text::texts(r@) =~= rank::page(self.order(), offset as nat, limit as nat));
            let entries = self.held.entries();
            assert forall|a: int, b: int|
                0 <= a < self.order().len() && 0 <= b < self.order().len() && a != b implies self.order()[a]
                != self.order()[b] by {
                if a < b {
                    assert(entries[a].0 != entries[b].0);
                } else {
                    assert(entries[b].0 != entries[a].0);
                }
            }
            assert forall|id: Seq<char>|
                self.order().contains(id) <==> #[trigger] self.records().contains_key(id) by {
                if self.records().contains_key(id) {
                    assert(textmap::has_key(entries, id));
                    let k = choose|k: int| 0 <= k < entries.len() && (#[trigger] entries[k]).0 == id;
                    assert(self.order()[k] == id);
                }
                if self.order().contains(id) {
                    let k = choose|k: int| 0 <= k < self.order().len() && self.order()[k] == id;
                    assert(entries[k].0 == id);
                    textmap::lemma_map_at(entries, k);
                }
            }
        }
        Ok(r)
    }

    fn reset(&mut self) -> (r: Result<(), VectorStoreError>)
        ensures
            final(self).metric() == old(self).metric(),
            r is Ok,
            final(self).listed() == Seq::<RecordModel>::empty(),
            lists_records(final(self).listed(), final(self).records()),
    {
        proof {
            use_type_invariant(&*self);
        }
        self.held = TextMap::new();
        proof {
            assert(self.records() =~= Map::empty());
            assert(self.listed() =~= Seq::empty());
        }
        Ok(())
    }

    /// The store cannot search by keywords.
    fn keyword_search(&self, query: &str, top_k: usize, filters: &Payload) -> (r: Result<
        Option<Vec<SearchResult>>,
        VectorStoreError,
    >)
        ensures
            r == Ok::<Option<Vec<SearchResult>>, VectorStoreError>(None),
    {
        Ok(None)
    }
}

proof fn lemma_still_keyed(
    before: Seq<(Seq<char>, VectorRecord)>,
    after: Seq<(Seq<char>, VectorRecord)>,
    record: VectorRecord,
)
    requires
        keyed_by_id(before),
        !textmap::map_of(before).contains_key(record.id@) ==> after == before.push(
            (record.id@, record),
        ),
        forall|i: int|
            0 <= i < before.len() && (#[trigger] before[i]).0 == record.id@ ==> after
                == before.update(i, (record.id@, record)),
    ensures
        keyed_by_id(after),
{
    if textmap::map_of(before).contains_key(record.id@) {
        assert(textmap::has_key(before, record.id@));
        let k = choose|k: int| 0 <= k < before.len() && (#[trigger] before[k]).0 == record.id@;
        assert(after == before.update(k, (record.id@, record)));
    }
}

proof fn lemma_having_candidates(
    entries: Seq<(Seq<char>, VectorRecord)>,
    filters: Map<Seq<char>, Seq<char>>,
)
    requires
        textmap::distinct_keys(entries),
        keyed_by_id(entries),
    ensures
        ({
            let records = textmap::map_of(entries).map_values(|r: VectorRecord| r@);
            let candidates = having(record_models(entries), filters);
            &&& forall|i: int, j: int|
                0 <= i < j < candidates.len() ==> (#[trigger] candidates[i]).id != (
                #[trigger] candidates[j]).id
            &&& forall|i: int|
                0 <= i < candidates.len() ==> {
                    let r = #[trigger] candidates[i];
                    records.contains_key(r.id) && records[r.id] == r && payload::covers(
                        r.payload,
                        filters,
                    )
                }
        }),
{
    let all = record_models(entries);
    let records = textmap::map_of(entries).map_values(|r: VectorRecord| r@);
    let keep = |r: RecordModel| payload::covers(r.payload, filters);
    let candidates = having(all, filters);
    assert forall|i: int, j: int| 0 <= i < all.len() && 0 <= j < all.len() && i != j implies (
    #[trigger] all[i]).id != (#[trigger] all[j]).id by {
        assert(all[i].id == entries[i].0);
        assert(all[j].id == entries[j].0);
        if i < j {
            assert(entries[i].0 != entries[j].0);
        } else {
            assert(entries[j].0 != entries[i].0);
        }
    }
    assert(all.no_duplicates()) by {
        assert forall|i: int, j: int| 0 <= i < all.len() && 0 <= j < all.len() && i != j implies all[i]
            != all[j] by {
            assert(all[i].id != all[j].id);
        }
    }
    lemma_filter_no_duplicates(all, keep);
    assert forall|i: int| 0 <= i < candidates.len() implies {
        let r = #[trigger] candidates[i];
        records.contains_key(r.id) && records[r.id] == r && payload::covers(r.payload, filters)
    } by {
        lemma_filter_from(all, keep, i);
        let k = choose|k: int| 0 <= k < all.len() && all[k] == candidates[i];
        textmap::lemma_map_at(entries, k);
        assert(entries[k].0 == candidates[i].id);
    }
    assert forall|i: int, j: int| 0 <= i < j < candidates.len() implies (#[trigger] candidates[i]).id
        != (#[trigger] candidates[j]).id by {
        lemma_filter_from(all, keep, i);
        lemma_filter_from(all, keep, j);
        let x = choose|k: int| 0 <= k < all.len() && all[k] == candidates[i];
        let y = choose|k: int| 0 <= k < all.len() && all[k] == candidates[j];
        assert(candidates[i] != candidates[j]);
        assert(x != y);
        assert(all[x].id != all[y].id);
    }
}

/// The ids of the records that have the filters' entries.
pub open spec fn ids_having(
    records: Map<Seq<char>, RecordModel>,
    filters: Map<Seq<char>, Seq<char>>,
) -> Set<Seq<char>> {
    records.dom().filter(|id: Seq<char>| payload::covers(records[id].payload, filters))
}

/// The records of a list that have the filters' entries are as many as those of
/// the map that it lists, and are found there.
proof fn lemma_having_all(
    listed: Seq<RecordModel>,
    records: Map<Seq<char>, RecordModel>,
    filters: Map<Seq<char>, Seq<char>>,
)
    requires
        lists_records(listed, records),
    ensures
        ids_having(records, filters).finite(),
        having(listed, filters).len() == ids_having(records, filters).len(),
        forall|id: Seq<char>|
            ids_having(records, filters).contains(id) ==> having(listed, filters).contains(
                #[trigger] records[id],
            ) && records[id].id == id,
        forall|i: int|
            0 <= i < having(listed, filters).len() ==> {
                let r = #[trigger] having(listed, filters)[i];
                ids_having(records, filters).contains(r.id) && records[r.id] == r
            },
{
    let keep = |r: RecordModel| payload::covers(r.payload, filters);
    let candidates = having(listed, filters);
    let wanted = ids_having(records, filters);
    assert(listed.no_duplicates()) by {
        assert forall|i: int, j: int| 0 <= i < listed.len() && 0 <= j < listed.len() && i != j implies listed[i]
            != listed[j] by {
            if i < j {
                assert(listed[i].id != listed[j].id);
            } else {
                assert(listed[j].id != listed[i].id);
            }
        }
    }
    lemma_filter_no_duplicates(listed, keep);
    assert forall|i: int| 0 <= i < candidates.len() implies {
        let r = #[trigger] candidates[i];
        wanted.contains(r.id) && records[r.id] == r
    } by {
        lemma_filter_from(listed, keep, i);
        let k = choose|k: int| 0 <= k < listed.len() && listed[k] == candidates[i];
        assert(records[listed[k].id] == listed[k]);
        assert(has_id(listed, listed[k].id));
        assert(records.contains_key(listed[k].id));
    }
    assert forall|id: Seq<char>| wanted.contains(id) implies candidates.contains(
        #[trigger] records[id],
    ) && records[id].id == id by {
        assert(records.contains_key(id));
        assert(has_id(listed, id));
        let k = choose|k: int| 0 <= k < listed.len() && (#[trigger] listed[k]).id == id;
        assert(records[listed[k].id] == listed[k]);
        listed.lemma_filter_contains(keep, k);
    }
    let ids = candidates.map_values(|r: RecordModel| r.id);
    assert(ids.no_duplicates()) by {
        assert forall|i: int, j: int| 0 <= i < ids.len() && 0 <= j < ids.len() && i != j implies ids[i]
            != ids[j] by {
            assert(candidates[i] != candidates[j]);
            assert(records[candidates[i].id] == candidates[i]);
            assert(records[candidates[j].id] == candidates[j]);
        }
    }
    ids.unique_seq_to_set();
    vstd::seq_lib::seq_to_set_is_finite(ids);
    assert(ids.to_set() =~= wanted) by {
        assert forall|id: Seq<char>| wanted.contains(id) implies ids.to_set().contains(id) by {
            assert(candidates.contains(records[id]));
            let k = choose|k: int| 0 <= k < candidates.len() && candidates[k] == records[id];
            assert(ids[k] == id);
        }
        assert forall|id: Seq<char>| ids.to_set().contains(id) implies wanted.contains(id) by {
            let k = choose|k: int| 0 <= k < ids.len() && ids[k] == id;
            assert(wanted.contains(candidates[k].id));
        }
    }
}

/// A search in memory misses nothing: a record that has the filters' entries gets
/// a score, and is found unless its score is above the threshold, or as many as
/// were asked for are found and none of them is further away.
pub proof fn law_near_records_are_found<D: Fn(&[u32], &[u32]) -> i64>(
    store: InMemoryVectorStore<D>,
    vector: Seq<u32>,
    top_k: nat,
    filters: Map<Seq<char>, Seq<char>>,
    threshold: Option<i64>,
    found: Seq<ResultModel>,
    id: Seq<char>,
)
    requires
        store.may_find(vector, top_k, filters, threshold, Ok(found)),
        store.records().contains_key(id),
        payload::covers(store.records()[id].payload, filters),
    ensures
        exists|score: i64|
            {
                &&& #[trigger] may_measure(
                    store.metric(),
                    store.records()[id].vector,
                    vector,
                    score,
                )
                &&& {
                    ||| !within(threshold, score)
                    ||| found.contains(
                        ResultModel {
                            id,
                            score,
                            payload: store.records()[id].payload,
                            score_details: None,
                        },
                    )
                    ||| {
                        &&& found.len() == top_k
                        &&& forall|i: int| 0 <= i < found.len() ==> (#[trigger] found[i]).score <= score
                    }
                }
            },
{
    broadcast use vstd::seq_lib::group_to_multiset_ensures;

    let records = store.records();
    let candidates = having(store.listed(), filters);
    let scores = choose|scores: Seq<i64>| #[trigger]
        may_score(store.metric(), candidates, vector, scores) && found == closest(
            scored(candidates, scores),
            top_k,
            threshold,
        );
    lemma_having_all(store.listed(), records, filters);
    assert(ids_having(records, filters).contains(id));
    assert(candidates.contains(records[id]));
    let k = choose|k: int| 0 <= k < candidates.len() && candidates[k] == records[id];
    let all = scored(candidates, scores);
    let score = scores[k];
    assert(may_measure(store.metric(), candidates[k].vector, vector, scores[k]));
    if within(threshold, score) {
        let keep = |r: ResultModel| within(threshold, r.score);
        let passed = passing(all, threshold);
        let sorted = rank::ranked::<SearchResult>(passed);
        all.lemma_filter_contains(keep, k);
        rank::law_ranked::<SearchResult>(passed);
        assert(passed.to_multiset().count(all[k]) > 0);
        assert(sorted.contains(all[k]));
        let p = choose|p: int| 0 <= p < sorted.len() && sorted[p] == all[k];
        if p < top_k {
            assert(found[p] == all[k]);
        } else {
            assert forall|i: int| 0 <= i < found.len() implies (#[trigger] found[i]).score <= score by {
                assert(found[i] == sorted[i]);
                assert(SearchResult::may_precede(sorted[i], sorted[p]));
            }
        }
    }
}

/// A search in memory finds every record that has the filters' entries and a
/// score within the threshold, if there are not more records with the filters'
/// entries than are asked for.
pub proof fn law_few_records_are_all_found<D: Fn(&[u32], &[u32]) -> i64>(
    store: InMemoryVectorStore<D>,
    vector: Seq<u32>,
    top_k: nat,
    filters: Map<Seq<char>, Seq<char>>,
    threshold: Option<i64>,
    found: Seq<ResultModel>,
    id: Seq<char>,
)
    requires
        store.may_find(vector, top_k, filters, threshold, Ok(found)),
        ids_having(store.records(), filters).len() <= top_k,
        store.records().contains_key(id),
        payload::covers(store.records()[id].payload, filters),
    ensures
        exists|score: i64|
            {
                &&& #[trigger] may_measure(
                    store.metric(),
                    store.records()[id].vector,
                    vector,
                    score,
                )
                &&& within(threshold, score) ==> found.contains(
                    ResultModel {
                        id,
                        score,
                        payload: store.records()[id].payload,
                        score_details: None,
                    },
                )
            },
{
    broadcast use vstd::seq_lib::group_to_multiset_ensures;

    let records = store.records();
    let candidates = having(store.listed(), filters);
    let scores = choose|scores: Seq<i64>| #[trigger]
        may_score(store.metric(), candidates, vector, scores) && found == closest(
            scored(candidates, scores),
            top_k,
            threshold,
        );
    lemma_having_all(store.listed(), records, filters);
    assert(ids_having(records, filters).contains(id));
    assert(candidates.contains(records[id]));
    let k = choose|k: int| 0 <= k < candidates.len() && candidates[k] == records[id];
    assert(may_measure(store.metric(), candidates[k].vector, vector, scores[k]));
    if within(threshold, scores[k]) {
        let all = scored(candidates, scores);
        let keep = |r: ResultModel| within(threshold, r.score);
        let passed = passing(all, threshold);
        let sorted = rank::ranked::<SearchResult>(passed);
        all.lemma_filter_contains(keep, k);
        all.lemma_filter_len(keep);
        rank::law_ranked::<SearchResult>(passed);
        assert(passed.to_multiset().count(all[k]) > 0);
        assert(sorted.contains(all[k]));
        let p = choose|p: int| 0 <= p < sorted.len() && sorted[p] == all[k];
        assert(found[p] == all[k]);
    }
}

/// What a search in memory finds has the score that the distance gives it, and
/// that score is within the threshold.
pub proof fn law_found_records_are_near<D: Fn(&[u32], &[u32]) -> i64>(
    store: InMemoryVectorStore<D>,
    vector: Seq<u32>,
    top_k: nat,
    filters: Map<Seq<char>, Seq<char>>,
    threshold: Option<i64>,
    found: Seq<ResultModel>,
    i: int,
)
    requires
        store.may_find(vector, top_k, filters, threshold, Ok(found)),
        0 <= i < found.len(),
    ensures
        may_measure(
            store.metric(),
            store.records()[found[i].id].vector,
            vector,
            found[i].score,
        ),
        within(threshold, found[i].score),
{
    broadcast use vstd::seq_lib::group_to_multiset_ensures;

    let records = store.records();
    let candidates = having(store.listed(), filters);
    let scores = choose|scores: Seq<i64>| #[trigger]
        may_score(store.metric(), candidates, vector, scores) && found == closest(
            scored(candidates, scores),
            top_k,
            threshold,
        );
    lemma_having_all(store.listed(), records, filters);
    let all = scored(candidates, scores);
    let keep = |r: ResultModel| within(threshold, r.score);
    let passed = passing(all, threshold);
    let sorted = rank::ranked::<SearchResult>(passed);
    rank::law_ranked::<SearchResult>(passed);
    assert(found[i] == sorted[i]);
    assert(sorted.to_multiset().count(sorted[i]) > 0);
    assert(passed.contains(sorted[i]));
    let p = choose|p: int| 0 <= p < passed.len() && passed[p] == sorted[i];
    lemma_filter_from(all, keep, p);
    let k = choose|k: int| 0 <= k < all.len() && all[k] == passed[p];
    assert(records[candidates[k].id] == candidates[k]);
    assert(may_measure(store.metric(), candidates[k].vector, vector, scores[k]));
}

/// Whether a distance gives two vectors the same score each time.
pub open spec fn measures_once<D: Fn(&[u32], &[u32]) -> i64>(distance: D) -> bool {
    forall|a: Seq<u32>, b: Seq<u32>, s: i64, t: i64| #[trigger]
        may_measure(distance, a, b, s) && #[trigger] may_measure(distance, a, b, t) ==> s == t
}

/// Whether the same search of a store has the same outcome each time.
pub open spec fn finds_once<V: VectorStore>(store: V) -> bool {
    &&& forall|
        vector: Seq<u32>,
        top_k: nat,
        filters: Map<Seq<char>, Seq<char>>,
        threshold: Option<i64>,
        a: Result<Seq<ResultModel>, VectorStoreError>,
        b: Result<Seq<ResultModel>, VectorStoreError>,
    | #[trigger]
        store.may_find(vector, top_k, filters, threshold, a) && #[trigger] store.may_find(
            vector,
            top_k,
            filters,
            threshold,
            b,
        ) ==> a == b
    &&& forall|
        query: Seq<char>,
        top_k: nat,
        filters: Map<Seq<char>, Seq<char>>,
        a: Result<Option<Seq<ResultModel>>, VectorStoreError>,
        b: Result<Option<Seq<ResultModel>>, VectorStoreError>,
    | #[trigger]
        store.may_match(query, top_k, filters, a) && #[trigger] store.may_match(
            query,
            top_k,
            filters,
            b,
        ) ==> a == b
}

/// The same search in memory has the same outcome each time, if the distance
/// gives the same scores.
pub proof fn law_finding_in_memory_settles<D: Fn(&[u32], &[u32]) -> i64>(
    store: InMemoryVectorStore<D>,
)
    requires
        measures_once(store.metric()),
    ensures
        finds_once(store),
{
    assert forall|
        vector: Seq<u32>,
        top_k: nat,
        filters: Map<Seq<char>, Seq<char>>,
        threshold: Option<i64>,
        a: Result<Seq<ResultModel>, VectorStoreError>,
        b: Result<Seq<ResultModel>, VectorStoreError>,
    | #[trigger]
        store.may_find(vector, top_k, filters, threshold, a) && #[trigger] store.may_find(
            vector,
            top_k,
            filters,
            threshold,
            b,
        ) implies a == b by {
        let candidates = having(store.listed(), filters);
        let one = choose|scores: Seq<i64>| #[trigger]
            may_score(store.metric(), candidates, vector, scores) && a->Ok_0 == closest(
                scored(candidates, scores),
                top_k,
                threshold,
            );
        let other = choose|scores: Seq<i64>| #[trigger]
            may_score(store.metric(), candidates, vector, scores) && b->Ok_0 == closest(
                scored(candidates, scores),
                top_k,
                threshold,
            );
        assert forall|i: int| 0 <= i < one.len() implies one[i] == other[i] by {
            assert(may_measure(store.metric(), candidates[i].vector, vector, one[i]));
            assert(may_measure(store.metric(), candidates[i].vector, vector, other[i]));
        }
        assert(one =~= other);
    }
}

} // verus!
