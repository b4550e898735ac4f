//! The store in a SQLite database.

use crate::payload;
use crate::payload::Payload;
use crate::rank;
use crate::text;
use crate::text::CharClass;
use crate::vector_store;
use crate::vector_store::{
    RecordModel, ResultModel, SearchResult, VectorRecord, VectorStoreError,
};
use crate::wire;
use vstd::prelude::*;

verus! {

/// A term of a query in quotes, with each quote in it doubled.
pub open spec fn quoted(term: Seq<char>) -> Seq<char> {
    "\""@ + text::replaced(term, '"', "\"\""@) + "\""@
}

/// Some terms in quotes.
pub open spec fn quoted_terms(terms: Seq<Seq<char>>) -> Seq<Seq<char>> {
    terms.map_values(|term: Seq<char>| quoted(term))
}

/// The expression that matches any word of a query.
pub open spec fn match_expression(query: Seq<char>) -> Seq<char> {
    text::joined(quoted_terms(text::runs(query, CharClass::Space)), " OR "@)
}

/// The expression that matches any word of a query. Each word is in quotes, so
/// nothing in it is read as a part of the expression.
pub fn fts_match_expression(query: &str) -> (r: String)
    ensures
        r@ == match_expression(query@),
{
    let terms = text::split_runs(query, CharClass::Space);
    let ghost all = text::texts(terms@);
    let ghost wanted = quoted_terms(all);
    let mut pieces: Vec<String> = Vec::new();
    let mut i: usize = 0;
    while i < terms.len()
        invariant
            i <= terms.len(),
            all == text::texts(terms@),
            wanted == quoted_terms(all),
            text::texts(pieces@) == wanted.take(i as int),
        decreases terms.len() - i,
    {
        let ghost before = text::texts(pieces@);
        let inner = text::replace(terms[i].as_str(), '"', "\"\"");
        pieces.push(text::concat3("\"", inner.as_str(), "\""));
        proof {
            assert(text::texts(pieces@) =~= before.push(wanted[i as int]));
            assert(wanted.take(i + 1) =~= before.push(wanted[i as int]));
        }
        i = i + 1;
    }
    proof {
        assert(wanted.take(i as int) =~= wanted);
    }
    text::join(&pieces, " OR ")
}

proof fn lemma_doubled_differ(a: Seq<char>, b: Seq<char>)
    requires
        text::replaced(a, '"', "\"\""@) == text::replaced(b, '"', "\"\""@),
    ensures
        a == b,
    decreases a.len(),
{
    reveal_strlit("\"\"");
    let one = text::replaced(a, '"', "\"\""@);
    let other = text::replaced(b, '"', "\"\""@);
    if a.len() == 0 || b.len() == 0 {
        if a.len() > 0 {
            assert(one.len() > 0);
        }
        if b.len() > 0 {
            assert(other.len() > 0);
        }
        assert(a =~= b);
    } else {
        let x = text::replaced(a.drop_last(), '"', "\"\""@);
        let y = text::replaced(b.drop_last(), '"', "\"\""@);
        assert(one.last() == a.last());
        assert(other.last() == b.last());
        if a.last() == '"' {
            assert(x =~= one.take(one.len() - 2));
            assert(y =~= other.take(other.len() - 2));
        } else {
            assert(x =~= one.drop_last());
            assert(y =~= other.drop_last());
        }
        lemma_doubled_differ(a.drop_last(), b.drop_last());
        assert(a =~= a.drop_last().push(a.last()));
        assert(b =~= b.drop_last().push(b.last()));
    }
}

/// Different words are different terms: quoting loses nothing.
pub proof fn law_quoted_terms_differ(a: Seq<char>, b: Seq<char>)
    requires
        quoted(a) == quoted(b),
    ensures
        a == b,
{
    reveal_strlit("\"");
    let x = text::replaced(a, '"', "\"\""@);
    let y = text::replaced(b, '"', "\"\""@);
    assert(x =~= quoted(a).subrange(1, quoted(a).len() - 1));
    assert(y =~= quoted(b).subrange(1, quoted(b).len() - 1));
    lemma_doubled_differ(a, b);
}

/// What a record has in the index of words: its content, if it has any.
pub open spec fn indexed(payload: Map<Seq<char>, Seq<char>>) -> Seq<char> {
    if payload.contains_key("content"@) {
        payload["content"@]
    } else {
        Seq::empty()
    }
}

/// What a record has in the index of words. A record with nothing there is taken
/// out of the index.
pub fn indexed_content(payload: &Payload) -> (r: Option<&String>)
    ensures
        match r {
            Some(content) => content@ == indexed(payload@) && content@.len() > 0,
            None => indexed(payload@).len() == 0,
        },
{
    match payload.get("content") {
        Some(content) => {
            if content.as_str().is_empty() {
                None
            } else {
                Some(content)
            }
        },
        None => None,
    }
}

/// Refuses a vector that has another length than one that is there.
pub fn check_insert(existing: Option<usize>, actual: usize) -> (r: Result<
    (),
    VectorStoreError,
>)
    ensures
        match existing {
            Some(expected) => r == if expected == actual {
                Ok::<(), VectorStoreError>(())
            } else {
                Err(VectorStoreError::DimensionMismatch { expected, actual })
            },
            None => r is Ok,
        },
{
    match existing {
        Some(expected) => super::check_dimension(expected, actual),
        None => Ok(()),
    }
}

/// The payload of a record as it is kept: a text from which it is read back.
pub fn encode_payload(payload: &Payload) -> (r: Result<String, VectorStoreError>)
    ensures
        r matches Ok(json) && wire::payload_said(json@) == Ok::<
            Map<Seq<char>, Seq<char>>,
            Seq<char>,
        >(payload@),
{
    match wire::payload_text(payload) {
        Ok(json) => Ok(json),
        Err(message) => Err(VectorStoreError::Backend(message)),
    }
}

/// The payload of a record, as it is kept. A text that says none is reported.
pub fn decode_payload(json: &str) -> (r: Result<Payload, VectorStoreError>)
    ensures
        match wire::payload_said(json@) {
            Ok(payload) => r matches Ok(read) && read@ == payload,
            Err(message) => r matches Err(VectorStoreError::Backend(reason)) && reason@ == message,
        },
{
    match wire::payload_of_text(json) {
        Ok(payload) => Ok(payload),
        Err(message) => Err(VectorStoreError::Backend(message)),
    }
}

/// The record that a row stands for: its id, what its vector reads as, and its
/// payload as it is kept. The vector is reported before the payload.
pub fn decode_record(id: String, vector: Result<Vec<u32>, String>, payload_json: &str) -> (r: Result<
    VectorRecord,
    VectorStoreError,
>)
    ensures
        match vector {
            Err(message) => r == Err::<VectorRecord, VectorStoreError>(
                VectorStoreError::Backend(message),
            ),
            Ok(vector) => match wire::payload_said(payload_json@) {
                Ok(payload) => r matches Ok(record) && record@ == (RecordModel {
                    id: id@,
                    vector: vector@,
                    payload,
                }),
                Err(message) => r matches Err(VectorStoreError::Backend(reason)) && reason@
                    == message,
            },
        },
{
    let vector = match vector {
        Ok(vector) => vector,
        Err(message) => {
            return Err(VectorStoreError::Backend(message));
        },
    };
    match decode_payload(payload_json) {
        Ok(payload) => Ok(VectorRecord { id, vector, payload }),
        Err(err) => Err(err),
    }
}

/// A match of a search by keywords: its id, its score, and the payload of its
/// record, if the record is there.
#[verifier::ext_equal]
pub struct MatchModel {
    pub id: Seq<char>,
    pub score: i64,
    pub payload: Option<Map<Seq<char>, Seq<char>>>,
}

/// Whether a match is a record that has the filters' entries.
pub open spec fn counts(row: MatchModel, filters: Map<Seq<char>, Seq<char>>) -> bool {
    row.payload matches Some(payload) && payload::covers(payload, filters)
}

/// The results of some matches.
pub open spec fn results_of(
    rows: Seq<MatchModel>,
    filters: Map<Seq<char>, Seq<char>>,
) -> Seq<ResultModel>
    decreases rows.len(),
{
    if rows.len() == 0 {
        Seq::empty()
    } else {
        let before = results_of(rows.drop_last(), filters);
        let row = rows.last();
        if counts(row, filters) {
            before.push(
                ResultModel {
                    id: row.id,
                    score: row.score,
                    payload: row.payload->0,
                    score_details: None,
                },
            )
        } else {
            before
        }
    }
}

/// A payload that may be there, as a value.
pub open spec fn payload_model(payload: Option<Payload>) -> Option<Map<Seq<char>, Seq<char>>> {
    match payload {
        Some(payload) => Some(payload@),
        None => None,
    }
}

/// The matches of a search by keywords, taken one after the other.
pub struct Matches {
    filters: Payload,
    top_k: usize,
    results: Vec<SearchResult>,
    taken: Ghost<Seq<MatchModel>>,
}

impl Matches {
    /// The matches that were taken.
    pub closed spec fn taken(&self) -> Seq<MatchModel> {
        self.taken@
    }

    /// The filters' entries.
    pub closed spec fn filters(&self) -> Map<Seq<char>, Seq<char>> {
        self.filters@
    }

    /// How many results are wanted.
    pub closed spec fn top_k(&self) -> usize {
        self.top_k
    }

    #[verifier::type_invariant]
    spec fn well_formed(&self) -> bool {
        rank::views(self.results@) == vector_store::first(
            results_of(self.taken@, self.filters@),
            self.top_k as nat,
        )
    }

    /// No matches yet.
    pub fn new(filters: &Payload, top_k: usize) -> (r: Self)
        ensures
            r.taken() == Seq::<MatchModel>::empty(),
            r.filters() == filters@,
            r.top_k() == top_k,
    {
        let results: Vec<SearchResult> = Vec::new();
        proof {
            assert(rank::views(results@) =~= vector_store::first(Seq::empty(), top_k as nat));
        }
        Matches { filters: filters.clone(), top_k, results, taken: Ghost(Seq::empty()) }
    }

    /// Takes a match, and says whether to go on: the search ends when there are
    /// as many results as are wanted.
    pub fn offer(self, id: &str, score: i64, payload: Option<Payload>) -> (r: (Self, bool))
        ensures
            ({
                let row = MatchModel { id: id@, score, payload: payload_model(payload) };
                &&& r.0.taken() == self.taken().push(row)
                &&& r.0.filters() == self.filters()
                &&& r.0.top_k() == self.top_k()
                &&& r.1 == (results_of(r.0.taken(), self.filters()).len() < self.top_k())
            }),
    {
        proof {
            use_type_invariant(&self);
        }
        let ghost row = MatchModel { id: id@, score, payload: payload_model(payload) };
        let ghost more = self.taken@.push(row);
        proof {
            assert(more.drop_last() =~= self.taken@);
        }
        let Matches { filters, top_k, results, taken: _ } = self;
        let mut results = results;
        match payload {
            Some(payload) => {
                if payload.matches(&filters) && results.len() < top_k {
                    let ghost held = rank::views(results@);
                    results.push(
                        SearchResult { id: id.to_owned(), score, payload, score_details: None },
                    );
                    proof {
                        assert(rank::views(results@) =~= held.push(results@.last()@));
                    }
                }
            },
            None => {},
        }
        proof {
            assert(rank::views(results@) =~= vector_store::first(
                results_of(more, filters@),
                top_k as nat,
            ));
        }
        let go_on = results.len() < top_k;
        (Matches { filters, top_k, results, taken: Ghost(more) }, go_on)
    }

    /// The results of the matches that were taken, as many as are wanted.
    pub fn finish(self) -> (r: Vec<SearchResult>)
        ensures
            rank::views(r@) == vector_store::first(
                results_of(self.taken(), self.filters()),
                self.top_k() as nat,
            ),
            r@.len() <= self.top_k(),
    {
        proof {
            use_type_invariant(&self);
            assert(rank::views(self.results@).len() == self.results@.len());
        }
        self.results
    }
}

} // verus!
