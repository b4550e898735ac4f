//! The store in a PostgreSQL database.

use crate::json;
use crate::payload::Payload;
use crate::text;
use crate::vector_store::VectorStoreError;
use crate::wire;
use vstd::prelude::*;

verus! {

/// Whether a character may stand in the name of a table.
pub open spec fn is_name_char(c: char) -> bool {
    'a' <= c <= 'z' || 'A' <= c <= 'Z' || '0' <= c <= '9' || c == '_'
}

/// Whether a text may be the name of a table: letters, digits and underscores,
/// at least one. Such a name needs no quotes in a statement.
pub open spec fn is_table_name(table: Seq<char>) -> bool {
    table.len() > 0 && forall|i: int| 0 <= i < table.len() ==> is_name_char(#[trigger] table[i])
}

/// Refuses what may not be the name of a table.
pub fn check_table_name(table: &str) -> (r: Result<(), VectorStoreError>)
    ensures
        is_table_name(table@) ==> r is Ok,
        !is_table_name(table@) ==> (r matches Err(VectorStoreError::Backend(reason)) && reason@
            == "invalid table name: "@ + table@),
{
    let cs = text::chars_of(table);
    let mut i: usize = 0;
    while i < cs.len()
        invariant
            i <= cs.len(),
            cs@ == table@,
            forall|j: int| 0 <= j < i ==> is_name_char(#[trigger] table@[j]),
        decreases cs.len() - i,
    {
        let c = cs[i];
        if !('a' <= c && c <= 'z' || 'A' <= c && c <= 'Z' || '0' <= c && c <= '9' || c == '_') {
            proof {
                assert(!is_name_char(table@[i as int]));
            }
            return Err(VectorStoreError::Backend(text::concat("invalid table name: ", table)));
        }
        i = i + 1;
    }
    if cs.len() == 0 {
        return Err(VectorStoreError::Backend(text::concat("invalid table name: ", table)));
    }
    Ok(())
}

/// The statement that makes vectors known to the database.
pub const CREATE_EXTENSION: &'static str = "CREATE EXTENSION IF NOT EXISTS vector";

/// The statements that make a table for vectors of a length, its index of
/// words, and its indexes of vectors and payloads.
pub open spec fn setup_statements(table: Seq<char>, dimension: nat) -> Seq<Seq<char>> {
    seq![
        CREATE_EXTENSION@,
        "CREATE TABLE IF NOT EXISTS "@ + table + " (id TEXT PRIMARY KEY, vector VECTOR("@
            + text::decimal(dimension) + ") NOT NULL, payload JSONB NOT NULL)"@,
        "ALTER TABLE "@ + table
            + " ADD COLUMN IF NOT EXISTS content_tsv TSVECTOR GENERATED ALWAYS AS (to_tsvector('english', payload ->> 'content')) STORED"@,
        "CREATE INDEX IF NOT EXISTS "@ + table + "_content_tsv_idx ON "@ + table
            + " USING GIN (content_tsv)"@,
        "CREATE INDEX IF NOT EXISTS "@ + table + "_vector_hnsw_idx ON "@ + table
            + " USING hnsw (vector vector_l2_ops)"@,
        "CREATE INDEX IF NOT EXISTS "@ + table + "_payload_idx ON "@ + table
            + " USING GIN (payload jsonb_path_ops)"@,
    ]
}

fn index_statement(table: &str, name: &str, index: &str) -> (r: String)
    ensures
        r@ == "CREATE INDEX IF NOT EXISTS "@ + table@ + name@ + table@ + index@,
{
    let mut r = text::concat3("CREATE INDEX IF NOT EXISTS ", table, name);
    r.append(table);
    r.append(index);
    r
}

/// The statements that make a table, in the order in which they are run.
pub fn write_setup_statements(table: &str, dimension: usize) -> (r: Vec<String>)
    ensures
        text::texts(r@) == setup_statements(table@, dimension as nat),
{
    let mut r: Vec<String> = Vec::new();
    r.push(CREATE_EXTENSION.to_owned());
    let mut create = text::concat3(
        "CREATE TABLE IF NOT EXISTS ",
        table,
        " (id TEXT PRIMARY KEY, vector VECTOR(",
    );
    create.append(text::to_decimal(dimension as u128).as_str());
    create.append(") NOT NULL, payload JSONB NOT NULL)");
    r.push(create);
    r.push(
        text::concat3(
            "ALTER TABLE ",
            table,
            " ADD COLUMN IF NOT EXISTS content_tsv TSVECTOR GENERATED ALWAYS AS (to_tsvector('english', payload ->> 'content')) STORED",
        ),
    );
    r.push(index_statement(table, "_content_tsv_idx ON ", " USING GIN (content_tsv)"));
    r.push(index_statement(table, "_vector_hnsw_idx ON ", " USING hnsw (vector vector_l2_ops)"));
    r.push(index_statement(table, "_payload_idx ON ", " USING GIN (payload jsonb_path_ops)"));
    proof {
        assert(text::texts(r@) =~= setup_statements(table@, dimension as nat));
    }
    r
}

/// Whether a failure of such a statement does no harm: what it makes is there
/// already, made at the same time by another program.
pub open spec fn is_harmless(code: Seq<char>) -> bool {
    code == "23505"@ || code == "42P07"@ || code == "42701"@
}

/// Whether a failure of a statement that makes something does no harm, by its
/// code: a unique violation, a duplicate table, or a duplicate column.
pub fn tolerates(code: Option<&str>) -> (r: bool)
    ensures
        r == (code matches Some(code) && is_harmless(code@)),
{
    match code {
        Some(code) => text::same(code, "23505") || text::same(code, "42P07") || text::same(
            code,
            "42701",
        ),
        None => false,
    }
}

/// The object that a payload is in the database, or that some filters are in a
/// search.
pub fn filters_to_jsonb(filters: &Payload) -> (r: serde_json::Value)
    ensures
        json::says(json::json_of(r), wire::entries_say(filters.entries())),
        wire::payload_in(json::json_of(r)) == Some(filters@),
{
    wire::payload_value(filters)
}

/// The payload that a value of the database is. A value that is none is
/// reported.
pub fn decode_payload(value: serde_json::Value) -> (r: Result<Payload, VectorStoreError>)
    ensures
        match r {
            Ok(payload) => wire::payload_in(json::json_of(value)) == Some(payload@),
            Err(err) => {
                &&& wire::payload_in(json::json_of(value)) is None
                &&& err matches VectorStoreError::Backend(reason)
                &&& reason@ == wire::no_payload(json::json_of(value))
            },
        },
{
    match wire::payload_of_value(value) {
        Ok(payload) => Ok(payload),
        Err(message) => Err(VectorStoreError::Backend(message)),
    }
}

/// What is done with the records of a table.
#[derive(Clone, Copy, Debug, PartialEq, Eq, Structural)]
pub enum Statement {
    Insert,
    Search,
    SearchWithin,
    Get,
    Update,
    Delete,
    List,
    Reset,
    KeywordSearch,
}

impl Statement {
    /// What stands before the name of the table.
    pub open spec fn start(self) -> Seq<char> {
        match self {
            Statement::Insert => "INSERT INTO "@,
            Statement::Search | Statement::SearchWithin => {
                "SELECT id, vector <-> $1 AS distance, payload FROM "@
            },
            Statement::Get => "SELECT vector, payload FROM "@,
            Statement::Update => "UPDATE "@,
            Statement::Delete | Statement::Reset => "DELETE FROM "@,
            Statement::List => "SELECT id FROM "@,
            Statement::KeywordSearch => {
                "SELECT id, -ts_rank_cd(content_tsv, plainto_tsquery('english', $1)) AS score, payload FROM "@
            },
        }
    }

    /// What stands after the name of the table.
    pub open spec fn end(self) -> Seq<char> {
        match self {
            Statement::Insert => {
                " (id, vector, payload) VALUES ($1, $2, $3) ON CONFLICT (id) DO UPDATE SET vector = excluded.vector, payload = excluded.payload"@
            },
            Statement::Search => " WHERE payload @> $2::jsonb ORDER BY distance LIMIT $3"@,
            Statement::SearchWithin => {
                " WHERE payload @> $2::jsonb AND vector <-> $1 <= $3 ORDER BY distance LIMIT $4"@
            },
            Statement::Get | Statement::Delete => " WHERE id = $1"@,
            Statement::Update => " SET vector = $2, payload = $3 WHERE id = $1"@,
            Statement::List => " ORDER BY id LIMIT $1 OFFSET $2"@,
            Statement::Reset => ""@,
            Statement::KeywordSearch => {
                " WHERE content_tsv @@ plainto_tsquery('english', $1) AND payload @> $2::jsonb ORDER BY score LIMIT $3"@
            },
        }
    }

    /// The statement for a table.
    pub fn for_table(self, table: &str) -> (r: String)
        ensures
            r@ == self.start() + table@ + self.end(),
    {
        let start = match self {
            Statement::Insert => "INSERT INTO ",
            Statement::Search | Statement::SearchWithin => {
                "SELECT id, vector <-> $1 AS distance, payload FROM "
            },
            Statement::Get => "SELECT vector, payload FROM ",
            Statement::Update => "UPDATE ",
            Statement::Delete | Statement::Reset => "DELETE FROM ",
            Statement::List => "SELECT id FROM ",
            Statement::KeywordSearch => {
                "SELECT id, -ts_rank_cd(content_tsv, plainto_tsquery('english', $1)) AS score, payload FROM "
            },
        };
        let end = match self {
            Statement::Insert => {
                " (id, vector, payload) VALUES ($1, $2, $3) ON CONFLICT (id) DO UPDATE SET vector = excluded.vector, payload = excluded.payload"
            },
            Statement::Search => " WHERE payload @> $2::jsonb ORDER BY distance LIMIT $3",
            Statement::SearchWithin => {
                " WHERE payload @> $2::jsonb AND vector <-> $1 <= $3 ORDER BY distance LIMIT $4"
            },
            Statement::Get | Statement::Delete => " WHERE id = $1",
            Statement::Update => " SET vector = $2, payload = $3 WHERE id = $1",
            Statement::List => " ORDER BY id LIMIT $1 OFFSET $2",
            Statement::Reset => "",
            Statement::KeywordSearch => {
                " WHERE content_tsv @@ plainto_tsquery('english', $1) AND payload @> $2::jsonb ORDER BY score LIMIT $3"
            },
        };
        text::concat3(start, table, end)
    }
}

} // verus!
