//! The two queries against an open history store. Each fetches the raw
//! rows of the tables it needs through a narrow trusted layer and hands
//! them to the verified pipelines; what the queries return is therefore
//! pinned down by the pipeline contracts, whatever the store holds.

use vstd::prelude::*;

use crate::rows::{SearchTermRow, UrlRow, VisitRow};
use crate::search::SearchRecord;
use crate::search::build_search_records;
use crate::search::lemma_search_records_sorted;
use crate::search::search_views;
use crate::search::spec_search_records;
use crate::search::times_sorted_desc;
use crate::visits::VisitRecord;
use crate::visits::build_visit_records;
use crate::visits::durations_sorted_desc;
use crate::visits::lemma_visit_records_sorted;
use crate::visits::spec_visit_records;
use crate::visits::visit_views;

verus! {

#[verifier::external_type_specification]
#[verifier::external_body]
pub struct ExConnection(rusqlite::Connection);

#[verifier::external_type_specification]
#[verifier::external_body]
pub struct ExRusqliteError(rusqlite::Error);

/// A query that could not be prepared or executed: a missing table, a
/// malformed store, a connection-level error.
#[derive(Debug)]
pub struct QueryError {
    /// A readable description of what the store reported.
    pub message: String,
}

/// Relies on rusqlite's `Connection::prepare`, `Statement::query_map` and
/// `Row::get`: one SELECT over the `urls` table, each row converted to
/// plain optional values, `None` where a column is NULL or of another
/// type; `Err` when the query cannot be prepared or executed.
#[verifier::external_body]
fn fetch_url_rows(conn: &rusqlite::Connection) -> Result<Vec<UrlRow>, rusqlite::Error> {
    let mut stmt = conn.prepare("SELECT id, url, visit_count, last_visit_time FROM urls")?;
    let rows = stmt.query_map([], |row| {
        Ok(UrlRow {
            id: row.get(0).ok(),
            url: row.get(1).ok(),
            visit_count: row.get(2).ok(),
            last_visit_time: row.get(3).ok(),
        })
    })?;
    rows.collect()
}

/// Relies on rusqlite's `Connection::prepare`, `Statement::query_map` and
/// `Row::get`, as `fetch_url_rows` does, for the `keyword_search_terms`
/// table.
#[verifier::external_body]
fn fetch_search_term_rows(conn: &rusqlite::Connection) -> Result<
    Vec<SearchTermRow>,
    rusqlite::Error,
> {
    let mut stmt = conn.prepare("SELECT url_id, normalized_term FROM keyword_search_terms")?;
    let rows = stmt.query_map([], |row| {
        Ok(SearchTermRow { url_id: row.get(0).ok(), normalized_term: row.get(1).ok() })
    })?;
    rows.collect()
}

/// Relies on rusqlite's `Connection::prepare`, `Statement::query_map` and
/// `Row::get`, as `fetch_url_rows` does, for the `visits` table, whose
/// `url` column holds the id of the visited URL entry.
#[verifier::external_body]
fn fetch_visit_rows(conn: &rusqlite::Connection) -> Result<Vec<VisitRow>, rusqlite::Error> {
    let mut stmt = conn.prepare("SELECT url, visit_time, visit_duration FROM visits")?;
    let rows = stmt.query_map([], |row| {
        Ok(VisitRow {
            url_id: row.get(0).ok(),
            visit_time: row.get(1).ok(),
            visit_duration: row.get(2).ok(),
        })
    })?;
    rows.collect()
}

/// Relies on rusqlite's `Error` `Display` implementation: a readable
/// description of the failure.
#[verifier::external_body]
fn describe_sql_error(e: &rusqlite::Error) -> String {
    format!("{e}")
}

fn sql_query_error(e: rusqlite::Error) -> QueryError {
    QueryError { message: describe_sql_error(&e) }
}

/// Run the search-term query against an open store: aggregate the
/// `keyword_search_terms` and `urls` tables as `spec_search_records`
/// says. A failure to read either table is reported as one error;
/// whatever the tables held, the records come aggregated and ordered by
/// last-visit time, most recent first.
pub fn get_search_records(conn: rusqlite::Connection) -> (r: Result<Vec<SearchRecord>, QueryError>)
    ensures
        r is Ok ==> exists|terms: Seq<SearchTermRow>, urls: Seq<UrlRow>|
            search_views(r.unwrap()@) == spec_search_records(terms, urls),
        r is Ok ==> times_sorted_desc(search_views(r.unwrap()@)),
        r is Ok ==> forall|k: int|
            0 <= k < r.unwrap()@.len() ==> (#[trigger] r.unwrap()@[k]).last_visit_time.is_valid(),
{
    let terms = match fetch_search_term_rows(&conn) {
        Ok(v) => v,
        Err(e) => {
            return Err(sql_query_error(e));
        },
    };
    let urls = match fetch_url_rows(&conn) {
        Ok(v) => v,
        Err(e) => {
            return Err(sql_query_error(e));
        },
    };
    let recs = build_search_records(&terms, &urls);
    proof {
        lemma_search_records_sorted(terms@, urls@);
        assert(search_views(recs@) == spec_search_records(terms@, urls@));
    }
    Ok(recs)
}

/// Run the page-visit query against an open store: join the `visits` and
/// `urls` tables as `spec_visit_records` says. A failure to read either
/// table is reported as one error; whatever the tables held, the records
/// come ordered by visit duration, longest first.
pub fn get_visit_records(conn: rusqlite::Connection) -> (r: Result<Vec<VisitRecord>, QueryError>)
    ensures
        r is Ok ==> exists|visits: Seq<VisitRow>, urls: Seq<UrlRow>|
            visit_views(r.unwrap()@) == spec_visit_records(visits, urls),
        r is Ok ==> durations_sorted_desc(visit_views(r.unwrap()@)),
        r is Ok ==> forall|k: int|
            0 <= k < r.unwrap()@.len() ==> (#[trigger] r.unwrap()@[k]).visit_time.is_valid(),
{
    let visits = match fetch_visit_rows(&conn) {
        Ok(v) => v,
        Err(e) => {
            return Err(sql_query_error(e));
        },
    };
    let urls = match fetch_url_rows(&conn) {
        Ok(v) => v,
        Err(e) => {
            return Err(sql_query_error(e));
        },
    };
    let recs = build_visit_records(&visits, &urls);
    proof {
        lemma_visit_records_sorted(visits@, urls@);
        assert(visit_views(recs@) == spec_visit_records(visits@, urls@));
    }
    Ok(recs)
}

} // verus!
